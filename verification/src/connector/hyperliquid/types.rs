//! The messages that Hyperliquid takes and gives. Numbers stay in the decimal
//! numerals in which they come; JSON of any shape stays in its text.
use vstd::prelude::*;
use vstd::string::*;

verus! {

/// WebSocket subscription message
#[derive(Debug)]
pub struct SubscriptionMessage {
    pub method: String,
    pub subscription: SubscriptionParams,
}

#[derive(Debug)]
pub struct SubscriptionParams {
    pub type_: String,
    pub coin: String,
}

/// L2 Book request (POST over WebSocket)
#[derive(Debug)]
pub struct L2BookRequest {
    pub method: String,
    pub id: u64,
    pub request: L2BookRequestInner,
}

#[derive(Debug)]
pub struct L2BookRequestInner {
    pub type_: String,
    pub payload: L2BookPayload,
}

#[derive(Debug)]
pub struct L2BookPayload {
    pub type_: String,
    pub coin: String,
    pub n_sig_figs: Option<u32>,
    pub mantissa: Option<u32>,
}

/// WebSocket response wrapper
#[derive(Debug)]
pub struct WebSocketResponse {
    pub channel: String,
    pub data: Option<String>,
}

/// Generic WebSocket POST request wrapper (info or action)
#[derive(Debug)]
pub struct WsPostRequest<T> {
    pub method: String,
    pub id: u64,
    pub request: WsPostRequestInner<T>,
}

#[derive(Debug)]
pub struct WsPostRequestInner<T> {
    pub type_: String,
    pub payload: T,
}

/// Generic WebSocket POST response (for info/action/error)
#[derive(Debug)]
pub struct WsPostResponse {
    pub channel: String,
    pub data: WsPostResponseData,
}

#[derive(Debug)]
pub struct WsPostResponseData {
    pub id: u64,
    pub response: WsPostResponseInner,
}

#[derive(Debug)]
pub struct WsPostResponseInner {
    pub type_: String,
    pub payload: String,
}

/// L2 Book response
#[derive(Debug)]
pub struct L2BookResponse {
    pub channel: String,
    pub data: L2BookResponseData,
}

#[derive(Debug)]
pub struct L2BookResponseData {
    pub id: u64,
    pub response: L2BookResponseInner,
}

#[derive(Debug)]
pub struct L2BookResponseInner {
    pub type_: String,
    pub payload: L2BookResponsePayload,
}

#[derive(Debug)]
pub struct L2BookResponsePayload {
    pub type_: String,
    pub data: L2BookData,
}

/// L2 orderbook data
#[derive(Debug, Clone)]
pub struct L2BookData {
    pub coin: String,
    pub time: u64,
    /// [bids, asks]
    pub levels: Vec<Vec<BookLevel>>,
}

/// Subscription response for l2Book
#[derive(Debug)]
pub struct L2BookSubscriptionResponse {
    pub channel: String,
    pub data: L2BookData,
}

/// Book level with price, size, and number of orders
#[derive(Debug, Clone)]
pub struct BookLevel {
    /// Price
    pub px: String,
    /// Size
    pub sz: String,
    /// Number of orders
    pub n: u32,
}

/// Top of book (best bid and ask)
#[derive(Debug, Clone)]
pub struct TopOfBook {
    pub best_bid: String,
    pub best_ask: String,
    pub coin: String,
    pub timestamp: u64,
}

/// Time in force for orders
#[derive(Debug, Clone, Copy, PartialEq, Eq, Structural)]
pub enum TimeInForce {
    /// Good till cancel
    Gtc,
    /// Immediate or cancel (for market orders)
    Ioc,
    /// Add liquidity only (post-only)
    Alo,
}

/// Order type configuration
#[derive(Debug, Clone, Copy, PartialEq, Eq, Structural)]
pub struct OrderType {
    pub limit: LimitOrderType,
}

#[derive(Debug, Clone, Copy, PartialEq, Eq, Structural)]
pub struct LimitOrderType {
    pub tif: TimeInForce,
}

/// Order for placement
#[derive(Debug, Clone)]
pub struct Order {
    /// Asset ID
    pub a: u32,
    /// Is buy
    pub b: bool,
    /// Limit price
    pub p: String,
    /// Size
    pub s: String,
    /// Reduce only
    pub r: bool,
    /// Order type
    pub t: OrderType,
    /// Client order ID
    pub c: Option<String>,
}

/// Action to be signed
#[derive(Debug, Clone)]
pub struct Action {
    pub type_: String,
    pub orders: Vec<Order>,
    pub grouping: String,
}

/// EIP-712 signature
#[derive(Debug, Clone)]
pub struct Signature {
    pub r: String,
    pub s: String,
    pub v: u32,
}

/// Signed order request payload
#[allow(non_snake_case)]
#[derive(Debug, Clone)]
pub struct OrderRequest {
    pub action: Action,
    pub nonce: u64,
    pub signature: Signature,
    pub vaultAddress: Option<String>,
    pub dex: Option<String>,
}

/// Asset metadata from meta endpoint
#[derive(Debug, Clone)]
pub struct AssetMeta {
    pub name: String,
    pub sz_decimals: i32,
    pub max_leverage: Option<u32>,
    pub margin_table_id: Option<u32>,
    pub is_delisted: Option<bool>,
}

/// Meta response
#[derive(Debug, Clone)]
pub struct MetaResponse {
    pub universe: Vec<AssetMeta>,
}

/// Order placement response
#[derive(Debug, Clone)]
pub struct OrderResponse {
    pub status: String,
    pub response: OrderResponseContent,
}

/// Response content can be either success (object) or error (string)
#[derive(Debug, Clone)]
pub enum OrderResponseContent {
    Success(OrderResponseData),
    Error(String),
}

#[derive(Debug, Clone)]
pub struct OrderResponseData {
    pub type_: Option<String>,
    pub data: OrderStatusData,
}

#[derive(Debug, Clone)]
pub struct OrderStatusData {
    pub statuses: Vec<OrderStatus>,
}

#[derive(Debug, Clone)]
pub enum OrderStatus {
    Resting { resting: RestingOrder },
    Filled { filled: FilledOrder },
    Error { error: String },
}

#[derive(Debug, Clone)]
pub struct RestingOrder {
    pub oid: u64,
}

#[allow(non_snake_case)]
#[derive(Debug, Clone)]
pub struct FilledOrder {
    pub totalSz: String,
    pub avgPx: String,
    pub oid: u64,
}

/// User fill item from userFills endpoint
#[derive(Debug, Clone)]
pub struct UserFill {
    /// Symbol (e.g., "AVAX" or "@107" for spot)
    pub coin: String,
    /// Fill price
    pub px: String,
    /// Fill size
    pub sz: String,
    /// "B" for buy, "A" for ask/sell
    pub side: String,
    /// Timestamp in milliseconds
    pub time: u64,
    /// Direction: "Open Long", "Sell", "Buy", etc.
    pub dir: String,
    /// Fee amount
    pub fee: String,
    /// Fee token (e.g., "USDC")
    pub fee_token: String,
    /// Order ID
    pub oid: u64,
    /// Trade ID
    pub tid: u64,
    /// Transaction hash
    pub hash: String,
    /// Whether order crossed the spread
    pub crossed: bool,
    /// Closed PnL
    pub closed_pnl: String,
    /// Position size before fill
    pub start_position: String,
    /// Optional builder fee
    pub builder_fee: Option<String>,
}

/// User state from clearinghouseState endpoint
#[derive(Debug, Clone)]
pub struct UserState {
    pub asset_positions: Vec<AssetPosition>,
    pub cross_margin_summary: CrossMarginSummary,
    pub margin_summary: MarginSummary,
    pub withdrawable: String,
    pub time: u64,
}

/// Asset position wrapper
#[derive(Debug, Clone)]
pub struct AssetPosition {
    /// "oneWay" for one-way mode
    pub type_: String,
    pub position: Position,
}

/// Position data for a specific asset
#[derive(Debug, Clone)]
pub struct Position {
    /// Symbol (e.g., "SOL", "BTC")
    pub coin: String,
    /// Signed size (positive = long, negative = short)
    pub szi: String,
    /// Entry price
    pub entry_px: Option<String>,
    /// Position value in USD
    pub position_value: String,
    /// Unrealized PnL
    pub unrealized_pnl: String,
    /// ROE
    pub return_on_equity: String,
    /// Liquidation price (if applicable)
    pub liquidation_px: Option<String>,
    /// Leverage configuration
    pub leverage: Leverage,
    /// Margin used for this position
    pub margin_used: String,
    /// Max leverage allowed for this asset
    pub max_leverage: u32,
    /// Cumulative funding
    pub cum_funding: CumFunding,
}

/// Cumulative funding data
#[derive(Debug, Clone)]
pub struct CumFunding {
    pub all_time: String,
    pub since_open: String,
    pub since_change: String,
}

/// Leverage configuration
#[derive(Debug, Clone)]
pub struct Leverage {
    /// "cross" or "isolated"
    pub type_: String,
    /// Leverage value (e.g., 1, 5, 20)
    pub value: u32,
    /// Raw USD value (for isolated positions)
    pub raw_usd: Option<String>,
}

/// Margin summary
#[derive(Debug, Clone)]
pub struct MarginSummary {
    /// Total account value
    pub account_value: String,
    /// Total notional position
    pub total_ntl_pos: String,
    /// Total raw USD
    pub total_raw_usd: String,
    /// Total margin used
    pub total_margin_used: String,
}

/// Cross margin summary
#[derive(Debug, Clone)]
pub struct CrossMarginSummary {
    /// Account value
    pub account_value: String,
    /// Total notional position
    pub total_ntl_pos: String,
    /// Total raw USD
    pub total_raw_usd: String,
    /// Total margin used
    pub total_margin_used: String,
}

impl L2BookData {
    /// Both sides of the book have a level.
    pub open spec fn two_sided(&self) -> bool {
        self.levels@.len() >= 2 && self.levels@[0]@.len() > 0 && self.levels@[1]@.len() > 0
    }

    /// The prices of the first level on each side, which are the best ones.
    pub fn get_top_of_book(&self) -> (r: Option<TopOfBook>)
        ensures
            r is Some <==> self.two_sided(),
            r matches Some(t) ==> {
                &&& t.best_bid@ == self.levels@[0]@[0].px@
                &&& t.best_ask@ == self.levels@[1]@[0].px@
                &&& t.coin@ == self.coin@
                &&& t.timestamp == self.time
            },
    {
        if self.levels.len() < 2 {
            return None;
        }
        let bids = &self.levels[0];
        let asks = &self.levels[1];
        if bids.len() == 0 || asks.len() == 0 {
            return None;
        }
        Some(
            TopOfBook {
                best_bid: bids[0].px.clone(),
                best_ask: asks[0].px.clone(),
                coin: self.coin.clone(),
                timestamp: self.time,
            },
        )
    }
}

} // verus!
