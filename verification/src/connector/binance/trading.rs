//! Requests to Binance futures, and what their answers mean.
use crate::connector::maker::{
    MakerOpenOrder, MakerOrderData, MakerOrderSide, MakerPosition, MakerSymbolInfo,
    MakerTradeHistoryItem,
};
use crate::connector::maker;
use crate::double;
use crate::double::arithmetic;
use crate::double::laws;
use crate::double::Double;
use crate::encoding;
use crate::text;
use vstd::arithmetic::power2::*;
use vstd::prelude::*;
use vstd::string::*;

verus! {

/// The key and the secret of an account.
#[derive(Debug)]
pub struct BinanceCredentials {
    pub api_key: String,
    pub api_secret: String,
}

impl Clone for BinanceCredentials {
    fn clone(&self) -> (r: BinanceCredentials)
        ensures
            r.api_key@ == self.api_key@,
            r.api_secret@ == self.api_secret@,
    {
        BinanceCredentials {
            api_key: self.api_key.clone(),
            api_secret: self.api_secret.clone(),
        }
    }
}

/// The hexadecimal HMAC-SHA256 of a query under a secret.
pub open spec fn signature(secret: Seq<char>, query: Seq<char>) -> Seq<char> {
    encoding::hex_of(
        encoding::hmac_sha256_of(
            vstd::utf8::encode_utf8(secret),
            vstd::utf8::encode_utf8(query),
        ),
    )
}

impl BinanceCredentials {
    /// The signature of a query.
    pub fn sign_query(&self, query: &str) -> (s: String)
        ensures
            s@ == signature(self.api_secret@, query@),
            s@.len() == 64,
    {
        let tag = encoding::hmac_sha256(self.api_secret.as_str().as_bytes(), query.as_bytes());
        let bytes = tag.unwrap();
        encoding::hex_encode(bytes.as_slice())
    }
}

/// Where requests go.
pub fn rest_url(is_testnet: bool) -> (s: &'static str)
    ensures
        s@ == if is_testnet {
            "https://testnet.binancefuture.com"@
        } else {
            "https://fapi.binance.com"@
        },
{
    if is_testnet {
        "https://testnet.binancefuture.com"
    } else {
        "https://fapi.binance.com"
    }
}

/// The symbol names the currency in which it is quoted.
pub open spec fn has_quote(upper: Seq<char>) -> bool {
    ||| text::ends_in(upper, "USDT"@)
    ||| text::ends_in(upper, "BUSD"@)
    ||| text::ends_in(upper, "USDC"@)
    ||| text::ends_in(upper, "FDUSD"@)
}

/// A symbol in upper case, quoted in USDT unless it says otherwise.
pub open spec fn with_quote(upper: Seq<char>) -> Seq<char> {
    if has_quote(upper) {
        upper
    } else {
        upper + "USDT"@
    }
}

/// A quoted symbol starts with the symbol and names a currency at its end: its own, if it
/// has one, and nothing is added to it, or else USDT.
pub proof fn law_quoted_symbol(upper: Seq<char>)
    ensures
        ({
            let q = with_quote(upper);
            &&& upper.is_prefix_of(q)
            &&& text::ends_in(q, "USDT"@) || text::ends_in(q, "BUSD"@) || text::ends_in(
                q,
                "USDC"@,
            ) || text::ends_in(q, "FDUSD"@)
            &&& q != upper ==> text::ends_in(q, "USDT"@) && q.len() == upper.len() + 4
            &&& text::ends_in(upper, "BUSD"@) || text::ends_in(upper, "USDC"@) || text::ends_in(
                upper,
                "FDUSD"@,
            ) || text::ends_in(upper, "USDT"@) ==> q == upper
        }),
{
    reveal_strlit("USDT");
    let q = with_quote(upper);
    if !has_quote(upper) {
        assert(q.subrange(q.len() - 4, q.len() as int) =~= "USDT"@);
        assert(text::ends_in(q, "USDT"@));
        assert(q.subrange(0, upper.len() as int) =~= upper);
    } else {
        assert(q.subrange(0, upper.len() as int) =~= upper);
    }
}

/// A symbol in upper case, quoted in USDT unless it says otherwise.
pub fn add_quote(upper: String) -> (s: String)
    ensures
        s@ == with_quote(upper@),
{
    if text::ends_with(upper.as_str(), "USDT") || text::ends_with(upper.as_str(), "BUSD")
        || text::ends_with(upper.as_str(), "USDC") || text::ends_with(upper.as_str(), "FDUSD") {
        upper
    } else {
        upper.concat("USDT")
    }
}

/// A symbol as Binance writes it.
pub fn normalize_symbol(symbol: &str) -> (s: String)
    ensures
        s@ == with_quote(text::uppercase_of(symbol@)),
        text::all_ascii(symbol@) ==> s@ == with_quote(text::upper(symbol@)),
{
    add_quote(text::to_uppercase(symbol))
}

/// A symbol as Binance writes it stays as it is.
pub proof fn law_normalized_symbol_is_stable(symbol: Seq<char>)
    ensures
        with_quote(text::upper(with_quote(text::upper(symbol)))) == with_quote(text::upper(symbol)),
{
    reveal_strlit("USDT");
    let u = text::upper(symbol);
    let n = with_quote(u);
    assert(text::upper(u) =~= u);
    if !has_quote(u) {
        assert("USDT"@ =~= seq!['U', 'S', 'D', 'T']);
        assert(text::upper(n) =~= n);
        assert(n.subrange(n.len() - 4, n.len() as int) =~= "USDT"@);
        assert(text::ends_in(n, "USDT"@));
    }
}

/// Without the zeros at its end, if there is a point before them.
pub open spec fn without_zeros(s: Seq<char>) -> Seq<char>
    decreases s.len(),
{
    if s.len() > 0 && s.last() == '0' && s.contains('.') {
        without_zeros(s.drop_last())
    } else {
        s
    }
}

/// A decimal numeral without the zeros at the end of its fraction, and without the
/// point if nothing follows it.
pub open spec fn shortened(s: Seq<char>) -> Seq<char> {
    let t = without_zeros(s);
    if t.len() > 0 && t.last() == '.' {
        t.drop_last()
    } else {
        t
    }
}

/// What is taken off a numeral stands at its end, is made of zeros and points, and reaches
/// back to a point at most. A numeral without a point stays as it is unless it ends in
/// one, and one that keeps its point does not end in a zero.
pub proof fn law_shortened(s: Seq<char>)
    ensures
        ({
            let t = shortened(s);
            &&& t.len() <= s.len()
            &&& t == s.take(t.len() as int)
            &&& forall|i: int| t.len() <= i < s.len() ==> #[trigger] s[i] == '0' || s[i] == '.'
            &&& forall|i: int| 0 <= i < s.len() && #[trigger] s[i] == '.' ==> t.len() >= i
            &&& !s.contains('.') ==> t == s
            &&& t.len() > 0 && t.contains('.') && t == without_zeros(s) ==> t.last() != '0'
            &&& s.len() > 1 && s.last() == '0' && s[s.len() - 2] == '.' ==> t.len() < s.len() - 1
        }),
    decreases s.len(),
{
    if s.len() > 0 && s.last() == '0' && s.contains('.') {
        let r = s.drop_last();
        law_shortened(r);
        let t = shortened(s);
        assert(t == shortened(r));
        let i = s.index_of('.');
        assert(r[i] == '.');
        assert(r.take(t.len() as int) =~= s.take(t.len() as int));
        assert forall|i: int| t.len() <= i < s.len() implies #[trigger] s[i] == '0' || s[i]
            == '.' by {
            if i < r.len() {
                assert(r[i] == s[i]);
            }
        }
        assert forall|i: int| 0 <= i < s.len() && #[trigger] s[i] == '.' implies t.len() >= i by {
            assert(r[i] == s[i]);
        }
        if s.len() > 1 && s[s.len() - 2] == '.' {
            assert(r.last() == '.');
            assert(without_zeros(r) == r);
        }
    } else {
        let t = shortened(s);
        assert(without_zeros(s) == s);
        assert(s.take(s.len() as int) =~= s);
        if s.len() > 0 {
            assert(s.take(s.len() - 1) =~= s.drop_last());
            assert(s.last() == '.' ==> s.contains('.'));
        }
    }
}

/// Takes the zeros off the end of the fraction of a decimal numeral.
pub fn shorten_decimal(numeral: &str) -> (s: String)
    ensures
        s@ == shortened(numeral@),
{
    let v = text::characters(numeral);
    let point = text::characters(".");
    let has_point = text::find(&v, &point).is_some();
    proof {
        lemma_point(v@, point@);
    }
    let mut n: usize = v.len();
    assert(v@.take(n as int) =~= v@);
    while has_point && n > 0 && v[n - 1] == '0'
        invariant
            n <= v@.len(),
            has_point == v@.contains('.'),
            has_point ==> v@.take(n as int).contains('.'),
            without_zeros(v@) == without_zeros(v@.take(n as int)),
        decreases n,
    {
        proof {
            let t = v@.take(n as int);
            let i = t.index_of('.');
            assert(t.drop_last() =~= v@.take(n - 1));
            assert(t[i] == '.' && i != n - 1);
            assert(v@.take(n - 1)[i] == '.');
        }
        n = n - 1;
    }
    proof {
        let t = v@.take(n as int);
        if n > 0 {
            assert(t.last() == v@[n - 1]);
        }
        if !has_point && t.contains('.') {
            let i = t.index_of('.');
            assert(v@[i] == '.');
        }
        assert(without_zeros(t) == t);
        assert(v@.subrange(0, n as int) =~= t);
        if n > 0 {
            assert(v@.subrange(0, n - 1) =~= t.drop_last());
        }
    }
    if n > 0 && v[n - 1] == '.' {
        text::text_of(&v, 0, n - 1)
    } else {
        text::text_of(&v, 0, n)
    }
}

proof fn lemma_point(s: Seq<char>, point: Seq<char>)
    requires
        point == "."@,
    ensures
        text::occurs(s, point) == s.contains('.'),
{
    reveal_strlit(".");
    assert(point =~= seq!['.']);
    if s.contains('.') {
        let i = s.index_of('.');
        assert(s.subrange(i, i + 1) =~= point);
        assert(text::stands_at(s, point, i));
    }
    if text::occurs(s, point) {
        let i = choose|i: int| text::stands_at(s, point, i);
        assert(s.subrange(i, i + 1)[0] == s[i]);
    }
}

/// The largest multiple of `step` that is at most `value`; `value` itself without a
/// positive step.
pub open spec fn rounded_down(value: Double, step: Double) -> Double {
    if step.at_most(Double::whole_number(0)) {
        value
    } else {
        value.quotient(step).floored().product(step)
    }
}

/// Rounding down gives a whole number of steps: no more than the value, and less than a
/// step less, up to the rounding of the quotient and of the product. Without a positive
/// step the value stays.
pub proof fn law_rounding_down(value: Double, step: Double) -> (k: int)
    requires
        value.finite(),
        value.non_negative(),
        step.finite(),
        step.positive(),
        value.quotient(step).finite(),
        rounded_down(value, step).finite(),
    ensures
        0 <= k,
        ({
            let r = rounded_down(value, step);
            let (v, s) = (value.amount() * double::one(), step.amount() * double::one());
            &&& r.amount() >= 0
            &&& laws::distance(r.amount(), k * step.amount()) * pow2(53) <= k * step.amount()
            &&& (k * s) * pow2(53) <= v * pow2(53) + v + step.amount() * pow2(53)
            &&& v * pow2(53) <= ((k + 1) * s) * pow2(53) + v + step.amount() * pow2(53)
        }),
        forall|none: Double|
            !none.nan() && none.amount() <= 0 ==> #[trigger] rounded_down(value, none) == value,
{
    arithmetic::lemma_zero();
    laws::law_steps_down(value, step)
}

pub fn round_down_by_step(value: Double, step: Double) -> (d: Double)
    ensures
        d == rounded_down(value, step),
{
    if step.le(&Double::whole(0)) {
        return value;
    }
    value.over(&step).floor().times(&step)
}

/// The amounts of an order do not survive rounding.
#[derive(Debug, Clone, Copy, PartialEq, Eq, Structural)]
pub struct RoundingError {
    pub quantity: Double,
    pub price: Option<Double>,
}

/// Rounds the size and the price of a limit order down to what the exchange counts in.
pub fn round_limit_order(size: Double, price: Double, info: &MakerSymbolInfo) -> (r: Result<
    (Double, Double),
    RoundingError,
>)
    ensures
        ({
            let quantity = rounded_down(size, info.lot_size);
            let px = rounded_down(price, info.tick_size);
            let zero = Double::whole_number(0);
            r == if quantity.at_most(zero) || px.at_most(zero) {
                Err::<(Double, Double), RoundingError>(RoundingError { quantity, price: Some(px) })
            } else {
                Ok((quantity, px))
            }
        }),
{
    let quantity = round_down_by_step(size, info.lot_size);
    let px = round_down_by_step(price, info.tick_size);
    let zero = Double::whole(0);
    if quantity.le(&zero) || px.le(&zero) {
        return Err(RoundingError { quantity, price: Some(px) });
    }
    Ok((quantity, px))
}

/// Rounds the size of a market order down to what the exchange counts in.
pub fn round_market_order(size: Double, info: &MakerSymbolInfo) -> (r: Result<
    Double,
    RoundingError,
>)
    ensures
        ({
            let quantity = rounded_down(size, info.lot_size);
            r == if quantity.at_most(Double::whole_number(0)) {
                Err::<Double, RoundingError>(RoundingError { quantity, price: None })
            } else {
                Ok(quantity)
            }
        }),
{
    let quantity = round_down_by_step(size, info.lot_size);
    if quantity.le(&Double::whole(0)) {
        return Err(RoundingError { quantity, price: None });
    }
    Ok(quantity)
}

fn param(name: &str, value: &str) -> (p: (String, String))
    ensures
        (p.0@, p.1@) == (name@, value@),
{
    (name.to_owned(), value.to_owned())
}

/// What is added to every signed request.
pub open spec fn stamped(params: Seq<encoding::Param>, timestamp_ms: int) -> Seq<encoding::Param> {
    params.push(("timestamp"@, text::signed_numeral(timestamp_ms))).push(("recvWindow"@, "5000"@))
}

/// A stamp follows the parameters and changes none: the time, and five seconds for which
/// it is good.
pub proof fn law_stamps_follow(params: Seq<encoding::Param>, timestamp_ms: int)
    ensures
        ({
            let s = stamped(params, timestamp_ms);
            &&& s.len() == params.len() + 2
            &&& s.take(params.len() as int) == params
            &&& s[params.len() as int] == ("timestamp"@, text::signed_numeral(timestamp_ms))
            &&& s.last() == ("recvWindow"@, "5000"@)
        }),
{
    assert(stamped(params, timestamp_ms).take(params.len() as int) =~= params);
}

/// The address of a signed request.
pub open spec fn signed_address(
    base: Seq<char>,
    path: Seq<char>,
    params: Seq<encoding::Param>,
    timestamp_ms: int,
    secret: Seq<char>,
) -> Seq<char> {
    let query = encoding::query_of(stamped(params, timestamp_ms));
    base + path + "?"@ + query + "&signature="@ + signature(secret, query)
}

impl BinanceCredentials {
    /// The address of a request that is signed at `timestamp_ms`.
    pub fn signed_url_at(
        &self,
        base: &str,
        path: &str,
        params: Vec<(String, String)>,
        timestamp_ms: i64,
    ) -> (url: String)
        ensures
            url@ == signed_address(
                base@,
                path@,
                encoding::params(params@),
                timestamp_ms as int,
                self.api_secret@,
            ),
    {
        let ghost given = encoding::params(params@);
        let mut all = params;
        all.push(("timestamp".to_owned(), text::signed_number(timestamp_ms)));
        all.push(param("recvWindow", "5000"));
        assert(encoding::params(all@) =~= stamped(given, timestamp_ms as int));
        let query = encoding::urlencode(&all).unwrap();
        let sign = self.sign_query(query.as_str());
        let mut url = base.to_owned();
        url.append(path);
        url.append("?");
        url.append(query.as_str());
        url.append("&signature=");
        url.append(sign.as_str());
        url
    }

    /// The address of a request that is signed now.
    pub fn signed_url(&self, base: &str, path: &str, params: Vec<(String, String)>) -> (url: String)
        ensures
            exists|timestamp_ms: i64|
                url@ == signed_address(
                    base@,
                    path@,
                    encoding::params(params@),
                    timestamp_ms as int,
                    self.api_secret@,
                ),
    {
        let timestamp_ms: i64 = encoding::utc_millis();
        self.signed_url_at(base, path, params, timestamp_ms)
    }
}

/// The address of a request that needs no signature.
pub fn unsigned_url(base: &str, path: &str, params: &Vec<(String, String)>) -> (url: String)
    ensures
        url@ == ({
            let query = encoding::query_of(encoding::params(params@));
            base@ + path@ + (if query.len() == 0 {
                ""@
            } else {
                "?"@
            }) + query
        }),
{
    let query = encoding::urlencode(params).unwrap();
    let sep = if query.as_str().is_empty() {
        ""
    } else {
        "?"
    };
    let mut url = base.to_owned();
    url.append(path);
    url.append(sep);
    url.append(query.as_str());
    url
}

/// The parameters of a request about one symbol.
pub fn symbol_params(symbol: &str) -> (r: Vec<(String, String)>)
    ensures
        encoding::params(r@) == seq![("symbol"@, with_quote(text::uppercase_of(symbol@)))],
{
    let mut r: Vec<(String, String)> = Vec::new();
    r.push(("symbol".to_owned(), normalize_symbol(symbol)));
    assert(encoding::params(r@) =~= seq![
        ("symbol"@, with_quote(text::uppercase_of(symbol@))),
    ]);
    r
}

pub open spec fn side_name(side: MakerOrderSide) -> Seq<char> {
    match side {
        MakerOrderSide::Buy => "BUY"@,
        MakerOrderSide::Sell => "SELL"@,
    }
}

/// Binance's word for a side.
pub fn side_word(side: MakerOrderSide) -> (s: &'static str)
    ensures
        s@ == side_name(side),
{
    match side {
        MakerOrderSide::Buy => "BUY",
        MakerOrderSide::Sell => "SELL",
    }
}

/// What Binance's word for a side means.
pub open spec fn side_of(word: Seq<char>) -> MakerOrderSide {
    if text::same_letters(word, "BUY"@) {
        MakerOrderSide::Buy
    } else {
        MakerOrderSide::Sell
    }
}

pub fn read_side(word: &str) -> (side: MakerOrderSide)
    ensures
        side == side_of(word@),
{
    if text::eq_ignore_ascii_case(word, "BUY") {
        MakerOrderSide::Buy
    } else {
        MakerOrderSide::Sell
    }
}

/// Reading the word for a side gives the side back.
pub proof fn law_side_words(side: MakerOrderSide)
    ensures
        side_of(side_name(side)) == side,
{
    reveal_strlit("BUY");
    reveal_strlit("SELL");
    if side == MakerOrderSide::Sell {
        assert(text::lower("SELL"@).len() == 4);
        assert(text::lower("BUY"@).len() == 3);
    }
}

/// The parameters of a limit order that is only ever a maker order. The amounts are
/// given as decimal numerals.
pub fn limit_order_params(
    symbol: &str,
    side: MakerOrderSide,
    quantity: &str,
    price: &str,
    client_id: &str,
) -> (r: Vec<(String, String)>)
    ensures
        encoding::params(r@) == seq![
            ("symbol"@, with_quote(text::uppercase_of(symbol@))),
            ("side"@, side_name(side)),
            ("type"@, "LIMIT"@),
            ("timeInForce"@, "GTX"@),
            ("quantity"@, quantity@),
            ("price"@, price@),
            ("newClientOrderId"@, client_id@),
        ],
{
    let mut r: Vec<(String, String)> = Vec::new();
    r.push(("symbol".to_owned(), normalize_symbol(symbol)));
    r.push(param("side", side_word(side)));
    r.push(param("type", "LIMIT"));
    r.push(param("timeInForce", "GTX"));
    r.push(param("quantity", quantity));
    r.push(param("price", price));
    r.push(param("newClientOrderId", client_id));
    assert(encoding::params(r@) =~= seq![
        ("symbol"@, with_quote(text::uppercase_of(symbol@))),
        ("side"@, side_name(side)),
        ("type"@, "LIMIT"@),
        ("timeInForce"@, "GTX"@),
        ("quantity"@, quantity@),
        ("price"@, price@),
        ("newClientOrderId"@, client_id@),
    ]);
    r
}

/// The parameters of a market order. The quantity is given as a decimal numeral.
pub fn market_order_params(symbol: &str, side: MakerOrderSide, quantity: &str, client_id: &str) -> (r:
    Vec<(String, String)>)
    ensures
        encoding::params(r@) == seq![
            ("symbol"@, with_quote(text::uppercase_of(symbol@))),
            ("side"@, side_name(side)),
            ("type"@, "MARKET"@),
            ("quantity"@, quantity@),
            ("newClientOrderId"@, client_id@),
        ],
{
    let mut r: Vec<(String, String)> = Vec::new();
    r.push(("symbol".to_owned(), normalize_symbol(symbol)));
    r.push(param("side", side_word(side)));
    r.push(param("type", "MARKET"));
    r.push(param("quantity", quantity));
    r.push(param("newClientOrderId", client_id));
    assert(encoding::params(r@) =~= seq![
        ("symbol"@, with_quote(text::uppercase_of(symbol@))),
        ("side"@, side_name(side)),
        ("type"@, "MARKET"@),
        ("quantity"@, quantity@),
        ("newClientOrderId"@, client_id@),
    ]);
    r
}

/// An id starts with its prefix; 32 hexadecimal digits follow and nothing else.
pub proof fn law_client_ids(s: Seq<char>, prefix: Seq<char>)
    requires
        is_client_id(s, prefix),
    ensures
        prefix.is_prefix_of(s),
        s.len() == prefix.len() + 32,
        forall|i: int|
            prefix.len() <= i < s.len() ==> text::is_digit(#[trigger] s[i]) || ('a' <= s[i]
                && s[i] <= 'f'),
{
    assert(s.subrange(0, prefix.len() as int) =~= s.take(prefix.len() as int));
}

/// A prefix and 32 hexadecimal digits.
pub open spec fn is_client_id(s: Seq<char>, prefix: Seq<char>) -> bool {
    &&& s.len() == prefix.len() + 32
    &&& s.take(prefix.len() as int) == prefix
    &&& forall|i: int| prefix.len() <= i < s.len() ==> encoding::is_hex_digit(#[trigger] s[i])
}

fn client_id(prefix: &str) -> (s: String)
    ensures
        is_client_id(s@, prefix@),
{
    let mut s = prefix.to_owned();
    let id = encoding::random_id();
    s.append(id.as_str());
    proof {
        assert(s@.take(prefix@.len() as int) =~= prefix@);
        assert forall|i: int| prefix@.len() <= i < s@.len() implies encoding::is_hex_digit(
            #[trigger] s@[i],
        ) by {
            assert(s@[i] == id@[i - prefix@.len()]);
        }
    }
    s
}

/// A fresh id for a limit order.
pub fn limit_client_id() -> (s: String)
    ensures
        is_client_id(s@, "xemm-"@),
{
    client_id("xemm-")
}

/// A fresh id for a market order.
pub fn market_client_id() -> (s: String)
    ensures
        is_client_id(s@, "xemm-mkt-"@),
{
    client_id("xemm-mkt-")
}

/// What Binance says of an order that it has accepted.
pub fn order_data(order_id: i64, client_order_id: String, symbol: String) -> (d: MakerOrderData)
    ensures
        text::optional_text(d.order_id) == Some(text::signed_numeral(order_id as int)),
        text::optional_text(d.client_order_id) == Some(client_order_id@),
        text::optional_text(d.symbol) == Some(symbol@),
{
    MakerOrderData {
        order_id: Some(text::signed_number(order_id)),
        client_order_id: Some(client_order_id),
        symbol: Some(symbol),
    }
}

/// How many orders a cancellation has taken away, of those counted before and after.
pub fn cancelled_count(before: usize, after: usize) -> (n: u32)
    ensures
        n == (if before >= after {
            before - after
        } else {
            0
        }) % 0x1_0000_0000,
{
    if before >= after {
        ((before - after) as u64 % 0x1_0000_0000) as u32
    } else {
        0
    }
}

/// A number that an answer should hold as text.
#[derive(Debug, Clone, Copy, PartialEq, Eq, Structural)]
pub enum DecimalField {
    Missing,
    Malformed,
    Number(Double),
}

/// One of the rules for a symbol's orders.
#[derive(Debug)]
pub struct ExchangeFilter {
    pub filter_type: String,
    pub tick_size: DecimalField,
    pub step_size: DecimalField,
}

/// A symbol and its rules.
#[derive(Debug)]
pub struct ExchangeSymbol {
    pub symbol: String,
    pub filters: Vec<ExchangeFilter>,
}

/// Why the steps of a symbol are not known.
#[derive(Debug, Clone, Copy, PartialEq, Eq, Structural)]
pub enum SymbolInfoError {
    SymbolNotFound,
    MissingTickSize,
    MalformedTickSize,
    MissingStepSize,
    MalformedStepSize,
}

/// The first filter of the given type.
pub open spec fn filter_named(filters: Seq<ExchangeFilter>, name: Seq<char>) -> Option<ExchangeFilter>
    decreases filters.len(),
{
    if filters.len() == 0 {
        None
    } else if filters[0].filter_type@ == name {
        Some(filters[0])
    } else {
        filter_named(filters.drop_first(), name)
    }
}

/// The entry that is found is for the symbol, and none before it is.
pub proof fn law_symbol_named(symbols: Seq<ExchangeSymbol>, name: Seq<char>, k: int)
    ensures
        (0 <= k < symbols.len() && symbols[k].symbol@ == name && forall|i: int|
            0 <= i < k ==> (#[trigger] symbols[i]).symbol@ != name) ==> symbol_named(symbols, name)
            == Some(symbols[k]),
        (forall|i: int| 0 <= i < symbols.len() ==> (#[trigger] symbols[i]).symbol@ != name)
            ==> symbol_named(symbols, name) is None,
    decreases symbols.len(),
{
    if symbols.len() > 0 {
        let rest = symbols.drop_first();
        law_symbol_named(rest, name, k - 1);
        if 0 < k < symbols.len() && (forall|i: int|
            0 <= i < k ==> (#[trigger] symbols[i]).symbol@ != name) {
            assert(symbols[0].symbol@ != name);
            assert forall|i: int| 0 <= i < k - 1 implies (#[trigger] rest[i]).symbol@ != name by {
                assert(rest[i] == symbols[i + 1]);
            }
            assert(rest[k - 1] == symbols[k]);
        }
        if forall|i: int| 0 <= i < symbols.len() ==> (#[trigger] symbols[i]).symbol@ != name {
            assert(symbols[0].symbol@ != name);
            assert forall|i: int| 0 <= i < rest.len() implies (#[trigger] rest[i]).symbol@
                != name by {
                assert(rest[i] == symbols[i + 1]);
            }
        }
    }
}

/// The first entry for the symbol.
pub open spec fn symbol_named(symbols: Seq<ExchangeSymbol>, name: Seq<char>) -> Option<ExchangeSymbol>
    decreases symbols.len(),
{
    if symbols.len() == 0 {
        None
    } else if symbols[0].symbol@ == name {
        Some(symbols[0])
    } else {
        symbol_named(symbols.drop_first(), name)
    }
}

pub open spec fn tick_field(filters: Seq<ExchangeFilter>) -> DecimalField {
    match filter_named(filters, "PRICE_FILTER"@) {
        Some(f) => f.tick_size,
        None => DecimalField::Missing,
    }
}

pub open spec fn lot_field(filters: Seq<ExchangeFilter>) -> DecimalField {
    match filter_named(filters, "LOT_SIZE"@) {
        Some(f) => f.step_size,
        None => DecimalField::Missing,
    }
}

/// The filter that is found is of the type, and none before it is.
pub proof fn law_filter_named(filters: Seq<ExchangeFilter>, name: Seq<char>, k: int)
    ensures
        (0 <= k < filters.len() && filters[k].filter_type@ == name && forall|i: int|
            0 <= i < k ==> (#[trigger] filters[i]).filter_type@ != name) ==> filter_named(
            filters,
            name,
        ) == Some(filters[k]),
        (forall|i: int| 0 <= i < filters.len() ==> (#[trigger] filters[i]).filter_type@ != name)
            ==> filter_named(filters, name) is None,
    decreases filters.len(),
{
    if filters.len() > 0 {
        let rest = filters.drop_first();
        law_filter_named(rest, name, k - 1);
        if 0 < k < filters.len() && (forall|i: int|
            0 <= i < k ==> (#[trigger] filters[i]).filter_type@ != name) {
            assert(filters[0].filter_type@ != name);
            assert forall|i: int| 0 <= i < k - 1 implies (#[trigger] rest[i]).filter_type@
                != name by {
                assert(rest[i] == filters[i + 1]);
            }
            assert(rest[k - 1] == filters[k]);
        }
        if forall|i: int| 0 <= i < filters.len() ==> (#[trigger] filters[i]).filter_type@ != name {
            assert(filters[0].filter_type@ != name);
            assert forall|i: int| 0 <= i < rest.len() implies (#[trigger] rest[i]).filter_type@
                != name by {
                assert(rest[i] == filters[i + 1]);
            }
        }
    }
}

/// The steps of prices come from the price filter and those of sizes from the lot filter.
pub proof fn law_steps_come_from_their_filters(filters: Seq<ExchangeFilter>)
    ensures
        tick_field(filters) == match filter_named(filters, "PRICE_FILTER"@) {
            Some(f) => f.tick_size,
            None => DecimalField::Missing,
        },
        lot_field(filters) == match filter_named(filters, "LOT_SIZE"@) {
            Some(f) => f.step_size,
            None => DecimalField::Missing,
        },
{
}

fn find_filter<'a>(filters: &'a Vec<ExchangeFilter>, name: &str) -> (r: Option<&'a ExchangeFilter>)
    ensures
        r is Some <==> filter_named(filters@, name@) is Some,
        r matches Some(f) ==> filter_named(filters@, name@) == Some(*f),
{
    let mut i: usize = 0;
    assert(filters@.skip(0) =~= filters@);
    while i < filters.len()
        invariant
            i <= filters@.len(),
            filter_named(filters@, name@) == filter_named(filters@.skip(i as int), name@),
        decreases filters@.len() - i,
    {
        assert(filters@.skip(i as int)[0] == filters@[i as int]);
        assert(filters@.skip(i as int).drop_first() =~= filters@.skip(i + 1));
        if text::same(filters[i].filter_type.as_str(), name) {
            return Some(&filters[i]);
        }
        i = i + 1;
    }
    None
}

/// The steps of a symbol, out of the exchange's rules.
pub fn read_exchange_info(symbols: &Vec<ExchangeSymbol>, symbol: &str) -> (r: Result<
    MakerSymbolInfo,
    SymbolInfoError,
>)
    ensures
        r == match symbol_named(symbols@, with_quote(text::uppercase_of(symbol@))) {
            None => Err::<MakerSymbolInfo, SymbolInfoError>(SymbolInfoError::SymbolNotFound),
            Some(s) => match tick_field(s.filters@) {
                DecimalField::Missing => Err(SymbolInfoError::MissingTickSize),
                DecimalField::Malformed => Err(SymbolInfoError::MalformedTickSize),
                DecimalField::Number(tick_size) => match lot_field(s.filters@) {
                    DecimalField::Missing => Err(SymbolInfoError::MissingStepSize),
                    DecimalField::Malformed => Err(SymbolInfoError::MalformedStepSize),
                    DecimalField::Number(lot_size) => Ok(MakerSymbolInfo { tick_size, lot_size }),
                },
            },
        },
{
    let target = normalize_symbol(symbol);
    let mut i: usize = 0;
    assert(symbols@.skip(0) =~= symbols@);
    while i < symbols.len() && !text::same(symbols[i].symbol.as_str(), target.as_str())
        invariant
            i <= symbols@.len(),
            symbol_named(symbols@, target@) == symbol_named(symbols@.skip(i as int), target@),
        decreases symbols@.len() - i,
    {
        assert(symbols@.skip(i as int)[0] == symbols@[i as int]);
        assert(symbols@.skip(i as int).drop_first() =~= symbols@.skip(i + 1));
        i = i + 1;
    }
    if i == symbols.len() {
        return Err(SymbolInfoError::SymbolNotFound);
    }
    assert(symbols@.skip(i as int)[0] == symbols@[i as int]);
    let filters = &symbols[i].filters;
    let tick = match find_filter(filters, "PRICE_FILTER") {
        Some(f) => f.tick_size,
        None => DecimalField::Missing,
    };
    let tick_size = match tick {
        DecimalField::Missing => {
            return Err(SymbolInfoError::MissingTickSize);
        },
        DecimalField::Malformed => {
            return Err(SymbolInfoError::MalformedTickSize);
        },
        DecimalField::Number(d) => d,
    };
    let lot = match find_filter(filters, "LOT_SIZE") {
        Some(f) => f.step_size,
        None => DecimalField::Missing,
    };
    match lot {
        DecimalField::Missing => Err(SymbolInfoError::MissingStepSize),
        DecimalField::Malformed => Err(SymbolInfoError::MalformedStepSize),
        DecimalField::Number(lot_size) => Ok(MakerSymbolInfo { tick_size, lot_size }),
    }
}

/// The best prices, if both sides of the book have one.
pub fn best_bid_ask(bid: Double, ask: Double) -> (r: Option<(Double, Double)>)
    ensures
        r == if bid.at_most(Double::whole_number(0)) || ask.at_most(Double::whole_number(0)) {
            None
        } else {
            Some((bid, ask))
        },
{
    let zero = Double::whole(0);
    if bid.le(&zero) || ask.le(&zero) {
        None
    } else {
        Some((bid, ask))
    }
}

/// An open order as Binance lists it, its amounts read as numbers.
#[derive(Debug)]
pub struct OpenOrderRow {
    pub symbol: String,
    pub side: String,
    pub price: Double,
    pub orig_qty: Double,
    pub executed_qty: Double,
    pub order_id: i64,
    pub client_order_id: String,
}

/// An open order.
pub fn read_open_order(row: OpenOrderRow) -> (o: MakerOpenOrder)
    ensures
        text::optional_text(o.order_id) == Some(text::signed_numeral(row.order_id as int)),
        o.client_order_id@ == row.client_order_id@,
        o.symbol@ == row.symbol@,
        o.side == side_of(row.side@),
        o.price == row.price,
        o.initial_amount == row.orig_qty,
        o.filled_amount == row.executed_qty,
{
    let side = read_side(row.side.as_str());
    MakerOpenOrder {
        order_id: Some(text::signed_number(row.order_id)),
        client_order_id: row.client_order_id,
        symbol: row.symbol,
        side,
        price: row.price,
        initial_amount: row.orig_qty,
        filled_amount: row.executed_qty,
    }
}

/// The parameters of the request for open orders.
pub fn open_orders_params(symbol: Option<&str>) -> (r: Vec<(String, String)>)
    ensures
        encoding::params(r@) == match symbol {
            Some(s) => seq![("symbol"@, with_quote(text::uppercase_of(s@)))],
            None => Seq::<encoding::Param>::empty(),
        },
{
    match symbol {
        Some(s) => symbol_params(s),
        None => {
            let r: Vec<(String, String)> = Vec::new();
            assert(encoding::params(r@) =~= Seq::<encoding::Param>::empty());
            r
        },
    }
}

/// A position as Binance lists it, its amount read as a number.
#[derive(Debug)]
pub struct PositionRow {
    pub symbol: String,
    /// The amount, negative when short.
    pub position_amt: Double,
}

impl PositionRow {
    /// For the symbol, or for any if none is given, and not smaller than 10^-12.
    pub open spec fn counts(self, symbol: Option<Seq<char>>) -> bool {
        &&& symbol is None || symbol == Some(self.symbol@)
        &&& !Double::signed(false, self.position_amt.magnitude()).below(picounit())
    }

    pub open spec fn position(self) -> maker::Position {
        maker::Position {
            symbol: self.symbol@,
            side: if self.position_amt.positive() {
                MakerOrderSide::Buy
            } else {
                MakerOrderSide::Sell
            },
            amount: Double::signed(false, self.position_amt.magnitude()),
        }
    }
}

/// A position that is listed is long where its amount is positive and short where it is
/// negative, with the size of the amount; one below 10^-12 in either direction does not
/// count, nor does one of another symbol where one is given.
pub proof fn law_listed_positions(row: PositionRow, symbol: Option<Seq<char>>)
    requires
        !row.position_amt.nan(),
    ensures
        ({
            let (a, least) = (
                row.position_amt.amount(),
                Double::fraction(1, 1_000_000_000_000).amount(),
            );
            let p = row.position();
            &&& a > 0 ==> p.side == MakerOrderSide::Buy && p.amount.amount() == a
            &&& a < 0 ==> p.side == MakerOrderSide::Sell && p.amount.amount() == -a
            &&& a != 0 ==> p.signed().amount() == a
            &&& p.symbol == row.symbol@
            &&& !Double::fraction(1, 1_000_000_000_000).nan() ==> (row.counts(symbol) <==> (symbol
                is None || symbol->0 == row.symbol@) && (a >= least || a <= -least))
        }),
{
    crate::double::lemma_units_order(row.position_amt.magnitude(), 0);
}

/// A row that counts adds its position to the list, one that does not leaves it alone.
pub proof fn law_position_list(
    rows: Seq<PositionRow>,
    row: PositionRow,
    symbol: Option<Seq<char>>,
)
    ensures
        listed_positions(Seq::empty(), symbol).len() == 0,
        row.counts(symbol) ==> listed_positions(rows.push(row), symbol) == listed_positions(
            rows,
            symbol,
        ).push(row.position()),
        !row.counts(symbol) ==> listed_positions(rows.push(row), symbol) == listed_positions(
            rows,
            symbol,
        ),
{
    assert(rows.push(row).drop_last() =~= rows);
}

/// 10^-12.
pub open spec fn picounit() -> Double {
    Double::fraction(1, 1_000_000_000_000)
}

/// The positions in the rows that count.
pub open spec fn listed_positions(rows: Seq<PositionRow>, symbol: Option<Seq<char>>) -> Seq<
    maker::Position,
>
    decreases rows.len(),
{
    if rows.len() == 0 {
        Seq::empty()
    } else {
        let before = listed_positions(rows.drop_last(), symbol);
        if rows.last().counts(symbol) {
            before.push(rows.last().position())
        } else {
            before
        }
    }
}

/// The positions that Binance lists, those for one symbol if it is given.
pub fn read_positions(rows: &Vec<PositionRow>, symbol: Option<&str>) -> (r: Vec<MakerPosition>)
    ensures
        maker::position_views(r@) == listed_positions(
            rows@,
            match symbol {
                Some(s) => Some(with_quote(text::uppercase_of(s@))),
                None => None,
            },
        ),
{
    let ghost wanted = match symbol {
        Some(s) => Some(with_quote(text::uppercase_of(s@))),
        None => None,
    };
    let filter = match symbol {
        Some(s) => Some(normalize_symbol(s)),
        None => None,
    };
    let least = Double::ratio64(1, 1_000_000_000_000);
    let mut r: Vec<MakerPosition> = Vec::new();
    let mut i: usize = 0;
    assert(maker::position_views(r@) =~= Seq::empty());
    while i < rows.len()
        invariant
            i <= rows@.len(),
            least == picounit(),
            text::optional_text(filter) == wanted,
            maker::position_views(r@) == listed_positions(rows@.take(i as int), wanted),
        decreases rows@.len() - i,
    {
        let ghost so_far = r@;
        let row = &rows[i];
        let ours = match &filter {
            Some(f) => text::same(row.symbol.as_str(), f.as_str()),
            None => true,
        };
        proof {
            assert(rows@.take(i + 1).drop_last() =~= rows@.take(i as int));
        }
        if ours && !row.position_amt.abs().lt(&least) {
            r.push(
                MakerPosition {
                    symbol: row.symbol.clone(),
                    side: if row.position_amt.is_positive() {
                        MakerOrderSide::Buy
                    } else {
                        MakerOrderSide::Sell
                    },
                    amount: row.position_amt.abs(),
                },
            );
            assert(maker::position_views(r@) =~= maker::position_views(so_far).push(
                rows@[i as int].position(),
            ));
        }
        i = i + 1;
    }
    assert(rows@.take(i as int) =~= rows@);
    r
}

/// The parameters of the request for trades: the last 50, or the number asked for up
/// to 1000, within the span of time that is given.
pub open spec fn trade_params(
    symbol: Seq<char>,
    limit: Option<u32>,
    start_time: Option<u64>,
    end_time: Option<u64>,
) -> Seq<encoding::Param> {
    let n: nat = match limit {
        Some(v) => if v < 1000 {
            v as nat
        } else {
            1000
        },
        None => 50,
    };
    let base = seq![
        ("symbol"@, with_quote(text::uppercase_of(symbol))),
        ("limit"@, text::numeral(n)),
    ];
    let started = match start_time {
        Some(v) => base.push(("startTime"@, text::numeral(v as nat))),
        None => base,
    };
    match end_time {
        Some(v) => started.push(("endTime"@, text::numeral(v as nat))),
        None => started,
    }
}

/// The request names the symbol first and the number of trades second: 50 without a wish,
/// and never more than 1000 or than asked for. Each time that is given follows, the start
/// before the end, and nothing else.
pub proof fn law_trade_params(
    symbol: Seq<char>,
    limit: Option<u32>,
    start_time: Option<u64>,
    end_time: Option<u64>,
)
    ensures
        ({
            let p = trade_params(symbol, limit, start_time, end_time);
            let times = (if start_time is Some { 1int } else { 0int }) + (if end_time is Some {
                1int
            } else {
                0int
            });
            &&& p.len() == 2 + times
            &&& p[0] == ("symbol"@, with_quote(text::uppercase_of(symbol)))
            &&& limit is None ==> p[1] == ("limit"@, text::numeral(50))
            &&& limit is Some && limit->0 <= 1000 ==> p[1] == (
                "limit"@,
                text::numeral(limit->0 as nat),
            )
            &&& limit is Some && limit->0 > 1000 ==> p[1] == ("limit"@, text::numeral(1000))
            &&& start_time is Some ==> p[2] == ("startTime"@, text::numeral(start_time->0 as nat))
            &&& end_time is Some ==> p.last() == ("endTime"@, text::numeral(end_time->0 as nat))
        }),
{
}

pub fn trade_history_params(
    symbol: &str,
    limit: Option<u32>,
    start_time: Option<u64>,
    end_time: Option<u64>,
) -> (r: Vec<(String, String)>)
    ensures
        encoding::params(r@) == trade_params(symbol@, limit, start_time, end_time),
{
    let n: u32 = match limit {
        Some(v) => if v < 1000 {
            v
        } else {
            1000
        },
        None => 50,
    };
    let mut r: Vec<(String, String)> = Vec::new();
    r.push(("symbol".to_owned(), normalize_symbol(symbol)));
    r.push(("limit".to_owned(), text::number(n as u64)));
    if let Some(v) = start_time {
        r.push(("startTime".to_owned(), text::number(v)));
    }
    if let Some(v) = end_time {
        r.push(("endTime".to_owned(), text::number(v)));
    }
    assert(encoding::params(r@) =~= trade_params(symbol@, limit, start_time, end_time));
    r
}

/// A trade as Binance lists it, its amounts read as numbers.
#[derive(Debug)]
pub struct UserTradeRow {
    pub symbol: String,
    pub order_id: i64,
    pub price: Double,
    pub qty: Double,
    pub commission: Double,
    pub maker: bool,
    pub time: u64,
}

/// A trade of the history.
pub fn read_trade(row: UserTradeRow) -> (t: MakerTradeHistoryItem)
    ensures
        text::optional_text(t.order_id) == Some(text::signed_numeral(row.order_id as int)),
        t.client_order_id is None,
        t.symbol@ == row.symbol@,
        t.amount == row.qty,
        t.entry_price == row.price,
        t.fee == row.commission,
        t.is_maker_fill == row.maker,
        t.created_at_ms == row.time,
{
    MakerTradeHistoryItem {
        order_id: Some(text::signed_number(row.order_id)),
        client_order_id: None,
        symbol: row.symbol,
        amount: row.qty,
        entry_price: row.price,
        fee: row.commission,
        is_maker_fill: row.maker,
        created_at_ms: row.time,
    }
}

} // verus!
