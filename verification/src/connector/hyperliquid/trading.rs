//! Orders on Hyperliquid, and what its answers mean.
use super::types::{
    Action, AssetMeta, LimitOrderType, MetaResponse, Order, OrderType, Signature, TimeInForce,
};
use crate::double;
use crate::double::arithmetic;
use crate::double::laws;
use crate::double::Double;
use crate::encoding;
use crate::json;
use crate::strategy;
use crate::text;
use vstd::arithmetic::power2::*;
use vstd::prelude::*;
use vstd::string::*;

verus! {

/// The key of an account.
pub struct HyperliquidCredentials {
    pub private_key: String,
}

impl Clone for HyperliquidCredentials {
    fn clone(&self) -> (r: HyperliquidCredentials)
        ensures
            r.private_key@ == self.private_key@,
    {
        HyperliquidCredentials { private_key: self.private_key.clone() }
    }
}

/// Where questions go.
pub fn info_url(is_testnet: bool) -> (s: &'static str)
    ensures
        s@ == if is_testnet {
            "https://api.hyperliquid-testnet.xyz/info"@
        } else {
            "https://api.hyperliquid.xyz/info"@
        },
{
    if is_testnet {
        "https://api.hyperliquid-testnet.xyz/info"
    } else {
        "https://api.hyperliquid.xyz/info"
    }
}

/// Where orders go.
pub fn exchange_url(is_testnet: bool) -> (s: &'static str)
    ensures
        s@ == if is_testnet {
            "https://api.hyperliquid-testnet.xyz/exchange"@
        } else {
            "https://api.hyperliquid.xyz/exchange"@
        },
{
    if is_testnet {
        "https://api.hyperliquid-testnet.xyz/exchange"
    } else {
        "https://api.hyperliquid.xyz/exchange"
    }
}

/// The part of a coin's name before its first colon, if it is not empty: the venue
/// on which the coin is traded.
pub open spec fn dex_of(coin: Seq<char>) -> Option<Seq<char>> {
    if coin.contains(':') && coin.index_of_first(':')->0 > 0 {
        Some(coin.take(coin.index_of_first(':')->0))
    } else {
        None
    }
}

/// The venue is what stands before the first colon: it holds none itself, and the coin's
/// name goes on with one. A name without a colon, or with one at its start, has no venue.
pub proof fn law_dex_of(coin: Seq<char>)
    ensures
        match dex_of(coin) {
            Some(dex) => {
                &&& 0 < dex.len() < coin.len()
                &&& coin.take(dex.len() as int) == dex
                &&& coin[dex.len() as int] == ':'
                &&& !dex.contains(':')
            },
            None => !coin.contains(':') || coin[0] == ':',
        },
{
    coin.index_of_first_ensures(':');
    if coin.contains(':') {
        let k = coin.index_of_first(':')->0;
        assert(coin.take(k) =~= coin.subrange(0, k));
    }
}

pub fn dex_from_coin(coin: &str) -> (r: Option<String>)
    ensures
        text::optional_text(r) == dex_of(coin@),
{
    let v = text::characters(coin);
    let mut i: usize = 0;
    proof {
        v@.index_of_first_ensures(':');
    }
    while i < v.len() && v[i] != ':'
        invariant
            i <= v@.len(),
            v@ == coin@,
            forall|k: int| 0 <= k < i ==> v@[k] != ':',
        decreases v@.len() - i,
    {
        i = i + 1;
    }
    if i == v.len() || i == 0 {
        return None;
    }
    proof {
        let first = v@.index_of_first(':')->0;
        assert(v@.contains(':'));
        assert(first == i);
        assert(v@.subrange(0, i as int) =~= coin@.take(i as int));
    }
    Some(text::text_of(&v, 0, i))
}

/// The address to which an order for a coin goes.
pub fn order_url(exchange_url: &str, coin: &str) -> (s: String)
    ensures
        s@ == match dex_of(coin@) {
            Some(dex) => exchange_url@ + "?dex="@ + dex,
            None => exchange_url@,
        },
{
    let mut s = exchange_url.to_owned();
    if let Some(dex) = dex_from_coin(coin) {
        s.append("?dex=");
        s.append(dex.as_str());
    }
    s
}

/// The place of the first asset with the name, the length without one.
pub open spec fn asset_place(universe: Seq<AssetMeta>, coin: Seq<char>) -> int
    decreases universe.len(),
{
    if universe.len() == 0 || universe[0].name@ == coin {
        0
    } else {
        1 + asset_place(universe.drop_first(), coin)
    }
}

/// The place is that of the first asset of that name.
pub proof fn law_asset_place(universe: Seq<AssetMeta>, coin: Seq<char>)
    ensures
        ({
            let k = asset_place(universe, coin);
            &&& 0 <= k <= universe.len()
            &&& k < universe.len() ==> universe[k].name@ == coin
            &&& forall|i: int| 0 <= i < k ==> (#[trigger] universe[i]).name@ != coin
        }),
    decreases universe.len(),
{
    if universe.len() > 0 && universe[0].name@ != coin {
        let rest = universe.drop_first();
        law_asset_place(rest, coin);
        let k = asset_place(universe, coin);
        assert forall|i: int| 0 <= i < k implies (#[trigger] universe[i]).name@ != coin by {
            if i > 0 {
                assert(rest[i - 1] == universe[i]);
            }
        }
    }
}

fn find_asset(universe: &Vec<AssetMeta>, coin: &str) -> (k: usize)
    ensures
        k == asset_place(universe@, coin@),
        k <= universe@.len(),
{
    let mut k: usize = 0;
    assert(universe@.skip(0) =~= universe@);
    while k < universe.len() && !text::same(universe[k].name.as_str(), coin)
        invariant
            k <= universe@.len(),
            asset_place(universe@, coin@) == k + asset_place(universe@.skip(k as int), coin@),
        decreases universe@.len() - k,
    {
        assert(universe@.skip(k as int)[0] == universe@[k as int]);
        assert(universe@.skip(k as int).drop_first() =~= universe@.skip(k + 1));
        k = k + 1;
    }
    proof {
        if k < universe@.len() {
            assert(universe@.skip(k as int)[0] == universe@[k as int]);
        }
    }
    k
}

/// The number under which a coin is traded: its place among the assets.
pub fn get_asset_id(meta: &MetaResponse, coin: &str) -> (r: Option<u32>)
    ensures
        ({
            let k = asset_place(meta.universe@, coin@);
            r == if k < meta.universe@.len() {
                Some((k % 0x1_0000_0000) as u32)
            } else {
                None
            }
        }),
{
    let k = find_asset(&meta.universe, coin);
    if k < meta.universe.len() {
        Some((k as u64 % 0x1_0000_0000) as u32)
    } else {
        None
    }
}

/// What is known of a coin.
pub fn get_asset_info<'a>(meta: &'a MetaResponse, coin: &str) -> (r: Option<&'a AssetMeta>)
    ensures
        ({
            let k = asset_place(meta.universe@, coin@);
            match r {
                Some(a) => k < meta.universe@.len() && *a == meta.universe@[k],
                None => k >= meta.universe@.len(),
            }
        }),
{
    let k = find_asset(&meta.universe, coin);
    if k < meta.universe.len() {
        Some(&meta.universe[k])
    } else {
        None
    }
}

/// Why a book cannot be read.
#[derive(Debug, Clone, Copy, PartialEq, Eq, Structural)]
pub enum SnapshotError {
    Malformed,
    MissingLevels,
}

/// The best price of a side is that of its first level; a side without levels, or that is
/// no list, has none.
pub proof fn law_best_price(side: Seq<char>)
    ensures
        json::items_of(side) is None ==> best_price(side) is None,
        json::items_of(side) is Some ==> {
            let levels = json::items_of(side)->0;
            &&& levels.len() == 0 ==> best_price(side) is None
            &&& levels.len() > 0 && json::member_of(levels[0], "px"@) is None ==> best_price(
                side,
            ) is None
            &&& levels.len() > 0 && json::member_of(levels[0], "px"@) is Some ==> best_price(side)
                == json::string_of(json::member_of(levels[0], "px"@)->0)
        },
{
}

/// The price of the first level of one side of a book, in JSON.
pub open spec fn best_price(side: Seq<char>) -> Option<Seq<char>> {
    match json::items_of(side) {
        Some(levels) => if levels.len() > 0 {
            match json::member_of(levels[0], "px"@) {
                Some(px) => json::string_of(px),
                None => None,
            }
        } else {
            None
        },
        None => None,
    }
}

fn read_best_price(side: &str) -> (r: Option<String>)
    ensures
        text::optional_text(r) == best_price(side@),
{
    let levels = json::items(side)?;
    if levels.len() == 0 {
        return None;
    }
    assert(json::texts(levels@)[0] == levels@[0]@);
    let px = json::member(levels[0].as_str(), "px")?;
    json::string(px.as_str())
}

/// The best prices, out of those of the sides that a book has: the first is the bid,
/// the second the ask.
pub open spec fn top_of(sides: Seq<Option<Seq<char>>>) -> Option<(Seq<char>, Seq<char>)> {
    if sides.len() >= 2 && sides[0] is Some && sides[1] is Some {
        Some((sides[0]->0, sides[1]->0))
    } else {
        None
    }
}

/// The top of a book is its first side as the bid and its second as the ask, where both
/// are there.
pub proof fn law_top(bid: Option<Seq<char>>, ask: Option<Seq<char>>, rest: Seq<Option<Seq<char>>>)
    ensures
        ({
            let top = top_of(seq![bid, ask] + rest);
            &&& bid is Some && ask is Some ==> top == Some((bid->0, ask->0))
            &&& bid is None || ask is None ==> top is None
        }),
        top_of(seq![bid]) is None,
        top_of(Seq::empty()) is None,
{
}

pub open spec fn side_prices(v: Seq<Option<String>>) -> Seq<Option<Seq<char>>> {
    Seq::new(v.len(), |i: int| text::optional_text(v[i]))
}

/// The best bid and ask, if both sides of the book have a price.
pub fn pick_top(sides: &Vec<Option<String>>) -> (r: Option<(String, String)>)
    ensures
        match r {
            Some(t) => top_of(side_prices(sides@)) == Some((t.0@, t.1@)),
            None => top_of(side_prices(sides@)) is None,
        },
{
    if sides.len() < 2 {
        return None;
    }
    match (&sides[0], &sides[1]) {
        (Some(bid), Some(ask)) => Some((bid.clone(), ask.clone())),
        _ => None,
    }
}

/// The best prices of every side in an answer to the question for a book.
pub open spec fn book_sides(answer: Seq<char>) -> Option<Seq<Option<Seq<char>>>> {
    match json::member_of(answer, "levels"@) {
        Some(levels) => match json::items_of(levels) {
            Some(sides) => Some(Seq::new(sides.len(), |i: int| best_price(sides[i]))),
            None => None,
        },
        None => None,
    }
}

/// The best bid and ask in an answer to the question for a book, as numerals.
pub fn read_l2_snapshot(answer: &str) -> (r: Result<Option<(String, String)>, SnapshotError>)
    ensures
        match r {
            Err(SnapshotError::Malformed) => !json::is_json(answer@),
            Err(SnapshotError::MissingLevels) => json::is_json(answer@) && book_sides(
                answer@,
            ) is None,
            Ok(t) => json::is_json(answer@) && book_sides(answer@) is Some && top_of(
                book_sides(answer@)->0,
            ) == match t {
                Some(p) => Some((p.0@, p.1@)),
                None => None,
            },
        },
{
    if !json::parses(answer) {
        return Err(SnapshotError::Malformed);
    }
    let levels = match json::member(answer, "levels") {
        Some(l) => l,
        None => {
            return Err(SnapshotError::MissingLevels);
        },
    };
    let sides = match json::items(levels.as_str()) {
        Some(s) => s,
        None => {
            return Err(SnapshotError::MissingLevels);
        },
    };
    let mut prices: Vec<Option<String>> = Vec::new();
    let mut i: usize = 0;
    while i < sides.len()
        invariant
            i <= sides@.len(),
            prices@.len() == i,
            forall|k: int|
                0 <= k < i ==> text::optional_text(#[trigger] prices@[k]) == best_price(
                    json::texts(sides@)[k],
                ),
        decreases sides@.len() - i,
    {
        assert(json::texts(sides@)[i as int] == sides@[i as int]@);
        prices.push(read_best_price(sides[i].as_str()));
        i = i + 1;
    }
    assert(side_prices(prices@) =~= book_sides(answer@)->0);
    Ok(pick_top(&prices))
}

/// The decimals that the price of a coin may have: 8 on spot and 6 on perpetual
/// markets, less those of its size.
pub fn max_decimals(sz_decimals: i32, is_spot: bool) -> (n: i32)
    requires
        8 - sz_decimals <= i32::MAX,
    ensures
        n == (if is_spot {
            8int
        } else {
            6int
        }) - sz_decimals,
{
    if is_spot {
        8 - sz_decimals
    } else {
        6 - sz_decimals
    }
}

/// A price rounded to a multiple of `scale`, if it is positive, and then to a multiple
/// of `1 / multiplier`, if that is given.
pub open spec fn price_rounded(price: Double, scale: Double, multiplier: Option<Double>) -> Double {
    let significant = if price.positive() {
        price.quotient(scale).rounded().product(scale)
    } else {
        price
    };
    match multiplier {
        Some(m) => significant.product(m).rounded().quotient(m),
        None => significant,
    }
}

/// A price without a multiplier is rounded to the whole number of scales that is
/// nearest, up to the rounding of the quotient and of the product.
pub proof fn law_price_in_scales(price: Double, scale: Double) -> (k: int)
    requires
        price.finite(),
        price.positive(),
        scale.finite(),
        scale.positive(),
        price.quotient(scale).finite(),
        price_rounded(price, scale, None).finite(),
    ensures
        0 <= k,
        ({
            let r = price_rounded(price, scale, None);
            let (v, s) = (price.amount() * double::one(), scale.amount() * double::one());
            &&& r.amount() >= 0
            &&& laws::distance(r.amount(), k * scale.amount()) * pow2(53) <= k * scale.amount()
            &&& 2 * (laws::distance(k * s, v) * pow2(53)) <= s * pow2(53) + 2 * (v
                + scale.amount() * pow2(53))
        }),
{
    laws::law_nearest_steps(price, scale)
}

/// With a multiplier, the rounded price is the whole number over it that is nearest to
/// what the scale alone gives, up to the rounding of the product and of the quotient.
pub proof fn law_price_in_decimals(price: Double, scale: Double, m: Double) -> (n: Double)
    requires
        price_rounded(price, scale, None).finite(),
        price_rounded(price, scale, None).non_negative(),
        m.finite(),
        m.positive(),
        price_rounded(price, scale, None).product(m).finite(),
    ensures
        ({
            let one = double::one();
            let before = price_rounded(price, scale, None);
            let r = price_rounded(price, scale, Some(m));
            let exact = n.amount() * one;
            let moved = before.product(m);
            &&& n.finite() && n.amount() >= 0 && n.amount() == (n.amount() / one) * one
            &&& 2 * laws::distance(n.amount(), moved.amount()) <= one
            &&& !r.nan() && r.amount() >= 0
            &&& r.finite() ==> laws::distance(r.amount() * m.amount(), exact) * pow2(53) <= exact
                || 2 * laws::distance(r.amount() * m.amount(), exact) <= m.amount()
        }),
{
    let moved = price_rounded(price, scale, None).product(m);
    let n = moved.rounded();
    laws::law_product_is_near(price_rounded(price, scale, None), m);
    assert(price_rounded(price, scale, None).amount() * m.amount() >= 0) by (nonlinear_arith)
        requires
            price_rounded(price, scale, None).amount() >= 0,
            m.amount() > 0,
    ;
    laws::law_round(moved);
    laws::law_quotient_is_near(n, m);
    lemma_pow2_pos(1074);
    vstd::arithmetic::mul::lemma_mul_nonnegative(n.amount(), double::one());
    n
}

/// Rounds a price to five significant figures and to the decimals that it may have.
/// `scale` is the weight of its fifth figure, `multiplier` that power of ten which has
/// as many zeros as there may be decimals.
pub fn round_price(price: Double, scale: Double, multiplier: Option<Double>) -> (d: Double)
    ensures
        d == price_rounded(price, scale, multiplier),
{
    let significant = if price.is_positive() {
        price.over(&scale).round().times(&scale)
    } else {
        price
    };
    match multiplier {
        Some(m) => significant.times(&m).round().over(&m),
        None => significant,
    }
}

/// A numeral without the zeros at the end of its fraction, and without a point at its end.
pub open spec fn plain_numeral(s: Seq<char>) -> Seq<char> {
    if s.contains('.') {
        text::without_end(text::without_end(s, '0'), '.')
    } else {
        s
    }
}

/// What is taken off a numeral stands at its end. A numeral with one point and digits
/// around it loses the zeros behind the point, and the point where nothing else is left;
/// what stands before the point stays.
pub proof fn law_plain_numeral(whole: Seq<char>, part: Seq<char>, zeros: nat)
    requires
        forall|i: int| 0 <= i < whole.len() ==> text::is_digit(#[trigger] whole[i]),
        forall|i: int| 0 <= i < part.len() ==> text::is_digit(#[trigger] part[i]),
        part.len() > 0 ==> part.last() != '0',
    ensures
        plain_numeral(whole) == whole,
        plain_numeral(whole + seq!['.'] + part + Seq::new(zeros, |i: int| '0')) == if part.len()
            > 0 {
            whole + seq!['.'] + part
        } else {
            whole
        },
{
    assert forall|i: int| 0 <= i < whole.len() implies whole[i] != '.' by {}
    let kept = whole + seq!['.'] + part;
    lemma_zeros_go(kept, zeros);
    let s = kept + Seq::new(zeros, |i: int| '0');
    assert(s[whole.len() as int] == '.');
    assert(s.contains('.'));
    if part.len() > 0 {
        assert(kept.last() == part.last());
    } else {
        assert(kept.last() == '.');
        assert(kept.drop_last() =~= whole);
        if whole.len() > 0 {
            assert(text::is_digit(whole.last()));
        }
        assert(text::without_end(whole, '.') == whole);
    }
}

/// Zeros behind something that does not end in one go.
proof fn lemma_zeros_go(kept: Seq<char>, zeros: nat)
    requires
        kept.len() > 0,
        kept.last() != '0',
    ensures
        text::without_end(kept + Seq::new(zeros, |i: int| '0'), '0') == kept,
    decreases zeros,
{
    let s = kept + Seq::new(zeros, |i: int| '0');
    if zeros > 0 {
        lemma_zeros_go(kept, (zeros - 1) as nat);
        assert(s.drop_last() =~= kept + Seq::new((zeros - 1) as nat, |i: int| '0'));
    } else {
        assert(s =~= kept);
    }
}

pub fn shorten_numeral(numeral: &str) -> (s: String)
    ensures
        s@ == plain_numeral(numeral@),
{
    let v = text::characters(numeral);
    let mut i: usize = 0;
    while i < v.len() && v[i] != '.'
        invariant
            i <= v@.len(),
            v@ == numeral@,
            forall|k: int| 0 <= k < i ==> v@[k] != '.',
        decreases v@.len() - i,
    {
        i = i + 1;
    }
    if i == v.len() {
        return numeral.to_owned();
    }
    assert(v@.contains('.'));
    let t = text::trim_end(numeral, '0');
    text::trim_end(t.as_str(), '.')
}

/// The price limit of a market order: the middle of the book, moved against the order
/// by the slippage that is allowed.
pub open spec fn limit_price(is_buy: bool, bid: Double, ask: Double, slippage: Double) -> Double {
    strategy::middle(bid, ask).product(
        if is_buy {
            Double::whole_number(1).sum(slippage)
        } else {
            Double::whole_number(1).difference(slippage)
        },
    )
}

/// A market order that buys is limited to no less than the middle of the book, and so to
/// no less than the bid; one that sells to no more than the middle, and so to no more than
/// the ask. Either limit is the middle times one and the slippage, added or taken away, up
/// to rounding.
pub proof fn law_limit_moves_against_the_order(
    is_buy: bool,
    bid: Double,
    ask: Double,
    slippage: Double,
)
    requires
        bid.finite(),
        ask.finite(),
        bid.non_negative(),
        bid.at_most(ask),
        bid.sum(ask).finite(),
        slippage.finite(),
        slippage.non_negative(),
        slippage.at_most(Double::whole_number(1)),
    ensures
        ({
            let m = strategy::middle(bid, ask);
            let r = limit_price(is_buy, bid, ask, slippage);
            let one = double::one();
            let factor = if is_buy {
                Double::whole_number(1).sum(slippage)
            } else {
                Double::whole_number(1).difference(slippage)
            };
            let exact = if is_buy {
                one + slippage.amount()
            } else {
                one - slippage.amount()
            };
            let off = laws::distance(r.amount() * one, m.amount() * factor.amount());
            &&& is_buy ==> m.at_most(r) && bid.at_most(r)
            &&& !is_buy ==> r.at_most(m) && r.at_most(ask) && r.non_negative()
            &&& laws::distance(factor.amount(), exact) * pow2(53) <= exact
            &&& r.finite() ==> off * pow2(53) <= m.amount() * factor.amount() || 2 * off <= one
        }),
{
    let unit = Double::whole_number(1);
    let m = strategy::middle(bid, ask);
    strategy::law_middle_lies_between(bid, ask);
    arithmetic::lemma_whole_exact(1);
    laws::law_sum_is_near(unit, slippage);
    laws::law_difference_is_near(unit, slippage);
    laws::lemma_taking_away(unit, slippage);
    laws::lemma_smaller_is_finite(unit, slippage);
    double::lemma_units_order(unit.magnitude(), 0);
    double::lemma_units_order(slippage.magnitude(), 0);
    arithmetic::lemma_sum_no_smaller(unit, slippage);
    laws::lemma_sum_of_ones_is_finite(slippage);
    let factor = if is_buy {
        unit.sum(slippage)
    } else {
        unit.difference(slippage)
    };
    laws::law_factors_around_one(m, factor);
    laws::law_product_is_near(m, factor);
    vstd::arithmetic::mul::lemma_mul_nonnegative(m.amount(), factor.amount());
}

/// The book has no price on one side.
#[derive(Debug, Clone, Copy, PartialEq, Eq, Structural)]
pub struct MissingPrice;

pub fn market_limit_price(
    is_buy: bool,
    bid: Option<Double>,
    ask: Option<Double>,
    slippage: Double,
) -> (r: Result<Double, MissingPrice>)
    ensures
        r == match (bid, ask) {
            (Some(b), Some(a)) => Ok::<Double, MissingPrice>(limit_price(is_buy, b, a, slippage)),
            _ => Err(MissingPrice),
        },
{
    match (bid, ask) {
        (Some(b), Some(a)) => {
            let mid = strategy::mid_price(b, a);
            let one = Double::whole(1);
            let factor = if is_buy {
                one.plus(&slippage)
            } else {
                one.minus(&slippage)
            };
            Ok(mid.times(&factor))
        },
        _ => Err(MissingPrice),
    }
}

/// Whether an asset is traded on a spot market.
pub fn is_spot(asset_id: u32) -> (r: bool)
    ensures
        r == (asset_id >= 10000),
{
    asset_id >= 10000
}

/// A market order: a limit order that is filled at once or cancelled. Price and size
/// are given as numerals.
pub fn market_order(
    asset_id: u32,
    is_buy: bool,
    price: String,
    size: String,
    reduce_only: bool,
) -> (a: Action)
    ensures
        a.type_@ == "order"@,
        a.grouping@ == "na"@,
        a.orders@.len() == 1,
        a.orders@[0].a == asset_id,
        a.orders@[0].b == is_buy,
        a.orders@[0].p@ == price@,
        a.orders@[0].s@ == size@,
        a.orders@[0].r == reduce_only,
        a.orders@[0].t.limit.tif == TimeInForce::Ioc,
        a.orders@[0].c is None,
{
    let order = Order {
        a: asset_id,
        b: is_buy,
        p: price,
        s: size,
        r: reduce_only,
        t: OrderType { limit: LimitOrderType { tif: TimeInForce::Ioc } },
        c: None,
    };
    let mut orders: Vec<Order> = Vec::new();
    orders.push(order);
    Action { type_: "order".to_owned(), orders, grouping: "na".to_owned() }
}

/// The bytes of a number, the highest one first.
pub open spec fn big_endian(n: u64) -> Seq<u8> {
    seq![
        (n / 0x100_0000_0000_0000 % 256) as u8,
        (n / 0x1_0000_0000_0000 % 256) as u8,
        (n / 0x100_0000_0000 % 256) as u8,
        (n / 0x1_0000_0000 % 256) as u8,
        (n / 0x100_0000 % 256) as u8,
        (n / 0x1_0000 % 256) as u8,
        (n / 0x100 % 256) as u8,
        (n % 256) as u8,
    ]
}

/// Each byte is what is left of the part of the number from it on.
proof fn lemma_next_byte(n: int, d: int)
    requires
        0 <= n,
        0 < d,
    ensures
        n / d == (n / (d * 256)) * 256 + (n / d) % 256,
{
    vstd::arithmetic::div_mod::lemma_div_denominator(n, d, 256);
    vstd::arithmetic::div_mod::lemma_fundamental_div_mod(n / d, 256);
}

/// The bytes are the digits of the number to the base 256.
pub proof fn law_big_endian(n: u64)
    ensures
        big_endian(n).len() == 8,
        ({
            let b = big_endian(n);
            n == ((((((b[0] * 256 + b[1]) * 256 + b[2]) * 256 + b[3]) * 256 + b[4]) * 256 + b[5])
                * 256 + b[6]) * 256 + b[7]
        }),
{
    let m = n as int;
    lemma_next_byte(m, 1);
    lemma_next_byte(m, 0x100);
    lemma_next_byte(m, 0x1_0000);
    lemma_next_byte(m, 0x100_0000);
    lemma_next_byte(m, 0x1_0000_0000);
    lemma_next_byte(m, 0x100_0000_0000);
    lemma_next_byte(m, 0x1_0000_0000_0000);
    let b = big_endian(n);
    let top = m / 0x100_0000_0000_0000;
    assert(0 <= top < 256 && b[0] == top);
    let t1 = top * 256 + b[1];
    assert(t1 == m / 0x1_0000_0000_0000);
    let t2 = t1 * 256 + b[2];
    assert(t2 == m / 0x100_0000_0000);
    let t3 = t2 * 256 + b[3];
    assert(t3 == m / 0x1_0000_0000);
    let t4 = t3 * 256 + b[4];
    assert(t4 == m / 0x100_0000);
    let t5 = t4 * 256 + b[5];
    assert(t5 == m / 0x1_0000);
    let t6 = t5 * 256 + b[6];
    assert(t6 == m / 0x100);
}

/// What is signed for an action: the action as MessagePack, the nonce, and a byte
/// that tells whether the account is a vault.
pub open spec fn signed_content(action: Seq<u8>, nonce: u64, vault: bool) -> Seq<u8> {
    (action + big_endian(nonce)).push(
        if vault {
            1
        } else {
            0
        },
    )
}

/// What is signed starts with the action and holds nine bytes more; the last tells
/// whether there is a vault.
pub proof fn law_signed_content(action: Seq<u8>, nonce: u64, vault: bool)
    ensures
        ({
            let c = signed_content(action, nonce, vault);
            &&& c.len() == action.len() + 9
            &&& c.take(action.len() as int) == action
            &&& c.subrange(action.len() as int, action.len() as int + 8) == big_endian(nonce)
            &&& c.last() == 1 <==> vault
            &&& c.last() == 0 <==> !vault
        }),
{
    let c = signed_content(action, nonce, vault);
    assert(big_endian(nonce).len() == 8);
    assert(c.take(action.len() as int) =~= action);
    assert(c.subrange(action.len() as int, action.len() as int + 8) =~= big_endian(nonce));
}

/// The identifier of an action, given as MessagePack.
pub fn construct_connection_id(action: &Vec<u8>, nonce: u64, vault_address: Option<&str>) -> (id: [u8;
    32])
    ensures
        id@ == encoding::keccak256_of(signed_content(action@, nonce, vault_address is Some)),
{
    let mut data: Vec<u8> = Vec::new();
    let mut i: usize = 0;
    while i < action.len()
        invariant
            i <= action@.len(),
            data@ == action@.take(i as int),
        decreases action@.len() - i,
    {
        data.push(action[i]);
        i = i + 1;
    }
    data.push((nonce / 0x100_0000_0000_0000 % 256) as u8);
    data.push((nonce / 0x1_0000_0000_0000 % 256) as u8);
    data.push((nonce / 0x100_0000_0000 % 256) as u8);
    data.push((nonce / 0x1_0000_0000 % 256) as u8);
    data.push((nonce / 0x100_0000 % 256) as u8);
    data.push((nonce / 0x1_0000 % 256) as u8);
    data.push((nonce / 0x100 % 256) as u8);
    data.push((nonce % 256) as u8);
    data.push(
        if vault_address.is_some() {
            1
        } else {
            0
        },
    );
    assert(data@ =~= signed_content(action@, nonce, vault_address is Some));
    encoding::keccak256(data.as_slice())
}

/// Bytes in hexadecimal behind `0x`.
pub fn prefixed_hex(bytes: &[u8; 32]) -> (s: String)
    ensures
        s@ == "0x"@ + encoding::hex_of(bytes@),
{
    let mut s = "0x".to_owned();
    s.append(encoding::hex_encode(bytes.as_slice()).as_str());
    s
}

/// Which network an action is signed for.
pub open spec fn source_name(is_testnet: bool) -> Seq<char> {
    if is_testnet {
        "b"@
    } else {
        "a"@
    }
}

pub fn agent_source(is_testnet: bool) -> (s: &'static str)
    ensures
        s@ == source_name(is_testnet),
{
    if is_testnet {
        "b"
    } else {
        "a"
    }
}

/// A signature as Hyperliquid takes it.
pub fn format_signature(r: &[u8; 32], s: &[u8; 32], v: u32) -> (sig: Signature)
    ensures
        sig.r@ == "0x"@ + encoding::hex_of(r@),
        sig.s@ == "0x"@ + encoding::hex_of(s@),
        sig.v == v,
{
    Signature { r: prefixed_hex(r), s: prefixed_hex(s), v }
}

/// What is signed for an action, in JSON: the agent that acts on a network.
pub open spec fn agent_data(source: Seq<char>, connection_id: Seq<u8>) -> Seq<char> {
    "{\"domain\":{\"chainId\":1337,\"name\":\"Exchange\",\"verifyingContract\":"@
        + "\"0x0000000000000000000000000000000000000000\",\"version\":\"1\"},"@
        + "\"types\":{\"Agent\":[{\"name\":\"source\",\"type\":\"string\"},"@
        + "{\"name\":\"connectionId\",\"type\":\"bytes32\"}]},"@
        + "\"primaryType\":\"Agent\",\"message\":{\"source\":\""@
        + source + "\",\"connectionId\":\"0x"@ + encoding::hex_of(connection_id) + "\"}}"@
}

/// The text is such data, with an identifier of 32 bytes.
pub open spec fn is_agent_data(text: Seq<char>) -> bool {
    exists|is_testnet: bool, id: Seq<u8>|
        id.len() == 32 && text == #[trigger] agent_data(source_name(is_testnet), id)
}

pub fn agent_typed_data(is_testnet: bool, connection_id: &[u8; 32]) -> (s: String)
    ensures
        s@ == agent_data(source_name(is_testnet), connection_id@),
        is_agent_data(s@),
{
    let mut s = "{\"domain\":{\"chainId\":1337,\"name\":\"Exchange\",\"verifyingContract\":".to_owned();
    s.append("\"0x0000000000000000000000000000000000000000\",\"version\":\"1\"},");
    s.append("\"types\":{\"Agent\":[{\"name\":\"source\",\"type\":\"string\"},");
    s.append("{\"name\":\"connectionId\",\"type\":\"bytes32\"}]},");
    s.append("\"primaryType\":\"Agent\",\"message\":{\"source\":\"");
    s.append(agent_source(is_testnet));
    s.append("\",\"connectionId\":\"0x");
    s.append(encoding::hex_encode(connection_id.as_slice()).as_str());
    s.append("\"}}");
    assert(connection_id@.len() == 32);
    assert(s@ == agent_data(source_name(is_testnet), connection_id@));
    s
}

/// Why an action cannot be signed.
#[derive(Debug, Clone, Copy, PartialEq, Eq, Structural)]
pub enum SignError {
    /// The data to be signed has no digest.
    Encoding,
    /// The key is none, or does not sign.
    Wallet,
}

/// What is hashed and signed for an action.
pub open spec fn action_data(is_testnet: bool, action: Seq<u8>, nonce: u64, vault: bool) -> Seq<char> {
    agent_data(
        source_name(is_testnet),
        encoding::keccak256_of(signed_content(action, nonce, vault)),
    )
}

impl HyperliquidCredentials {
    /// Signs an action, given as MessagePack.
    pub fn sign_action(
        &self,
        is_testnet: bool,
        action: &Vec<u8>,
        nonce: u64,
        vault_address: Option<&str>,
    ) -> (r: Result<Signature, SignError>)
        ensures
            ({
                let data = action_data(is_testnet, action@, nonce, vault_address is Some);
                let digest = encoding::eip712_of(data);
                let signed = encoding::ecdsa_of(self.private_key@, digest->0);
                let (big_r, big_s, v) = signed->0;
                match r {
                    Err(SignError::Encoding) => digest is None,
                    Err(SignError::Wallet) => digest is Some && signed is None,
                    Ok(sig) => {
                        &&& digest is Some && signed is Some
                        &&& sig.r@ == "0x"@ + encoding::hex_of(big_r)
                        &&& sig.s@ == "0x"@ + encoding::hex_of(big_s)
                        &&& sig.v == v % 0x1_0000_0000
                    },
                }
            }),
    {
        let id = construct_connection_id(action, nonce, vault_address);
        let data = agent_typed_data(is_testnet, &id);
        match encoding::eip712_digest(data.as_str()) {
            None => Err(SignError::Encoding),
            Some(digest) => match encoding::sign_digest(self.private_key.as_str(), digest) {
                None => Err(SignError::Wallet),
                Some((r, s, v)) => Ok(format_signature(&r, &s, (v % 0x1_0000_0000) as u32)),
            },
        }
    }

    /// The address of the account, if the key is a private key.
    pub fn address(&self) -> (r: Option<String>)
        ensures
            text::optional_text(r) == encoding::address_of(self.private_key@),
    {
        encoding::wallet_address(self.private_key.as_str())
    }
}

} // verus!
