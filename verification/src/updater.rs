//! The updater stage: one work item in, one instrument priced anew.
//!
//! The price drifts by a random factor whose range depends on the kind of
//! the order: a bid pushes the price up, an ask pushes it down, and a plain
//! request to price anew may go either way. The volume follows the order's
//! quantity, and the symbol is stored in upper case.

use crate::model::{MarketError, Order, OrderType, Stock, StockView, UserRule, stocks_view};
use crate::price::{
    abs, fits_price, lemma_round_half_away_is_nearest, lemma_scaled_price_bounds, round_half_away,
    scale_price, scaled_price,
};
use crate::state::{lemma_write_keeps_others, write_instrument};
use rand::Rng;
use vstd::prelude::*;

verus! {

/// The upper-case form of an ASCII lower-case letter; any other character
/// is left as it is.
pub open spec fn upper_char(c: char) -> char {
    if 'a' <= c && c <= 'z' {
        ((c as u32 - 32) as u8) as char
    } else {
        c
    }
}

/// `text` with each ASCII lower-case letter replaced by its upper-case form.
pub open spec fn upper_text(text: Seq<char>) -> Seq<char> {
    text.map_values(|c: char| upper_char(c))
}

/// The factors from which one is drawn for an order of kind `kind`: the
/// first is the least, the second lies just above the greatest.
pub open spec fn factor_range(kind: OrderType) -> (u32, u32) {
    match kind {
        OrderType::Start => (800_000u32, 1_200_000u32),
        OrderType::Bid => (1_000_000u32, 1_200_000u32),
        OrderType::Ask => (800_000u32, 1_000_000u32),
    }
}

/// Whether `factor` may be drawn for an order of kind `kind`.
pub open spec fn factor_allowed(kind: OrderType, factor: int) -> bool {
    factor_range(kind).0 <= factor < factor_range(kind).1
}

/// The volume that is left of `volume` once `rule` was applied.
pub open spec fn new_volume(volume: int, rule: UserRule) -> int {
    match rule.order {
        OrderType::Start => volume,
        OrderType::Bid => volume - rule.volume,
        OrderType::Ask => volume + rule.volume,
    }
}

/// Whether `v` can be held as a volume.
pub open spec fn fits_volume(v: int) -> bool {
    i32::MIN <= v <= i32::MAX
}

/// Whether the instrument that `rule` and `factor` make of `stock` can be
/// represented.
pub open spec fn update_fits(stock: StockView, rule: UserRule, factor: int) -> bool {
    fits_price(scaled_price(stock.price, factor)) && fits_volume(new_volume(stock.volume, rule))
}

/// The instrument that `rule` and `factor` make of `stock`.
pub open spec fn updated(stock: StockView, rule: UserRule, factor: int) -> StockView {
    StockView {
        symbol: upper_text(stock.symbol),
        price: scaled_price(stock.price, factor),
        volume: new_volume(stock.volume, rule),
    }
}

/// The instruments after the work item `order` was applied with `factor`,
/// and what the updater reports: the position to announce, or why nothing
/// changed.
pub open spec fn update_outcome(before: Seq<StockView>, order: Order, factor: int) -> (
    Seq<StockView>,
    Result<usize, MarketError>,
) {
    if order.stock_id >= before.len() {
        (before, Err(MarketError::IndexOutOfRange))
    } else if !update_fits(before[order.stock_id as int], order.user_rule, factor) {
        (before, Err(MarketError::Overflow))
    } else {
        (
            before.update(
                order.stock_id as int,
                updated(before[order.stock_id as int], order.user_rule, factor),
            ),
            Ok(order.stock_id),
        )
    }
}

/// Whatever the order, the symbol is stored with each ASCII letter in upper
/// case and every other character as it was: the stored symbol holds no
/// lower-case ASCII letter, is as long as it was, and upper-casing it again
/// changes nothing.
pub proof fn lemma_symbol_is_upper_cased(stock: StockView, rule: UserRule, factor: int)
    ensures
        updated(stock, rule, factor).symbol == upper_text(stock.symbol),
        upper_text(stock.symbol).len() == stock.symbol.len(),
        forall|i: int|
            0 <= i < stock.symbol.len() ==> !('a' <= #[trigger] upper_text(stock.symbol)[i] <= 'z'),
        upper_text(upper_text(stock.symbol)) == upper_text(stock.symbol),
{
    assert(upper_text(upper_text(stock.symbol)) =~= upper_text(stock.symbol));
}

/// A request to price anew leaves the volume as it is, and moves the price
/// by a factor from four fifths up to, but not including, six fifths: the
/// new price is the old one times the factor, rounded to the nearest
/// hundredth.
pub proof fn lemma_start_moves_price_only(stock: StockView, rule: UserRule, factor: int)
    requires
        rule.order == OrderType::Start,
        factor_allowed(rule.order, factor),
    ensures
        800_000 <= factor < 1_200_000,
        updated(stock, rule, factor).volume == stock.volume,
        updated(stock, rule, factor).price == round_half_away(stock.price * factor, 1_000_000),
        2 * abs(updated(stock, rule, factor).price * 1_000_000 - stock.price * factor)
            <= 1_000_000,
        stock.price >= 0 ==> 8 * stock.price - 5 <= 10 * updated(stock, rule, factor).price <= 12
            * stock.price + 5,
        stock.price <= 0 ==> 12 * stock.price - 5 <= 10 * updated(stock, rule, factor).price <= 8
            * stock.price + 5,
{
    lemma_round_half_away_is_nearest(stock.price * factor, 1_000_000);
    lemma_scaled_price_bounds(stock.price, factor, 800_000, 1_200_000);
}

/// A bid takes its quantity from the volume and moves the price by a factor
/// from one up to, but not including, six fifths, so a price that is not
/// negative does not fall. An ask gives its quantity back to the volume and
/// moves the price by a factor from four fifths up to, but not including,
/// one, so such a price does not rise.
pub proof fn lemma_bid_takes_ask_gives(stock: StockView, rule: UserRule, factor: int)
    requires
        factor_allowed(rule.order, factor),
    ensures
        updated(stock, rule, factor).price == round_half_away(stock.price * factor, 1_000_000),
        rule.order == OrderType::Bid ==> {
            &&& 1_000_000 <= factor < 1_200_000
            &&& updated(stock, rule, factor).volume == stock.volume - rule.volume
            &&& stock.price >= 0 ==> stock.price <= updated(stock, rule, factor).price
        },
        rule.order == OrderType::Ask ==> {
            &&& 800_000 <= factor < 1_000_000
            &&& updated(stock, rule, factor).volume == stock.volume + rule.volume
            &&& stock.price >= 0 ==> updated(stock, rule, factor).price <= stock.price
        },
{
    if rule.order == OrderType::Bid {
        lemma_scaled_price_bounds(stock.price, factor, 1_000_000, 1_200_000);
    }
    if rule.order == OrderType::Ask {
        lemma_scaled_price_bounds(stock.price, factor, 800_000, 1_000_000);
    }
}

/// Calls `str::to_ascii_uppercase` of the standard library, which maps each
/// ASCII letter from `a` to `z` to its upper-case form and leaves every other
/// character unchanged.
#[verifier::external_body]
fn ascii_uppercase(text: &str) -> (upper: String)
    ensures
        upper@ == upper_text(text@),
{
    text.to_ascii_uppercase()
}

/// Calls `Rng::gen_range` of `rand` on the generator that `rand::thread_rng`
/// returns, with the half-open range from `low` to `high`. The call panics on
/// an empty range; on any other it returns a number of the range. Which
/// number is left open: no two calls need agree. (Where the operating system
/// gives the generator no seed, `rand::thread_rng` panics.)
#[verifier::external_body]
fn draw_between(low: u32, high: u32) -> (drawn: u32)
    requires
        low < high,
    ensures
        low <= drawn < high,
{
    rand::thread_rng().gen_range(low..high)
}

/// The range of factors for an order of kind `kind`.
pub fn factor_bounds(kind: OrderType) -> (bounds: (u32, u32))
    ensures
        bounds == factor_range(kind),
        bounds.0 < bounds.1,
{
    match kind {
        OrderType::Start => (800_000, 1_200_000),
        OrderType::Bid => (1_000_000, 1_200_000),
        OrderType::Ask => (800_000, 1_000_000),
    }
}

/// Applies `rule` to `stock` with the drift `factor`: the price is scaled
/// and rounded to the hundredth, the volume follows the order's quantity and
/// the symbol is upper-cased. Returns `None` where the new price or volume
/// cannot be represented.
pub fn apply_rule(stock: &Stock, rule: &UserRule, factor: u32) -> (fresh: Option<Stock>)
    ensures
        fresh is Some <==> update_fits(stock@, *rule, factor as int),
        fresh is Some ==> fresh->0@ == updated(stock@, *rule, factor as int),
{
    let price = match scale_price(stock.price, factor) {
        Some(price) => price,
        None => { return None; },
    };
    let volume = match rule.order {
        OrderType::Start => Some(stock.volume),
        OrderType::Bid => stock.volume.checked_sub(rule.volume),
        OrderType::Ask => stock.volume.checked_add(rule.volume),
    };
    match volume {
        Some(volume) => Some(Stock { symbol: ascii_uppercase(stock.symbol.as_str()), price, volume }),
        None => None,
    }
}

/// Applies the work item `order` to the instrument it names, with the drift
/// `factor`, and returns the position to announce downstream. Nothing
/// changes where the position is out of range or the new instrument cannot
/// be represented.
pub fn update_stock_price_by(order: Order, stocks: &mut Vec<Stock>, factor: u32) -> (announced:
    Result<usize, MarketError>)
    ensures
        (stocks_view(final(stocks)@), announced) == update_outcome(
            stocks_view(old(stocks)@),
            order,
            factor as int,
        ),
        final(stocks).len() == old(stocks).len(),
{
    if order.stock_id >= stocks.len() {
        return Err(MarketError::IndexOutOfRange);
    }
    match apply_rule(&stocks[order.stock_id], &order.user_rule, factor) {
        Some(fresh) => {
            let written = write_instrument(stocks, order.stock_id, fresh);
            proof {
                lemma_write_keeps_others(old(stocks)@, order.stock_id as int, fresh);
            }
            match written {
                Ok(()) => Ok(order.stock_id),
                Err(refused) => Err(refused),
            }
        },
        None => Err(MarketError::Overflow),
    }
}

/// One tick of an updater: draws a factor from the range that belongs to the
/// kind of `order`, applies the order to the instrument it names and returns
/// the position to announce downstream. `_i` is the number of the updater,
/// which has no part in the result.
pub fn update_stock_price(_i: i32, order: Order, stocks: &mut Vec<Stock>) -> (announced: Result<
    usize,
    MarketError,
>)
    ensures
        exists|factor: int|
            factor_allowed(order.user_rule.order, factor) && (
            stocks_view(final(stocks)@),
            announced,
        ) == #[trigger] update_outcome(stocks_view(old(stocks)@), order, factor),
        final(stocks).len() == old(stocks).len(),
{
    let bounds = factor_bounds(order.user_rule.order);
    let factor: u32 = draw_between(bounds.0, bounds.1);
    update_stock_price_by(order, stocks, factor)
}

/// One tick of an updater that has no number: as `update_stock_price`.
pub fn simplified_update_stock_price(order: Order, stocks: &mut Vec<Stock>) -> (announced: Result<
    usize,
    MarketError,
>)
    ensures
        exists|factor: int|
            factor_allowed(order.user_rule.order, factor) && (
            stocks_view(final(stocks)@),
            announced,
        ) == #[trigger] update_outcome(stocks_view(old(stocks)@), order, factor),
        final(stocks).len() == old(stocks).len(),
{
    update_stock_price(0, order, stocks)
}

} // verus!
