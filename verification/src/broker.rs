//! The broker stage: one announced position in, the matched standing
//! orders out.
//!
//! A broker reads the price and the symbol of the announced instrument, goes
//! through the standing orders of that symbol and hands each one that the
//! price satisfies back to the updaters, as a work item on the same
//! instrument. A standing order is never used up: it stays in the book and
//! may match again.

use crate::model::{MarketError, Order, OrderType, Stock, UserRule};
use crate::state::{RuleBook, read_instrument, standing_orders};
use vstd::prelude::*;

verus! {

/// Whether the standing order `rule` is satisfied at `price`: a bid at or
/// above the price, an ask at or below it. A request to price anew is never
/// satisfied.
pub open spec fn rule_matches(rule: UserRule, price: int) -> bool {
    match rule.order {
        OrderType::Start => false,
        OrderType::Bid => price <= rule.price,
        OrderType::Ask => price >= rule.price,
    }
}

/// The work items that a broker hands back for the instrument at
/// `stock_id`, priced at `price`, whose symbol has the standing orders
/// `rules`: one for each order that the price satisfies, in the order of the
/// book.
pub open spec fn reinjected(stock_id: usize, price: int, rules: Seq<UserRule>) -> Seq<Order> {
    rules.filter(|rule: UserRule| rule_matches(rule, price)).map_values(
        |rule: UserRule| Order { stock_id, user_rule: rule },
    )
}

impl UserRule {
    /// Whether the order is satisfied at `price`.
    pub fn matches(&self, price: i64) -> (hit: bool)
        ensures
            hit == rule_matches(*self, price as int),
    {
        match self.order {
            OrderType::Start => false,
            OrderType::Bid => price <= self.price,
            OrderType::Ask => price >= self.price,
        }
    }
}

/// A bid with the trigger price `P` is satisfied at the prices up to and
/// including `P`, and at no other; an ask with the trigger price `P` at the
/// prices from `P` upwards, and at no other; a request to price anew at
/// none.
pub proof fn lemma_matching_law(rule: UserRule, price: int)
    ensures
        rule.order == OrderType::Bid ==> (rule_matches(rule, price) <==> price <= rule.price),
        rule.order == OrderType::Ask ==> (rule_matches(rule, price) <==> price >= rule.price),
        rule.order == OrderType::Start ==> !rule_matches(rule, price),
{
}

/// Each work item that a broker hands back names the announced instrument
/// and carries a standing order of the book that the price satisfies; and
/// each such standing order is carried by one of them.
pub proof fn lemma_reinjected_are_the_matches(stock_id: usize, price: int, rules: Seq<UserRule>)
    ensures
        reinjected(stock_id, price, rules).len() <= rules.len(),
        forall|i: int|
            0 <= i < reinjected(stock_id, price, rules).len() ==> {
                let order = #[trigger] reinjected(stock_id, price, rules)[i];
                &&& order.stock_id == stock_id
                &&& rule_matches(order.user_rule, price)
                &&& rules.contains(order.user_rule)
            },
        forall|j: int|
            0 <= j < rules.len() && rule_matches(#[trigger] rules[j], price) ==> reinjected(
                stock_id,
                price,
                rules,
            ).contains(Order { stock_id, user_rule: rules[j] }),
{
    let hit = |rule: UserRule| rule_matches(rule, price);
    let kept = rules.filter(hit);
    let out = reinjected(stock_id, price, rules);
    rules.lemma_filter_len(hit);
    assert forall|i: int| 0 <= i < out.len() implies {
        let order = #[trigger] out[i];
        &&& order.stock_id == stock_id
        &&& rule_matches(order.user_rule, price)
        &&& rules.contains(order.user_rule)
    } by {
        rules.lemma_filter_pred(hit, i);
        assert(kept.contains(kept[i]));
        rules.lemma_filter_contains_rev(hit, kept[i]);
    }
    assert forall|j: int| 0 <= j < rules.len() && rule_matches(#[trigger] rules[j], price) implies out.contains(
        Order { stock_id, user_rule: rules[j] },
    ) by {
        rules.lemma_filter_contains(hit, j);
        let k = choose|k: int| 0 <= k < kept.len() && kept[k] == rules[j];
        assert(out[k] == Order { stock_id, user_rule: rules[j] });
    }
}

/// One announced position evaluated by a broker: the work items to hand back
/// to the updaters. `_i` is the number of the broker, which has no part in
/// the result.
pub fn process_user_order(_i: i32, stocks: &Vec<Stock>, rules: &RuleBook, updated_stock: usize) -> (
    orders: Result<Vec<Order>, MarketError>
)
    ensures
        updated_stock >= stocks.len() ==> orders == Err::<Vec<Order>, MarketError>(
            MarketError::IndexOutOfRange,
        ),
        updated_stock < stocks.len() ==> orders is Ok && orders->Ok_0@ == reinjected(
            updated_stock,
            stocks[updated_stock as int].price as int,
            standing_orders(rules@, stocks[updated_stock as int].symbol@),
        ),
{
    let stock = match read_instrument(stocks, updated_stock) {
        Ok(stock) => stock,
        Err(refused) => { return Err(refused); },
    };
    let price: i64 = stock.price;
    let listed = rules.read_standing_orders(stock.symbol.as_str());
    let mut orders: Vec<Order> = Vec::new();
    let mut i: usize = 0;
    assert(listed@.take(0) =~= Seq::<UserRule>::empty());
    assert(reinjected(updated_stock, price as int, listed@.take(0)) =~= Seq::<Order>::empty()) by {
        reveal(Seq::filter);
    }
    while i < listed.len()
        invariant
            i <= listed.len(),
            orders@ == reinjected(updated_stock, price as int, listed@.take(i as int)),
        decreases listed.len() - i,
    {
        let rule = listed[i];
        proof {
            let longer = listed@.take(i + 1);
            assert(longer.drop_last() =~= listed@.take(i as int));
            assert(longer.last() == rule);
            reveal(Seq::filter);
            let hit = |rule: UserRule| rule_matches(rule, price as int);
            assert(longer.filter(hit) == if hit(rule) {
                listed@.take(i as int).filter(hit).push(rule)
            } else {
                listed@.take(i as int).filter(hit)
            });
        }
        if rule.matches(price) {
            orders.push(Order { stock_id: updated_stock, user_rule: rule });
        }
        assert(orders@ =~= reinjected(updated_stock, price as int, listed@.take(i + 1)));
        i += 1;
    }
    assert(listed@.take(listed.len() as int) =~= listed@);
    Ok(orders)
}

/// One evaluation by a broker of the instrument at position one, which is
/// the one position that this variant looks at.
pub fn simplified_process_user_order(stocks: &Vec<Stock>, rules: &RuleBook) -> (orders: Result<
    Vec<Order>,
    MarketError,
>)
    ensures
        stocks.len() <= 1 ==> orders == Err::<Vec<Order>, MarketError>(
            MarketError::IndexOutOfRange,
        ),
        stocks.len() > 1 ==> orders is Ok && orders->Ok_0@ == reinjected(
            1,
            stocks[1].price as int,
            standing_orders(rules@, stocks[1].symbol@),
        ),
{
    process_user_order(0, stocks, rules, 1)
}

} // verus!
