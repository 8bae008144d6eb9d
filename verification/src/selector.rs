//! The selector stage: the work items that prime the pipeline.

use crate::model::{Order, Stock, UserRule};
use vstd::prelude::*;

verus! {

/// The work items that prime a market of `count` instruments: one request
/// to price anew for each position, in the order of the positions.
pub open spec fn priming_orders(count: nat) -> Seq<Order> {
    Seq::new(count, |i: int| Order { stock_id: i as usize, user_rule: UserRule::spec_start() })
}

/// The work items with which the selector primes the pipeline: for each
/// instrument of `stocks`, in the order of their positions, one request to
/// price it anew.
pub fn select_and_send_stock(stocks: &Vec<Stock>) -> (orders: Vec<Order>)
    ensures
        orders@ == priming_orders(stocks.len() as nat),
{
    let count: usize = stocks.len();
    let mut orders: Vec<Order> = Vec::new();
    let mut i: usize = 0;
    while i < count
        invariant
            i <= count,
            orders@ == priming_orders(i as nat),
        decreases count - i,
    {
        orders.push(Order { stock_id: i, user_rule: UserRule::start() });
        assert(orders@ =~= priming_orders((i + 1) as nat));
        i += 1;
    }
    orders
}

/// As `select_and_send_stock`: the selector has no other way to prime the
/// pipeline.
pub fn simplified_select_and_send_stock(stocks: &Vec<Stock>) -> (orders: Vec<Order>)
    ensures
        orders@ == priming_orders(stocks.len() as nat),
{
    select_and_send_stock(stocks)
}

} // verus!
