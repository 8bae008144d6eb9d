//! The broadcaster stage: one announced position in, one copy for each
//! broker out.

use crate::model::{MarketError, Stock};
use vstd::prelude::*;

verus! {

/// What the broadcaster delivers for the position `index`: the same
/// position to each of `brokers` brokers.
pub open spec fn fan_out(index: usize, brokers: nat) -> Seq<usize> {
    Seq::new(brokers, |broker: int| index)
}

/// One tick of the broadcaster: the deliveries for the announced position
/// `index`, one for each of `brokers` brokers, each of which is to evaluate
/// the update for itself. A position that the market does not hold is
/// refused.
pub fn broadcast_update(stocks: &Vec<Stock>, index: usize, brokers: usize) -> (deliveries: Result<
    Vec<usize>,
    MarketError,
>)
    ensures
        index >= stocks.len() ==> deliveries == Err::<Vec<usize>, MarketError>(
            MarketError::IndexOutOfRange,
        ),
        index < stocks.len() ==> deliveries is Ok && deliveries->Ok_0@ == fan_out(
            index,
            brokers as nat,
        ),
{
    if index >= stocks.len() {
        return Err(MarketError::IndexOutOfRange);
    }
    let mut deliveries: Vec<usize> = Vec::new();
    let mut broker: usize = 0;
    while broker < brokers
        invariant
            broker <= brokers,
            deliveries@ == fan_out(index, broker as nat),
        decreases brokers - broker,
    {
        deliveries.push(index);
        assert(deliveries@ =~= fan_out(index, (broker + 1) as nat));
        broker += 1;
    }
    Ok(deliveries)
}

} // verus!
