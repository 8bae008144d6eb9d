//! What a run of updates makes of a market.
//!
//! Each update replaces one instrument in one step, so whatever the threads
//! that perform them, the updates of a run take effect one after another, in
//! some order. The laws below hold of every such order: an update touches no
//! instrument but its own, and an instrument ends as its own updates leave
//! it, whatever was done to the others in between.

use crate::model::{Order, StockView};
use crate::updater::{update_fits, update_outcome, updated};
use vstd::prelude::*;

verus! {

/// One update as an updater performed it: the work item, and the factor
/// that was drawn for it.
pub struct Update {
    pub order: Order,
    pub factor: int,
}

/// The instruments after the update `update`.
pub open spec fn after_update(before: Seq<StockView>, update: Update) -> Seq<StockView> {
    update_outcome(before, update.order, update.factor).0
}

/// The instruments after the updates `updates`, performed in their order.
pub open spec fn after_updates(before: Seq<StockView>, updates: Seq<Update>) -> Seq<StockView>
    decreases updates.len(),
{
    if updates.len() == 0 {
        before
    } else {
        after_update(after_updates(before, updates.drop_last()), updates.last())
    }
}

/// One instrument after an update that names it: changed where the outcome
/// can be represented, and as it was where it cannot.
pub open spec fn stock_after_update(stock: StockView, update: Update) -> StockView {
    if update_fits(stock, update.order.user_rule, update.factor) {
        updated(stock, update.order.user_rule, update.factor)
    } else {
        stock
    }
}

/// One instrument after the updates `updates`, all of which name it.
pub open spec fn stock_after_updates(stock: StockView, updates: Seq<Update>) -> StockView
    decreases updates.len(),
{
    if updates.len() == 0 {
        stock
    } else {
        stock_after_update(stock_after_updates(stock, updates.drop_last()), updates.last())
    }
}

/// Those of `updates` that name the instrument at `index`, in their order.
pub open spec fn addressed_to(updates: Seq<Update>, index: int) -> Seq<Update> {
    updates.filter(|update: Update| update.order.stock_id == index)
}

/// An update leaves the number of instruments as it is, and leaves each
/// instrument but the one it names untouched.
pub proof fn lemma_update_touches_one(before: Seq<StockView>, update: Update)
    ensures
        after_update(before, update).len() == before.len(),
        forall|other: int|
            0 <= other < before.len() && other != update.order.stock_id ==> after_update(
                before,
                update,
            )[other] == before[other],
        update.order.stock_id < before.len() ==> after_update(
            before,
            update,
        )[update.order.stock_id as int] == stock_after_update(
            before[update.order.stock_id as int],
            update,
        ),
{
}

/// A run of updates leaves the number of instruments as it is.
pub proof fn lemma_updates_keep_count(before: Seq<StockView>, updates: Seq<Update>)
    ensures
        after_updates(before, updates).len() == before.len(),
    decreases updates.len(),
{
    if updates.len() > 0 {
        lemma_updates_keep_count(before, updates.drop_last());
        lemma_update_touches_one(after_updates(before, updates.drop_last()), updates.last());
    }
}

/// After any run of updates, the instrument at `index` is what the updates
/// that name it make of it, in their order: the updates of the other
/// instruments, wherever they fall in the run, have no part in it.
pub proof fn lemma_final_state_by_own_updates(
    before: Seq<StockView>,
    updates: Seq<Update>,
    index: int,
)
    requires
        0 <= index < before.len(),
    ensures
        after_updates(before, updates)[index] == stock_after_updates(
            before[index],
            addressed_to(updates, index),
        ),
    decreases updates.len(),
{
    reveal(Seq::filter);
    if updates.len() > 0 {
        let earlier = updates.drop_last();
        let last = updates.last();
        lemma_final_state_by_own_updates(before, earlier, index);
        lemma_updates_keep_count(before, earlier);
        lemma_update_touches_one(after_updates(before, earlier), last);
        if last.order.stock_id == index {
            assert(addressed_to(updates, index) == addressed_to(earlier, index).push(last));
            assert(addressed_to(earlier, index).push(last).drop_last() =~= addressed_to(
                earlier,
                index,
            ));
        } else {
            assert(addressed_to(updates, index) == addressed_to(earlier, index));
        }
    }
}

/// Two updates that name different instruments give the same market in
/// either order.
pub proof fn lemma_distinct_updates_commute(before: Seq<StockView>, first: Update, second: Update)
    requires
        first.order.stock_id != second.order.stock_id,
    ensures
        after_update(after_update(before, first), second) == after_update(
            after_update(before, second),
            first,
        ),
{
    assert(after_update(after_update(before, first), second) =~= after_update(
        after_update(before, second),
        first,
    ));
}

/// Two runs that hold the same updates for the instrument at `index`, in the
/// same order, leave that instrument the same, however the updates of the
/// other instruments differ or fall between them.
pub proof fn lemma_same_own_updates_same_end(
    before: Seq<StockView>,
    one: Seq<Update>,
    other: Seq<Update>,
    index: int,
)
    requires
        0 <= index < before.len(),
        addressed_to(one, index) == addressed_to(other, index),
    ensures
        after_updates(before, one)[index] == after_updates(before, other)[index],
{
    lemma_final_state_by_own_updates(before, one, index);
    lemma_final_state_by_own_updates(before, other, index);
}

} // verus!
