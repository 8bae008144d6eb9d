//! The market's shared state: the instruments, addressed by position, and
//! the standing orders, addressed by symbol.
//!
//! Each operation is one read or one write. A caller that shares the state
//! between threads takes its lock for one operation at a time.

use crate::model::{MarketError, Stock, UserRule, stocks_view};
use vstd::hash_map::StringHashMap;
use vstd::prelude::*;

verus! {

/// The standing orders of a market: for each symbol that has any, its orders
/// in the order in which they were given.
pub struct RuleBook {
    rules: StringHashMap<Vec<UserRule>>,
}

impl View for RuleBook {
    type V = Map<Seq<char>, Seq<UserRule>>;

    closed spec fn view(&self) -> Map<Seq<char>, Seq<UserRule>> {
        self.rules@.map_values(|orders: Vec<UserRule>| orders@)
    }
}

/// The standing orders that `book` holds for `symbol`: none where the symbol
/// is unknown.
pub open spec fn standing_orders(book: Map<Seq<char>, Seq<UserRule>>, symbol: Seq<char>) -> Seq<
    UserRule,
> {
    if book.contains_key(symbol) {
        book[symbol]
    } else {
        Seq::empty()
    }
}

impl RuleBook {
    /// A book without orders.
    pub fn new() -> (book: RuleBook)
        ensures
            book@ == Map::<Seq<char>, Seq<UserRule>>::empty(),
    {
        let book = RuleBook { rules: StringHashMap::new() };
        assert(book@ =~= Map::<Seq<char>, Seq<UserRule>>::empty());
        book
    }

    /// Gives `symbol` the orders `orders`, in place of those it had.
    pub fn insert(&mut self, symbol: String, orders: Vec<UserRule>)
        ensures
            final(self)@ == old(self)@.insert(symbol@, orders@),
    {
        self.rules.insert(symbol, orders);
        assert(self@ =~= old(self)@.insert(symbol@, orders@));
    }

    /// Whether the book holds orders for `symbol`.
    pub fn contains(&self, symbol: &str) -> (known: bool)
        ensures
            known == self@.contains_key(symbol@),
    {
        self.rules.contains_key(symbol)
    }

    /// The number of symbols that have orders.
    pub fn len(&self) -> (count: usize)
        ensures
            count == self@.len(),
    {
        proof {
            self.lemma_same_symbols();
        }
        self.rules.len()
    }

    proof fn lemma_same_symbols(&self)
        ensures
            self@.dom() == self.rules@.dom(),
    {
        assert(self@.dom() =~= self.rules@.dom());
    }

    /// A copy of the standing orders of `symbol`, in their order; empty
    /// where the symbol has none.
    pub fn read_standing_orders(&self, symbol: &str) -> (orders: Vec<UserRule>)
        ensures
            orders@ == standing_orders(self@, symbol@),
    {
        let mut orders: Vec<UserRule> = Vec::new();
        match self.rules.get(symbol) {
            None => {},
            Some(held) => {
                let mut i: usize = 0;
                while i < held.len()
                    invariant
                        i <= held.len(),
                        orders@ == held@.take(i as int),
                    decreases held.len() - i,
                {
                    orders.push(held[i]);
                    assert(held@.take(i + 1) =~= held@.take(i as int).push(held@[i as int]));
                    i += 1;
                }
                assert(held@.take(held.len() as int) =~= held@);
            },
        }
        orders
    }
}

/// A copy of the instrument at `index`.
pub fn read_instrument(stocks: &Vec<Stock>, index: usize) -> (found: Result<Stock, MarketError>)
    ensures
        index < stocks.len() ==> found == Ok::<Stock, MarketError>(stocks[index as int]),
        index >= stocks.len() ==> found == Err::<Stock, MarketError>(MarketError::IndexOutOfRange),
{
    if index < stocks.len() {
        Ok(stocks[index].clone())
    } else {
        Err(MarketError::IndexOutOfRange)
    }
}

/// Puts `fresh` in place of the instrument at `index`; every other
/// instrument stays as it is. Nothing changes where `index` is out of range.
pub fn write_instrument(stocks: &mut Vec<Stock>, index: usize, fresh: Stock) -> (written: Result<
    (),
    MarketError,
>)
    ensures
        index < old(stocks).len() ==> written == Ok::<(), MarketError>(()) && final(stocks)@ == old(
            stocks,
        )@.update(index as int, fresh),
        index >= old(stocks).len() ==> written == Err::<(), MarketError>(
            MarketError::IndexOutOfRange,
        ) && final(stocks)@ == old(stocks)@,
{
    if index < stocks.len() {
        stocks.set(index, fresh);
        Ok(())
    } else {
        Err(MarketError::IndexOutOfRange)
    }
}

/// Writing at one position leaves what the instruments at the other
/// positions stand for untouched.
pub proof fn lemma_write_keeps_others(stocks: Seq<Stock>, index: int, fresh: Stock)
    requires
        0 <= index < stocks.len(),
    ensures
        stocks_view(stocks.update(index, fresh)) == stocks_view(stocks).update(index, fresh@),
        forall|other: int|
            0 <= other < stocks.len() && other != index ==> stocks_view(
                stocks.update(index, fresh),
            )[other] == stocks_view(stocks)[other],
{
    assert(stocks_view(stocks.update(index, fresh)) =~= stocks_view(stocks).update(index, fresh@));
}

} // verus!
