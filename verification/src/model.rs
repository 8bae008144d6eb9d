//! The market's data: instruments, standing orders, work items and errors.

use vstd::prelude::*;

verus! {

/// The kind of an order.
///
/// `Start` asks for an instrument to be priced anew and has no economic
/// meaning; `Bid` buys when the price is at or below a trigger; `Ask` sells
/// when the price is at or above a trigger.
#[derive(Debug, Clone, Copy, PartialEq, Eq, Structural)]
pub enum OrderType {
    Start,
    Bid,
    Ask,
}

/// A user's standing order on one instrument.
///
/// `price` is the trigger price in hundredths; `volume` is the quantity
/// that changes hands each time the order is matched.
#[derive(Debug, Clone, Copy, PartialEq, Eq, Structural)]
pub struct UserRule {
    pub user_id: i32,
    pub order: OrderType,
    pub price: i64,
    pub volume: i32,
}

/// A work item: the position of an instrument and the order to apply to it.
#[derive(Debug, Clone, Copy, PartialEq, Eq, Structural)]
pub struct Order {
    pub stock_id: usize,
    pub user_rule: UserRule,
}

/// A tradable instrument. `price` counts hundredths of a currency unit.
#[derive(Debug, PartialEq, Eq)]
pub struct Stock {
    pub symbol: String,
    pub price: i64,
    pub volume: i32,
}

/// What a `Stock` stands for: its symbol as a sequence of characters, its
/// price in hundredths and its available volume.
pub struct StockView {
    pub symbol: Seq<char>,
    pub price: int,
    pub volume: int,
}

impl View for Stock {
    type V = StockView;

    open spec fn view(&self) -> StockView {
        StockView { symbol: self.symbol@, price: self.price as int, volume: self.volume as int }
    }
}

impl Clone for Stock {
    fn clone(&self) -> (copy: Self)
        ensures
            copy == *self,
    {
        Stock { symbol: self.symbol.clone(), price: self.price, volume: self.volume }
    }
}

impl core::ops::Deref for Stock {
    type Target = i64;

    /// An instrument is read as its price.
    fn deref(&self) -> (price: &i64)
        ensures
            *price == self.price,
    {
        &self.price
    }
}

/// What the instruments of a market stand for, position by position.
pub open spec fn stocks_view(stocks: Seq<Stock>) -> Seq<StockView> {
    stocks.map_values(|s: Stock| s@)
}

/// Why an operation on the market was refused.
#[derive(Debug, Clone, Copy, PartialEq, Eq, Structural)]
pub enum MarketError {
    /// The line with this position (counted from zero) is malformed.
    ParseError { line: usize },
    /// A work item names an instrument that the market does not hold.
    IndexOutOfRange,
    /// The new price or volume cannot be represented.
    Overflow,
}

impl OrderType {
    /// The word that stands for the kind in a file of standing orders.
    pub open spec fn token(self) -> Seq<char> {
        match self {
            OrderType::Start => "Start"@,
            OrderType::Bid => "Bid"@,
            OrderType::Ask => "Ask"@,
        }
    }

    /// The kind that `token` stands for: the three words are told apart by
    /// case, and no other word stands for a kind.
    pub open spec fn of_token(token: Seq<char>) -> Option<OrderType> {
        if token == OrderType::Start.token() {
            Some(OrderType::Start)
        } else if token == OrderType::Bid.token() {
            Some(OrderType::Bid)
        } else if token == OrderType::Ask.token() {
            Some(OrderType::Ask)
        } else {
            None
        }
    }

    /// The word that stands for the kind.
    pub fn name(self) -> (word: &'static str)
        ensures
            word@ == self.token(),
    {
        match self {
            OrderType::Start => "Start",
            OrderType::Bid => "Bid",
            OrderType::Ask => "Ask",
        }
    }

    /// A kind is read back from its own word.
    pub proof fn lemma_token_round_trip(self)
        ensures
            OrderType::of_token(self.token()) == Some(self),
    {
        reveal_strlit("Start");
        reveal_strlit("Bid");
        reveal_strlit("Ask");
        assert("Start"@[0] != "Bid"@[0]);
        assert("Start"@[0] != "Ask"@[0]);
        assert("Bid"@[0] != "Ask"@[0]);
    }
}

impl UserRule {
    /// The order carried by the work items that prime the pipeline: no user,
    /// no price, no quantity, only the request to price anew.
    pub open spec fn spec_start() -> UserRule {
        UserRule { user_id: (-1) as i32, order: OrderType::Start, price: 0, volume: 0 }
    }

    #[verifier::when_used_as_spec(spec_start)]
    pub fn start() -> (rule: UserRule)
        ensures
            rule == Self::spec_start(),
    {
        UserRule { user_id: -1, order: OrderType::Start, price: 0, volume: 0 }
    }
}

} // verus!
