//! Reading the two seed files: the instruments and the standing orders.
//!
//! The instrument file holds one instrument per line: symbol, price and
//! volume, separated by commas. The file of standing orders holds one symbol
//! per line, a colon, and the symbol's orders separated by semicolons; an
//! order is a user's number, the word for its kind, a trigger price and a
//! quantity, separated by commas. One malformed line fails the whole load. A
//! file that could not be read stands for an empty market.

use crate::model::{MarketError, OrderType, Stock, StockView, UserRule};
use crate::state::RuleBook;
use crate::text::{
    Span, chars_of, int32_in, int32_value, line_spans, price_in, price_value, spans_between,
    spans_of, split_on, split_span, text_lines,
};
use vstd::prelude::*;
use vstd::string::StrSliceExecFns;

verus! {

/// The instrument that `line` describes, where it is well formed: three
/// fields, of which the second is a decimal and the third an integer.
pub open spec fn stock_of_line(line: Seq<char>) -> Option<StockView> {
    let fields = split_on(line, ',');
    if fields.len() == 3 && price_value(fields[1]) is Some && int32_value(fields[2]) is Some {
        Some(
            StockView {
                symbol: fields[0],
                price: price_value(fields[1])->0 as int,
                volume: int32_value(fields[2])->0 as int,
            },
        )
    } else {
        None
    }
}

/// The standing order that `text` describes, where it is well formed: four
/// fields, which are an integer, the word for a kind, a decimal and an
/// integer.
pub open spec fn rule_of_text(text: Seq<char>) -> Option<UserRule> {
    let fields = split_on(text, ',');
    if fields.len() == 4 && int32_value(fields[0]) is Some && OrderType::of_token(fields[1]) is Some
        && price_value(fields[2]) is Some && int32_value(fields[3]) is Some {
        Some(
            UserRule {
                user_id: int32_value(fields[0])->0,
                order: OrderType::of_token(fields[1])->0,
                price: price_value(fields[2])->0,
                volume: int32_value(fields[3])->0,
            },
        )
    } else {
        None
    }
}

/// What one line of the file of standing orders says: a symbol and its
/// orders, in their order.
pub struct RuleLine {
    pub symbol: Seq<char>,
    pub rules: Seq<UserRule>,
}

/// Whether each of `texts` describes a standing order.
pub open spec fn all_rules(texts: Seq<Seq<char>>) -> bool {
    forall|i: int| 0 <= i < texts.len() ==> rule_of_text(#[trigger] texts[i]) is Some
}

/// What `line` says, where it is well formed: a symbol, one colon, and one
/// or more well-formed orders between semicolons.
pub open spec fn rule_line_of(line: Seq<char>) -> Option<RuleLine> {
    let parts = split_on(line, ':');
    if parts.len() == 2 && all_rules(split_on(parts[1], ';')) {
        Some(
            RuleLine {
                symbol: parts[0],
                rules: split_on(parts[1], ';').map_values(|text: Seq<char>| rule_of_text(text)->0),
            },
        )
    } else {
        None
    }
}

/// The book that the well-formed lines among `lines` fill, each line giving
/// its symbol the orders it lists; where a symbol comes again, the later line
/// replaces the earlier.
pub open spec fn book_of(lines: Seq<Seq<char>>) -> Map<Seq<char>, Seq<UserRule>>
    decreases lines.len(),
{
    if lines.len() == 0 {
        Map::empty()
    } else {
        let before = book_of(lines.drop_last());
        match rule_line_of(lines.last()) {
            Some(said) => before.insert(said.symbol, said.rules),
            None => before,
        }
    }
}

/// Whether `line` is the position of the first of `lines` that describes no
/// instrument.
pub open spec fn first_bad_stock_line(lines: Seq<Seq<char>>, line: int) -> bool {
    &&& 0 <= line < lines.len()
    &&& stock_of_line(lines[line]) is None
    &&& forall|j: int| 0 <= j < line ==> stock_of_line(#[trigger] lines[j]) is Some
}

/// Whether `line` is the position of the first of `lines` that is no
/// well-formed line of standing orders.
pub open spec fn first_bad_rule_line(lines: Seq<Seq<char>>, line: int) -> bool {
    &&& 0 <= line < lines.len()
    &&& rule_line_of(lines[line]) is None
    &&& forall|j: int| 0 <= j < line ==> rule_line_of(#[trigger] lines[j]) is Some
}

/// The symbol that the line at `i` names.
pub open spec fn symbol_at(lines: Seq<Seq<char>>, i: int) -> Seq<char> {
    rule_line_of(lines[i])->0.symbol
}

/// The orders that the line at `i` lists, in their order.
pub open spec fn rules_at(lines: Seq<Seq<char>>, i: int) -> Seq<UserRule> {
    rule_line_of(lines[i])->0.rules
}

/// Whether the line at `i` is the last of `lines` that names `symbol`.
pub open spec fn last_line_for(lines: Seq<Seq<char>>, symbol: Seq<char>, i: int) -> bool {
    &&& 0 <= i < lines.len()
    &&& symbol_at(lines, i) == symbol
    &&& forall|j: int| i < j < lines.len() ==> #[trigger] symbol_at(lines, j) != symbol
}

/// The book that well-formed lines fill holds the symbols that the lines
/// name and no other, and gives each symbol the orders of the last line that
/// names it, in the order in which that line lists them.
pub proof fn lemma_book_holds_each_symbol(lines: Seq<Seq<char>>)
    requires
        forall|i: int| 0 <= i < lines.len() ==> rule_line_of(#[trigger] lines[i]) is Some,
    ensures
        forall|symbol: Seq<char>|
            #[trigger] book_of(lines).contains_key(symbol) <==> exists|i: int|
                0 <= i < lines.len() && #[trigger] symbol_at(lines, i) == symbol,
        forall|symbol: Seq<char>, i: int| #[trigger]
            last_line_for(lines, symbol, i) ==> book_of(lines)[symbol] == rules_at(lines, i),
    decreases lines.len(),
{
    if lines.len() > 0 {
        let earlier = lines.drop_last();
        let end = lines.len() - 1;
        lemma_book_holds_each_symbol(earlier);
        assert(forall|i: int| 0 <= i < end ==> symbol_at(earlier, i) == symbol_at(lines, i));
        assert(book_of(lines) == book_of(earlier).insert(
            symbol_at(lines, end),
            rules_at(lines, end),
        ));
        assert forall|symbol: Seq<char>| #[trigger]
            book_of(lines).contains_key(symbol) <==> exists|i: int|
                0 <= i < lines.len() && #[trigger] symbol_at(lines, i) == symbol by {
            if book_of(lines).contains_key(symbol) {
                if symbol == symbol_at(lines, end) {
                } else {
                    assert(book_of(earlier).contains_key(symbol));
                    let i = choose|i: int|
                        0 <= i < earlier.len() && #[trigger] symbol_at(earlier, i) == symbol;
                    assert(symbol_at(lines, i) == symbol);
                }
            }
            if exists|i: int| 0 <= i < lines.len() && #[trigger] symbol_at(lines, i) == symbol {
                let i = choose|i: int| 0 <= i < lines.len() && #[trigger] symbol_at(lines, i) == symbol;
                if i < end {
                    assert(symbol_at(earlier, i) == symbol);
                    assert(book_of(earlier).contains_key(symbol));
                }
            }
        }
        assert forall|symbol: Seq<char>, i: int| #[trigger]
            last_line_for(lines, symbol, i) implies book_of(lines)[symbol] == rules_at(
            lines,
            i,
        ) by {
            if i < end {
                assert(symbol_at(lines, end) != symbol);
                assert(last_line_for(earlier, symbol, i)) by {
                    assert forall|j: int| i < j < earlier.len() implies #[trigger] symbol_at(
                        earlier,
                        j,
                    ) != symbol by {
                        assert(symbol_at(lines, j) != symbol);
                    }
                }
                assert(rules_at(earlier, i) == rules_at(lines, i));
            }
        }
    }
}

/// The kind that the stretch `span` of `chars` names.
fn kind_in(chars: &Vec<char>, span: Span) -> (kind: Option<OrderType>)
    requires
        span.within(chars.len() as int),
    ensures
        kind == OrderType::of_token(span.of(chars@)),
{
    proof {
        reveal_strlit("Start");
        reveal_strlit("Bid");
        reveal_strlit("Ask");
    }
    let ghost word = span.of(chars@);
    let at: usize = span.start;
    let len: usize = span.end - span.start;
    assert(forall|k: int| 0 <= k < len ==> word[k] == chars@[at + k]);
    if len == 5 && chars[at] == 'S' && chars[at + 1] == 't' && chars[at + 2] == 'a' && chars[at
        + 3] == 'r' && chars[at + 4] == 't' {
        assert(word =~= "Start"@);
        Some(OrderType::Start)
    } else if len == 3 && chars[at] == 'B' && chars[at + 1] == 'i' && chars[at + 2] == 'd' {
        assert(word =~= "Bid"@);
        assert(word.len() != "Start"@.len());
        Some(OrderType::Bid)
    } else if len == 3 && chars[at] == 'A' && chars[at + 1] == 's' && chars[at + 2] == 'k' {
        assert(word =~= "Ask"@);
        assert(word.len() != "Start"@.len());
        assert(word[0] != "Bid"@[0]);
        Some(OrderType::Ask)
    } else {
        assert(word != "Start"@) by {
            if word == "Start"@ {
                assert(word.len() == 5);
                assert(word[0] == 'S' && word[1] == 't' && word[2] == 'a' && word[3] == 'r'
                    && word[4] == 't');
            }
        }
        assert(word != "Bid"@) by {
            if word == "Bid"@ {
                assert(word.len() == 3);
                assert(word[0] == 'B' && word[1] == 'i' && word[2] == 'd');
            }
        }
        assert(word != "Ask"@) by {
            if word == "Ask"@ {
                assert(word.len() == 3);
                assert(word[0] == 'A' && word[1] == 's' && word[2] == 'k');
            }
        }
        None
    }
}

impl OrderType {
    /// The kind that `token` stands for: `Start`, `Bid` or `Ask`, told apart
    /// by case. Any other word stands for none.
    pub fn parse(token: &str) -> (kind: Option<OrderType>)
        ensures
            kind == OrderType::of_token(token@),
    {
        let chars = chars_of(token);
        assert(chars@.subrange(0, chars.len() as int) =~= chars@);
        kind_in(&chars, Span { start: 0, end: chars.len() })
    }
}

/// The instrument that the stretch `line` of the text describes.
fn stock_in(text: &str, chars: &Vec<char>, line: Span) -> (stock: Option<Stock>)
    requires
        chars@ == text@,
        line.within(chars.len() as int),
    ensures
        match stock {
            Some(stock) => stock_of_line(line.of(chars@)) == Some(stock@),
            None => stock_of_line(line.of(chars@)) is None,
        },
{
    let fields = split_span(chars, line.start, line.end, ',');
    let ghost said = split_on(line.of(chars@), ',');
    assert(spans_of(fields@, chars@).len() == fields.len());
    if fields.len() != 3 {
        return None;
    }
    assert(fields[0].of(chars@) == said[0] && fields[1].of(chars@) == said[1] && fields[2].of(
        chars@,
    ) == said[2]) by {
        assert(spans_of(fields@, chars@)[0] == fields[0].of(chars@));
        assert(spans_of(fields@, chars@)[1] == fields[1].of(chars@));
        assert(spans_of(fields@, chars@)[2] == fields[2].of(chars@));
    }
    let price = match price_in(chars, fields[1]) {
        Some(price) => price,
        None => { return None; },
    };
    let volume = match int32_in(chars, fields[2]) {
        Some(volume) => volume,
        None => { return None; },
    };
    let symbol = text.substring_char(fields[0].start, fields[0].end).to_owned();
    Some(Stock { symbol, price, volume })
}

/// The standing order that the stretch `span` of `chars` describes.
fn rule_in(chars: &Vec<char>, span: Span) -> (rule: Option<UserRule>)
    requires
        span.within(chars.len() as int),
    ensures
        rule == rule_of_text(span.of(chars@)),
{
    let fields = split_span(chars, span.start, span.end, ',');
    let ghost said = split_on(span.of(chars@), ',');
    assert(spans_of(fields@, chars@).len() == fields.len());
    if fields.len() != 4 {
        return None;
    }
    assert(fields[0].of(chars@) == said[0] && fields[1].of(chars@) == said[1] && fields[2].of(
        chars@,
    ) == said[2] && fields[3].of(chars@) == said[3]) by {
        assert(spans_of(fields@, chars@)[0] == fields[0].of(chars@));
        assert(spans_of(fields@, chars@)[1] == fields[1].of(chars@));
        assert(spans_of(fields@, chars@)[2] == fields[2].of(chars@));
        assert(spans_of(fields@, chars@)[3] == fields[3].of(chars@));
    }
    let user_id = match int32_in(chars, fields[0]) {
        Some(user_id) => user_id,
        None => { return None; },
    };
    let order = match kind_in(chars, fields[1]) {
        Some(order) => order,
        None => { return None; },
    };
    let price = match price_in(chars, fields[2]) {
        Some(price) => price,
        None => { return None; },
    };
    let volume = match int32_in(chars, fields[3]) {
        Some(volume) => volume,
        None => { return None; },
    };
    Some(UserRule { user_id, order, price, volume })
}

/// The symbol and the orders that the stretch `line` of the text gives.
#[verifier::loop_isolation(false)]
fn rule_line_in(text: &str, chars: &Vec<char>, line: Span) -> (said: Option<(String, Vec<UserRule>)>)
    requires
        chars@ == text@,
        line.within(chars.len() as int),
    ensures
        match said {
            Some((symbol, rules)) => rule_line_of(line.of(chars@)) == Some(
                RuleLine { symbol: symbol@, rules: rules@ },
            ),
            None => rule_line_of(line.of(chars@)) is None,
        },
{
    let parts = split_span(chars, line.start, line.end, ':');
    assert(spans_of(parts@, chars@).len() == parts.len());
    if parts.len() != 2 {
        return None;
    }
    let ghost halves = split_on(line.of(chars@), ':');
    assert(parts[0].of(chars@) == halves[0] && parts[1].of(chars@) == halves[1]) by {
        assert(spans_of(parts@, chars@)[0] == parts[0].of(chars@));
        assert(spans_of(parts@, chars@)[1] == parts[1].of(chars@));
    }
    let listed = split_span(chars, parts[1].start, parts[1].end, ';');
    let ghost texts = split_on(halves[1], ';');
    assert(spans_of(listed@, chars@).len() == listed.len());
    let mut rules: Vec<UserRule> = Vec::new();
    let mut i: usize = 0;
    while i < listed.len()
        invariant
            i <= listed.len() == texts.len(),
            spans_of(listed@, chars@) == texts,
            rules.len() == i,
            forall|j: int| 0 <= j < i ==> rule_of_text(#[trigger] texts[j]) == Some(rules@[j]),
        decreases listed.len() - i,
    {
        assert(listed[i as int].of(chars@) == texts[i as int]) by {
            assert(spans_of(listed@, chars@)[i as int] == listed[i as int].of(chars@));
        }
        match rule_in(chars, listed[i]) {
            Some(rule) => {
                rules.push(rule);
            },
            None => {
                assert(!all_rules(texts));
                return None;
            },
        }
        i += 1;
    }
    assert(all_rules(texts));
    assert(rules@ =~= texts.map_values(|text: Seq<char>| rule_of_text(text)->0));
    let symbol = text.substring_char(parts[0].start, parts[0].end).to_owned();
    Some((symbol, rules))
}

/// Reads the instrument file. `file` is the text of the file, or `None`
/// where the file could not be read, which stands for a market without
/// instruments. Each line gives one instrument, and the instruments come in
/// the order of their lines. The first malformed line fails the load and is
/// named in the error.
#[verifier::loop_isolation(false)]
pub fn read_stock_file_to_vector(file: Option<&str>) -> (loaded: Result<Vec<Stock>, MarketError>)
    ensures
        match (file, loaded) {
            (None, Ok(stocks)) => stocks.len() == 0,
            (Some(text), Ok(stocks)) => {
                &&& stocks.len() == text_lines(text@).len()
                &&& forall|i: int|
                    0 <= i < stocks.len() ==> stock_of_line(#[trigger] text_lines(text@)[i])
                        == Some(stocks[i]@)
            },
            (Some(text), Err(MarketError::ParseError { line })) => first_bad_stock_line(
                text_lines(text@),
                line as int,
            ),
            _ => false,
        },
{
    let mut stocks: Vec<Stock> = Vec::new();
    let text = match file {
        Some(text) => text,
        None => { return Ok(stocks); },
    };
    let chars = chars_of(text);
    let lines = line_spans(&chars);
    let ghost said = text_lines(text@);
    assert(spans_of(lines@, chars@).len() == lines.len());
    let mut i: usize = 0;
    while i < lines.len()
        invariant
            chars@ == text@,
            i <= lines.len() == said.len(),
            spans_of(lines@, chars@) == said,
            spans_between(lines@, 0, chars.len() as int),
            stocks.len() == i,
            forall|j: int| 0 <= j < i ==> stock_of_line(#[trigger] said[j]) == Some(stocks[j]@),
        decreases lines.len() - i,
    {
        assert(lines[i as int].of(chars@) == said[i as int]) by {
            assert(spans_of(lines@, chars@)[i as int] == lines[i as int].of(chars@));
        }
        match stock_in(text, &chars, lines[i]) {
            Some(stock) => {
                stocks.push(stock);
            },
            None => {
                return Err(MarketError::ParseError { line: i });
            },
        }
        i += 1;
    }
    Ok(stocks)
}

/// Reads the file of standing orders. `file` is the text of the file, or
/// `None` where the file could not be read, which stands for a market
/// without standing orders. Each line gives one symbol its orders, in the
/// order in which the line lists them; a later line for the same symbol
/// replaces an earlier one. The first malformed line fails the load and is
/// named in the error.
#[verifier::loop_isolation(false)]
pub fn read_user_rule_file_to_hashmap(file: Option<&str>) -> (loaded: Result<
    RuleBook,
    MarketError,
>)
    ensures
        match (file, loaded) {
            (None, Ok(book)) => book@ == Map::<Seq<char>, Seq<UserRule>>::empty(),
            (Some(text), Ok(book)) => {
                &&& forall|i: int|
                    0 <= i < text_lines(text@).len() ==> rule_line_of(
                        #[trigger] text_lines(text@)[i],
                    ) is Some
                &&& book@ == book_of(text_lines(text@))
            },
            (Some(text), Err(MarketError::ParseError { line })) => first_bad_rule_line(
                text_lines(text@),
                line as int,
            ),
            _ => false,
        },
{
    let mut book = RuleBook::new();
    let text = match file {
        Some(text) => text,
        None => { return Ok(book); },
    };
    let chars = chars_of(text);
    let lines = line_spans(&chars);
    let ghost said = text_lines(text@);
    assert(spans_of(lines@, chars@).len() == lines.len());
    assert(said.take(0) =~= Seq::<Seq<char>>::empty());
    let mut i: usize = 0;
    while i < lines.len()
        invariant
            chars@ == text@,
            i <= lines.len() == said.len(),
            spans_of(lines@, chars@) == said,
            spans_between(lines@, 0, chars.len() as int),
            forall|j: int| 0 <= j < i ==> rule_line_of(#[trigger] said[j]) is Some,
            book@ == book_of(said.take(i as int)),
        decreases lines.len() - i,
    {
        assert(lines[i as int].of(chars@) == said[i as int]) by {
            assert(spans_of(lines@, chars@)[i as int] == lines[i as int].of(chars@));
        }
        match rule_line_in(text, &chars, lines[i]) {
            Some((symbol, rules)) => {
                assert(said.take(i + 1).drop_last() =~= said.take(i as int));
                assert(said.take(i + 1).last() == said[i as int]);
                book.insert(symbol, rules);
            },
            None => {
                return Err(MarketError::ParseError { line: i });
            },
        }
        i += 1;
    }
    assert(said.take(lines.len() as int) =~= said);
    Ok(book)
}

} // verus!
