//! Splitting text into lines and fields, and reading numbers from fields.
//!
//! The functions that do the work take the characters of a text and a span
//! of positions in it, so that no piece of the text is copied before it is
//! known to be wanted.

use crate::price::round_half_away;
use vstd::prelude::*;

verus! {

/// The pieces of `s` that lie between the occurrences of `sep`, in order.
/// There is one piece more than there are separators; a piece is empty where
/// two separators meet, and where one stands first or last.
pub open spec fn split_on(s: Seq<char>, sep: char) -> Seq<Seq<char>>
    decreases s.len(),
{
    if s.len() == 0 {
        seq![Seq::empty()]
    } else {
        let before = split_on(s.drop_last(), sep);
        if s.last() == sep {
            before.push(Seq::empty())
        } else {
            before.drop_last().push(before.last().push(s.last()))
        }
    }
}

/// `line` without the carriage return that it may end in.
pub open spec fn strip_cr(line: Seq<char>) -> Seq<char> {
    if line.len() > 0 && line.last() == '\r' {
        line.drop_last()
    } else {
        line
    }
}

/// The lines of `text`. A line ends in a line feed, or in a carriage return
/// and a line feed, neither of which belongs to it. What follows the last
/// line feed is a line of its own unless it is empty.
pub open spec fn text_lines(text: Seq<char>) -> Seq<Seq<char>> {
    let pieces = split_on(text, '\n');
    let ended = pieces.drop_last().map_values(|piece: Seq<char>| strip_cr(piece));
    if pieces.last().len() == 0 {
        ended
    } else {
        ended.push(pieces.last())
    }
}

/// Whether `c` is one of the ten ASCII digits.
pub open spec fn is_digit(c: char) -> bool {
    '0' <= c && c <= '9'
}

/// The number that the ASCII digit `c` stands for.
pub open spec fn digit_value(c: char) -> nat {
    if is_digit(c) {
        (c as u32 - '0' as u32) as nat
    } else {
        0
    }
}

/// Whether `s` holds ASCII digits only.
pub open spec fn all_digits(s: Seq<char>) -> bool {
    forall|i: int| 0 <= i < s.len() ==> is_digit(#[trigger] s[i])
}

/// The number that the digits `s` write in base ten.
pub open spec fn digits_value(s: Seq<char>) -> nat
    decreases s.len(),
{
    if s.len() == 0 {
        0
    } else {
        digits_value(s.drop_last()) * 10 + digit_value(s.last())
    }
}

/// Whether `s` begins with a minus sign.
pub open spec fn is_negative(s: Seq<char>) -> bool {
    s.len() > 0 && s[0] == '-'
}

/// `s` without the sign that it may begin with.
pub open spec fn unsigned_part(s: Seq<char>) -> Seq<char> {
    if s.len() > 0 && (s[0] == '-' || s[0] == '+') {
        s.drop_first()
    } else {
        s
    }
}

/// `magnitude` with the sign that `negative` asks for.
pub open spec fn signed(negative: bool, magnitude: int) -> int {
    if negative {
        -magnitude
    } else {
        magnitude
    }
}

/// The integer that `s` writes: an optional sign and at least one digit.
pub open spec fn integer_value(s: Seq<char>) -> Option<int> {
    let body = unsigned_part(s);
    if body.len() > 0 && all_digits(body) {
        Some(signed(is_negative(s), digits_value(body) as int))
    } else {
        None
    }
}

/// The integer that `s` writes, where it can be held in 32 bits.
pub open spec fn int32_value(s: Seq<char>) -> Option<i32> {
    match integer_value(s) {
        Some(v) => if i32::MIN <= v <= i32::MAX {
            Some(v as i32)
        } else {
            None
        },
        None => None,
    }
}

/// The hundredths that the digits after a decimal point amount to: the
/// first two digits, and one more where the third digit is five or above.
pub open spec fn fraction_hundredths(frac: Seq<char>) -> nat {
    (if frac.len() > 0 {
        digit_value(frac[0]) * 10
    } else {
        0
    }) + (if frac.len() > 1 {
        digit_value(frac[1])
    } else {
        0
    }) + (if frac.len() > 2 && digit_value(frac[2]) >= 5 {
        1nat
    } else {
        0nat
    })
}

/// The number of hundredths that the decimal `s` writes, rounded to the
/// nearest with a tie going away from zero. A decimal is an optional sign,
/// digits, and optionally a point and more digits; at least one digit must
/// be there.
pub open spec fn decimal_hundredths(s: Seq<char>) -> Option<int> {
    let parts = split_on(unsigned_part(s), '.');
    let whole = parts[0];
    let frac = if parts.len() == 2 {
        parts[1]
    } else {
        Seq::empty()
    };
    if parts.len() <= 2 && all_digits(whole) && all_digits(frac) && whole.len() + frac.len() > 0 {
        Some(signed(is_negative(s), (digits_value(whole) * 100 + fraction_hundredths(frac)) as int))
    } else {
        None
    }
}

/// The price that the decimal `s` writes, in hundredths, where it can be
/// held in 64 bits.
pub open spec fn price_value(s: Seq<char>) -> Option<i64> {
    match decimal_hundredths(s) {
        Some(v) => if i64::MIN <= v <= i64::MAX {
            Some(v as i64)
        } else {
            None
        },
        None => None,
    }
}

/// A stretch of a text: the positions from `start` up to, not including,
/// `end`.
#[derive(Debug, Clone, Copy)]
pub struct Span {
    pub start: usize,
    pub end: usize,
}

impl Span {
    /// Whether the span lies in a text of `len` characters.
    pub open spec fn within(self, len: int) -> bool {
        self.start <= self.end <= len
    }

    /// The characters of `s` that the span covers.
    pub open spec fn of(self, s: Seq<char>) -> Seq<char> {
        s.subrange(self.start as int, self.end as int)
    }
}

/// The stretches of `s` that `spans` cover, in order.
pub open spec fn spans_of(spans: Seq<Span>, s: Seq<char>) -> Seq<Seq<char>> {
    spans.map_values(|span: Span| span.of(s))
}

/// Whether each of `spans` lies between `from` and `to`.
pub open spec fn spans_between(spans: Seq<Span>, from: int, to: int) -> bool {
    forall|k: int|
        0 <= k < spans.len() ==> from <= (#[trigger] spans[k]).start <= spans[k].end <= to
}

/// There is always a first piece.
pub proof fn lemma_split_on_nonempty(s: Seq<char>, sep: char)
    ensures
        split_on(s, sep).len() >= 1,
    decreases s.len(),
{
    if s.len() > 0 {
        lemma_split_on_nonempty(s.drop_last(), sep);
    }
}

/// The pieces `pieces` put together again, with `sep` between each two.
pub open spec fn join_with(pieces: Seq<Seq<char>>, sep: char) -> Seq<char>
    decreases pieces.len(),
{
    if pieces.len() == 0 {
        Seq::empty()
    } else if pieces.len() == 1 {
        pieces[0]
    } else {
        join_with(pieces.drop_last(), sep).push(sep) + pieces.last()
    }
}

/// Splitting loses nothing and cuts at every separator: the pieces, put
/// together again with the separator between them, give the text back, and
/// no piece holds a separator.
pub proof fn lemma_split_on_joins_back(s: Seq<char>, sep: char)
    ensures
        split_on(s, sep).len() >= 1,
        join_with(split_on(s, sep), sep) == s,
        forall|k: int, i: int|
            0 <= k < split_on(s, sep).len() && 0 <= i < split_on(s, sep)[k].len() ==> (
            #[trigger] split_on(s, sep)[k][i]) != sep,
    decreases s.len(),
{
    if s.len() == 0 {
        assert(join_with(split_on(s, sep), sep) =~= s);
    } else {
        let before = split_on(s.drop_last(), sep);
        lemma_split_on_joins_back(s.drop_last(), sep);
        let pieces = split_on(s, sep);
        if s.last() == sep {
            assert(pieces.drop_last() =~= before);
            assert(pieces.len() >= 2 && pieces.last() =~= Seq::<char>::empty());
            assert(join_with(pieces, sep) == join_with(before, sep).push(sep) + pieces.last());
            let joined = join_with(before, sep);
            assert(joined == s.drop_last());
            assert(joined.push(sep) + Seq::<char>::empty() =~= joined.push(sep));
            assert(s.drop_last().push(sep) =~= s);
        } else {
            let grown = before.last().push(s.last());
            assert(pieces == before.drop_last().push(grown));
            assert(pieces.drop_last() =~= before.drop_last());
            assert(s.drop_last().push(s.last()) =~= s);
            if before.len() > 1 {
                let head = join_with(before.drop_last(), sep).push(sep);
                assert(join_with(before, sep) == head + before.last());
                assert(join_with(pieces, sep) == head + grown);
                assert(head + grown =~= (head + before.last()).push(s.last()));
            } else {
                assert(join_with(before, sep) == before[0]);
                assert(join_with(pieces, sep) == grown);
            }
            assert forall|k: int, i: int|
                0 <= k < pieces.len() && 0 <= i < pieces[k].len() implies (#[trigger] pieces[k][i])
                != sep by {
                if k < pieces.len() - 1 {
                    assert(pieces[k] == before[k]);
                    assert(before[k][i] != sep);
                } else if i < before.last().len() {
                    assert(before[k][i] != sep);
                }
            }
        }
    }
}

/// The digits of a longer text write no smaller a number than its first
/// `k` digits do.
pub proof fn lemma_digits_value_grows(s: Seq<char>, k: int)
    requires
        0 <= k <= s.len(),
    ensures
        digits_value(s.take(k)) <= digits_value(s),
    decreases s.len(),
{
    if k == s.len() {
        assert(s.take(k) == s);
    } else {
        lemma_digits_value_grows(s.drop_last(), k);
        assert(s.drop_last().take(k) == s.take(k));
    }
}

/// Ten to the power `k`.
pub open spec fn pow10(k: nat) -> nat
    decreases k,
{
    if k == 0 {
        1
    } else {
        10 * pow10((k - 1) as nat)
    }
}

/// Digits write a number below ten to the power of their count.
pub proof fn lemma_digits_value_bound(s: Seq<char>)
    requires
        all_digits(s),
    ensures
        digits_value(s) < pow10(s.len()),
    decreases s.len(),
{
    if s.len() > 0 {
        assert(all_digits(s.drop_last())) by {
            assert forall|i: int| 0 <= i < s.drop_last().len() implies is_digit(
                #[trigger] s.drop_last()[i],
            ) by {
                assert(s.drop_last()[i] == s[i]);
            }
        }
        lemma_digits_value_bound(s.drop_last());
        assert(is_digit(s.last()));
    }
}

/// Digits written after other digits: the first are worth ten to the power
/// of the count of the second.
pub proof fn lemma_digits_value_concat(a: Seq<char>, b: Seq<char>)
    ensures
        digits_value(a + b) == digits_value(a) * pow10(b.len()) + digits_value(b),
    decreases b.len(),
{
    if b.len() == 0 {
        assert(a + b =~= a);
        assert(pow10(b.len()) == 1 && digits_value(b) == 0);
    } else {
        lemma_digits_value_concat(a, b.drop_last());
        assert((a + b).drop_last() =~= a + b.drop_last());
        assert((a + b).last() == b.last());
        let high = digits_value(a) as int;
        let low = digits_value(b.drop_last()) as int;
        let scale = pow10(b.drop_last().len()) as int;
        let unit = digit_value(b.last()) as int;
        assert(digits_value(a + b) == (high * scale + low) * 10 + unit);
        assert(pow10(b.len()) == 10 * scale);
        assert(digits_value(b) == low * 10 + unit);
        assert((high * scale + low) * 10 + unit == high * (10 * scale) + (low * 10 + unit))
            by (nonlinear_arith);
    }
}

/// The hundredths that a decimal is read as are the hundredths nearest to
/// the number it writes, a tie going away from zero: with `whole` before the
/// point and `frac` after it, the decimal writes the number of the digits of
/// both, divided by ten to the power of the count of `frac`.
pub proof fn lemma_decimal_is_rounded_to_nearest(whole: Seq<char>, frac: Seq<char>)
    requires
        all_digits(whole),
        all_digits(frac),
    ensures
        digits_value(whole) * 100 + fraction_hundredths(frac) == round_half_away(
            (digits_value(whole + frac) * 100) as int,
            pow10(frac.len()) as int,
        ),
{
    let k = frac.len();
    let d = pow10(k) as int;
    let w = digits_value(whole) as int;
    let f = digits_value(frac) as int;
    let h = fraction_hundredths(frac) as int;
    lemma_digits_value_concat(whole, frac);
    lemma_digits_value_bound(frac);
    reveal_with_fuel(pow10, 4);
    reveal_with_fuel(digits_value, 4);
    assert((2 * h - 1) * d <= 200 * f < (2 * h + 1) * d) by {
        if k == 0 {
            assert(d == 1 && f == 0 && h == 0);
        } else if k == 1 {
            assert(frac.drop_last().len() == 0);
            assert(is_digit(frac[0]));
            assert(d == 10 && f == digit_value(frac[0]) && h == 10 * f);
        } else if k == 2 {
            assert(frac.drop_last().drop_last().len() == 0);
            assert(frac.drop_last().last() == frac[0]);
            assert(is_digit(frac[0]) && is_digit(frac[1]));
            assert(d == 100 && f == 10 * digit_value(frac[0]) + digit_value(frac[1]) && h == f);
        } else {
            let head = frac.take(3);
            let rest = frac.skip(3);
            assert(head + rest =~= frac);
            lemma_digits_value_concat(head, rest);
            assert(all_digits(rest)) by {
                assert forall|i: int| 0 <= i < rest.len() implies is_digit(#[trigger] rest[i]) by {
                    assert(rest[i] == frac[i + 3]);
                }
            }
            lemma_digits_value_bound(rest);
            let e = pow10(rest.len()) as int;
            let r = digits_value(rest) as int;
            assert(rest.len() == k - 3);
            assert(d == 1000 * e);
            assert(head.drop_last() =~= frac.take(2));
            assert(frac.take(2).drop_last() =~= frac.take(1));
            assert(frac.take(1).drop_last().len() == 0);
            assert(head.last() == frac[2] && frac.take(2).last() == frac[1] && frac.take(1).last()
                == frac[0]);
            assert(is_digit(frac[0]) && is_digit(frac[1]) && is_digit(frac[2]));
            let t = digits_value(head) as int;
            let f1 = digit_value(frac[0]) as int;
            let f2 = digit_value(frac[1]) as int;
            let f3 = digit_value(frac[2]) as int;
            assert(t == 100 * f1 + 10 * f2 + f3);
            assert(f == t * e + r);
            let c: int = if f3 >= 5 {
                1
            } else {
                0
            };
            assert(h == 10 * f1 + f2 + c);
            assert((2 * h - 1) * d <= 200 * f < (2 * h + 1) * d) by (nonlinear_arith)
                requires
                    d == 1000 * e,
                    f == t * e + r,
                    0 <= r < e,
                    t == 100 * f1 + 10 * f2 + f3,
                    h == 10 * f1 + f2 + c,
                    0 <= f3 <= 9,
                    c == if f3 >= 5 { 1int } else { 0int },
            ;
        }
    }
    let n = (digits_value(whole + frac) * 100) as int;
    let q = w * 100 + h;
    let rem = 2 * n + d - q * (2 * d);
    assert(rem == 200 * f + d - 2 * h * d) by (nonlinear_arith)
        requires
            n == (w * d + f) * 100,
            q == w * 100 + h,
            rem == 2 * n + d - q * (2 * d),
    ;
    assert(0 <= rem < 2 * d) by (nonlinear_arith)
        requires
            rem == 200 * f + d - 2 * h * d,
            (2 * h - 1) * d <= 200 * f < (2 * h + 1) * d,
    ;
    vstd::arithmetic::div_mod::lemma_fundamental_div_mod_converse(2 * n + d, 2 * d, q, rem);
}

/// The characters of `text`, in order.
pub fn chars_of(text: &str) -> (chars: Vec<char>)
    ensures
        chars@ == text@,
{
    let mut chars: Vec<char> = Vec::new();
    for c in it: text.chars()
        invariant
            it.seq() == text@,
            chars@ == text@.take(it.index() as int),
    {
        assert(text@.take(it.index() + 1) == text@.take(it.index() as int).push(c));
        chars.push(c);
    }
    chars
}

/// The number that `c` stands for, where it is a digit.
pub fn digit_of(c: char) -> (d: Option<u8>)
    ensures
        d is Some <==> is_digit(c),
        d is Some ==> d->0 as nat == digit_value(c),
{
    if '0' <= c && c <= '9' {
        Some((c as u32 - '0' as u32) as u8)
    } else {
        None
    }
}

/// Splits the stretch of `chars` from `from` to `to` at each `sep`.
pub fn split_span(chars: &Vec<char>, from: usize, to: usize, sep: char) -> (spans: Vec<Span>)
    requires
        from <= to <= chars.len(),
    ensures
        spans_of(spans@, chars@) == split_on(chars@.subrange(from as int, to as int), sep),
        spans_between(spans@, from as int, to as int),
{
    let mut spans: Vec<Span> = Vec::new();
    let mut start: usize = from;
    let mut i: usize = from;
    assert(chars@.subrange(from as int, from as int) =~= Seq::<char>::empty());
    assert(spans_of(spans@, chars@).push(chars@.subrange(start as int, i as int)) =~= seq![
        Seq::<char>::empty(),
    ]);
    while i < to
        invariant
            from <= start <= i <= to <= chars.len(),
            spans_between(spans@, from as int, i as int),
            spans_of(spans@, chars@).push(chars@.subrange(start as int, i as int)) == split_on(
                chars@.subrange(from as int, i as int),
                sep,
            ),
        decreases to - i,
    {
        let ghost done = spans_of(spans@, chars@);
        let ghost current = chars@.subrange(start as int, i as int);
        let ghost longer = chars@.subrange(from as int, i + 1);
        assert(longer.drop_last() =~= chars@.subrange(from as int, i as int));
        assert(longer.last() == chars@[i as int]);
        assert(done.push(current).drop_last() =~= done);
        if chars[i] == sep {
            spans.push(Span { start, end: i });
            start = i + 1;
            assert(spans_of(spans@, chars@) =~= done.push(current));
            assert(chars@.subrange(start as int, i + 1) =~= Seq::<char>::empty());
        } else {
            assert(chars@.subrange(start as int, i + 1) =~= current.push(chars@[i as int]));
        }
        i += 1;
    }
    let ghost done = spans_of(spans@, chars@);
    spans.push(Span { start, end: to });
    assert(spans_of(spans@, chars@) =~= done.push(chars@.subrange(start as int, to as int)));
    spans
}

/// The lines of the text `chars`, as spans.
pub fn line_spans(chars: &Vec<char>) -> (lines: Vec<Span>)
    ensures
        spans_of(lines@, chars@) == text_lines(chars@),
        spans_between(lines@, 0, chars.len() as int),
{
    let pieces = split_span(chars, 0, chars.len(), '\n');
    assert(chars@.subrange(0, chars.len() as int) =~= chars@);
    proof {
        lemma_split_on_nonempty(chars@, '\n');
    }
    let ghost all = split_on(chars@, '\n');
    assert(pieces.len() == all.len()) by {
        assert(spans_of(pieces@, chars@).len() == pieces.len());
    }
    let mut lines: Vec<Span> = Vec::new();
    let last: usize = pieces.len() - 1;
    let mut k: usize = 0;
    while k < last
        invariant
            k <= last == pieces.len() - 1,
            spans_of(pieces@, chars@) == all,
            spans_between(pieces@, 0, chars.len() as int),
            spans_between(lines@, 0, chars.len() as int),
            spans_of(lines@, chars@) == all.take(k as int).map_values(
                |piece: Seq<char>| strip_cr(piece),
            ),
        decreases last - k,
    {
        let piece = pieces[k];
        assert(piece.of(chars@) == all[k as int]) by {
            assert(spans_of(pieces@, chars@)[k as int] == piece.of(chars@));
        }
        let line = if piece.start < piece.end && chars[piece.end - 1] == '\r' {
            Span { start: piece.start, end: (piece.end - 1) as usize }
        } else {
            piece
        };
        assert(line.of(chars@) =~= strip_cr(piece.of(chars@)));
        let ghost before = spans_of(lines@, chars@);
        lines.push(line);
        assert(spans_of(lines@, chars@) =~= before.push(line.of(chars@)));
        assert(all.take(k + 1).map_values(|piece: Seq<char>| strip_cr(piece)) =~= all.take(
            k as int,
        ).map_values(|piece: Seq<char>| strip_cr(piece)).push(strip_cr(all[k as int])));
        k += 1;
    }
    assert(all.take(last as int) =~= all.drop_last());
    let tail = pieces[last];
    assert(tail.of(chars@) == all.last()) by {
        assert(spans_of(pieces@, chars@)[last as int] == tail.of(chars@));
    }
    if tail.start < tail.end {
        let ghost before = spans_of(lines@, chars@);
        lines.push(tail);
        assert(spans_of(lines@, chars@) =~= before.push(tail.of(chars@)));
    }
    lines
}

/// Whether the stretch `span` of `chars` holds digits only.
pub fn all_digits_in(chars: &Vec<char>, span: Span) -> (yes: bool)
    requires
        span.within(chars.len() as int),
    ensures
        yes == all_digits(span.of(chars@)),
{
    let mut i: usize = span.start;
    while i < span.end
        invariant
            span.start <= i <= span.end <= chars.len(),
            forall|j: int| span.start <= j < i ==> is_digit(#[trigger] chars@[j]),
        decreases span.end - i,
    {
        if digit_of(chars[i]).is_none() {
            assert(!is_digit(span.of(chars@)[i - span.start]));
            return false;
        }
        i += 1;
    }
    assert forall|j: int| 0 <= j < span.of(chars@).len() implies is_digit(
        #[trigger] span.of(chars@)[j],
    ) by {
        assert(span.of(chars@)[j] == chars@[span.start + j]);
    }
    true
}

/// The greatest `limit` that `digits_in` takes.
pub const DIGITS_LIMIT: u64 = 1_000_000_000_000_000_000;

/// The number that the stretch `span` of `chars` writes in base ten, where
/// the stretch holds digits only and the number does not exceed `limit`.
pub fn digits_in(chars: &Vec<char>, span: Span, limit: u64) -> (value: Option<u64>)
    requires
        span.within(chars.len() as int),
        limit <= DIGITS_LIMIT,
    ensures
        value == if all_digits(span.of(chars@)) && digits_value(span.of(chars@)) <= limit {
            Some(digits_value(span.of(chars@)) as u64)
        } else {
            None
        },
{
    let ghost text = span.of(chars@);
    let mut value: u64 = 0;
    let mut i: usize = span.start;
    assert(text.take(0) =~= Seq::<char>::empty());
    while i < span.end
        invariant
            span.start <= i <= span.end <= chars.len(),
            text == span.of(chars@),
            limit <= DIGITS_LIMIT,
            all_digits(text.take(i - span.start)),
            value == digits_value(text.take(i - span.start)),
            value <= limit,
        decreases span.end - i,
    {
        let ghost seen = text.take(i - span.start);
        let ghost longer = text.take(i - span.start + 1);
        assert(longer.drop_last() =~= seen);
        assert(longer.last() == chars@[i as int]);
        match digit_of(chars[i]) {
            None => {
                assert(!is_digit(text[i - span.start]));
                return None;
            },
            Some(d) => {
                value = value * 10 + d as u64;
                if value > limit {
                    proof {
                        lemma_digits_value_grows(text, i - span.start + 1);
                    }
                    return None;
                }
            },
        }
        i += 1;
    }
    assert(text.take(span.end - span.start) =~= text);
    Some(value)
}

/// The integer that the stretch `span` of `chars` writes, where it can be
/// held in 32 bits.
pub fn int32_in(chars: &Vec<char>, span: Span) -> (value: Option<i32>)
    requires
        span.within(chars.len() as int),
    ensures
        value == int32_value(span.of(chars@)),
{
    let ghost text = span.of(chars@);
    let signed = span.start < span.end && (chars[span.start] == '-' || chars[span.start] == '+');
    let negative = span.start < span.end && chars[span.start] == '-';
    let body = if signed {
        Span { start: span.start + 1, end: span.end }
    } else {
        span
    };
    assert(negative == is_negative(text));
    assert(body.of(chars@) =~= unsigned_part(text));
    if body.start == body.end {
        return None;
    }
    match digits_in(chars, body, 0x8000_0000) {
        None => None,
        Some(magnitude) => {
            if negative {
                Some((-(magnitude as i64)) as i32)
            } else if magnitude <= 0x7fff_ffff {
                Some(magnitude as i32)
            } else {
                None
            }
        },
    }
}

/// The price that the stretch `span` of `chars` writes as a decimal, in
/// hundredths, where it can be held in 64 bits.
pub fn price_in(chars: &Vec<char>, span: Span) -> (value: Option<i64>)
    requires
        span.within(chars.len() as int),
    ensures
        value == price_value(span.of(chars@)),
{
    let ghost text = span.of(chars@);
    let signed = span.start < span.end && (chars[span.start] == '-' || chars[span.start] == '+');
    let negative = span.start < span.end && chars[span.start] == '-';
    let body = if signed {
        Span { start: span.start + 1, end: span.end }
    } else {
        span
    };
    assert(negative == is_negative(text));
    assert(body.of(chars@) =~= unsigned_part(text));
    let parts = split_span(chars, body.start, body.end, '.');
    let ghost pieces = split_on(unsigned_part(text), '.');
    proof {
        lemma_split_on_nonempty(unsigned_part(text), '.');
        assert(spans_of(parts@, chars@).len() == parts.len());
    }
    if parts.len() > 2 {
        return None;
    }
    let whole = parts[0];
    assert(whole.of(chars@) == pieces[0]) by {
        assert(spans_of(parts@, chars@)[0] == whole.of(chars@));
    }
    let frac = if parts.len() == 2 {
        parts[1]
    } else {
        Span { start: body.end, end: body.end }
    };
    assert(frac.of(chars@) =~= if pieces.len() == 2 {
        pieces[1]
    } else {
        Seq::<char>::empty()
    }) by {
        if parts.len() == 2 {
            assert(spans_of(parts@, chars@)[1] == parts[1].of(chars@));
        }
    }
    if whole.start == whole.end && frac.start == frac.end {
        return None;
    }
    if !all_digits_in(chars, frac) {
        return None;
    }
    // Above this many whole units no price fits, whatever its sign.
    let units = match digits_in(chars, whole, 92_233_720_368_547_759) {
        Some(units) => units,
        None => { return None; },
    };
    let ghost fraction = frac.of(chars@);
    let mut hundredths: u64 = 0;
    if frac.end - frac.start > 0 {
        assert(fraction[0] == chars@[frac.start as int]);
        let tenth = digit_of(chars[frac.start]);
        hundredths = (tenth.unwrap() as u64) * 10;
    }
    if frac.end - frac.start > 1 {
        assert(fraction[1] == chars@[frac.start + 1]);
        let hundredth = digit_of(chars[frac.start + 1]);
        hundredths = hundredths + hundredth.unwrap() as u64;
    }
    if frac.end - frac.start > 2 {
        assert(fraction[2] == chars@[frac.start + 2]);
        let next = digit_of(chars[frac.start + 2]);
        if next.unwrap() >= 5 {
            hundredths = hundredths + 1;
        }
    }
    assert(hundredths == fraction_hundredths(fraction));
    let magnitude: u64 = units * 100 + hundredths;
    if negative {
        if magnitude <= 0x8000_0000_0000_0000 {
            Some((-(magnitude as i128)) as i64)
        } else {
            None
        }
    } else if magnitude <= 0x7fff_ffff_ffff_ffff {
        Some(magnitude as i64)
    } else {
        None
    }
}

} // verus!
