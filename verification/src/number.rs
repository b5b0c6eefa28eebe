//! Numbers.
//!
//! A number enters the language as a decimal literal and is combined with
//! others by addition and subtraction. The interpreter never looks at the
//! value of a number, so it keeps each number as the arithmetic expression
//! that denotes it: which literals, combined by which operations, in which
//! order. The expression fixes the double-precision value bit for bit.
use vstd::prelude::*;

verus! {

/// A decimal digit.
pub open spec fn is_digit(c: char) -> bool {
    '0' <= c <= '9'
}

/// A plus or a minus sign.
pub open spec fn is_sign(c: char) -> bool {
    c == '+' || c == '-'
}

/// The lower-case form of an ASCII capital letter; any other character is
/// left as it is.
pub open spec fn lower(c: char) -> char {
    if 'A' <= c <= 'Z' {
        ((c as u32) + 32) as char
    } else {
        c
    }
}

/// Whether `text` is `word` up to the case of its ASCII letters, for a `word`
/// written in lower case.
pub open spec fn spells(text: Seq<char>, word: Seq<char>) -> bool {
    &&& text.len() == word.len()
    &&& forall|i: int| 0 <= i < text.len() ==> lower(#[trigger] text[i]) == word[i]
}

/// Whether `text` holds digits only; it may be empty.
pub open spec fn is_digits(text: Seq<char>) -> bool {
    forall|i: int| 0 <= i < text.len() ==> is_digit(#[trigger] text[i])
}

/// Whether `text` is digits around a decimal point at `point`: digits may
/// be missing before the point or after it, not both.
pub open spec fn is_pointed(text: Seq<char>, point: int) -> bool {
    &&& 0 <= point < text.len()
    &&& text.len() > 1
    &&& text[point] == '.'
    &&& is_digits(text.take(point))
    &&& is_digits(text.skip(point + 1))
}

/// Whether `text` is the digits of a decimal number: at least one digit,
/// with or without a decimal point before, among or after the digits.
pub open spec fn is_mantissa(text: Seq<char>) -> bool {
    ||| text.len() > 0 && is_digits(text)
    ||| exists|point: int| is_pointed(text, point)
}

/// Whether `text` is an exponent: the letter `e` in either case, an
/// optional sign, and at least one digit.
pub open spec fn is_exponent(text: Seq<char>) -> bool {
    let digits = if text.len() > 1 && is_sign(text[1]) {
        text.skip(2)
    } else {
        text.skip(1)
    };
    &&& text.len() > 0
    &&& lower(text[0]) == 'e'
    &&& digits.len() > 0
    &&& is_digits(digits)
}

/// Whether `text` is the digits of a decimal number up to `at` and, if
/// anything follows, an exponent from there on.
pub open spec fn is_decimal_split(text: Seq<char>, at: int) -> bool {
    &&& 0 <= at <= text.len()
    &&& is_mantissa(text.take(at))
    &&& at == text.len() || is_exponent(text.skip(at))
}

/// Whether `text` is an unsigned decimal number: digits with an optional
/// decimal point, then an optional exponent.
pub open spec fn is_decimal(text: Seq<char>) -> bool {
    exists|at: int| is_decimal_split(text, at)
}

/// Whether `text` names a value that is no finite number: infinity or
/// not-a-number, in any letter case.
pub open spec fn is_special(text: Seq<char>) -> bool {
    ||| spells(text, seq!['i', 'n', 'f'])
    ||| spells(text, seq!['i', 'n', 'f', 'i', 'n', 'i', 't', 'y'])
    ||| spells(text, seq!['n', 'a', 'n'])
}

/// `text` without its leading sign, if it has one.
pub open spec fn unsigned_part(text: Seq<char>) -> Seq<char> {
    if text.len() > 0 && is_sign(text[0]) {
        text.drop_first()
    } else {
        text
    }
}

/// Whether `text` is a literal of a double-precision number: an optional
/// sign, then a decimal number or the name of a special value. This is the
/// grammar by which Rust reads an `f64` from a string.
pub open spec fn is_number_literal(text: Seq<char>) -> bool {
    is_decimal(unsigned_part(text)) || is_special(unsigned_part(text))
}

/// A number, held as the arithmetic expression that denotes it.
///
/// The value of `Zero` is positive zero, the value of a literal is the double
/// nearest to the decimal number that it writes, and the value of a sum or a
/// difference is the rounded sum or difference of the values of its two sides.
#[derive(Debug, PartialEq, Eq)]
pub enum Num {
    /// Positive zero, the sum of no numbers.
    Zero,
    /// A number as it was written in the source.
    Literal(String),
    /// The left side plus the right side.
    Sum(Box<Num>, Box<Num>),
    /// The left side minus the right side.
    Difference(Box<Num>, Box<Num>),
}

/// The mathematical form of a `Num`.
pub ghost enum NumView {
    Zero,
    Literal(Seq<char>),
    Sum(Box<NumView>, Box<NumView>),
    Difference(Box<NumView>, Box<NumView>),
}

impl Num {
    /// The expression as a mathematical value.
    pub open spec fn model(&self) -> NumView
        decreases self,
    {
        match self {
            Num::Zero => NumView::Zero,
            Num::Literal(text) => NumView::Literal(text@),
            Num::Sum(left, right) => NumView::Sum(Box::new(left.model()), Box::new(right.model())),
            Num::Difference(left, right) => NumView::Difference(
                Box::new(left.model()),
                Box::new(right.model()),
            ),
        }
    }
}

impl View for Num {
    type V = NumView;

    open spec fn view(&self) -> NumView {
        self.model()
    }
}

impl NumView {
    /// Whether every literal of the expression is a literal of a number, so
    /// that the expression has a value.
    pub open spec fn well_formed(self) -> bool
        decreases self,
    {
        match self {
            NumView::Zero => true,
            NumView::Literal(text) => is_number_literal(text),
            NumView::Sum(left, right) => left.well_formed() && right.well_formed(),
            NumView::Difference(left, right) => left.well_formed() && right.well_formed(),
        }
    }
}

impl Clone for Num {
    fn clone(&self) -> (copy: Self)
        ensures
            copy@ == self@,
        decreases self,
    {
        match self {
            Num::Zero => Num::Zero,
            Num::Literal(text) => Num::Literal(text.clone()),
            Num::Sum(left, right) => Num::Sum(
                Box::new((&**left).clone()),
                Box::new((&**right).clone()),
            ),
            Num::Difference(left, right) => Num::Difference(
                Box::new((&**left).clone()),
                Box::new((&**right).clone()),
            ),
        }
    }
}

/// The characters of `s`, one by one.
fn chars_of(s: &str) -> (chars: Vec<char>)
    ensures
        chars@ == s@,
{
    let mut chars: Vec<char> = Vec::new();
    for c in it: s.chars()
        invariant
            it.seq() == s@,
            chars@ == s@.take(it.index() as int),
    {
        chars.push(c);
    }
    chars
}

/// Whether `c` is a decimal digit.
fn digit(c: char) -> (b: bool)
    ensures
        b == is_digit(c),
{
    '0' <= c && c <= '9'
}

/// Whether `c` is `letter` in either case, for a lower-case ASCII `letter`.
fn is_letter(c: char, letter: char) -> (b: bool)
    requires
        'a' <= letter <= 'z',
    ensures
        b == (lower(c) == letter),
{
    c == letter || (c as u32) + 32 == letter as u32
}

/// Skips the digits of `text` that start at `from`.
fn skip_digits(text: &Vec<char>, from: usize) -> (end: usize)
    requires
        from <= text@.len(),
    ensures
        end == digits_end(text@, from as int),
        from <= end <= text@.len(),
{
    let mut at = from;
    while at < text.len() && digit(text[at])
        invariant
            from <= at <= text@.len(),
            digits_end(text@, from as int) == digits_end(text@, at as int),
        decreases text@.len() - at,
    {
        at = at + 1;
    }
    at
}

/// Whether the characters of `text` from `from` on spell `word`, whatever
/// the case of their letters.
fn spells_word(text: &Vec<char>, from: usize, word: &str) -> (b: bool)
    requires
        from <= text@.len(),
        forall|i: int| 0 <= i < word@.len() ==> 'a' <= #[trigger] word@[i] <= 'z',
    ensures
        b == spells(text@.skip(from as int), word@),
{
    let mut at = from;
    for c in it: word.chars()
        invariant
            it.seq() == word@,
            at == from + it.index(),
            at <= text@.len(),
            from <= text@.len(),
            forall|i: int| 0 <= i < word@.len() ==> 'a' <= #[trigger] word@[i] <= 'z',
            forall|i: int|
                0 <= i < it.index() ==> lower(#[trigger] text@.skip(from as int)[i]) == word@[i],
    {
        if at >= text.len() || !is_letter(text[at], c) {
            assert(!spells(text@.skip(from as int), word@)) by {
                if at < text@.len() {
                    assert(text@.skip(from as int)[it.index() as int] == text@[at as int]);
                }
            }
            return false;
        }
        at = at + 1;
    }
    at == text.len()
}

/// Whether `token` is a literal of a double-precision number.
pub fn is_number(token: &str) -> (b: bool)
    ensures
        b == is_number_literal(token@),
{
    let text = chars_of(token);
    let start: usize = if text.len() > 0 && (text[0] == '+' || text[0] == '-') {
        1
    } else {
        0
    };
    let ghost body = unsigned_part(token@);
    assert(body =~= text@.skip(start as int));
    proof {
        reveal_strlit("inf");
        reveal_strlit("infinity");
        reveal_strlit("nan");
    }
    if spells_word(&text, start, "inf") || spells_word(&text, start, "infinity") || spells_word(
        &text,
        start,
        "nan",
    ) {
        return true;
    }
    proof {
        lemma_scans_as_decimal(body);
    }
    let point = skip_digits(&text, start);
    let has_point = point < text.len() && text[point] == '.';
    let end = if has_point {
        skip_digits(&text, point + 1)
    } else {
        point
    };
    let digits = if has_point {
        end - start - 1
    } else {
        end - start
    };
    proof {
        lemma_digits_shift(text@, start as int, 0);
        if has_point {
            lemma_digits_shift(text@, start as int, point + 1 - start);
        }
    }
    if digits == 0 {
        return false;
    }
    if end == text.len() {
        return true;
    }
    if !is_letter(text[end], 'e') {
        return false;
    }
    let first = if end + 1 < text.len() && (text[end + 1] == '+' || text[end + 1] == '-') {
        end + 2
    } else {
        end + 1
    };
    if first >= text.len() {
        return false;
    }
    proof {
        lemma_digits_shift(text@, start as int, first - start);
    }
    skip_digits(&text, first) == text.len()
}

/// The position of the first character at or after `from` that is no digit,
/// or the length of `text` if only digits follow.
pub open spec fn digits_end(text: Seq<char>, from: int) -> int
    decreases text.len() - from,
{
    if 0 <= from < text.len() && is_digit(text[from]) {
        digits_end(text, from + 1)
    } else {
        from
    }
}

/// Whether an exponent starts at `at` and runs to the end of `text`.
pub open spec fn exponent_at(text: Seq<char>, at: int) -> bool {
    let digits = if at + 1 < text.len() && is_sign(text[at + 1]) {
        at + 2
    } else {
        at + 1
    };
    &&& 0 <= at < text.len()
    &&& lower(text[at]) == 'e'
    &&& digits < text.len()
    &&& digits_end(text, digits) == text.len()
}

/// Whether reading `text` from left to right finds an unsigned decimal
/// number: digits, then an optional decimal point with the digits after it,
/// at least one digit in all, and an optional exponent up to the end.
pub open spec fn scans_as_decimal(text: Seq<char>) -> bool {
    let point = digits_end(text, 0);
    let has_point = point < text.len() && text[point] == '.';
    let end = if has_point {
        digits_end(text, point + 1)
    } else {
        point
    };
    let digits = if has_point {
        end - 1
    } else {
        end
    };
    &&& digits > 0
    &&& end == text.len() || exponent_at(text, end)
}

/// `digits_end` stops within the text, passes only digits, and stops at a
/// character that is no digit.
pub proof fn lemma_digits_end(text: Seq<char>, from: int)
    requires
        0 <= from <= text.len(),
    ensures
        from <= digits_end(text, from) <= text.len(),
        forall|i: int| from <= i < digits_end(text, from) ==> is_digit(#[trigger] text[i]),
        digits_end(text, from) < text.len() ==> !is_digit(text[digits_end(text, from)]),
    decreases text.len() - from,
{
    if from < text.len() && is_digit(text[from]) {
        lemma_digits_end(text, from + 1);
    }
}

/// Digits that end at a character that is no digit, or at the end of the
/// text, are where `digits_end` stops.
pub proof fn lemma_digits_run(text: Seq<char>, from: int, to: int)
    requires
        0 <= from <= to <= text.len(),
        forall|i: int| from <= i < to ==> is_digit(#[trigger] text[i]),
        to == text.len() || !is_digit(text[to]),
    ensures
        digits_end(text, from) == to,
    decreases to - from,
{
    if from < to {
        lemma_digits_run(text, from + 1, to);
    }
}

/// Scanning digits in a suffix of a text is scanning them in the text.
pub proof fn lemma_digits_shift(text: Seq<char>, start: int, from: int)
    requires
        0 <= start <= text.len(),
        0 <= from <= text.len() - start,
    ensures
        digits_end(text.skip(start), from) + start == digits_end(text, start + from),
    decreases text.len() - start - from,
{
    let tail = text.skip(start);
    if from < tail.len() {
        if is_digit(tail[from]) {
            lemma_digits_shift(text, start, from + 1);
        }
    }
}

/// An exponent found by reading on from `at` is an exponent, and the other
/// way round.
pub proof fn lemma_exponent_at(text: Seq<char>, at: int)
    requires
        0 <= at <= text.len(),
    ensures
        exponent_at(text, at) == (at < text.len() && is_exponent(text.skip(at))),
{
    if at < text.len() {
        let tail = text.skip(at);
        let first = if at + 1 < text.len() && is_sign(text[at + 1]) {
            at + 2
        } else {
            at + 1
        };
        let digits = text.skip(first);
        assert(digits =~= tail.skip(first - at));
        if first <= text.len() {
            lemma_digits_end(text, first);
            if digits_end(text, first) == text.len() {
                assert(is_digits(digits));
            }
            if is_digits(digits) {
                assert forall|i: int| first <= i < text.len() implies is_digit(
                    #[trigger] text[i],
                ) by {
                    assert(text[i] == digits[i - first]);
                }
                lemma_digits_run(text, first, text.len() as int);
            }
        }
    }
}

/// Reading from left to right finds exactly the unsigned decimal numbers.
pub proof fn lemma_scans_as_decimal(text: Seq<char>)
    ensures
        scans_as_decimal(text) == is_decimal(text),
{
    let point = digits_end(text, 0);
    lemma_digits_end(text, 0);
    let has_point = point < text.len() && text[point] == '.';
    let end = if has_point {
        digits_end(text, point + 1)
    } else {
        point
    };
    if has_point {
        lemma_digits_end(text, point + 1);
    }
    lemma_exponent_at(text, end);
    if scans_as_decimal(text) {
        let digits = text.take(end);
        if has_point {
            assert(is_digits(digits.take(point)));
            assert(is_digits(digits.skip(point + 1)));
            assert(is_pointed(digits, point));
        } else {
            assert(is_digits(digits));
        }
        assert(is_decimal_split(text, end));
    }
    if is_decimal(text) {
        let at = choose|at: int| is_decimal_split(text, at);
        let digits = text.take(at);
        if digits.len() > 0 && is_digits(digits) {
            assert forall|i: int| 0 <= i < at implies is_digit(#[trigger] text[i]) by {
                assert(text[i] == digits[i]);
            }
            lemma_digits_run(text, 0, at);
        } else {
            let dot = choose|dot: int| is_pointed(digits, dot);
            assert forall|i: int| 0 <= i < dot implies is_digit(#[trigger] text[i]) by {
                assert(text[i] == digits.take(dot)[i]);
            }
            lemma_digits_run(text, 0, dot);
            assert forall|i: int| dot + 1 <= i < at implies is_digit(#[trigger] text[i]) by {
                assert(text[i] == digits.skip(dot + 1)[i - dot - 1]);
            }
            lemma_digits_run(text, dot + 1, at);
        }
    }
}

} // verus!
