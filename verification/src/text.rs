//! Text as the queue reads and writes it: decimal numbers, and the mark that
//! parts a row's origin into its file and its row.

use vstd::prelude::*;

verus! {

/// What stands between the file and the row id in an origin: `?row=`.
pub open spec fn row_mark() -> Seq<char> {
    seq!['?', 'r', 'o', 'w', '=']
}

/// Whether the mark stands in `text` at `at`.
pub open spec fn marked_at(text: Seq<char>, at: int) -> bool {
    &&& 0 <= at
    &&& at + row_mark().len() <= text.len()
    &&& text.subrange(at, at + row_mark().len()) == row_mark()
}

/// Whether `at` is where the mark stands for the last time in `text`.
pub open spec fn last_mark_at(text: Seq<char>, at: int) -> bool {
    &&& marked_at(text, at)
    &&& forall|later: int| at < later ==> !#[trigger] marked_at(text, later)
}

/// What stands before and after the last mark, or nothing where there is no
/// mark.
pub open spec fn split_at_mark(text: Seq<char>) -> Option<(Seq<char>, Seq<char>)> {
    if exists|at: int| last_mark_at(text, at) {
        let at = choose|at: int| last_mark_at(text, at);
        Some((text.take(at), text.skip(at + row_mark().len())))
    } else {
        None
    }
}

/// A text with its last mark at `at` is split there and nowhere else.
pub proof fn lemma_split_at(text: Seq<char>, at: int)
    requires
        last_mark_at(text, at),
    ensures
        split_at_mark(text) == Some((text.take(at), text.skip(at + row_mark().len()))),
{
    let chosen = choose|at: int| last_mark_at(text, at);
    assert(last_mark_at(text, chosen));
    assert(marked_at(text, chosen) && marked_at(text, at));
    assert(chosen == at);
}

/// Whether `?row=` stands anywhere in `text`.
pub open spec fn holds_mark(text: Seq<char>) -> bool {
    exists|before: Seq<char>, after: Seq<char>| text == #[trigger] (before + "?row="@ + after)
}

/// `file`, the mark and a `row` that holds no other are split again into `file`
/// and `row`.
pub proof fn lemma_split_joined(file: Seq<char>, row: Seq<char>)
    requires
        !holds_mark(row),
    ensures
        split_at_mark(file + "?row="@ + row) == Some((file, row)),
{
    reveal_strlit("?row=");
    assert("?row="@ =~= row_mark());
    let text = file + row_mark() + row;
    let at = file.len() as int;
    assert(text.subrange(at, at + row_mark().len()) =~= row_mark());
    assert forall|later: int| at < later implies !#[trigger] marked_at(text, later) by {
        if marked_at(text, later) {
            let here = text.subrange(later, later + row_mark().len());
            if later < at + row_mark().len() {
                assert(here[0] == '?');
                assert(text[later] == row_mark()[later - at]);
            } else {
                let k = later - at - row_mark().len();
                assert(row =~= row.take(k) + here + row.skip(k + row_mark().len()));
                assert(row == row.take(k) + "?row="@ + row.skip(k + row_mark().len()));
            }
        }
    }
    lemma_split_at(text, at);
    assert(text.take(at) =~= file);
    assert(text.skip(at + row_mark().len()) =~= row);
}

proof fn lemma_last_mark(text: Seq<char>, at: int)
    requires
        marked_at(text, at),
    ensures
        exists|last: int| last_mark_at(text, last),
    decreases text.len() - at,
{
    if exists|later: int| at < later && #[trigger] marked_at(text, later) {
        let later = choose|later: int| at < later && #[trigger] marked_at(text, later);
        lemma_last_mark(text, later);
    } else {
        assert(last_mark_at(text, at));
    }
}

/// A text is parted at the last `?row=` in it, and at no other: what stands
/// before and behind it make up the text again, and behind it there is no other.
/// Only a text without any is not parted.
pub proof fn a_text_is_parted_at_its_last_mark(text: Seq<char>)
    ensures
        match split_at_mark(text) {
            Some((file, row)) => text == file + "?row="@ + row && !holds_mark(row),
            None => !holds_mark(text),
        },
{
    reveal_strlit("?row=");
    assert("?row="@ =~= row_mark());
    match split_at_mark(text) {
        Some((file, row)) => {
            let at = choose|at: int| last_mark_at(text, at);
            assert(marked_at(text, at));
            assert(text =~= file + row_mark() + row);
            if holds_mark(row) {
                let (before, after) = choose|before: Seq<char>, after: Seq<char>|
                    row == #[trigger] (before + "?row="@ + after);
                let later = at + row_mark().len() + before.len();
                assert(text.subrange(later, later + row_mark().len()) =~= row_mark());
                assert(marked_at(text, later));
            }
        },
        None => {
            if holds_mark(text) {
                let (before, after) = choose|before: Seq<char>, after: Seq<char>|
                    text == #[trigger] (before + "?row="@ + after);
                let at = before.len() as int;
                assert(text.subrange(at, at + row_mark().len()) =~= row_mark());
                lemma_last_mark(text, at);
            }
        },
    }
}

/// The characters of `text`, one by one.
fn chars_of(text: &str) -> (chars: Vec<char>)
    ensures
        chars@ == text@,
{
    let mut chars: Vec<char> = Vec::new();
    for c in it: text.chars()
        invariant
            chars@ == it.seq().take(it.index() as int),
            it.seq() == text@,
    {
        chars.push(c);
    }
    chars
}

/// `text` parted at its last mark.
pub fn rsplit_at_mark<'a>(text: &'a str) -> (parts: Option<(&'a str, &'a str)>)
    ensures
        match parts {
            Some((file, row)) => split_at_mark(text@) == Some((file@, row@)),
            None => split_at_mark(text@) is None,
        },
{
    let chars = chars_of(text);
    let len: usize = chars.len();
    if len < 5 {
        return None;
    }
    let mut at: usize = len - 5 + 1;
    while at > 0
        invariant
            chars@ == text@,
            len == chars.len(),
            at <= len - 5 + 1,
            5 <= len,
            forall|later: int| at <= later ==> !#[trigger] marked_at(text@, later),
        decreases at,
    {
        at = at - 1;
        proof {
            let here = text@.subrange(at as int, at + 5);
            assert(marked_at(text@, at as int) == (here == row_mark()));
            assert(here =~= seq![text@[at as int], text@[at + 1], text@[at + 2], text@[at + 3],
                text@[at + 4]]);
            if here == row_mark() {
                assert(here[0] == '?' && here[1] == 'r' && here[2] == 'o' && here[3] == 'w'
                    && here[4] == '=');
            }
        }
        if chars[at] == '?' && chars[at + 1] == 'r' && chars[at + 2] == 'o' && chars[at + 3] == 'w'
            && chars[at + 4] == '=' {
            proof {
                lemma_split_at(text@, at as int);
            }
            let file = text.substring_char(0, at);
            let row = text.substring_char(at + 5, len);
            assert(file@ =~= text@.take(at as int));
            assert(row@ =~= text@.skip(at + 5));
            return Some((file, row));
        }
    }
    None
}

/// Whether `c` is one of the ten decimal digits.
pub open spec fn is_digit(c: char) -> bool {
    '0' <= c && c <= '9'
}

/// The number that a row of decimal digits stands for.
pub open spec fn digits_value(digits: Seq<char>) -> int
    decreases digits.len(),
{
    if digits.len() == 0 {
        0
    } else {
        10 * digits_value(digits.drop_last()) + (digits.last() as int - '0' as int)
    }
}

/// Whether `digits` is one decimal digit or more, and nothing else.
pub open spec fn all_digits(digits: Seq<char>) -> bool {
    digits.len() > 0 && forall|i: int| 0 <= i < digits.len() ==> is_digit(#[trigger] digits[i])
}

/// The number that `text` spells: an optional sign and decimal digits, within
/// the range of an `i64`. Anything else spells none.
pub open spec fn number(text: Seq<char>) -> Option<i64> {
    let signed = text.len() > 0 && (text[0] == '-' || text[0] == '+');
    let digits = if signed {
        text.skip(1)
    } else {
        text
    };
    let value = if signed && text[0] == '-' {
        -digits_value(digits)
    } else {
        digits_value(digits)
    };
    if all_digits(digits) && i64::MIN <= value <= i64::MAX {
        Some(value as i64)
    } else {
        None
    }
}

/// The digit `d` as it is written.
pub open spec fn digit_char(d: nat) -> char {
    ('0' as int + d) as char
}

/// `n` written in decimal, without leading zeros.
pub open spec fn decimal_nat(n: nat) -> Seq<char>
    decreases n,
{
    if n < 10 {
        seq![digit_char(n)]
    } else {
        decimal_nat(n / 10).push(digit_char(n % 10))
    }
}

/// `n` written in decimal, with a minus sign where it is negative.
pub open spec fn decimal(n: int) -> Seq<char> {
    if n < 0 {
        seq!['-'] + decimal_nat((-n) as nat)
    } else {
        decimal_nat(n as nat)
    }
}

pub proof fn lemma_decimal_nat(n: nat)
    ensures
        all_digits(decimal_nat(n)),
        digits_value(decimal_nat(n)) == n,
    decreases n,
{
    if n < 10 {
        assert(decimal_nat(n).drop_last() =~= Seq::<char>::empty());
        assert(digits_value(Seq::<char>::empty()) == 0);
    } else {
        lemma_decimal_nat(n / 10);
        assert(decimal_nat(n).drop_last() =~= decimal_nat(n / 10));
    }
}

/// A number that is written in decimal is read back as itself.
pub proof fn decimal_is_read_back(n: i64)
    ensures
        number(decimal(n as int)) == Some(n),
{
    let text = decimal(n as int);
    if n < 0 {
        let magnitude = (-n) as nat;
        lemma_decimal_nat(magnitude);
        assert(text.skip(1) =~= decimal_nat(magnitude));
    } else {
        lemma_decimal_nat(n as nat);
        assert(is_digit(text[0]));
    }
}

/// How a number is read: an empty text spells none, and what one character more
/// does to a text is settled by what the text spells without it. A first digit,
/// behind a sign or not, spells itself; a further digit adds a decimal place, as
/// long as the number is within the range of an `i64`; anything that is not a
/// digit spoils the number.
pub proof fn a_number_is_read_digit_by_digit(text: Seq<char>, c: char)
    ensures
        number(Seq::empty()) is None,
        ({
            let d = c as int - '0' as int;
            let longer = number(text.push(c));
            if !('0' <= c && c <= '9') {
                longer is None
            } else if text == Seq::<char>::empty() || text == seq!['+'] {
                longer == Some(d as i64)
            } else if text == seq!['-'] {
                longer == Some((-d) as i64)
            } else {
                match number(text) {
                    Some(n) => {
                        let value = if text[0] == '-' {
                            10 * n - d
                        } else {
                            10 * n + d
                        };
                        longer == (if i64::MIN <= value <= i64::MAX {
                            Some(value as i64)
                        } else {
                            None
                        })
                    },
                    None => longer is None,
                }
            }
        }),
{
    let long = text.push(c);
    let signed = text.len() > 0 && (text[0] == '-' || text[0] == '+');
    let digits = if signed {
        text.skip(1)
    } else {
        text
    };
    assert(seq!['+'].len() == 1 && seq!['-'].len() == 1);
    if text.len() == 0 {
        assert(text =~= Seq::empty());
        assert(long.drop_last() =~= Seq::empty());
        assert(long.skip(1) =~= Seq::empty());
        assert(long[0] == c);
        if is_digit(c) {
            assert(digits_value(Seq::<char>::empty()) == 0);
            assert(digits_value(long) == c as int - '0' as int);
            assert(all_digits(long));
        } else {
            assert(!all_digits(long));
            assert(!all_digits(long.skip(1)));
        }
    } else {
        let more = digits.push(c);
        assert(long[0] == text[0]);
        assert(long.skip(1) =~= text.skip(1).push(c));
        assert(more.drop_last() =~= digits);
        assert(more[digits.len() as int] == c);
        assert(digits_value(more) == 10 * digits_value(digits) + (c as int - '0' as int));
        if digits.len() == 0 {
            assert(text =~= seq![text[0]]);
            assert(text == seq!['+'] || text == seq!['-']);
            assert(text == seq!['-'] <==> text[0] == '-');
            assert(digits_value(digits) == 0);
            assert(all_digits(more) == is_digit(c));
        } else {
            assert(signed ==> text.len() > 1);
            assert(text != seq!['+'] && text != seq!['-']) by {
                if text == seq!['+'] || text == seq!['-'] {
                    assert(text.len() == 1);
                    assert(signed);
                }
            }
            assert(all_digits(more) == (all_digits(digits) && is_digit(c))) by {
                assert(forall|i: int| 0 <= i < digits.len() ==> more[i] == digits[i]);
            }
            if all_digits(digits) {
                lemma_value_of_digits(digits);
            }
        }
    }
}

proof fn lemma_value_of_digits(digits: Seq<char>)
    requires
        forall|i: int| 0 <= i < digits.len() ==> is_digit(#[trigger] digits[i]),
    ensures
        digits_value(digits) >= 0,
    decreases digits.len(),
{
    if digits.len() > 0 {
        let front = digits.drop_last();
        assert forall|i: int| 0 <= i < front.len() implies is_digit(#[trigger] front[i]) by {
            assert(front[i] == digits[i]);
        }
        lemma_value_of_digits(front);
        assert(is_digit(digits[digits.len() - 1]));
    }
}

/// How a number is written: a digit is written as itself, a number of more
/// digits as what its last digit leaves, with that digit behind it, and a
/// negative number as its opposite behind a minus sign.
pub proof fn a_number_is_written_digit_by_digit(n: nat, d: nat)
    requires
        d < 10,
    ensures
        decimal(d as int) == seq![('0' as int + d) as char],
        n > 0 ==> decimal((10 * n + d) as int) == decimal(n as int).push(('0' as int + d) as char),
        n > 0 ==> decimal(-n) == seq!['-'] + decimal(n as int),
{
    if n > 0 {
        let m = 10 * n + d;
        assert(m / 10 == n && m % 10 == d);
    }
}

/// A written number holds no question mark, and so no mark.
pub proof fn lemma_decimal_is_plain(n: int)
    ensures
        !decimal(n).contains('?'),
        !holds_mark(decimal(n)),
{
    let magnitude = if n < 0 {
        (-n) as nat
    } else {
        n as nat
    };
    lemma_decimal_nat(magnitude);
    let text = decimal(n);
    assert forall|i: int| 0 <= i < text.len() implies text[i] != '?' by {
        if n < 0 && i > 0 {
            assert(is_digit(decimal_nat(magnitude)[i - 1]));
        } else if n >= 0 {
            assert(is_digit(decimal_nat(magnitude)[i]));
        }
    }
    if holds_mark(text) {
        reveal_strlit("?row=");
        let (before, after) = choose|before: Seq<char>, after: Seq<char>|
            text == #[trigger] (before + "?row="@ + after);
        assert(text[before.len() as int] == '?');
    }
}

/// The number that `text` spells, if it spells one.
pub fn parse_number(text: &str) -> (value: Option<i64>)
    ensures
        value == number(text@),
{
    let chars = chars_of(text);
    let len: usize = chars.len();
    let signed: bool = len > 0 && (chars[0] == '-' || chars[0] == '+');
    let start: usize = if signed {
        1
    } else {
        0
    };
    let ghost digits = if signed {
        text@.skip(1)
    } else {
        text@
    };
    assert(digits =~= text@.skip(start as int));
    if start == len {
        return None;
    }
    // Held at the first power of ten past the range, once it is reached.
    let limit: i128 = 10_000_000_000_000_000_000;
    let mut magnitude: i128 = 0;
    let mut at: usize = start;
    assert(digits.take(0) =~= Seq::<char>::empty());
    while at < len
        invariant
            chars@ == text@,
            len == chars.len(),
            start <= at <= len,
            digits == text@.skip(start as int),
            signed == (text@.len() > 0 && (text@[0] == '-' || text@[0] == '+')),
            digits == (if signed { text@.skip(1) } else { text@ }),
            limit == 10_000_000_000_000_000_000,
            0 <= magnitude <= limit,
            forall|i: int| 0 <= i < at - start ==> is_digit(#[trigger] digits[i]),
            magnitude < limit ==> digits_value(digits.take(at - start)) == magnitude,
            magnitude == limit ==> digits_value(digits.take(at - start)) >= limit,
        decreases len - at,
    {
        let c: char = chars[at];
        assert(digits[at - start] == c);
        if c < '0' || c > '9' {
            assert(!is_digit(digits[at - start]));
            return None;
        }
        assert(digits.take(at + 1 - start).drop_last() =~= digits.take(at - start));
        let step: i128 = magnitude * 10 + (c as u32 - '0' as u32) as i128;
        magnitude = if step < limit {
            step
        } else {
            limit
        };
        at = at + 1;
    }
    assert(digits.take(len - start) =~= digits);
    let value: i128 = if signed && chars[0] == '-' {
        -magnitude
    } else {
        magnitude
    };
    if i64::MIN as i128 <= value && value <= i64::MAX as i128 {
        Some(value as i64)
    } else {
        None
    }
}

/// The digit `d`.
fn digit(d: u64) -> (text: &'static str)
    requires
        d < 10,
    ensures
        text@ == seq![digit_char(d as nat)],
{
    proof {
        reveal_strlit("0");
        reveal_strlit("1");
        reveal_strlit("2");
        reveal_strlit("3");
        reveal_strlit("4");
        reveal_strlit("5");
        reveal_strlit("6");
        reveal_strlit("7");
        reveal_strlit("8");
        reveal_strlit("9");
    }
    match d {
        0 => "0",
        1 => "1",
        2 => "2",
        3 => "3",
        4 => "4",
        5 => "5",
        6 => "6",
        7 => "7",
        8 => "8",
        _ => "9",
    }
}

/// Write `n` in decimal behind what `out` holds.
pub fn push_decimal(out: &mut String, n: u64)
    ensures
        final(out)@ == old(out)@ + decimal(n as int),
    decreases n,
{
    if n >= 10 {
        push_decimal(out, n / 10);
    }
    out.append(digit(n % 10));
    proof {
        if n >= 10 {
            assert(decimal_nat(n as nat) == decimal_nat((n / 10) as nat).push(
                digit_char((n % 10) as nat),
            ));
        }
        assert(out@ =~= old(out)@ + decimal(n as int));
    }
}

/// `n` in decimal.
pub fn to_decimal(n: i64) -> (text: String)
    ensures
        text@ == decimal(n as int),
{
    let mut text = String::new();
    if n < 0 {
        text.append("-");
        proof {
            reveal_strlit("-");
        }
        push_decimal(&mut text, (-(n as i128)) as u64);
    } else {
        push_decimal(&mut text, n as u64);
    }
    assert(text@ =~= decimal(n as int));
    text
}

} // verus!
