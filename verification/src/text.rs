//! Scalars as text: how each type is written, and which texts are read as a
//! value of a type.
//!
//! A text is read as a value only where it is written exactly as the value
//! would be written, so reading what was written gives the value back, and
//! writing what was read gives the text back.

use vstd::prelude::*;
use crate::value::{Cell, ColumnType, Date, Datum, Value};

verus! {

/// Whether a byte is a decimal digit.
pub open spec fn is_digit(b: u8) -> bool {
    48 <= b <= 57
}

/// Whether every byte is a decimal digit.
pub open spec fn all_digits(s: Seq<u8>) -> bool {
    forall|i: int| 0 <= i < s.len() ==> is_digit(#[trigger] s[i])
}

/// The number that decimal digits write.
pub open spec fn digits_value(s: Seq<u8>) -> nat
    decreases s.len(),
{
    if s.len() == 0 {
        0
    } else {
        digits_value(s.drop_last()) * 10 + (s.last() - 48) as nat
    }
}

/// Digits as a number is written: at least one, and no leading zero but in
/// the number zero.
pub open spec fn canonical_digits(s: Seq<u8>) -> bool {
    &&& s.len() >= 1
    &&& all_digits(s)
    &&& (s.len() == 1 || s[0] != 48)
}

/// A natural number in decimal digits.
pub open spec fn render_nat(n: nat) -> Seq<u8>
    decreases n,
{
    if n < 10 {
        seq![(48 + n) as u8]
    } else {
        render_nat(n / 10).push((48 + n % 10) as u8)
    }
}

/// A number as plain decimal: a minus sign where it is negative, then its
/// digits.
pub open spec fn render_number(n: int) -> Seq<u8> {
    if n < 0 {
        seq![45u8] + render_nat((-n) as nat)
    } else {
        render_nat(n as nat)
    }
}

/// The text `true`.
pub open spec fn true_text() -> Seq<u8> {
    seq![116u8, 114u8, 117u8, 101u8]
}

/// The text `false`.
pub open spec fn false_text() -> Seq<u8> {
    seq![102u8, 97u8, 108u8, 115u8, 101u8]
}

/// The digit for a number below ten.
pub open spec fn digit(d: int) -> u8 {
    (48 + d) as u8
}

/// A date as year, month and day, of four, two and two digits, with a
/// hyphen between them.
pub open spec fn render_date(d: Date) -> Seq<u8> {
    let y = d.year as int;
    let m = d.month as int;
    let a = d.day as int;
    seq![
        digit(y / 1000),
        digit(y / 100 % 10),
        digit(y / 10 % 10),
        digit(y % 10),
        45u8,
        digit(m / 10),
        digit(m % 10),
        45u8,
        digit(a / 10),
        digit(a % 10),
    ]
}

/// A scalar as text: nothing for absent, `true` or `false`, a plain decimal
/// number, the text itself, or a date.
pub open spec fn render(v: Datum) -> Seq<u8> {
    match v {
        Cell::Absent => Seq::empty(),
        Cell::Boolean(b) => if b {
            true_text()
        } else {
            false_text()
        },
        Cell::Number(n) => render_number(n as int),
        Cell::Text(t) => t,
        Cell::Temporal(d) => render_date(d),
    }
}

/// The number that a text writes, if it is a number's plain decimal form
/// and the number fits in 64 bits.
pub open spec fn parse_number(s: Seq<u8>) -> Option<i64> {
    if canonical_digits(s) {
        if digits_value(s) <= i64::MAX {
            Some(digits_value(s) as i64)
        } else {
            None
        }
    } else if s.len() >= 2 && s[0] == 45 && canonical_digits(s.skip(1)) && digits_value(s.skip(1))
        >= 1 {
        if digits_value(s.skip(1)) <= -i64::MIN {
            Some((-digits_value(s.skip(1))) as i64)
        } else {
            None
        }
    } else {
        None
    }
}

/// The truth value that a text writes: `true` or `false`, in lower case.
pub open spec fn parse_boolean(s: Seq<u8>) -> Option<bool> {
    if s == true_text() {
        Some(true)
    } else if s == false_text() {
        Some(false)
    } else {
        None
    }
}

/// The date that a text writes, if it has the form of a date and the
/// calendar has the date.
pub open spec fn parse_date(s: Seq<u8>) -> Option<Date> {
    if s.len() == 10 && s[4] == 45 && s[7] == 45 && is_digit(s[0]) && is_digit(s[1]) && is_digit(
        s[2],
    ) && is_digit(s[3]) && is_digit(s[5]) && is_digit(s[6]) && is_digit(s[8]) && is_digit(s[9]) {
        let d = Date {
            year: ((s[0] - 48) * 1000 + (s[1] - 48) * 100 + (s[2] - 48) * 10 + (s[3] - 48)) as u16,
            month: ((s[5] - 48) * 10 + (s[6] - 48)) as u8,
            day: ((s[8] - 48) * 10 + (s[9] - 48)) as u8,
        };
        if d.valid() {
            Some(d)
        } else {
            None
        }
    } else {
        None
    }
}

/// The value of the given type that a text writes. Every text is a text.
pub open spec fn parse_as(s: Seq<u8>, t: ColumnType) -> Option<Datum> {
    match t {
        ColumnType::Boolean => match parse_boolean(s) {
            Some(b) => Some(Cell::Boolean(b)),
            None => None,
        },
        ColumnType::Numeric => match parse_number(s) {
            Some(n) => Some(Cell::Number(n)),
            None => None,
        },
        ColumnType::Temporal => match parse_date(s) {
            Some(d) => Some(Cell::Temporal(d)),
            None => None,
        },
        ColumnType::Text => Some(Cell::Text(s)),
    }
}

/// Digits that do not start with a zero write a number of at least one.
proof fn lemma_leading_digit(s: Seq<u8>)
    requires
        s.len() >= 1,
        all_digits(s),
        s[0] != 48,
    ensures
        digits_value(s) >= 1,
    decreases s.len(),
{
    if s.len() > 1 {
        let front = s.drop_last();
        assert(front[0] == s[0]);
        assert forall|i: int| 0 <= i < front.len() implies is_digit(#[trigger] front[i]) by {
            assert(front[i] == s[i]);
        }
        lemma_leading_digit(front);
    } else {
        assert(s.drop_last().len() == 0);
        assert(is_digit(s[0]));
    }
}

/// Writing the number that canonical digits write gives the digits back.
pub proof fn lemma_render_digits(s: Seq<u8>)
    requires
        canonical_digits(s),
    ensures
        render_nat(digits_value(s)) == s,
    decreases s.len(),
{
    let front = s.drop_last();
    assert(is_digit(s[s.len() - 1]));
    let d = (s.last() - 48) as nat;
    if s.len() == 1 {
        assert(front.len() == 0);
        assert(digits_value(front) == 0);
        assert(digits_value(s) == d);
        assert(render_nat(d) =~= s);
    } else {
        assert(front[0] == s[0]);
        assert forall|i: int| 0 <= i < front.len() implies is_digit(#[trigger] front[i]) by {
            assert(front[i] == s[i]);
        }
        lemma_leading_digit(front);
        lemma_render_digits(front);
        let n = digits_value(front) * 10 + d;
        assert(digits_value(s) == n);
        assert(n >= 10);
        assert(n / 10 == digits_value(front));
        assert(n % 10 == d);
        assert(render_nat(n) == render_nat(n / 10).push((48 + n % 10) as u8));
        assert(front.push(s.last()) =~= s);
    }
}

/// A prefix of digits writes a number no larger than the whole.
proof fn lemma_digits_prefix(s: Seq<u8>, k: int)
    requires
        all_digits(s),
        0 <= k <= s.len(),
    ensures
        digits_value(s.take(k)) <= digits_value(s),
    decreases s.len() - k,
{
    if k < s.len() {
        let front = s.drop_last();
        assert forall|i: int| 0 <= i < front.len() implies is_digit(#[trigger] front[i]) by {
            assert(front[i] == s[i]);
        }
        assert(is_digit(s[s.len() - 1]));
        assert(front.take(k) =~= s.take(k));
        lemma_digits_prefix(front, k);
    } else {
        assert(s.take(k) =~= s);
    }
}

/// Writing the number that a text was read as gives the text back.
pub proof fn lemma_render_parsed_number(s: Seq<u8>)
    requires
        parse_number(s) is Some,
    ensures
        render_number(parse_number(s)->Some_0 as int) == s,
{
    if canonical_digits(s) {
        lemma_render_digits(s);
    } else {
        let rest = s.skip(1);
        lemma_render_digits(rest);
        assert(seq![45u8] + rest =~= s);
    }
}

/// The digits of a number of two digits.
proof fn lemma_two_digits(a: int, b: int)
    requires
        0 <= a < 10,
        0 <= b < 10,
    ensures
        (a * 10 + b) / 10 == a,
        (a * 10 + b) % 10 == b,
{
}

/// The digits of a number of four digits.
proof fn lemma_four_digits(a: int, b: int, c: int, d: int)
    requires
        0 <= a < 10,
        0 <= b < 10,
        0 <= c < 10,
        0 <= d < 10,
    ensures
        (a * 1000 + b * 100 + c * 10 + d) / 1000 == a,
        (a * 1000 + b * 100 + c * 10 + d) / 100 % 10 == b,
        (a * 1000 + b * 100 + c * 10 + d) / 10 % 10 == c,
        (a * 1000 + b * 100 + c * 10 + d) % 10 == d,
{
    let n = a * 1000 + b * 100 + c * 10 + d;
    assert(n / 100 == a * 10 + b);
    assert(n / 10 == a * 100 + b * 10 + c);
    lemma_two_digits(a, b);
    assert((a * 100 + b * 10 + c) % 10 == c);
}

/// The text of a date whose year, month and day have the given digits.
proof fn lemma_render_date_digits(
    d: Date,
    y0: int,
    y1: int,
    y2: int,
    y3: int,
    m0: int,
    m1: int,
    d0: int,
    d1: int,
)
    requires
        0 <= y0 < 10 && 0 <= y1 < 10 && 0 <= y2 < 10 && 0 <= y3 < 10,
        0 <= m0 < 10 && 0 <= m1 < 10 && 0 <= d0 < 10 && 0 <= d1 < 10,
        d.year == y0 * 1000 + y1 * 100 + y2 * 10 + y3,
        d.month == m0 * 10 + m1,
        d.day == d0 * 10 + d1,
    ensures
        render_date(d) == seq![
            digit(y0),
            digit(y1),
            digit(y2),
            digit(y3),
            45u8,
            digit(m0),
            digit(m1),
            45u8,
            digit(d0),
            digit(d1),
        ],
{
    lemma_four_digits(y0, y1, y2, y3);
    lemma_two_digits(m0, m1);
    lemma_two_digits(d0, d1);
}

/// Writing the date that a text was read as gives the text back.
pub proof fn lemma_render_parsed_date(s: Seq<u8>)
    requires
        parse_date(s) is Some,
    ensures
        render_date(parse_date(s)->Some_0) == s,
{
    let d = parse_date(s)->Some_0;
    let y0 = (s[0] - 48) as int;
    let y1 = (s[1] - 48) as int;
    let y2 = (s[2] - 48) as int;
    let y3 = (s[3] - 48) as int;
    let m0 = (s[5] - 48) as int;
    let m1 = (s[6] - 48) as int;
    let d0 = (s[8] - 48) as int;
    let d1 = (s[9] - 48) as int;
    lemma_render_date_digits(d, y0, y1, y2, y3, m0, m1, d0, d1);
    assert(render_date(d) =~= s);
}

/// Writing the value that a text was read as gives the text back. An empty
/// text aside, it follows that no two types read one text to values that
/// are written differently.
pub proof fn lemma_render_parsed(s: Seq<u8>, t: ColumnType)
    requires
        parse_as(s, t) is Some,
    ensures
        render(parse_as(s, t)->Some_0) == s,
{
    match t {
        ColumnType::Boolean => {},
        ColumnType::Numeric => {
            lemma_render_parsed_number(s);
        },
        ColumnType::Temporal => {
            lemma_render_parsed_date(s);
        },
        ColumnType::Text => {},
    }
}

/// Appends a natural number in decimal digits.
fn push_nat(n: u64, out: &mut Vec<u8>)
    ensures
        final(out)@ == old(out)@ + render_nat(n as nat),
    decreases n,
{
    if n >= 10 {
        push_nat(n / 10, out);
    }
    let d: u8 = (n % 10) as u8;
    out.push(48 + d);
    assert(final(out)@ =~= old(out)@ + render_nat(n as nat));
}

/// Appends a number as plain decimal.
pub fn push_number(n: i64, out: &mut Vec<u8>)
    ensures
        final(out)@ == old(out)@ + render_number(n as int),
{
    let wide: i128 = n as i128;
    if wide < 0 {
        out.push(45);
        let magnitude: u64 = (-wide) as u64;
        push_nat(magnitude, out);
        assert(final(out)@ =~= old(out)@ + render_number(n as int));
    } else {
        push_nat(wide as u64, out);
    }
}

/// Appends a date as year, month and day.
pub fn push_date(d: Date, out: &mut Vec<u8>)
    requires
        d.valid(),
    ensures
        final(out)@ == old(out)@ + render_date(d),
{
    let y: u16 = d.year;
    let m: u8 = d.month;
    let a: u8 = d.day;
    out.push(48 + (y / 1000) as u8);
    out.push(48 + (y / 100 % 10) as u8);
    out.push(48 + (y / 10 % 10) as u8);
    out.push(48 + (y % 10) as u8);
    out.push(45);
    out.push(48 + m / 10);
    out.push(48 + m % 10);
    out.push(45);
    out.push(48 + a / 10);
    out.push(48 + a % 10);
    assert(final(out)@ =~= old(out)@ + render_date(d));
}

/// Appends the bytes of a text.
pub fn push_text(text: &Vec<u8>, out: &mut Vec<u8>)
    ensures
        final(out)@ == old(out)@ + text@,
{
    let mut i: usize = 0;
    while i < text.len()
        invariant
            i <= text.len(),
            out@ == old(out)@ + text@.take(i as int),
        decreases text.len() - i,
    {
        out.push(text[i]);
        i += 1;
        assert(out@ =~= old(out)@ + text@.take(i as int));
    }
    assert(text@.take(text.len() as int) =~= text@);
}

/// Whether a scalar can be written: it is no date, or a date of the
/// calendar.
pub open spec fn writable(v: Datum) -> bool {
    v matches Cell::Temporal(d) ==> d.valid()
}

/// A scalar as text.
pub fn render_value(v: &Value) -> (out: Vec<u8>)
    requires
        writable(v@),
    ensures
        out@ == render(v@),
{
    let mut out: Vec<u8> = Vec::new();
    match v {
        Cell::Absent => {},
        Cell::Boolean(b) => {
            if *b {
                out.push(116);
                out.push(114);
                out.push(117);
                out.push(101);
            } else {
                out.push(102);
                out.push(97);
                out.push(108);
                out.push(115);
                out.push(101);
            }
        },
        Cell::Number(n) => {
            push_number(*n, &mut out);
        },
        Cell::Text(t) => {
            push_text(t, &mut out);
        },
        Cell::Temporal(d) => {
            push_date(*d, &mut out);
        },
    }
    assert(out@ =~= render(v@));
    out
}

/// The number that the digits of a text from `start` on write; `None`
/// where a byte is no digit or the number is above 2 to the 63.
fn read_digits(s: &Vec<u8>, start: usize) -> (out: Option<u64>)
    requires
        start <= s.len(),
    ensures
        match out {
            Some(n) => all_digits(s@.skip(start as int)) && n == digits_value(s@.skip(start as int))
                && n <= 9223372036854775808,
            None => !all_digits(s@.skip(start as int)) || digits_value(s@.skip(start as int))
                > 9223372036854775808,
        },
{
    let n: usize = s.len();
    let ghost digits = s@.skip(start as int);
    let mut acc: u64 = 0;
    let mut i: usize = start;
    assert(digits.take(0) =~= Seq::<u8>::empty());
    while i < n
        invariant
            start <= i <= n,
            n == s.len(),
            digits == s@.skip(start as int),
            all_digits(digits.take(i - start)),
            acc == digits_value(digits.take(i - start)),
            acc <= 9223372036854775808,
        decreases n - i,
    {
        let b: u8 = s[i];
        assert(digits[i - start] == b);
        if b < 48 || b > 57 {
            assert(!is_digit(digits[i - start]));
            return None;
        }
        let ghost next = digits.take(i - start + 1);
        proof {
            assert(next.drop_last() =~= digits.take(i - start));
            assert(next.last() == b);
            assert forall|k: int| 0 <= k < next.len() implies is_digit(#[trigger] next[k]) by {
                if k < i - start {
                    assert(digits.take(i - start)[k] == next[k]);
                }
            }
            assert(digits_value(next) == acc * 10 + (b - 48));
            if all_digits(digits) {
                lemma_digits_prefix(digits, i - start + 1);
            }
        }
        if acc > 922337203685477580 {
            return None;
        }
        let grown: u64 = acc * 10 + (b - 48) as u64;
        if grown > 9223372036854775808 {
            return None;
        }
        acc = grown;
        i += 1;
    }
    assert(digits.take(n - start) =~= digits);
    Some(acc)
}

/// The number that a text writes.
pub fn read_number(s: &Vec<u8>) -> (out: Option<i64>)
    ensures
        out == parse_number(s@),
{
    let n: usize = s.len();
    let negative: bool = n >= 1 && s[0] == 45;
    let start: usize = if negative {
        1
    } else {
        0
    };
    let ghost digits = s@.skip(start as int);
    proof {
        if negative {
            assert(!is_digit(s@[0]));
        } else {
            assert(digits =~= s@);
        }
    }
    if n == start {
        return None;
    }
    if n - start > 1 && s[start] == 48 {
        assert(digits[0] == 48);
        return None;
    }
    match read_digits(s, start) {
        None => None,
        Some(magnitude) => {
            if negative {
                if magnitude == 0 {
                    None
                } else {
                    Some((-(magnitude as i128)) as i64)
                }
            } else if magnitude > 9223372036854775807 {
                None
            } else {
                Some(magnitude as i64)
            }
        },
    }
}

/// The truth value that a text writes.
pub fn read_boolean(s: &Vec<u8>) -> (out: Option<bool>)
    ensures
        out == parse_boolean(s@),
{
    if s.len() == 4 && s[0] == 116 && s[1] == 114 && s[2] == 117 && s[3] == 101 {
        assert(s@ =~= true_text());
        Some(true)
    } else if s.len() == 5 && s[0] == 102 && s[1] == 97 && s[2] == 108 && s[3] == 115 && s[4]
        == 101 {
        assert(s@ =~= false_text());
        Some(false)
    } else {
        None
    }
}

fn digit_at(s: &Vec<u8>, i: usize) -> (out: Option<u8>)
    requires
        i < s.len(),
    ensures
        match out {
            Some(d) => is_digit(s[i as int]) && d == s[i as int] - 48,
            None => !is_digit(s[i as int]),
        },
{
    let b: u8 = s[i];
    if 48 <= b && b <= 57 {
        Some(b - 48)
    } else {
        None
    }
}

/// The date that a text writes.
pub fn read_date(s: &Vec<u8>) -> (out: Option<Date>)
    ensures
        out == parse_date(s@),
{
    if s.len() != 10 || s[4] != 45 || s[7] != 45 {
        return None;
    }
    let y0: u8 = match digit_at(s, 0) { Some(d) => d, None => { return None; } };
    let y1: u8 = match digit_at(s, 1) { Some(d) => d, None => { return None; } };
    let y2: u8 = match digit_at(s, 2) { Some(d) => d, None => { return None; } };
    let y3: u8 = match digit_at(s, 3) { Some(d) => d, None => { return None; } };
    let m0: u8 = match digit_at(s, 5) { Some(d) => d, None => { return None; } };
    let m1: u8 = match digit_at(s, 6) { Some(d) => d, None => { return None; } };
    let d0: u8 = match digit_at(s, 8) { Some(d) => d, None => { return None; } };
    let d1: u8 = match digit_at(s, 9) { Some(d) => d, None => { return None; } };
    let date = Date {
        year: y0 as u16 * 1000 + y1 as u16 * 100 + y2 as u16 * 10 + y3 as u16,
        month: m0 * 10 + m1,
        day: d0 * 10 + d1,
    };
    if date.is_valid() {
        Some(date)
    } else {
        None
    }
}

/// The value of the given type that a text writes.
pub fn read_as(s: &Vec<u8>, t: ColumnType) -> (out: Option<Value>)
    ensures
        match out {
            Some(v) => parse_as(s@, t) == Some(v@),
            None => parse_as(s@, t) is None,
        },
{
    match t {
        ColumnType::Boolean => match read_boolean(s) {
            Some(b) => Some(Cell::Boolean(b)),
            None => None,
        },
        ColumnType::Numeric => match read_number(s) {
            Some(n) => Some(Cell::Number(n)),
            None => None,
        },
        ColumnType::Temporal => match read_date(s) {
            Some(d) => Some(Cell::Temporal(d)),
            None => None,
        },
        ColumnType::Text => Some(Cell::Text(crate::value::copy_text(s))),
    }
}

} // verus!
