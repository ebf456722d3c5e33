//! Typed scalars, the four column types, and the order of scalars.
//!
//! All text in this library is a sequence of bytes. A scalar is written once,
//! generically over the type that holds text: `Value` holds a `Vec<u8>` and
//! runs; `Datum` holds a `Seq<u8>` and is what contracts speak of.

use vstd::prelude::*;

verus! {

/// The type that a column is given when the table is loaded.
#[derive(Clone, Copy, Debug, PartialEq, Eq, Structural)]
pub enum ColumnType {
    Numeric,
    Text,
    Boolean,
    Temporal,
}

/// A calendar date.
#[derive(Clone, Copy, Debug, PartialEq, Eq, Structural)]
pub struct Date {
    pub year: u16,
    pub month: u8,
    pub day: u8,
}

/// The number of days of a month; 0 for a month that does not exist.
pub open spec fn days_in_month(year: int, month: int) -> int {
    if month == 2 {
        if year % 4 == 0 && (year % 100 != 0 || year % 400 == 0) {
            29
        } else {
            28
        }
    } else if month == 4 || month == 6 || month == 9 || month == 11 {
        30
    } else if 1 <= month <= 12 {
        31
    } else {
        0
    }
}

impl Date {
    /// A date of the calendar, with a year of at most four digits.
    pub open spec fn valid(self) -> bool {
        &&& self.year <= 9999
        &&& 1 <= self.day <= days_in_month(self.year as int, self.month as int)
    }

    /// The position of the date in time: a later date has a larger ordinal.
    pub open spec fn ordinal(self) -> int {
        self.year * 10000 + self.month * 100 + self.day
    }

    /// Whether the three numbers name a date of the calendar.
    pub fn is_valid(&self) -> (ok: bool)
        ensures
            ok == self.valid(),
    {
        let y: u16 = self.year;
        let m: u8 = self.month;
        let leap: bool = y % 4 == 0 && (y % 100 != 0 || y % 400 == 0);
        let days: u8 = if m == 2 {
            if leap {
                29
            } else {
                28
            }
        } else if m == 4 || m == 6 || m == 9 || m == 11 {
            30
        } else if 1 <= m && m <= 12 {
            31
        } else {
            0
        };
        y <= 9999 && 1 <= self.day && self.day <= days
    }
}

/// A typed scalar: what a cell of a table holds and what an expression
/// evaluates to. `T` is the type that holds text.
#[derive(Debug, PartialEq, Eq)]
pub enum Cell<T> {
    /// No value.
    Absent,
    Boolean(bool),
    Number(i64),
    Text(T),
    Temporal(Date),
}

/// A scalar as executable code holds it.
pub type Value = Cell<Vec<u8>>;

/// A scalar as contracts speak of it.
pub type Datum = Cell<Seq<u8>>;

impl View for Cell<Vec<u8>> {
    type V = Cell<Seq<u8>>;

    open spec fn view(&self) -> Cell<Seq<u8>> {
        match *self {
            Cell::Absent => Cell::Absent,
            Cell::Boolean(b) => Cell::Boolean(b),
            Cell::Number(n) => Cell::Number(n),
            Cell::Text(t) => Cell::Text(t@),
            Cell::Temporal(d) => Cell::Temporal(d),
        }
    }
}

/// The scalars of a row, as contracts speak of them.
pub open spec fn row_view(row: Seq<Value>) -> Seq<Datum> {
    Seq::new(row.len(), |i: int| row[i]@)
}

/// The rows of a table, as contracts speak of them.
pub open spec fn rows_view(rows: Seq<Vec<Value>>) -> Seq<Seq<Datum>> {
    Seq::new(rows.len(), |i: int| row_view(rows[i]@))
}

/// A list of names or of fields, as contracts speak of it.
pub open spec fn texts_view(texts: Seq<Vec<u8>>) -> Seq<Seq<u8>> {
    Seq::new(texts.len(), |i: int| texts[i]@)
}

/// Whether a scalar may stand in a column of the given type: it is absent, or
/// of that type; a date must be one of the calendar.
pub open spec fn conforms(v: Datum, t: ColumnType) -> bool {
    match v {
        Cell::Absent => true,
        Cell::Boolean(_) => t == ColumnType::Boolean,
        Cell::Number(_) => t == ColumnType::Numeric,
        Cell::Text(_) => t == ColumnType::Text,
        Cell::Temporal(d) => t == ColumnType::Temporal && d.valid(),
    }
}

/// Byte strings in dictionary order: `a` comes strictly before `b`.
pub open spec fn text_before(a: Seq<u8>, b: Seq<u8>) -> bool
    decreases a.len(),
{
    if b.len() == 0 {
        false
    } else if a.len() == 0 {
        true
    } else if a[0] != b[0] {
        a[0] < b[0]
    } else {
        text_before(a.drop_first(), b.drop_first())
    }
}

/// Where a scalar stands among the scalars of its own type; absent comes
/// first. Two scalars of one type are ordered by `datum_before`.
pub open spec fn datum_before(a: Datum, b: Datum) -> bool {
    match (a, b) {
        (Cell::Absent, Cell::Absent) => false,
        (Cell::Absent, _) => true,
        (Cell::Boolean(x), Cell::Boolean(y)) => !x && y,
        (Cell::Number(x), Cell::Number(y)) => x < y,
        (Cell::Text(x), Cell::Text(y)) => text_before(x, y),
        (Cell::Temporal(x), Cell::Temporal(y)) => x.ordinal() < y.ordinal(),
        _ => false,
    }
}

/// A copy of a byte string.
pub fn copy_text(text: &Vec<u8>) -> (out: Vec<u8>)
    ensures
        out@ == text@,
{
    let mut out: Vec<u8> = Vec::new();
    let mut i: usize = 0;
    while i < text.len()
        invariant
            i <= text.len(),
            out@ == text@.take(i as int),
        decreases text.len() - i,
    {
        out.push(text[i]);
        i += 1;
        assert(out@ == text@.take(i as int));
    }
    assert(text@.take(text.len() as int) == text@);
    out
}

/// A copy of a scalar.
pub fn copy_value(v: &Value) -> (out: Value)
    ensures
        out@ == v@,
{
    match v {
        Cell::Absent => Cell::Absent,
        Cell::Boolean(b) => Cell::Boolean(*b),
        Cell::Number(n) => Cell::Number(*n),
        Cell::Text(t) => Cell::Text(copy_text(t)),
        Cell::Temporal(d) => Cell::Temporal(*d),
    }
}

/// A copy of a row.
pub fn copy_row(row: &Vec<Value>) -> (out: Vec<Value>)
    ensures
        row_view(out@) == row_view(row@),
{
    let mut out: Vec<Value> = Vec::new();
    let mut i: usize = 0;
    while i < row.len()
        invariant
            i <= row.len(),
            out.len() == i,
            forall|k: int| 0 <= k < i ==> out[k]@ == row[k]@,
        decreases row.len() - i,
    {
        out.push(copy_value(&row[i]));
        i += 1;
    }
    assert(row_view(out@) =~= row_view(row@));
    out
}

/// Whether two byte strings are the same.
pub fn same_text(a: &Vec<u8>, b: &Vec<u8>) -> (same: bool)
    ensures
        same == (a@ == b@),
{
    if a.len() != b.len() {
        return false;
    }
    let mut i: usize = 0;
    while i < a.len()
        invariant
            i <= a.len(),
            a.len() == b.len(),
            forall|k: int| 0 <= k < i ==> a[k] == b[k],
        decreases a.len() - i,
    {
        if a[i] != b[i] {
            return false;
        }
        i += 1;
    }
    assert(a@ =~= b@);
    true
}

/// Dictionary order on the parts of two byte strings from `from` on, given
/// that they agree before it.
proof fn lemma_text_before_skip(a: Seq<u8>, b: Seq<u8>, from: int)
    requires
        0 <= from <= a.len(),
        from <= b.len(),
        forall|k: int| 0 <= k < from ==> a[k] == b[k],
    ensures
        text_before(a, b) == text_before(a.skip(from), b.skip(from)),
    decreases from,
{
    if from > 0 {
        assert(a.drop_first().skip(from - 1) =~= a.skip(from));
        assert(b.drop_first().skip(from - 1) =~= b.skip(from));
        lemma_text_before_skip(a.drop_first(), b.drop_first(), from - 1);
    } else {
        assert(a.skip(0) =~= a);
        assert(b.skip(0) =~= b);
    }
}

/// Whether `a` comes strictly before `b` in dictionary order.
pub fn text_comes_before(a: &Vec<u8>, b: &Vec<u8>) -> (before: bool)
    ensures
        before == text_before(a@, b@),
{
    let mut i: usize = 0;
    while i < a.len() && i < b.len()
        invariant
            i <= a.len(),
            i <= b.len(),
            forall|k: int| 0 <= k < i ==> a[k] == b[k],
        decreases a.len() - i,
    {
        if a[i] != b[i] {
            proof {
                lemma_text_before_skip(a@, b@, i as int);
            }
            return a[i] < b[i];
        }
        i += 1;
    }
    proof {
        lemma_text_before_skip(a@, b@, i as int);
    }
    i < b.len()
}

/// Whether `a` comes strictly before `b` among the scalars of their type.
pub fn value_comes_before(a: &Value, b: &Value) -> (before: bool)
    ensures
        before == datum_before(a@, b@),
{
    match (a, b) {
        (Cell::Absent, Cell::Absent) => false,
        (Cell::Absent, _) => true,
        (Cell::Boolean(x), Cell::Boolean(y)) => !*x && *y,
        (Cell::Number(x), Cell::Number(y)) => *x < *y,
        (Cell::Text(x), Cell::Text(y)) => text_comes_before(x, y),
        (Cell::Temporal(x), Cell::Temporal(y)) => {
            let p: u32 = x.year as u32 * 10000 + x.month as u32 * 100 + x.day as u32;
            let q: u32 = y.year as u32 * 10000 + y.month as u32 * 100 + y.day as u32;
            p < q
        },
        _ => false,
    }
}

} // verus!
