//! Expressions: a closed tree of literals, column references and operators,
//! its static type over a table's columns, and its value on a row.

use vstd::prelude::*;
use crate::value::{
    copy_text, copy_value, datum_before, row_view, same_text, texts_view, value_comes_before, Cell,
    ColumnType, Datum, Value,
};

verus! {

/// An operator on one operand.
#[derive(Clone, Copy, Debug, PartialEq, Eq, Structural)]
pub enum UnaryOp {
    /// Logical negation of a boolean.
    Not,
    /// The number with the opposite sign.
    Negate,
    /// True where the operand is absent.
    IsAbsent,
    /// True where the operand is not absent.
    IsPresent,
}

/// An operator on two operands.
#[derive(Clone, Copy, Debug, PartialEq, Eq, Structural)]
pub enum BinaryOp {
    Add,
    Subtract,
    Multiply,
    Divide,
    Remainder,
    Equal,
    NotEqual,
    Less,
    LessOrEqual,
    Greater,
    GreaterOrEqual,
    And,
    Or,
}

impl BinaryOp {
    /// The operators on numbers that give a number.
    pub open spec fn is_arithmetic(self) -> bool {
        self == BinaryOp::Add || self == BinaryOp::Subtract || self == BinaryOp::Multiply
            || self == BinaryOp::Divide || self == BinaryOp::Remainder
    }

    /// The operators on truth values that give a truth value.
    pub open spec fn is_logical(self) -> bool {
        self == BinaryOp::And || self == BinaryOp::Or
    }

    /// The operators that compare two scalars of one type.
    pub open spec fn is_comparison(self) -> bool {
        !self.is_arithmetic() && !self.is_logical()
    }
}

/// An expression over the columns of a table. `T` is the type that holds
/// text: a column's name, or a literal text.
#[derive(Debug, PartialEq, Eq)]
pub enum Expr<T> {
    Literal(Cell<T>),
    Column(T),
    Unary(UnaryOp, Box<Expr<T>>),
    Binary(BinaryOp, Box<Expr<T>>, Box<Expr<T>>),
}

/// An expression as executable code holds it.
pub type Expression = Expr<Vec<u8>>;

/// An expression as contracts speak of it.
pub type Term = Expr<Seq<u8>>;

/// The expression that contracts speak of, for one that executable code
/// holds.
pub open spec fn term_of(e: Expression) -> Term
    decreases e,
{
    match e {
        Expr::Literal(v) => Expr::Literal(v@),
        Expr::Column(name) => Expr::Column(name@),
        Expr::Unary(op, operand) => Expr::Unary(op, Box::new(term_of(*operand))),
        Expr::Binary(op, left, right) => Expr::Binary(
            op,
            Box::new(term_of(*left)),
            Box::new(term_of(*right)),
        ),
    }
}

impl View for Expr<Vec<u8>> {
    type V = Expr<Seq<u8>>;

    open spec fn view(&self) -> Expr<Seq<u8>> {
        term_of(*self)
    }
}

/// Why an expression has no type over a table's columns.
#[derive(Debug, PartialEq, Eq)]
pub enum Fault<T> {
    /// It names a column that the table does not have.
    UnknownColumn(T),
    /// An operator is applied to operands of types it does not take.
    Mismatch,
}

impl View for Fault<Vec<u8>> {
    type V = Fault<Seq<u8>>;

    open spec fn view(&self) -> Fault<Seq<u8>> {
        match self {
            Fault::UnknownColumn(name) => Fault::UnknownColumn(name@),
            Fault::Mismatch => Fault::Mismatch,
        }
    }
}

/// The index of the first name in `names` that equals `name`.
pub open spec fn position(names: Seq<Seq<u8>>, name: Seq<u8>) -> Option<int>
    decreases names.len(),
{
    if names.len() == 0 {
        None
    } else if names[0] == name {
        Some(0)
    } else {
        match position(names.drop_first(), name) {
            Some(i) => Some(i + 1),
            None => None,
        }
    }
}

/// `position` finds the first index that holds the name, and only that.
pub proof fn lemma_position(names: Seq<Seq<u8>>, name: Seq<u8>)
    ensures
        match position(names, name) {
            Some(i) => 0 <= i < names.len() && names[i] == name && forall|k: int|
                0 <= k < i ==> names[k] != name,
            None => forall|k: int| 0 <= k < names.len() ==> names[k] != name,
        },
    decreases names.len(),
{
    if names.len() > 0 && names[0] != name {
        let rest = names.drop_first();
        lemma_position(rest, name);
        match position(rest, name) {
            Some(i) => {
                assert forall|k: int| 0 <= k < i + 1 implies names[k] != name by {
                    if k > 0 {
                        assert(rest[k - 1] == names[k]);
                    }
                }
            },
            None => {
                assert forall|k: int| 0 <= k < names.len() implies names[k] != name by {
                    if k > 0 {
                        assert(rest[k - 1] == names[k]);
                    }
                }
            },
        }
    }
}

/// The index of the first of `names` that equals `name`.
pub fn find_column(names: &Vec<Vec<u8>>, name: &Vec<u8>) -> (found: Option<usize>)
    ensures
        match found {
            Some(i) => position(texts_view(names@), name@) == Some(i as int),
            None => position(texts_view(names@), name@) is None,
        },
{
    let mut i: usize = 0;
    while i < names.len()
        invariant
            i <= names.len(),
            forall|k: int| 0 <= k < i ==> texts_view(names@)[k] != name@,
        decreases names.len() - i,
    {
        if same_text(&names[i], name) {
            proof {
                lemma_position(texts_view(names@), name@);
                assert(texts_view(names@)[i as int] == name@);
            }
            return Some(i);
        }
        assert(texts_view(names@)[i as int] == names[i as int]@);
        i += 1;
    }
    proof {
        lemma_position(texts_view(names@), name@);
    }
    None
}

/// Whether two operand types can meet in an arithmetic operator: both are
/// numbers, or one is a number and the other a truth value, which is then
/// widened to 0 or 1. The type of the absent literal, `None`, fits anywhere.
pub open spec fn numeric_pair(a: Option<ColumnType>, b: Option<ColumnType>) -> bool {
    let num = Some(ColumnType::Numeric);
    let truth = Some(ColumnType::Boolean);
    ||| (a == num || a is None) && (b == num || b is None)
    ||| a == truth && b == num
    ||| a == num && b == truth
}

/// Whether two operand types can meet in a comparison: they are the same,
/// or one is the type of the absent literal, or one is a number and the
/// other a truth value, which is then widened.
pub open spec fn comparable_pair(a: Option<ColumnType>, b: Option<ColumnType>) -> bool {
    let num = Some(ColumnType::Numeric);
    let truth = Some(ColumnType::Boolean);
    ||| a == b
    ||| a is None
    ||| b is None
    ||| a == truth && b == num
    ||| a == num && b == truth
}

/// Whether an operand type can stand under a logical operator.
pub open spec fn truth_type(a: Option<ColumnType>) -> bool {
    a == Some(ColumnType::Boolean) || a is None
}

/// The type of a literal; `None` for the absent literal, and a fault for a
/// date that the calendar does not have.
pub open spec fn literal_type(v: Datum) -> Result<Option<ColumnType>, Fault<Seq<u8>>> {
    match v {
        Cell::Absent => Ok(None),
        Cell::Boolean(_) => Ok(Some(ColumnType::Boolean)),
        Cell::Number(_) => Ok(Some(ColumnType::Numeric)),
        Cell::Text(_) => Ok(Some(ColumnType::Text)),
        Cell::Temporal(d) => if d.valid() {
            Ok(Some(ColumnType::Temporal))
        } else {
            Err(Fault::Mismatch)
        },
    }
}

/// The type of a unary operator's result on an operand of type `a`.
pub open spec fn unary_type(op: UnaryOp, a: Option<ColumnType>) -> Result<
    Option<ColumnType>,
    Fault<Seq<u8>>,
> {
    match op {
        UnaryOp::Not => if truth_type(a) {
            Ok(Some(ColumnType::Boolean))
        } else {
            Err(Fault::Mismatch)
        },
        UnaryOp::Negate => if a == Some(ColumnType::Numeric) || a is None {
            Ok(Some(ColumnType::Numeric))
        } else {
            Err(Fault::Mismatch)
        },
        UnaryOp::IsAbsent => Ok(Some(ColumnType::Boolean)),
        UnaryOp::IsPresent => Ok(Some(ColumnType::Boolean)),
    }
}

/// The type of a binary operator's result on operands of types `a` and `b`.
pub open spec fn binary_type(op: BinaryOp, a: Option<ColumnType>, b: Option<ColumnType>) -> Result<
    Option<ColumnType>,
    Fault<Seq<u8>>,
> {
    if op.is_arithmetic() {
        if numeric_pair(a, b) {
            Ok(Some(ColumnType::Numeric))
        } else {
            Err(Fault::Mismatch)
        }
    } else if op.is_logical() {
        if truth_type(a) && truth_type(b) {
            Ok(Some(ColumnType::Boolean))
        } else {
            Err(Fault::Mismatch)
        }
    } else {
        if comparable_pair(a, b) {
            Ok(Some(ColumnType::Boolean))
        } else {
            Err(Fault::Mismatch)
        }
    }
}

/// The static type of an expression over columns with the given names and
/// types, or the first fault met, operands from left to right before the
/// operator that joins them.
pub open spec fn type_of(e: Term, names: Seq<Seq<u8>>, types: Seq<ColumnType>) -> Result<
    Option<ColumnType>,
    Fault<Seq<u8>>,
>
    decreases e,
{
    match e {
        Expr::Literal(v) => literal_type(v),
        Expr::Column(name) => match position(names, name) {
            Some(i) => if i < types.len() {
                Ok(Some(types[i]))
            } else {
                Err(Fault::UnknownColumn(name))
            },
            None => Err(Fault::UnknownColumn(name)),
        },
        Expr::Unary(op, operand) => match type_of(*operand, names, types) {
            Ok(a) => unary_type(op, a),
            Err(f) => Err(f),
        },
        Expr::Binary(op, left, right) => match type_of(*left, names, types) {
            Ok(a) => match type_of(*right, names, types) {
                Ok(b) => binary_type(op, a, b),
                Err(f) => Err(f),
            },
            Err(f) => Err(f),
        },
    }
}

/// A truth value as the number it widens to.
pub open spec fn widen(v: Datum) -> Datum {
    match v {
        Cell::Boolean(b) => Cell::Number(if b { 1i64 } else { 0i64 }),
        other => other,
    }
}

/// The two operands of an operator after widening: where one is a number and
/// the other a truth value, the truth value becomes 0 or 1.
pub open spec fn widen_pair(a: Datum, b: Datum) -> (Datum, Datum) {
    if a is Number && b is Boolean {
        (a, widen(b))
    } else if a is Boolean && b is Number {
        (widen(a), b)
    } else {
        (a, b)
    }
}

/// Arithmetic on two numbers: `None` where the result does not fit in 64
/// bits or the divisor is 0. Division truncates towards zero, and the
/// remainder has the sign of the dividend.
pub open spec fn number_op(op: BinaryOp, x: i64, y: i64) -> Option<i64> {
    match op {
        BinaryOp::Add => x.checked_add(y),
        BinaryOp::Subtract => x.checked_sub(y),
        BinaryOp::Multiply => x.checked_mul(y),
        BinaryOp::Divide => x.checked_div(y),
        BinaryOp::Remainder => x.checked_rem(y),
        _ => None,
    }
}

/// Whether two scalars have the same type, absent having none.
pub open spec fn same_kind(a: Datum, b: Datum) -> bool {
    ||| a is Boolean && b is Boolean
    ||| a is Number && b is Number
    ||| a is Text && b is Text
    ||| a is Temporal && b is Temporal
}

/// The outcome of a comparison of two present scalars of one type.
pub open spec fn compare_op(op: BinaryOp, a: Datum, b: Datum) -> bool {
    match op {
        BinaryOp::Equal => a == b,
        BinaryOp::NotEqual => a != b,
        BinaryOp::Less => datum_before(a, b),
        BinaryOp::LessOrEqual => !datum_before(b, a),
        BinaryOp::Greater => datum_before(b, a),
        BinaryOp::GreaterOrEqual => !datum_before(a, b),
        _ => false,
    }
}

/// The value of a unary operator on a value. What the operator is not
/// defined on gives absent.
pub open spec fn unary_value(op: UnaryOp, v: Datum) -> Datum {
    match op {
        UnaryOp::Not => match v {
            Cell::Boolean(b) => Cell::Boolean(!b),
            _ => Cell::Absent,
        },
        UnaryOp::Negate => match v {
            Cell::Number(n) => if n == i64::MIN {
                Cell::Absent
            } else {
                Cell::Number((-n) as i64)
            },
            _ => Cell::Absent,
        },
        UnaryOp::IsAbsent => Cell::Boolean(v is Absent),
        UnaryOp::IsPresent => Cell::Boolean(!(v is Absent)),
    }
}

/// The value of a binary operator on two values. An absent operand, a
/// result that does not fit and a division by zero give absent; so do
/// operands whose types do not meet. `And` is false where one side is false
/// and `Or` is true where one side is true, whatever the other side is.
pub open spec fn binary_value(op: BinaryOp, a: Datum, b: Datum) -> Datum {
    if op.is_arithmetic() {
        match widen_pair(a, b) {
            (Cell::Number(x), Cell::Number(y)) => match number_op(op, x, y) {
                Some(n) => Cell::Number(n),
                None => Cell::Absent,
            },
            _ => Cell::Absent,
        }
    } else if op == BinaryOp::And {
        if a == Datum::Boolean(false) || b == Datum::Boolean(false) {
            Cell::Boolean(false)
        } else if a == Datum::Boolean(true) && b == Datum::Boolean(true) {
            Cell::Boolean(true)
        } else {
            Cell::Absent
        }
    } else if op == BinaryOp::Or {
        if a == Datum::Boolean(true) || b == Datum::Boolean(true) {
            Cell::Boolean(true)
        } else if a == Datum::Boolean(false) && b == Datum::Boolean(false) {
            Cell::Boolean(false)
        } else {
            Cell::Absent
        }
    } else {
        let (x, y) = widen_pair(a, b);
        if same_kind(x, y) {
            Cell::Boolean(compare_op(op, x, y))
        } else {
            Cell::Absent
        }
    }
}

/// The value of an expression on a row of a table whose columns have the
/// given names. A column that the row does not have gives absent.
pub open spec fn eval(e: Term, names: Seq<Seq<u8>>, row: Seq<Datum>) -> Datum
    decreases e,
{
    match e {
        Expr::Literal(v) => v,
        Expr::Column(name) => match position(names, name) {
            Some(i) => if i < row.len() {
                row[i]
            } else {
                Cell::Absent
            },
            None => Cell::Absent,
        },
        Expr::Unary(op, operand) => unary_value(op, eval(*operand, names, row)),
        Expr::Binary(op, left, right) => binary_value(
            op,
            eval(*left, names, row),
            eval(*right, names, row),
        ),
    }
}

/// The static type of a literal.
fn check_literal(v: &Value) -> (out: Result<Option<ColumnType>, Fault<Vec<u8>>>)
    ensures
        match out {
            Ok(t) => literal_type(v@) == Ok::<_, Fault<Seq<u8>>>(t),
            Err(f) => literal_type(v@) == Err::<Option<ColumnType>, _>(f@),
        },
{
    match v {
        Cell::Absent => Ok(None),
        Cell::Boolean(_) => Ok(Some(ColumnType::Boolean)),
        Cell::Number(_) => Ok(Some(ColumnType::Numeric)),
        Cell::Text(_) => Ok(Some(ColumnType::Text)),
        Cell::Temporal(d) => if d.is_valid() {
            Ok(Some(ColumnType::Temporal))
        } else {
            Err(Fault::Mismatch)
        },
    }
}

fn is_arithmetic(op: BinaryOp) -> (yes: bool)
    ensures
        yes == op.is_arithmetic(),
{
    match op {
        BinaryOp::Add | BinaryOp::Subtract | BinaryOp::Multiply | BinaryOp::Divide
        | BinaryOp::Remainder => true,
        _ => false,
    }
}

fn is_logical(op: BinaryOp) -> (yes: bool)
    ensures
        yes == op.is_logical(),
{
    match op {
        BinaryOp::And | BinaryOp::Or => true,
        _ => false,
    }
}

fn is_type(a: Option<ColumnType>, t: ColumnType) -> (yes: bool)
    ensures
        yes == (a == Some(t)),
{
    match a {
        Some(x) => x == t,
        None => false,
    }
}

fn check_unary(op: UnaryOp, a: Option<ColumnType>) -> (out: Result<
    Option<ColumnType>,
    Fault<Vec<u8>>,
>)
    ensures
        match out {
            Ok(t) => unary_type(op, a) == Ok::<_, Fault<Seq<u8>>>(t),
            Err(f) => unary_type(op, a) == Err::<Option<ColumnType>, _>(f@),
        },
{
    match op {
        UnaryOp::Not => if is_type(a, ColumnType::Boolean) || a.is_none() {
            Ok(Some(ColumnType::Boolean))
        } else {
            Err(Fault::Mismatch)
        },
        UnaryOp::Negate => if is_type(a, ColumnType::Numeric) || a.is_none() {
            Ok(Some(ColumnType::Numeric))
        } else {
            Err(Fault::Mismatch)
        },
        UnaryOp::IsAbsent => Ok(Some(ColumnType::Boolean)),
        UnaryOp::IsPresent => Ok(Some(ColumnType::Boolean)),
    }
}

fn check_binary(op: BinaryOp, a: Option<ColumnType>, b: Option<ColumnType>) -> (out: Result<
    Option<ColumnType>,
    Fault<Vec<u8>>,
>)
    ensures
        match out {
            Ok(t) => binary_type(op, a, b) == Ok::<_, Fault<Seq<u8>>>(t),
            Err(f) => binary_type(op, a, b) == Err::<Option<ColumnType>, _>(f@),
        },
{
    let a_num: bool = is_type(a, ColumnType::Numeric);
    let b_num: bool = is_type(b, ColumnType::Numeric);
    let a_truth: bool = is_type(a, ColumnType::Boolean);
    let b_truth: bool = is_type(b, ColumnType::Boolean);
    let mixed: bool = (a_truth && b_num) || (a_num && b_truth);
    if is_arithmetic(op) {
        if ((a_num || a.is_none()) && (b_num || b.is_none())) || mixed {
            Ok(Some(ColumnType::Numeric))
        } else {
            Err(Fault::Mismatch)
        }
    } else if is_logical(op) {
        if (a_truth || a.is_none()) && (b_truth || b.is_none()) {
            Ok(Some(ColumnType::Boolean))
        } else {
            Err(Fault::Mismatch)
        }
    } else {
        let same: bool = match (a, b) {
            (Some(x), Some(y)) => x == y,
            (None, None) => true,
            _ => false,
        };
        if same || a.is_none() || b.is_none() || mixed {
            Ok(Some(ColumnType::Boolean))
        } else {
            Err(Fault::Mismatch)
        }
    }
}

/// The static type of an expression over the columns of a table, or the
/// first fault in it.
pub fn check(e: &Expression, names: &Vec<Vec<u8>>, types: &Vec<ColumnType>) -> (out: Result<
    Option<ColumnType>,
    Fault<Vec<u8>>,
>)
    ensures
        match out {
            Ok(t) => type_of(e@, texts_view(names@), types@) == Ok::<_, Fault<Seq<u8>>>(t),
            Err(f) => type_of(e@, texts_view(names@), types@) == Err::<Option<ColumnType>, _>(
                f@,
            ),
        },
    decreases e,
{
    match e {
        Expr::Literal(v) => check_literal(v),
        Expr::Column(name) => match find_column(names, name) {
            Some(i) => if i < types.len() {
                Ok(Some(types[i]))
            } else {
                Err(Fault::UnknownColumn(copy_text(name)))
            },
            None => Err(Fault::UnknownColumn(copy_text(name))),
        },
        Expr::Unary(op, operand) => match check(operand, names, types) {
            Ok(a) => check_unary(*op, a),
            Err(f) => Err(f),
        },
        Expr::Binary(op, left, right) => match check(left, names, types) {
            Ok(a) => match check(right, names, types) {
                Ok(b) => check_binary(*op, a, b),
                Err(f) => Err(f),
            },
            Err(f) => Err(f),
        },
    }
}

/// Whether two scalars are the same.
pub fn same_value(a: &Value, b: &Value) -> (same: bool)
    ensures
        same == (a@ == b@),
{
    match (a, b) {
        (Cell::Absent, Cell::Absent) => true,
        (Cell::Boolean(x), Cell::Boolean(y)) => *x == *y,
        (Cell::Number(x), Cell::Number(y)) => *x == *y,
        (Cell::Text(x), Cell::Text(y)) => same_text(x, y),
        (Cell::Temporal(x), Cell::Temporal(y)) => x.year == y.year && x.month == y.month && x.day
            == y.day,
        _ => false,
    }
}

fn widen_value(v: Value) -> (out: Value)
    ensures
        out@ == widen(v@),
{
    match v {
        Cell::Boolean(b) => Cell::Number(if b { 1 } else { 0 }),
        other => other,
    }
}

fn widen_values(a: Value, b: Value) -> (out: (Value, Value))
    ensures
        (out.0@, out.1@) == widen_pair(a@, b@),
{
    let a_num: bool = matches!(a, Cell::Number(_));
    let b_num: bool = matches!(b, Cell::Number(_));
    let a_truth: bool = matches!(a, Cell::Boolean(_));
    let b_truth: bool = matches!(b, Cell::Boolean(_));
    if a_num && b_truth {
        (a, widen_value(b))
    } else if a_truth && b_num {
        (widen_value(a), b)
    } else {
        (a, b)
    }
}

fn apply_unary(op: UnaryOp, v: Value) -> (out: Value)
    ensures
        out@ == unary_value(op, v@),
{
    match op {
        UnaryOp::Not => match v {
            Cell::Boolean(b) => Cell::Boolean(!b),
            _ => Cell::Absent,
        },
        UnaryOp::Negate => match v {
            Cell::Number(n) => if n == i64::MIN {
                Cell::Absent
            } else {
                Cell::Number(-n)
            },
            _ => Cell::Absent,
        },
        UnaryOp::IsAbsent => Cell::Boolean(matches!(v, Cell::Absent)),
        UnaryOp::IsPresent => Cell::Boolean(!matches!(v, Cell::Absent)),
    }
}

fn apply_number_op(op: BinaryOp, x: i64, y: i64) -> (out: Option<i64>)
    ensures
        out == number_op(op, x, y),
{
    match op {
        BinaryOp::Add => x.checked_add(y),
        BinaryOp::Subtract => x.checked_sub(y),
        BinaryOp::Multiply => x.checked_mul(y),
        BinaryOp::Divide => x.checked_div(y),
        BinaryOp::Remainder => x.checked_rem(y),
        _ => None,
    }
}

fn is_truth(v: &Value, b: bool) -> (yes: bool)
    ensures
        yes == (v@ == Datum::Boolean(b)),
{
    match v {
        Cell::Boolean(x) => *x == b,
        _ => false,
    }
}

fn same_kind_values(a: &Value, b: &Value) -> (yes: bool)
    ensures
        yes == same_kind(a@, b@),
{
    match (a, b) {
        (Cell::Boolean(_), Cell::Boolean(_)) => true,
        (Cell::Number(_), Cell::Number(_)) => true,
        (Cell::Text(_), Cell::Text(_)) => true,
        (Cell::Temporal(_), Cell::Temporal(_)) => true,
        _ => false,
    }
}

fn apply_compare(op: BinaryOp, a: &Value, b: &Value) -> (out: bool)
    ensures
        out == compare_op(op, a@, b@),
{
    match op {
        BinaryOp::Equal => same_value(a, b),
        BinaryOp::NotEqual => !same_value(a, b),
        BinaryOp::Less => value_comes_before(a, b),
        BinaryOp::LessOrEqual => !value_comes_before(b, a),
        BinaryOp::Greater => value_comes_before(b, a),
        BinaryOp::GreaterOrEqual => !value_comes_before(a, b),
        _ => false,
    }
}

fn apply_binary(op: BinaryOp, a: Value, b: Value) -> (out: Value)
    ensures
        out@ == binary_value(op, a@, b@),
{
    if is_arithmetic(op) {
        match widen_values(a, b) {
            (Cell::Number(x), Cell::Number(y)) => match apply_number_op(op, x, y) {
                Some(n) => Cell::Number(n),
                None => Cell::Absent,
            },
            _ => Cell::Absent,
        }
    } else if op == BinaryOp::And {
        if is_truth(&a, false) || is_truth(&b, false) {
            Cell::Boolean(false)
        } else if is_truth(&a, true) && is_truth(&b, true) {
            Cell::Boolean(true)
        } else {
            Cell::Absent
        }
    } else if op == BinaryOp::Or {
        if is_truth(&a, true) || is_truth(&b, true) {
            Cell::Boolean(true)
        } else if is_truth(&a, false) && is_truth(&b, false) {
            Cell::Boolean(false)
        } else {
            Cell::Absent
        }
    } else {
        let (x, y) = widen_values(a, b);
        if same_kind_values(&x, &y) {
            Cell::Boolean(apply_compare(op, &x, &y))
        } else {
            Cell::Absent
        }
    }
}

/// The value of an expression on a row.
pub fn evaluate(e: &Expression, names: &Vec<Vec<u8>>, row: &Vec<Value>) -> (out: Value)
    ensures
        out@ == eval(e@, texts_view(names@), row_view(row@)),
    decreases e,
{
    match e {
        Expr::Literal(v) => copy_value(v),
        Expr::Column(name) => match find_column(names, name) {
            Some(i) => if i < row.len() {
                copy_value(&row[i])
            } else {
                Cell::Absent
            },
            None => Cell::Absent,
        },
        Expr::Unary(op, operand) => apply_unary(*op, evaluate(operand, names, row)),
        Expr::Binary(op, left, right) => {
            let a: Value = evaluate(left, names, row);
            let b: Value = evaluate(right, names, row);
            apply_binary(*op, a, b)
        },
    }
}

} // verus!
