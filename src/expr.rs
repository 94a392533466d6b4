use vstd::prelude::*;

use crate::data::{copy_value, find_column, find_name, names_of, ColumnDef, Value};
use crate::error::Error;

verus! {

#[derive(Debug, Clone, Copy, PartialEq, Eq, Structural)]
pub enum BinaryOperator {
    Eq,
    NotEq,
    Lt,
    LtEq,
    Gt,
    GtEq,
    And,
    Or,
    Plus,
    Minus,
    Multiply,
}

/// A scalar expression over the columns of one row.
#[derive(Debug, PartialEq)]
pub enum Expr {
    Identifier(String),
    Literal(Value),
    Not(Box<Expr>),
    IsNull(Box<Expr>),
    IsNotNull(Box<Expr>),
    BinaryOp(Box<Expr>, BinaryOperator, Box<Expr>),
}

/// The value of column `name` in `row`.
pub open spec fn column_value(cols: Seq<ColumnDef>, row: Seq<Value>, name: Seq<char>) -> Result<Value, Error> {
    match find_name(names_of(cols), name) {
        Some(i) => if i < row.len() { Ok(row[i]) } else { Err(Error::ArityMismatch) },
        None => Err(Error::ColumnNotFound),
    }
}

/// Negation in three-valued logic.
pub open spec fn not_value(v: Value) -> Result<Value, Error> {
    match v {
        Value::Null => Ok(Value::Null),
        Value::Bool(b) => Ok(Value::Bool(!b)),
        _ => Err(Error::TypeMismatch),
    }
}

pub open spec fn is_logical(v: Value) -> bool {
    v is Null || v is Bool
}

/// Equality of two non-null values of one type.
pub open spec fn same_value(a: Value, b: Value) -> Result<bool, Error> {
    match (a, b) {
        (Value::Bool(x), Value::Bool(y)) => Ok(x == y),
        (Value::Int(x), Value::Int(y)) => Ok(x == y),
        (Value::Text(x), Value::Text(y)) => Ok(x@ == y@),
        _ => Err(Error::TypeMismatch),
    }
}

pub open spec fn int_result(r: int) -> Result<Value, Error> {
    if i64::MIN <= r <= i64::MAX {
        Ok(Value::Int(r as i64))
    } else {
        Err(Error::Overflow)
    }
}

/// A binary operator applied to two evaluated operands. Comparisons and
/// arithmetic with a null operand are unknown (null); `AND` and `OR` follow
/// three-valued logic.
pub open spec fn binary_value(op: BinaryOperator, a: Value, b: Value) -> Result<Value, Error> {
    match op {
        BinaryOperator::And => if !is_logical(a) || !is_logical(b) {
            Err(Error::TypeMismatch)
        } else if a == Value::Bool(false) || b == Value::Bool(false) {
            Ok(Value::Bool(false))
        } else if a is Null || b is Null {
            Ok(Value::Null)
        } else {
            Ok(Value::Bool(true))
        },
        BinaryOperator::Or => if !is_logical(a) || !is_logical(b) {
            Err(Error::TypeMismatch)
        } else if a == Value::Bool(true) || b == Value::Bool(true) {
            Ok(Value::Bool(true))
        } else if a is Null || b is Null {
            Ok(Value::Null)
        } else {
            Ok(Value::Bool(false))
        },
        _ => if a is Null || b is Null {
            Ok(Value::Null)
        } else {
            match op {
                BinaryOperator::Eq => match same_value(a, b) {
                    Ok(x) => Ok(Value::Bool(x)),
                    Err(e) => Err(e),
                },
                BinaryOperator::NotEq => match same_value(a, b) {
                    Ok(x) => Ok(Value::Bool(!x)),
                    Err(e) => Err(e),
                },
                _ => match (a, b) {
                    (Value::Int(x), Value::Int(y)) => match op {
                        BinaryOperator::Lt => Ok(Value::Bool(x < y)),
                        BinaryOperator::LtEq => Ok(Value::Bool(x <= y)),
                        BinaryOperator::Gt => Ok(Value::Bool(x > y)),
                        BinaryOperator::GtEq => Ok(Value::Bool(x >= y)),
                        BinaryOperator::Plus => int_result(x + y),
                        BinaryOperator::Minus => int_result(x - y),
                        _ => int_result(x * y),
                    },
                    _ => Err(Error::TypeMismatch),
                },
            }
        },
    }
}

/// The value of `e` on `row`, whose columns are `cols`.
pub open spec fn eval(e: Expr, cols: Seq<ColumnDef>, row: Seq<Value>) -> Result<Value, Error>
    decreases e,
{
    match e {
        Expr::Identifier(name) => column_value(cols, row, name@),
        Expr::Literal(v) => Ok(v),
        Expr::Not(a) => match eval(*a, cols, row) {
            Ok(v) => not_value(v),
            Err(x) => Err(x),
        },
        Expr::IsNull(a) => match eval(*a, cols, row) {
            Ok(v) => Ok(Value::Bool(v is Null)),
            Err(x) => Err(x),
        },
        Expr::IsNotNull(a) => match eval(*a, cols, row) {
            Ok(v) => Ok(Value::Bool(!(v is Null))),
            Err(x) => Err(x),
        },
        Expr::BinaryOp(l, op, r) => match eval(*l, cols, row) {
            Ok(a) => match eval(*r, cols, row) {
                Ok(b) => binary_value(op, a, b),
                Err(x) => Err(x),
            },
            Err(x) => Err(x),
        },
    }
}

/// Whether a row passes an optional WHERE clause: an absent clause passes
/// every row, an unknown (null) outcome passes none.
pub open spec fn row_matches(selection: Option<Expr>, cols: Seq<ColumnDef>, row: Seq<Value>) -> Result<bool, Error> {
    match selection {
        None => Ok(true),
        Some(e) => match eval(e, cols, row) {
            Ok(Value::Bool(b)) => Ok(b),
            Ok(Value::Null) => Ok(false),
            Ok(_) => Err(Error::TypeMismatch),
            Err(x) => Err(x),
        },
    }
}

fn checked_int(r: Option<i64>) -> (v: Result<Value, Error>)
    ensures
        r matches Some(x) ==> v == Ok::<Value, Error>(Value::Int(x)),
        r is None ==> v == Err::<Value, Error>(Error::Overflow),
{
    match r {
        Some(x) => Ok(Value::Int(x)),
        None => Err(Error::Overflow),
    }
}

/// Applies a binary operator to two evaluated operands.
pub fn binary(op: BinaryOperator, a: Value, b: Value) -> (r: Result<Value, Error>)
    ensures
        r == binary_value(op, a, b),
{
    match op {
        BinaryOperator::And | BinaryOperator::Or => {
            let logical_a = matches!(a, Value::Null | Value::Bool(_));
            let logical_b = matches!(b, Value::Null | Value::Bool(_));
            if !logical_a || !logical_b {
                return Err(Error::TypeMismatch);
            }
            let is_and = matches!(op, BinaryOperator::And);
            // the operand value that decides the outcome on its own
            let decisive = !is_and;
            let a_decides = matches!(a, Value::Bool(x) if x == decisive);
            let b_decides = matches!(b, Value::Bool(x) if x == decisive);
            if a_decides || b_decides {
                Ok(Value::Bool(decisive))
            } else if matches!(a, Value::Null) || matches!(b, Value::Null) {
                Ok(Value::Null)
            } else {
                Ok(Value::Bool(!decisive))
            }
        },
        _ => {
            if matches!(a, Value::Null) || matches!(b, Value::Null) {
                return Ok(Value::Null);
            }
            match (a, b) {
                (Value::Int(x), Value::Int(y)) => match op {
                    BinaryOperator::Eq => Ok(Value::Bool(x == y)),
                    BinaryOperator::NotEq => Ok(Value::Bool(x != y)),
                    BinaryOperator::Lt => Ok(Value::Bool(x < y)),
                    BinaryOperator::LtEq => Ok(Value::Bool(x <= y)),
                    BinaryOperator::Gt => Ok(Value::Bool(x > y)),
                    BinaryOperator::GtEq => Ok(Value::Bool(x >= y)),
                    BinaryOperator::Plus => checked_int(x.checked_add(y)),
                    BinaryOperator::Minus => checked_int(x.checked_sub(y)),
                    _ => checked_int(x.checked_mul(y)),
                },
                (Value::Bool(x), Value::Bool(y)) => match op {
                    BinaryOperator::Eq => Ok(Value::Bool(x == y)),
                    BinaryOperator::NotEq => Ok(Value::Bool(x != y)),
                    _ => Err(Error::TypeMismatch),
                },
                (Value::Text(x), Value::Text(y)) => match op {
                    BinaryOperator::Eq => Ok(Value::Bool(x == y)),
                    BinaryOperator::NotEq => Ok(Value::Bool(!(x == y))),
                    _ => Err(Error::TypeMismatch),
                },
                _ => Err(Error::TypeMismatch),
            }
        },
    }
}

/// Evaluates `e` on `row`, whose columns are `cols`.
pub fn evaluate(e: &Expr, cols: &Vec<ColumnDef>, row: &Vec<Value>) -> (r: Result<Value, Error>)
    ensures
        r == eval(*e, cols@, row@),
    decreases e,
{
    match e {
        Expr::Identifier(name) => match find_column(cols, name) {
            Some(i) => if i < row.len() {
                Ok(copy_value(&row[i]))
            } else {
                Err(Error::ArityMismatch)
            },
            None => Err(Error::ColumnNotFound),
        },
        Expr::Literal(v) => Ok(copy_value(v)),
        Expr::Not(a) => match evaluate(a, cols, row)? {
            Value::Null => Ok(Value::Null),
            Value::Bool(b) => Ok(Value::Bool(!b)),
            _ => Err(Error::TypeMismatch),
        },
        Expr::IsNull(a) => {
            let v = evaluate(a, cols, row)?;
            Ok(Value::Bool(matches!(v, Value::Null)))
        },
        Expr::IsNotNull(a) => {
            let v = evaluate(a, cols, row)?;
            Ok(Value::Bool(!matches!(v, Value::Null)))
        },
        Expr::BinaryOp(l, op, r) => {
            let a = evaluate(l, cols, row)?;
            let b = evaluate(r, cols, row)?;
            binary(*op, a, b)
        },
    }
}

/// Decides whether `row` passes the optional WHERE clause `selection`.
/// Evaluation faults are reported, never read as a non-match.
pub fn filter_row(selection: &Option<Expr>, cols: &Vec<ColumnDef>, row: &Vec<Value>) -> (r: Result<bool, Error>)
    ensures
        r == row_matches(*selection, cols@, row@),
{
    match selection {
        None => Ok(true),
        Some(e) => match evaluate(e, cols, row)? {
            Value::Bool(b) => Ok(b),
            Value::Null => Ok(false),
            _ => Err(Error::TypeMismatch),
        },
    }
}

} // verus!
