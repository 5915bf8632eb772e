use vstd::prelude::*;

use crate::rel::{expr_view, exprs_view, lemma_exprs_view, Expr, ExprV, Operator, Row, Value};

verus! {

/// Texts in lexicographic order of their characters (which is the order of their UTF-8
/// bytes): `a` comes before `b`.
pub open spec fn text_lt(a: Seq<char>, b: Seq<char>) -> bool
    decreases a.len(),
{
    if a.len() == 0 {
        b.len() > 0
    } else if b.len() == 0 {
        false
    } else if a[0] != b[0] {
        (a[0] as int) < (b[0] as int)
    } else {
        text_lt(a.drop_first(), b.drop_first())
    }
}

/// The position of a value's kind in the order of values.
pub open spec fn value_rank(v: Value) -> int {
    match v {
        Value::Boolean(_) => 0,
        Value::UnsignedLong(_) => 1,
        Value::String(_) => 2,
    }
}

/// Equality of values.
pub open spec fn value_eq(a: Value, b: Value) -> bool {
    match (a, b) {
        (Value::Boolean(x), Value::Boolean(y)) => x == y,
        (Value::UnsignedLong(x), Value::UnsignedLong(y)) => x == y,
        (Value::String(x), Value::String(y)) => x@ == y@,
        _ => false,
    }
}

/// The order of values: by kind (booleans, then numbers, then texts), then by content.
pub open spec fn value_lt(a: Value, b: Value) -> bool {
    match (a, b) {
        (Value::Boolean(x), Value::Boolean(y)) => !x && y,
        (Value::UnsignedLong(x), Value::UnsignedLong(y)) => x < y,
        (Value::String(x), Value::String(y)) => text_lt(x@, y@),
        _ => value_rank(a) < value_rank(b),
    }
}

/// Whether an operator compares its operands.
pub open spec fn is_comparison(op: Operator) -> bool {
    match op {
        Operator::Eq | Operator::NotEq | Operator::Lt | Operator::LtEq | Operator::Gt
        | Operator::GtEq => true,
        _ => false,
    }
}

/// The truth of `a op b` for a comparison `op`.
pub open spec fn compare(op: Operator, a: Value, b: Value) -> bool {
    match op {
        Operator::Eq => value_eq(a, b),
        Operator::NotEq => !value_eq(a, b),
        Operator::Lt => value_lt(a, b),
        Operator::LtEq => value_lt(a, b) || value_eq(a, b),
        Operator::Gt => value_lt(b, a),
        _ => value_lt(b, a) || value_eq(a, b),
    }
}

/// Whether an expression calls a function.
pub open spec fn has_call(e: ExprV) -> bool
    decreases e,
{
    match e {
        ExprV::Binary { left, right, .. } => has_call(*left) || has_call(*right),
        ExprV::Sort { expr, .. } => has_call(*expr),
        ExprV::ScalarFunction { .. } => true,
        _ => false,
    }
}

/// Whether evaluating an expression on `row` fails: it names a column that the row
/// lacks, or applies an operator that is not a comparison.
pub open spec fn eval_aborts(row: Seq<Value>, e: ExprV) -> bool
    decreases e,
{
    match e {
        ExprV::TupleValue(i) => i >= row.len(),
        ExprV::Binary { left, op, right } => eval_aborts(row, *left) || eval_aborts(row, *right)
            || !is_comparison(op),
        ExprV::Sort { expr, .. } => eval_aborts(row, *expr),
        _ => false,
    }
}

/// The value of an expression (without function calls) on `row`.
pub open spec fn eval(row: Seq<Value>, e: ExprV) -> Value
    decreases e,
{
    match e {
        ExprV::TupleValue(i) => row[i as int],
        ExprV::Literal(v) => v,
        ExprV::Binary { left, op, right } => Value::Boolean(
            compare(op, eval(row, *left), eval(row, *right)),
        ),
        ExprV::Sort { expr, .. } => eval(row, *expr),
        ExprV::ScalarFunction { .. } => Value::Boolean(false),
    }
}

/// Whether `a` comes before `b`, character by character.
pub fn text_less(a: &str, b: &str) -> (r: bool)
    ensures
        r == text_lt(a@, b@),
{
    let x = crate::rel::chars_of(a);
    let y = crate::rel::chars_of(b);
    let mut i: usize = 0;
    assert(x@.skip(0) == x@ && y@.skip(0) == y@);
    while i < x.len() && i < y.len()
        invariant
            i <= x.len(),
            i <= y.len(),
            text_lt(a@, b@) == text_lt(x@.skip(i as int), y@.skip(i as int)),
            x@ == a@,
            y@ == b@,
        decreases x.len() - i,
    {
        if x[i] != y[i] {
            return x[i] < y[i];
        }
        proof {
            assert(x@.skip(i as int).drop_first() == x@.skip(i as int + 1));
            assert(y@.skip(i as int).drop_first() == y@.skip(i as int + 1));
        }
        i = i + 1;
    }
    i < y.len()
}

/// Whether two values are equal.
pub fn value_equal(a: &Value, b: &Value) -> (r: bool)
    ensures
        r == value_eq(*a, *b),
{
    match (a, b) {
        (Value::Boolean(x), Value::Boolean(y)) => *x == *y,
        (Value::UnsignedLong(x), Value::UnsignedLong(y)) => *x == *y,
        (Value::String(x), Value::String(y)) => *x == *y,
        _ => false,
    }
}

fn rank(v: &Value) -> (r: u8)
    ensures
        r == value_rank(*v),
{
    match v {
        Value::Boolean(_) => 0,
        Value::UnsignedLong(_) => 1,
        Value::String(_) => 2,
    }
}

/// Whether `a` comes before `b` in the order of values.
pub fn value_less(a: &Value, b: &Value) -> (r: bool)
    ensures
        r == value_lt(*a, *b),
{
    match (a, b) {
        (Value::Boolean(x), Value::Boolean(y)) => !*x && *y,
        (Value::UnsignedLong(x), Value::UnsignedLong(y)) => *x < *y,
        (Value::String(x), Value::String(y)) => text_less(x.as_str(), y.as_str()),
        _ => rank(a) < rank(b),
    }
}

/// The value of an expression (without function calls) on `row`.
pub fn evaluate_expr(row: &Row, expr: &Expr) -> (r: Value)
    requires
        !has_call(expr@),
        !eval_aborts(row@, expr@),
    ensures
        r == eval(row@, expr@),
    decreases expr,
{
    match expr {
        Expr::TupleValue(index) => row.values[*index].clone(),
        Expr::Literal(value) => value.clone(),
        Expr::Binary { left, op, right } => {
            let a = evaluate_expr(row, left);
            let b = evaluate_expr(row, right);
            let truth = match op {
                Operator::Eq => value_equal(&a, &b),
                Operator::NotEq => !value_equal(&a, &b),
                Operator::Lt => value_less(&a, &b),
                Operator::LtEq => value_less(&a, &b) || value_equal(&a, &b),
                Operator::Gt => value_less(&b, &a),
                Operator::GtEq => value_less(&b, &a) || value_equal(&a, &b),
                _ => {
                    proof {
                        assert(false);
                    }
                    false
                },
            };
            Value::Boolean(truth)
        },
        Expr::Sort { expr, .. } => evaluate_expr(row, expr),
        Expr::ScalarFunction { .. } => {
            proof {
                assert(false);
            }
            Value::Boolean(false)
        },
    }
}


pub proof fn lemma_text_lt_asym(a: Seq<char>, b: Seq<char>)
    ensures
        text_lt(a, b) ==> !text_lt(b, a),
        !text_lt(a, b) && !text_lt(b, a) ==> a == b,
    decreases a.len(),
{
    if a.len() > 0 && b.len() > 0 && a[0] == b[0] {
        lemma_text_lt_asym(a.drop_first(), b.drop_first());
        if !text_lt(a, b) && !text_lt(b, a) {
            assert(a =~= seq![a[0]] + a.drop_first());
            assert(b =~= seq![b[0]] + b.drop_first());
        }
    }
    if a.len() > 0 && b.len() > 0 && a[0] != b[0] {
        assert((a[0] as int) != (b[0] as int));
    }
    if a.len() == 0 && b.len() == 0 {
        assert(a =~= b);
    }
}

pub proof fn lemma_text_lt_trans(a: Seq<char>, b: Seq<char>, c: Seq<char>)
    requires
        text_lt(a, b),
        text_lt(b, c),
    ensures
        text_lt(a, c),
    decreases a.len(),
{
    if a.len() > 0 && b.len() > 0 && c.len() > 0 && a[0] == b[0] && b[0] == c[0] {
        lemma_text_lt_trans(a.drop_first(), b.drop_first(), c.drop_first());
    }
}

/// The order of values is a strict total order, up to equality of values.
pub proof fn lemma_value_order(a: Value, b: Value, c: Value)
    ensures
        value_lt(a, b) ==> !value_lt(b, a),
        !value_lt(a, b) && !value_lt(b, a) ==> value_eq(a, b),
        value_lt(a, b) && value_lt(b, c) ==> value_lt(a, c),
        value_eq(a, b) ==> (value_lt(a, c) == value_lt(b, c) && value_lt(c, a) == value_lt(c, b)),
        value_eq(a, b) ==> value_eq(b, a),
        value_eq(a, b) && value_eq(b, c) ==> value_eq(a, c),
        value_eq(a, a),
{
    match (a, b) {
        (Value::String(x), Value::String(y)) => {
            lemma_text_lt_asym(x@, y@);
        },
        _ => {},
    }
    match (a, b, c) {
        (Value::String(x), Value::String(y), Value::String(z)) => {
            if value_lt(a, b) && value_lt(b, c) {
                lemma_text_lt_trans(x@, y@, z@);
            }
        },
        _ => {},
    }
}

}
