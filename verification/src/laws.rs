use vstd::prelude::*;

use crate::datasource::{
    decimal_value, field_fits, is_digit, parse_u64_spec, record_fits, records_fit, unsigned_digits, value_read,
};
use crate::eval::{compare, eval, eval_aborts, has_call, is_comparison, lemma_value_order, value_eq, value_lt};
use crate::exec::{builtin_named, compilable, computed, declared_schema, lowercase, ExecutionContext};
use crate::executor::{fails, is_run};
use crate::rel::{decimal_text, digit_char, value_text, DataType, ExprV, FieldV, Operator, PlanV, Value};
use crate::relation::{filtered, key_order, limited, predicate_applies};
use crate::sql::{AstV, SQLColumnDefV};
use crate::sqltorel::{input_of, rel_of, rex_of};
use crate::rel::lemma_first_column_named_found;

verus! {

/// A table whose schema was defined (by `define_schema` or `register_table`) is read
/// back (by `table_schema`) with that schema, and every other table keeps its own.
pub proof fn law_defined_table_is_read_back(
    before: ExecutionContext,
    after: ExecutionContext,
    name: Seq<char>,
    schema: Seq<FieldV>,
)
    requires
        after.tables() == before.tables().insert(name, schema),
    ensures
        after.tables().contains_key(name),
        after.tables()[name] == schema,
        forall|other: Seq<char>|
            other != name ==> (#[trigger] after.tables().contains_key(other) == before.tables().contains_key(other)
                && (before.tables().contains_key(other) ==> after.tables()[other] == before.tables()[other])),
{
}

/// After a `CREATE TABLE` statement defines a table, a query that reads that table plans
/// a scan of it whose schema is the one that the statement declared, a field per column
/// definition.
pub proof fn law_created_table_is_scanned(
    before: Map<Seq<char>, Seq<FieldV>>,
    after: Map<Seq<char>, Seq<FieldV>>,
    name: Seq<char>,
    columns: Seq<SQLColumnDefV>,
)
    requires
        after == before.insert(name, declared_schema(columns)),
    ensures
        rel_of(AstV::SQLIdentifier { id: name }, after) == Some(
            PlanV::TableScan { schema_name: "default"@, table_name: name, schema: declared_schema(columns) },
        ),
        rel_of(AstV::SQLIdentifier { id: name }, after)->0.schema().len() == columns.len(),
{
}

proof fn lemma_digit_char(d: nat)
    requires
        d < 10,
    ensures
        is_digit(digit_char(d)),
        digit_char(d) as nat - '0' as nat == d,
{
}

proof fn lemma_decimal_text(n: nat)
    ensures
        decimal_text(n).len() > 0,
        decimal_text(n)[0] != '+',
        forall|i: int| 0 <= i < decimal_text(n).len() ==> is_digit(#[trigger] decimal_text(n)[i]),
        decimal_value(decimal_text(n)) == n,
    decreases n,
{
    if n < 10 {
        lemma_digit_char(n);
        let s = decimal_text(n);
        assert(s.drop_last() =~= Seq::<char>::empty());
        assert(decimal_value(s.drop_last()) == 0);
    } else {
        lemma_decimal_text(n / 10);
        lemma_digit_char(n % 10);
        let p = decimal_text(n / 10);
        let s = decimal_text(n);
        assert(s == p.push(digit_char(n % 10)));
        assert(s.drop_last() =~= p);
        assert(s[0] == p[0]);
        assert forall|i: int| 0 <= i < s.len() implies is_digit(#[trigger] s[i]) by {
            if i < p.len() {
                assert(s[i] == p[i]);
            }
        }
        assert((n / 10) * 10 + n % 10 == n) by (nonlinear_arith);
        assert(decimal_value(s) == decimal_value(p) * 10 + (n % 10));
    }
}

/// A value that `Row::to_string` writes is read back as the same value by a CSV scan of a
/// column of its type: a number from its decimal text, a text as it is.
pub proof fn law_written_value_reads_back(v: Value, t: DataType)
    requires
        (v is UnsignedLong && t == DataType::UnsignedLong) || (v is String && t == DataType::String),
    ensures
        value_read(v, value_text(v), t),
        v is UnsignedLong ==> parse_u64_spec(value_text(v)) == Some(v->UnsignedLong_0),
{
    if let Value::UnsignedLong(n) = v {
        lemma_decimal_text(n as nat);
        let s = decimal_text(n as nat);
        assert(unsigned_digits(s) == s);
    }
}

/// The comparisons agree with one another: `a > b` is `b < a`, `a >= b` is `b <= a`,
/// `a != b` is the negation of `a == b`, and exactly one of `a < b`, `a == b`, `a > b`
/// holds.
pub proof fn law_comparisons_are_consistent(a: Value, b: Value)
    ensures
        compare(Operator::Gt, a, b) == compare(Operator::Lt, b, a),
        compare(Operator::GtEq, a, b) == compare(Operator::LtEq, b, a),
        compare(Operator::NotEq, a, b) == !compare(Operator::Eq, a, b),
        compare(Operator::LtEq, a, b) == (compare(Operator::Lt, a, b) || compare(Operator::Eq, a, b)),
        compare(Operator::Lt, a, b) || compare(Operator::Eq, a, b) || compare(Operator::Gt, a, b),
        !(compare(Operator::Lt, a, b) && compare(Operator::Eq, a, b)),
        !(compare(Operator::Lt, a, b) && compare(Operator::Gt, a, b)),
        !(compare(Operator::Eq, a, b) && compare(Operator::Gt, a, b)),
{
    lemma_value_order(a, b, a);
    lemma_value_order(b, a, b);
    if compare(Operator::Eq, a, b) {
        lemma_value_order(a, b, b);
        lemma_value_order(a, a, b);
    }
}

/// Filtering by a predicate a second time changes nothing.
pub proof fn law_filter_is_idempotent(items: Seq<Option<Seq<Value>>>, pred: ExprV)
    ensures
        filtered(filtered(items, pred), pred) == filtered(items, pred),
    decreases items.len(),
{
    if items.len() > 0 {
        let rest = items.drop_last();
        law_filter_is_idempotent(rest, pred);
        let f = filtered(rest, pred);
        if filtered(items, pred) == f.push(items.last()) {
            let g = f.push(items.last());
            assert(g.drop_last() =~= f);
            assert(g.last() == items.last());
        }
    }
}

/// Limiting to `n` items and then to `m` items limits to the smaller of the two.
pub proof fn law_limit_of_limit(items: Seq<Option<Seq<Value>>>, n: nat, m: nat)
    ensures
        limited(limited(items, n), m) == limited(items, if n < m { n } else { m }),
{
    assert(limited(limited(items, n), m) =~= limited(items, if n < m { n } else { m }));
}

/// Function names are matched case aside: two names with the same lower-case form select
/// the same built-in function.
pub proof fn law_function_names_ignore_case(a: Seq<char>, b: Seq<char>)
    requires
        lowercase(a) == lowercase(b),
    ensures
        builtin_named(a) == builtin_named(b),
{
}

/// A `SELECT` plans a projection with a field per projected expression, and each column
/// that it projects keeps the field of its input column: name, type and nullability.
pub proof fn law_projected_columns_keep_their_fields(a: AstV, tables: Map<Seq<char>, Seq<FieldV>>, p: PlanV)
    requires
        a is SQLSelect,
        rel_of(a, tables) == Some(p),
    ensures
        p matches PlanV::Projection { expr, input, schema } && schema.len() == expr.len() && forall|k: int|
            0 <= k < expr.len() && (#[trigger] expr[k]) is TupleValue ==> schema[k] == input.schema()[expr[k]->TupleValue_0 as int]
                && input.schema() == input_of(a->SQLSelect_relation, tables)->0.schema(),
        p matches PlanV::Projection { expr, schema, .. } && forall|k: int|
            0 <= k < expr.len() && (#[trigger] expr[k]) is ScalarFunction ==> schema[k] == (FieldV {
                name: expr[k]->ScalarFunction_name,
                data_type: DataType::Double,
                nullable: true,
            }),
{
}

/// A column reference plans to the first column of that name.
pub proof fn law_columns_are_found_by_name(id: Seq<char>, cols: Seq<FieldV>)
    requires
        cols.len() <= usize::MAX,
    ensures
        match rex_of(AstV::SQLIdentifier { id }, cols) {
            Some(e) => e matches ExprV::TupleValue(i) && i < cols.len() && cols[i as int].name == id && forall|j: int|
                0 <= j < i ==> #[trigger] cols[j].name != id,
            None => forall|j: int| 0 <= j < cols.len() ==> #[trigger] cols[j].name != id,
        },
{
    lemma_first_column_named_found(cols, id);
    if let Some(i) = crate::rel::first_column_named(cols, id) {
        assert((i as usize) as int == i);
    }
}

/// What evaluating a comparison gives, in terms of the order and equality of values.
pub proof fn law_evaluated_comparisons(row: Seq<Value>, left: ExprV, right: ExprV)
    ensures
        ({
            let a = eval(row, left);
            let b = eval(row, right);
            let e = |op: Operator| eval(row, ExprV::Binary { left: Box::new(left), op, right: Box::new(right) });
            &&& e(Operator::Lt) == Value::Boolean(value_lt(a, b))
            &&& e(Operator::Gt) == Value::Boolean(value_lt(b, a))
            &&& e(Operator::Eq) == Value::Boolean(value_eq(a, b))
            &&& e(Operator::NotEq) == Value::Boolean(!value_eq(a, b))
            &&& e(Operator::LtEq) == Value::Boolean(value_lt(a, b) || value_eq(a, b))
            &&& e(Operator::GtEq) == Value::Boolean(value_lt(b, a) || value_eq(a, b))
        }),
{
}

/// Rows that the first sort key does not tell apart are ordered by the remaining keys,
/// whether the first key sorts up or down.
pub proof fn law_ties_fall_to_the_next_key(a: Seq<Value>, b: Seq<Value>, keys: Seq<ExprV>)
    requires
        keys.len() > 0,
        keys[0] is Sort,
        !value_lt(eval(a, *keys[0]->Sort_expr), eval(b, *keys[0]->Sort_expr)),
        !value_lt(eval(b, *keys[0]->Sort_expr), eval(a, *keys[0]->Sort_expr)),
    ensures
        key_order(a, b, keys) == key_order(a, b, keys.drop_first()),
{
}

/// A row that the first sort key puts first comes first, whatever the later keys say:
/// up, the smaller value first; down, the larger.
pub proof fn law_first_key_decides(a: Seq<Value>, b: Seq<Value>, keys: Seq<ExprV>)
    requires
        keys.len() > 0,
        keys[0] is Sort,
        value_lt(eval(a, *keys[0]->Sort_expr), eval(b, *keys[0]->Sort_expr)),
    ensures
        key_order(a, b, keys) == if keys[0]->Sort_asc { -1int } else { 1int },
        key_order(b, a, keys) == -key_order(a, b, keys),
{
    lemma_value_order(eval(a, *keys[0]->Sort_expr), eval(b, *keys[0]->Sort_expr), eval(a, *keys[0]->Sort_expr));
}

/// Whether an expression is made of literals and comparisons alone.
pub open spec fn comparisons_of_literals(e: ExprV) -> bool
    decreases e,
{
    match e {
        ExprV::Literal(_) => true,
        ExprV::Binary { left, op, right } => is_comparison(op) && comparisons_of_literals(*left)
            && comparisons_of_literals(*right),
        _ => false,
    }
}

/// A compiled expression of literals and comparisons gives what evaluating the expression
/// gives, on any row.
pub proof fn law_compiled_comparisons_agree_with_evaluation(e: ExprV, row: Seq<Value>)
    requires
        comparisons_of_literals(e),
    ensures
        compilable(e),
        computed(e) == Some(eval(row, e)),
    decreases e,
{
    if let ExprV::Binary { left, op, right } = e {
        law_compiled_comparisons_agree_with_evaluation(*left, row);
        law_compiled_comparisons_agree_with_evaluation(*right, row);
    }
}

/// A compiled `a < b` of two literals is whether `a` comes before `b`; a compiled sum of
/// two numbers is their sum where it fits in 64 bits.
pub proof fn law_compiled_less_and_sum(a: Value, b: Value, x: u64, y: u64)
    ensures
        computed(ExprV::Binary { left: Box::new(ExprV::Literal(a)), op: Operator::Lt, right: Box::new(ExprV::Literal(b)) })
            == Some(Value::Boolean(value_lt(a, b))),
        x + y <= u64::MAX ==> computed(
            ExprV::Binary {
                left: Box::new(ExprV::Literal(Value::UnsignedLong(x))),
                op: Operator::Plus,
                right: Box::new(ExprV::Literal(Value::UnsignedLong(y))),
            },
        ) == Some(Value::UnsignedLong((x + y) as u64)),
{
    assert(computed(ExprV::Literal(a)) == Some(a));
    assert(computed(ExprV::Literal(b)) == Some(b));
    assert(computed(ExprV::Literal(Value::UnsignedLong(x))) == Some(Value::UnsignedLong(x)));
    assert(computed(ExprV::Literal(Value::UnsignedLong(y))) == Some(Value::UnsignedLong(y)));
}

/// Evaluating a comparison fails only where evaluating an operand fails: a column that
/// the row has and a literal never fail.
pub proof fn law_comparisons_evaluate(row: Seq<Value>, left: ExprV, op: Operator, right: ExprV, i: usize, v: Value)
    requires
        is_comparison(op),
    ensures
        eval_aborts(row, ExprV::Binary { left: Box::new(left), op, right: Box::new(right) }) == (eval_aborts(row, left)
            || eval_aborts(row, right)),
        eval(row, ExprV::Binary { left: Box::new(left), op, right: Box::new(right) }) is Boolean,
        eval_aborts(row, ExprV::TupleValue(i)) == (i >= row.len()),
        !eval_aborts(row, ExprV::Literal(v)),
{
}

/// A filter by a comparison of operands that every scanned row can evaluate runs: a
/// filter directly over a scan fails exactly where its predicate cannot be evaluated on
/// the scanned rows.
pub proof fn law_comparison_filter_runs(
    scanned: Seq<Option<Seq<Value>>>,
    left: ExprV,
    op: Operator,
    right: ExprV,
    filename: Seq<char>,
    schema: Seq<FieldV>,
)
    requires
        is_comparison(op),
        !has_call(left),
        !has_call(right),
        forall|k: int| 0 <= k < scanned.len() && #[trigger] scanned[k] is Some ==> !eval_aborts(scanned[k]->0, left)
            && !eval_aborts(scanned[k]->0, right),
    ensures
        !fails(
            PlanV::Selection {
                expr: ExprV::Binary { left: Box::new(left), op, right: Box::new(right) },
                input: Box::new(PlanV::CsvFile { filename, schema }),
                schema,
            },
            scanned,
        ),
{
    let pred = ExprV::Binary { left: Box::new(left), op, right: Box::new(right) };
    let input = PlanV::CsvFile { filename, schema };
    assert(!has_call(pred));
    assert forall|k: int| 0 <= k < scanned.len() && #[trigger] scanned[k] is Some implies !eval_aborts(scanned[k]->0, pred)
        && eval(scanned[k]->0, pred) is Boolean by {
        assert(!eval_aborts(scanned[k]->0, left) && !eval_aborts(scanned[k]->0, right));
    }
    assert(predicate_applies(scanned, pred));
    assert forall|t: Seq<Seq<Option<Seq<Value>>>>| #[trigger] is_run(input, scanned, t) implies predicate_applies(t[0], pred) by {
        assert(t[0] == scanned);
    }
    assert(!fails(input, scanned));
}

/// A text column takes any field text, the empty one included; a number column takes a
/// field that reads as a `u64`.
pub proof fn law_fields_that_fit(text: Seq<char>)
    ensures
        field_fits(text, DataType::String),
        field_fits(text, DataType::UnsignedLong) == (parse_u64_spec(text) is Some),
{
}

/// A record fits a schema of text and number columns exactly when it has a field per
/// column and each number field reads as a `u64`; the scan refuses no record for its text
/// fields.
pub proof fn law_records_fit_on_their_numbers(records: Seq<Option<Seq<Seq<char>>>>, schema: Seq<FieldV>)
    requires
        forall|i: int| 0 <= i < schema.len() ==> #[trigger] schema[i].data_type == DataType::String
            || schema[i].data_type == DataType::UnsignedLong,
        forall|r: int|
            0 <= r < records.len() && #[trigger] records[r] is Some ==> records[r]->0.len() == schema.len() && forall|i: int|
                0 <= i < schema.len() && schema[i].data_type == DataType::UnsignedLong ==> parse_u64_spec(
                    #[trigger] records[r]->0[i],
                ) is Some,
    ensures
        records_fit(records, schema),
{
    assert forall|r: int| 0 <= r < records.len() && #[trigger] records[r] is Some implies record_fits(records[r]->0, schema) by {
        assert forall|i: int| 0 <= i < records[r]->0.len() implies field_fits(#[trigger] records[r]->0[i], schema[i].data_type) by {
            assert(schema[i].data_type == DataType::String || schema[i].data_type == DataType::UnsignedLong);
        }
    }
}

}
