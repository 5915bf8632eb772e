use vstd::prelude::*;

use crate::eval::{eval, eval_aborts, evaluate_expr, has_call, is_comparison};
use crate::exec::ExecutionError;
use crate::rel::{exprs_view, lemma_exprs_view, Expr, ExprV, LogicalPlan, Operator, PlanV, Row, Value};
use crate::relation::{
    exprs_apply, filter_rows, filtered, is_stable_sort_of, items_view, keys_apply, limit_rows, limited,
    predicate_applies, project_rows, projected, sort_keys_apply, sort_rows, Item,
};

verus! {

/// Whether every item is a row.
pub open spec fn all_rows(items: Seq<Option<Seq<Value>>>) -> bool {
    forall|i: int| 0 <= i < items.len() ==> (#[trigger] items[i]) is Some
}

/// The rows of items that are all rows.
pub open spec fn rows_view(items: Seq<Option<Seq<Value>>>) -> Seq<Seq<Value>> {
    Seq::new(items.len(), |i: int| items[i]->0)
}

/// Whether `after` is what a filter, projection, sort or limit at the top of `plan` gives
/// for `before`, where its expressions can be evaluated on `before` (a sort on rows alone).
pub open spec fn stage(plan: PlanV, before: Seq<Option<Seq<Value>>>, after: Seq<Option<Seq<Value>>>) -> bool {
    match plan {
        PlanV::Selection { expr, .. } => predicate_applies(before, expr) && after == filtered(before, expr),
        PlanV::Projection { expr, .. } => exprs_apply(before, expr) && after == projected(before, expr),
        PlanV::Sort { expr, .. } => all_rows(before) && sort_keys_apply(rows_view(before), expr) && all_rows(after)
            && is_stable_sort_of(rows_view(after), rows_view(before), expr),
        PlanV::Limit { limit, .. } => after == limited(before, limit as nat),
        _ => false,
    }
}

/// The input of a filter, projection, sort or limit.
pub open spec fn input_plan(plan: PlanV) -> PlanV {
    match plan {
        PlanV::Selection { input, .. } => *input,
        PlanV::Projection { input, .. } => *input,
        PlanV::Sort { input, .. } => *input,
        PlanV::Limit { input, .. } => *input,
        _ => plan,
    }
}

/// Whether `trace` is a run of `plan` on the scanned items: its last element is what the
/// scan gives, and each other element is what the stage above gives for the next one.
pub open spec fn is_run(plan: PlanV, scanned: Seq<Option<Seq<Value>>>, trace: Seq<Seq<Option<Seq<Value>>>>) -> bool
    decreases plan,
{
    trace.len() >= 1 && match plan {
        PlanV::TableScan { .. } => trace.len() == 1 && trace[0] == scanned,
        PlanV::CsvFile { .. } => trace.len() == 1 && trace[0] == scanned,
        PlanV::Selection { input, .. } => is_run(*input, scanned, trace.drop_first()) && stage(plan, trace[1], trace[0]),
        PlanV::Projection { input, .. } => is_run(*input, scanned, trace.drop_first()) && stage(plan, trace[1], trace[0]),
        PlanV::Sort { input, .. } => is_run(*input, scanned, trace.drop_first()) && stage(plan, trace[1], trace[0]),
        PlanV::Limit { input, .. } => is_run(*input, scanned, trace.drop_first()) && stage(plan, trace[1], trace[0]),
        PlanV::EmptyRelation => false,
    }
}

/// Whether running `plan` on the items that its scan gives can give `out`.
pub open spec fn runs(plan: PlanV, scanned: Seq<Option<Seq<Value>>>, out: Seq<Option<Seq<Value>>>) -> bool {
    exists|trace: Seq<Seq<Option<Seq<Value>>>>| #[trigger] is_run(plan, scanned, trace) && trace[0] == out
}

/// Whether running `plan` on the scanned items can fail: it has no scan, or a stage's
/// expressions cannot be evaluated on what its input gives (or a sort meets an error).
pub open spec fn fails(plan: PlanV, scanned: Seq<Option<Seq<Value>>>) -> bool
    decreases plan,
{
    match plan {
        PlanV::TableScan { .. } => false,
        PlanV::CsvFile { .. } => false,
        PlanV::Selection { expr, input, .. } => fails(*input, scanned) || exists|t: Seq<Seq<Option<Seq<Value>>>>|
            #[trigger] is_run(*input, scanned, t) && !predicate_applies(t[0], expr),
        PlanV::Projection { expr, input, .. } => fails(*input, scanned) || exists|t: Seq<Seq<Option<Seq<Value>>>>|
            #[trigger] is_run(*input, scanned, t) && !exprs_apply(t[0], expr),
        PlanV::Sort { expr, input, .. } => fails(*input, scanned) || exists|t: Seq<Seq<Option<Seq<Value>>>>|
            #[trigger] is_run(*input, scanned, t) && !(all_rows(t[0]) && sort_keys_apply(rows_view(t[0]), expr)),
        PlanV::Limit { input, .. } => fails(*input, scanned),
        PlanV::EmptyRelation => true,
    }
}

/// A run of a stage on top of a run of its input is a run of the plan.
proof fn lemma_extend_run(
    plan: PlanV,
    scanned: Seq<Option<Seq<Value>>>,
    t: Seq<Seq<Option<Seq<Value>>>>,
    out: Seq<Option<Seq<Value>>>,
)
    requires
        plan is Selection || plan is Projection || plan is Sort || plan is Limit,
        is_run(input_plan(plan), scanned, t),
        stage(plan, t[0], out),
    ensures
        is_run(plan, scanned, seq![out] + t),
        runs(plan, scanned, out),
{
    let t2 = seq![out] + t;
    assert(t2.drop_first() =~= t);
    assert(t2[1] == t[0]);
    assert(is_run(plan, scanned, t2) && t2[0] == out);
}

/// The message of a failed run.
pub open spec fn run_error(e: ExecutionError) -> bool {
    e matches ExecutionError::Custom(m) && m@ == "the plan cannot be run on these rows"@
}

fn cannot_run() -> (r: ExecutionError)
    ensures
        run_error(r),
{
    proof {
        reveal_strlit("the plan cannot be run on these rows");
    }
    ExecutionError::Custom(String::from_str("the plan cannot be run on these rows"))
}

/// Whether an expression calls a function.
pub fn calls_function(e: &Expr) -> (r: bool)
    ensures
        r == has_call(e@),
    decreases e,
{
    match e {
        Expr::Binary { left, right, .. } => calls_function(left) || calls_function(right),
        Expr::Sort { expr, .. } => calls_function(expr),
        Expr::ScalarFunction { .. } => true,
        _ => false,
    }
}

fn comparison(op: Operator) -> (r: bool)
    ensures
        r == is_comparison(op),
{
    match op {
        Operator::Eq | Operator::NotEq | Operator::Lt | Operator::LtEq | Operator::Gt | Operator::GtEq => true,
        _ => false,
    }
}

/// Whether evaluating an expression on a row fails.
pub fn evaluation_fails(row: &Row, e: &Expr) -> (r: bool)
    ensures
        r == eval_aborts(row@, e@),
    decreases e,
{
    match e {
        Expr::TupleValue(i) => *i >= row.values.len(),
        Expr::Binary { left, op, right } => evaluation_fails(row, left) || evaluation_fails(row, right)
            || !comparison(*op),
        Expr::Sort { expr, .. } => evaluation_fails(row, expr),
        _ => false,
    }
}

/// Whether a predicate can be evaluated, to a boolean, on each row of `items`.
pub fn can_filter(items: &Vec<Item>, pred: &Expr) -> (r: bool)
    ensures
        r == predicate_applies(items_view(items@), pred@),
{
    if calls_function(pred) {
        return false;
    }
    let ghost all = items_view(items@);
    let mut i: usize = 0;
    while i < items.len()
        invariant
            i <= items.len(),
            all == items_view(items@),
            !has_call(pred@),
            forall|k: int| 0 <= k < i && #[trigger] all[k] is Some ==> !eval_aborts(all[k]->0, pred@)
                && eval(all[k]->0, pred@) is Boolean,
        decreases items.len() - i,
    {
        match &items[i] {
            Ok(row) => {
                assert(all[i as int] == Some(row@));
                if evaluation_fails(row, pred) {
                    return false;
                }
                match evaluate_expr(row, pred) {
                    Value::Boolean(_) => {},
                    _ => return false,
                }
            },
            Err(_) => {},
        }
        i = i + 1;
    }
    true
}

/// Whether each of `exprs` can be evaluated on each row of `items`.
pub fn can_project(items: &Vec<Item>, exprs: &Vec<Expr>) -> (r: bool)
    ensures
        r == exprs_apply(items_view(items@), exprs_view(exprs@)),
{
    let ghost all = items_view(items@);
    let ghost es = exprs_view(exprs@);
    proof {
        lemma_exprs_view(exprs@);
    }
    let mut k: usize = 0;
    while k < exprs.len()
        invariant
            k <= exprs.len(),
            all == items_view(items@),
            es == exprs_view(exprs@),
            es.len() == exprs.len(),
            forall|j: int| 0 <= j < exprs.len() ==> #[trigger] es[j] == exprs@[j]@,
            forall|j: int| 0 <= j < k ==> !has_call(#[trigger] es[j]),
        decreases exprs.len() - k,
    {
        if calls_function(&exprs[k]) {
            let r = no_rows_or(items, false);
            proof {
                if r {
                    assert forall|a: int, j: int|
                        0 <= a < all.len() && #[trigger] all[a] is Some && 0 <= j < es.len() implies !has_call(
                            #[trigger] es[j],
                        ) && !eval_aborts(all[a]->0, es[j]) by {
                        assert(items_view(items@)[a] is Some);
                    }
                } else {
                    let a = choose|i: int| 0 <= i < items@.len() && #[trigger] items_view(items@)[i] is Some;
                    assert(all[a] is Some && has_call(es[k as int]));
                }
            }
            return r;
        }
        k = k + 1;
    }
    let mut i: usize = 0;
    while i < items.len()
        invariant
            i <= items.len(),
            all == items_view(items@),
            es == exprs_view(exprs@),
            es.len() == exprs.len(),
            forall|j: int| 0 <= j < exprs.len() ==> #[trigger] es[j] == exprs@[j]@,
            forall|j: int| 0 <= j < exprs.len() ==> !has_call(#[trigger] es[j]),
            forall|a: int, j: int|
                0 <= a < i && #[trigger] all[a] is Some && 0 <= j < es.len() ==> !eval_aborts(all[a]->0, #[trigger] es[j]),
        decreases items.len() - i,
    {
        match &items[i] {
            Ok(row) => {
                assert(all[i as int] == Some(row@));
                let mut k: usize = 0;
                while k < exprs.len()
                    invariant
                        k <= exprs.len(),
                        i < items.len(),
                        all == items_view(items@),
                        all[i as int] == Some(row@),
                        es == exprs_view(exprs@),
                        es.len() == exprs.len(),
                        forall|j: int| 0 <= j < exprs.len() ==> #[trigger] es[j] == exprs@[j]@,
                        forall|j: int| 0 <= j < k ==> !eval_aborts(row@, #[trigger] es[j]),
                    decreases exprs.len() - k,
                {
                    if evaluation_fails(row, &exprs[k]) {
                        assert(all[i as int] is Some && eval_aborts(all[i as int]->0, es[k as int]));
                        return false;
                    }
                    k = k + 1;
                }
            },
            Err(_) => {},
        }
        i = i + 1;
    }
    true
}

/// `value` where some item is a row; `true` where there is none.
fn no_rows_or(items: &Vec<Item>, value: bool) -> (r: bool)
    ensures
        r == ((exists|i: int| 0 <= i < items@.len() && #[trigger] items_view(items@)[i] is Some) ==> value),
{
    let mut i: usize = 0;
    while i < items.len()
        invariant
            i <= items.len(),
            forall|k: int| 0 <= k < i ==> !(#[trigger] items_view(items@)[k] is Some),
        decreases items.len() - i,
    {
        if items[i].is_ok() {
            assert(items_view(items@)[i as int] is Some);
            return value;
        }
        i = i + 1;
    }
    true
}

/// Whether `items` are all rows, on each of which the sort keys can be evaluated.
pub fn can_sort(items: &Vec<Item>, keys: &Vec<Expr>) -> (r: bool)
    ensures
        r == (all_rows(items_view(items@)) && sort_keys_apply(rows_view(items_view(items@)), exprs_view(keys@))),
{
    let ghost all = items_view(items@);
    let ghost ks = exprs_view(keys@);
    proof {
        lemma_exprs_view(keys@);
    }
    let mut i: usize = 0;
    while i < items.len()
        invariant
            i <= items.len(),
            all == items_view(items@),
            ks == exprs_view(keys@),
            ks.len() == keys.len(),
            forall|j: int| 0 <= j < keys.len() ==> #[trigger] ks[j] == keys@[j]@,
            forall|a: int| 0 <= a < i ==> (#[trigger] all[a]) is Some && keys_apply(all[a]->0, ks),
        decreases items.len() - i,
    {
        match &items[i] {
            Ok(row) => {
                assert(all[i as int] == Some(row@));
                let mut k: usize = 0;
                while k < keys.len()
                    invariant
                        k <= keys.len(),
                        i < items.len(),
                        all == items_view(items@),
                        all[i as int] == Some(row@),
                        ks == exprs_view(keys@),
                        ks.len() == keys.len(),
                        forall|j: int| 0 <= j < keys.len() ==> #[trigger] ks[j] == keys@[j]@,
                        forall|j: int|
                            0 <= j < k ==> (#[trigger] ks[j]) is Sort && !has_call(*ks[j]->Sort_expr)
                                && !eval_aborts(row@, *ks[j]->Sort_expr),
                    decreases keys.len() - k,
                {
                    assert(ks[k as int] == keys@[k as int]@);
                    match &keys[k] {
                        Expr::Sort { expr, .. } => {
                            if calls_function(expr) || evaluation_fails(row, expr) {
                                assert(!keys_apply(row@, ks));
                                assert(rows_view(all)[i as int] == row@);
                                return false;
                            }
                        },
                        _ => {
                            assert(!keys_apply(row@, ks));
                            assert(rows_view(all)[i as int] == row@);
                            return false;
                        },
                    }
                    k = k + 1;
                }
            },
            Err(_) => {
                assert(all[i as int] is None);
                return false;
            },
        }
        i = i + 1;
    }
    proof {
        assert forall|a: int| 0 <= a < rows_view(all).len() implies keys_apply(#[trigger] rows_view(all)[a], ks) by {
            assert(all[a] is Some);
        }
    }
    true
}

/// The plan at the bottom of a chain of filters, projections, sorts and limits: the
/// scan that gives the rows, or an empty relation.
pub open spec fn leaf_of(plan: PlanV) -> PlanV
    decreases plan,
{
    match plan {
        PlanV::Selection { input, .. } => leaf_of(*input),
        PlanV::Projection { input, .. } => leaf_of(*input),
        PlanV::Sort { input, .. } => leaf_of(*input),
        PlanV::Limit { input, .. } => leaf_of(*input),
        _ => plan,
    }
}

/// The plan at the bottom of `plan`, whose rows [`execute`] takes.
pub fn scan_plan(plan: &LogicalPlan) -> (r: &LogicalPlan)
    ensures
        r@ == leaf_of(plan@),
        r@ is EmptyRelation || r@ is TableScan || r@ is CsvFile,
    decreases plan,
{
    match plan {
        LogicalPlan::Selection { input, .. } => scan_plan(input),
        LogicalPlan::Projection { input, .. } => scan_plan(input),
        LogicalPlan::Sort { input, .. } => scan_plan(input),
        LogicalPlan::Limit { input, .. } => scan_plan(input),
        _ => plan,
    }
}

/// Runs a logical plan on the items that its scan gives: filters, projections, sorts and
/// limits are applied in turn, from the scan up.
pub fn execute(plan: &LogicalPlan, scanned: Vec<Item>) -> (r: Result<Vec<Item>, ExecutionError>)
    ensures
        match r {
            Ok(out) => runs(plan@, items_view(scanned@), items_view(out@)),
            Err(e) => fails(plan@, items_view(scanned@)) && run_error(e),
        },
    decreases plan,
{
    let ghost sc = items_view(scanned@);
    match plan {
        LogicalPlan::TableScan { .. } => {
            assert(is_run(plan@, sc, seq![sc]));
            Ok(scanned)
        },
        LogicalPlan::CsvFile { .. } => {
            assert(is_run(plan@, sc, seq![sc]));
            Ok(scanned)
        },
        LogicalPlan::EmptyRelation => Err(cannot_run()),
        LogicalPlan::Selection { expr, input, .. } => {
            let mid = match execute(input, scanned) {
                Ok(m) => m,
                Err(e) => return Err(e),
            };
            let ghost m = items_view(mid@);
            let ghost t = choose|t: Seq<Seq<Option<Seq<Value>>>>| #[trigger] is_run(input@, sc, t) && t[0] == m;
            if !can_filter(&mid, expr) {
                return Err(cannot_run());
            }
            let out = filter_rows(mid, expr);
            proof {
                lemma_extend_run(plan@, sc, t, items_view(out@));
            }
            Ok(out)
        },
        LogicalPlan::Projection { expr, input, .. } => {
            let mid = match execute(input, scanned) {
                Ok(m) => m,
                Err(e) => return Err(e),
            };
            let ghost m = items_view(mid@);
            let ghost t = choose|t: Seq<Seq<Option<Seq<Value>>>>| #[trigger] is_run(input@, sc, t) && t[0] == m;
            if !can_project(&mid, expr) {
                return Err(cannot_run());
            }
            let out = project_rows(mid, expr);
            proof {
                lemma_extend_run(plan@, sc, t, items_view(out@));
            }
            Ok(out)
        },
        LogicalPlan::Sort { expr, input, .. } => {
            let mid = match execute(input, scanned) {
                Ok(m) => m,
                Err(e) => return Err(e),
            };
            let ghost m = items_view(mid@);
            let ghost t = choose|t: Seq<Seq<Option<Seq<Value>>>>| #[trigger] is_run(input@, sc, t) && t[0] == m;
            if !can_sort(&mid, expr) {
                return Err(cannot_run());
            }
            proof {
                assert forall|i: int| 0 <= i < mid@.len() implies (#[trigger] mid@[i]) is Ok by {
                    assert(m[i] is Some);
                }
                assert(Seq::new(mid@.len(), |i: int| mid@[i]->Ok_0@) =~= rows_view(m));
            }
            let out = sort_rows(mid, expr);
            proof {
                assert(Seq::new(out@.len(), |i: int| out@[i]->Ok_0@) =~= rows_view(items_view(out@)));
                assert(all_rows(items_view(out@)));
                lemma_extend_run(plan@, sc, t, items_view(out@));
            }
            Ok(out)
        },
        LogicalPlan::Limit { limit, input, .. } => {
            let mid = match execute(input, scanned) {
                Ok(m) => m,
                Err(e) => return Err(e),
            };
            let ghost m = items_view(mid@);
            let ghost t = choose|t: Seq<Seq<Option<Seq<Value>>>>| #[trigger] is_run(input@, sc, t) && t[0] == m;
            let out = limit_rows(mid, *limit);
            proof {
                lemma_extend_run(plan@, sc, t, items_view(out@));
            }
            Ok(out)
        },
    }
}

}
