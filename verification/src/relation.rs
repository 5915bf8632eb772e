use vstd::prelude::*;

use crate::eval::{eval, eval_aborts, evaluate_expr, has_call, lemma_value_order, value_less, value_lt, value_eq};
use crate::exec::ExecutionError;
use crate::rel::{expr_view, exprs_view, lemma_exprs_view, row_text, Expr, ExprV, Row, Value};

verus! {

/// A row, or the error met in its place.
pub type Item = Result<Row, ExecutionError>;

/// The model of a scan's items: `Some` for a row, `None` for an error.
pub open spec fn items_view(items: Seq<Item>) -> Seq<Option<Seq<Value>>> {
    Seq::new(items.len(), |i: int| match items[i] {
        Ok(r) => Some(r@),
        Err(_) => None,
    })
}

/// Whether `pred` holds of a row.
pub open spec fn holds(row: Seq<Value>, pred: ExprV) -> bool {
    eval(row, pred) == Value::Boolean(true)
}

/// Whether `pred` can be evaluated on each row of `items`, to a boolean.
pub open spec fn predicate_applies(items: Seq<Option<Seq<Value>>>, pred: ExprV) -> bool {
    &&& !has_call(pred)
    &&& forall|i: int|
        0 <= i < items.len() && #[trigger] items[i] is Some ==> !eval_aborts(items[i]->0, pred)
            && eval(items[i]->0, pred) is Boolean
}

/// The items of `items` that are errors or rows for which `pred` holds, in order.
pub open spec fn filtered(items: Seq<Option<Seq<Value>>>, pred: ExprV) -> Seq<Option<Seq<Value>>>
    decreases items.len(),
{
    if items.len() == 0 {
        Seq::empty()
    } else {
        let rest = filtered(items.drop_last(), pred);
        match items.last() {
            Some(row) => if holds(row, pred) {
                rest.push(items.last())
            } else {
                rest
            },
            None => rest.push(items.last()),
        }
    }
}

/// The items of `items` that are errors or rows for which `pred` holds, in order: the
/// items themselves, errors unchanged.
pub open spec fn kept(items: Seq<Item>, pred: ExprV) -> Seq<Item>
    decreases items.len(),
{
    if items.len() == 0 {
        Seq::empty()
    } else {
        let rest = kept(items.drop_last(), pred);
        match items.last() {
            Ok(row) => if holds(row@, pred) {
                rest.push(items.last())
            } else {
                rest
            },
            Err(_) => rest.push(items.last()),
        }
    }
}

/// The rows for which `pred` holds, with the errors in between kept.
pub fn filter_rows(items: Vec<Item>, pred: &Expr) -> (r: Vec<Item>)
    requires
        predicate_applies(items_view(items@), pred@),
    ensures
        items_view(r@) == filtered(items_view(items@), pred@),
        r@ == kept(items@, pred@),
{
    let ghost all = items_view(items@);
    let ghost src = items@;
    let mut out: Vec<Item> = Vec::new();
    for item in it: items
        invariant
            all == items_view(it.seq()),
            src == it.seq(),
            predicate_applies(all, pred@),
            items_view(out@) == filtered(all.take(it.index() as int), pred@),
            out@ == kept(src.take(it.index() as int), pred@),
    {
        let ghost k = it.index() as int;
        proof {
            assert(all.take(k + 1).drop_last() == all.take(k));
            assert(all.take(k + 1).last() == all[k]);
            assert(src.take(k + 1).drop_last() == src.take(k));
            assert(src.take(k + 1).last() == src[k]);
        }
        let ghost before = out@;
        let keep = match &item {
            Ok(row) => {
                assert(all[k] == Some(row@));
                match evaluate_expr(row, pred) {
                    Value::Boolean(b) => b,
                    _ => {
                        proof {
                            assert(false);
                        }
                        false
                    },
                }
            },
            Err(_) => true,
        };
        if keep {
            out.push(item);
            proof {
                assert(items_view(out@) =~= items_view(before).push(all[k]));
            }
        }
    }
    proof {
        assert(all.take(all.len() as int) == all);
        assert(src.take(src.len() as int) == src);
    }
    out
}


/// The values of `exprs` on `row`.
pub open spec fn eval_all(row: Seq<Value>, exprs: Seq<ExprV>) -> Seq<Value> {
    Seq::new(exprs.len(), |k: int| eval(row, exprs[k]))
}

/// Whether each of `exprs` can be evaluated on each row of `items`.
pub open spec fn exprs_apply(items: Seq<Option<Seq<Value>>>, exprs: Seq<ExprV>) -> bool {
    forall|i: int, k: int|
        0 <= i < items.len() && #[trigger] items[i] is Some && 0 <= k < exprs.len() ==> !has_call(
            #[trigger] exprs[k],
        ) && !eval_aborts(items[i]->0, exprs[k])
}

/// Each row replaced by the values of `exprs` on it; errors kept.
pub open spec fn projected(items: Seq<Option<Seq<Value>>>, exprs: Seq<ExprV>) -> Seq<Option<Seq<Value>>> {
    Seq::new(items.len(), |i: int| match items[i] {
        Some(row) => Some(eval_all(row, exprs)),
        None => None,
    })
}

/// The values of `exprs` on `row`.
pub fn evaluate_all(row: &Row, exprs: &Vec<Expr>) -> (r: Row)
    requires
        forall|k: int| 0 <= k < exprs.len() ==> !has_call(#[trigger] exprs_view(exprs@)[k]) && !eval_aborts(row@, exprs_view(exprs@)[k]),
    ensures
        r@ == eval_all(row@, exprs_view(exprs@)),
{
    proof {
        lemma_exprs_view(exprs@);
    }
    let mut values: Vec<Value> = Vec::new();
    let mut k: usize = 0;
    while k < exprs.len()
        invariant
            k <= exprs.len(),
            exprs_view(exprs@).len() == exprs.len(),
            forall|j: int| 0 <= j < exprs.len() ==> #[trigger] exprs_view(exprs@)[j] == expr_view(exprs@[j]),
            forall|j: int| 0 <= j < exprs.len() ==> !has_call(#[trigger] exprs_view(exprs@)[j]) && !eval_aborts(row@, exprs_view(exprs@)[j]),
            values@ =~= eval_all(row@, exprs_view(exprs@)).take(k as int),
        decreases exprs.len() - k,
    {
        assert(exprs_view(exprs@)[k as int] == exprs@[k as int]@);
        let v = evaluate_expr(row, &exprs[k]);
        values.push(v);
        k = k + 1;
    }
    Row::new(values)
}

/// Each row replaced by the values of `exprs` on it, with the errors in between kept.
pub fn project_rows(items: Vec<Item>, exprs: &Vec<Expr>) -> (r: Vec<Item>)
    requires
        exprs_apply(items_view(items@), exprs_view(exprs@)),
    ensures
        items_view(r@) == projected(items_view(items@), exprs_view(exprs@)),
        r@.len() == items@.len(),
        forall|i: int| 0 <= i < items@.len() && (#[trigger] items@[i]) is Err ==> r@[i] == items@[i],
{
    let ghost all = items_view(items@);
    let ghost src = items@;
    let ghost es = exprs_view(exprs@);
    proof {
        lemma_exprs_view(exprs@);
    }
    let mut out: Vec<Item> = Vec::new();
    for item in it: items
        invariant
            all == items_view(it.seq()),
            es == exprs_view(exprs@),
            es.len() == exprs.len(),
            exprs_apply(all, es),
            items_view(out@) =~= projected(all, es).take(it.index() as int),
            src == it.seq(),
            out@.len() == it.index(),
            forall|j: int| 0 <= j < out@.len() && (#[trigger] src[j]) is Err ==> out@[j] == src[j],
    {
        let ghost k = it.index() as int;
        let ghost before = out@;
        proof {
            assert(projected(all, es).take(k + 1) =~= projected(all, es).take(k).push(projected(all, es)[k]));
        }
        match item {
            Ok(row) => {
                assert(all[k] == Some(row@));
                assert forall|j: int| 0 <= j < exprs.len() implies !has_call(#[trigger] exprs_view(exprs@)[j]) && !eval_aborts(row@, exprs_view(exprs@)[j]) by {
                    assert(all[k] is Some);
                }
                out.push(Ok(evaluate_all(&row, exprs)));
                assert(items_view(out@) =~= items_view(before).push(projected(all, es)[k]));
            },
            Err(e) => {
                out.push(Err(e));
                assert(items_view(out@) =~= items_view(before).push(projected(all, es)[k]));
            },
        }
    }
    proof {
        assert(projected(all, es).take(all.len() as int) == projected(all, es));
    }
    out
}

/// The first `limit` items, or all of them where there are fewer.
pub open spec fn limited<A>(items: Seq<A>, limit: nat) -> Seq<A> {
    if limit < items.len() {
        items.take(limit as int)
    } else {
        items
    }
}

/// The first `limit` items.
pub fn limit_rows(items: Vec<Item>, limit: usize) -> (r: Vec<Item>)
    ensures
        items_view(r@) == limited(items_view(items@), limit as nat),
        r@ == limited(items@, limit as nat),
{
    let ghost all = items_view(items@);
    let ghost src = items@;
    let mut out: Vec<Item> = Vec::new();
    for item in it: items
        invariant
            all == items_view(it.seq()),
            src == it.seq(),
            out@.len() <= limit,
            out@.len() == if it.index() < limit { it.index() as nat } else { limit as nat },
            items_view(out@) =~= all.take(out@.len() as int),
            out@ =~= src.take(out@.len() as int),
    {
        if out.len() < limit {
            out.push(item);
        }
    }
    out
}


/// Whether each of `keys` is a sort key whose expression can be evaluated on `row`.
pub open spec fn keys_apply(row: Seq<Value>, keys: Seq<ExprV>) -> bool {
    forall|k: int|
        0 <= k < keys.len() ==> (#[trigger] keys[k]) is Sort && !has_call(*keys[k]->Sort_expr)
            && !eval_aborts(row, *keys[k]->Sort_expr)
}

/// Whether each of `keys` is a sort key whose expression can be evaluated on each row.
pub open spec fn sort_keys_apply(rows: Seq<Seq<Value>>, keys: Seq<ExprV>) -> bool {
    forall|i: int| 0 <= i < rows.len() ==> keys_apply(#[trigger] rows[i], keys)
}

/// How row `a` compares with row `b` by the sort keys `keys`: -1 if it comes first, 1 if
/// it comes after, 0 if the keys do not tell them apart.
pub open spec fn key_order(a: Seq<Value>, b: Seq<Value>, keys: Seq<ExprV>) -> int
    decreases keys.len(),
{
    if keys.len() == 0 {
        0
    } else {
        let e = *keys[0]->Sort_expr;
        let asc = keys[0]->Sort_asc;
        let x = eval(a, e);
        let y = eval(b, e);
        if value_lt(x, y) {
            if asc { -1 } else { 1 }
        } else if value_lt(y, x) {
            if asc { 1 } else { -1 }
        } else {
            key_order(a, b, keys.drop_first())
        }
    }
}

/// Whether `out` is `input` sorted by `keys`, rows that the keys do not tell apart kept in
/// their order in `input`.
pub open spec fn is_stable_sort_of(out: Seq<Seq<Value>>, input: Seq<Seq<Value>>, keys: Seq<ExprV>) -> bool {
    exists|perm: Seq<int>| #[trigger] sorts(perm, out, input, keys)
}

/// `perm` takes each position of `out` to the position in `input` of the same row, and
/// `out` is in the order of `keys`, then of positions in `input`.
pub open spec fn sorts(perm: Seq<int>, out: Seq<Seq<Value>>, input: Seq<Seq<Value>>, keys: Seq<ExprV>) -> bool {
    &&& perm.len() == out.len() == input.len()
    &&& forall|i: int| 0 <= i < perm.len() ==> 0 <= #[trigger] perm[i] < input.len() && out[i] == input[perm[i]]
    &&& forall|i: int, j: int| 0 <= i < j < perm.len() ==> #[trigger] perm[i] != #[trigger] perm[j]
    &&& forall|i: int, j: int| 0 <= i < j < out.len() ==> key_order(#[trigger] out[i], #[trigger] out[j], keys) <= 0
    &&& forall|i: int, j: int| 0 <= i < j < out.len() && key_order(#[trigger] out[i], #[trigger] out[j], keys) == 0 ==> perm[i] < perm[j]
}

pub proof fn lemma_key_order(a: Seq<Value>, b: Seq<Value>, c: Seq<Value>, keys: Seq<ExprV>)
    ensures
        key_order(a, b, keys) == -key_order(b, a, keys),
        -1 <= key_order(a, b, keys) <= 1,
        key_order(a, a, keys) == 0,
        key_order(a, b, keys) <= 0 && key_order(b, c, keys) <= 0 ==> key_order(a, c, keys) <= 0,
        key_order(a, b, keys) < 0 && key_order(b, c, keys) <= 0 ==> key_order(a, c, keys) < 0,
        key_order(a, b, keys) <= 0 && key_order(b, c, keys) < 0 ==> key_order(a, c, keys) < 0,
    decreases keys.len(),
{
    if keys.len() > 0 {
        let e = *keys[0]->Sort_expr;
        let x = eval(a, e);
        let y = eval(b, e);
        let z = eval(c, e);
        lemma_value_order(x, y, z);
        lemma_value_order(y, x, z);
        lemma_value_order(x, z, y);
        lemma_value_order(z, y, x);
        lemma_value_order(y, z, x);
        lemma_value_order(z, x, y);
        lemma_value_order(x, x, x);
        lemma_value_order(y, y, y);
        lemma_value_order(z, z, z);
        lemma_key_order(a, b, c, keys.drop_first());
    }
}

/// How row `a` compares with row `b` by the sort keys `keys`.
pub fn compare_rows(a: &Row, b: &Row, keys: &Vec<Expr>) -> (r: i8)
    requires
        keys_apply(a@, exprs_view(keys@)),
        keys_apply(b@, exprs_view(keys@)),
    ensures
        r == key_order(a@, b@, exprs_view(keys@)),
{
    let ghost ks = exprs_view(keys@);
    proof {
        lemma_exprs_view(keys@);
        assert(ks.skip(0) == ks);
    }
    let mut k: usize = 0;
    while k < keys.len()
        invariant
            k <= keys.len(),
            ks == exprs_view(keys@),
            ks.len() == keys.len(),
            forall|j: int| 0 <= j < keys.len() ==> #[trigger] ks[j] == expr_view(keys@[j]),
            keys_apply(a@, ks),
            keys_apply(b@, ks),
            key_order(a@, b@, ks) == key_order(a@, b@, ks.skip(k as int)),
        decreases keys.len() - k,
    {
        assert(ks.skip(k as int)[0] == ks[k as int]);
        assert(ks.skip(k as int).drop_first() == ks.skip(k as int + 1));
        assert(ks[k as int] is Sort);
        match &keys[k] {
            Expr::Sort { expr, asc } => {
                let x = evaluate_expr(a, expr);
                let y = evaluate_expr(b, expr);
                if value_less(&x, &y) {
                    return if *asc { -1 } else { 1 };
                } else if value_less(&y, &x) {
                    return if *asc { 1 } else { -1 };
                }
            },
            _ => {
                proof {
                    assert(false);
                }
            },
        }
        k = k + 1;
    }
    0
}

/// The rows sorted by `keys`, stably.
pub fn sort_rows(items: Vec<Item>, keys: &Vec<Expr>) -> (r: Vec<Item>)
    requires
        forall|i: int| 0 <= i < items@.len() ==> (#[trigger] items@[i]) is Ok,
        sort_keys_apply(
            Seq::new(items@.len(), |i: int| items@[i]->Ok_0@),
            exprs_view(keys@),
        ),
    ensures
        r@.len() == items@.len(),
        forall|i: int| 0 <= i < r@.len() ==> (#[trigger] r@[i]) is Ok,
        is_stable_sort_of(
            Seq::new(r@.len(), |i: int| r@[i]->Ok_0@),
            Seq::new(items@.len(), |i: int| items@[i]->Ok_0@),
            exprs_view(keys@),
        ),
{
    let ghost input = Seq::new(items@.len(), |i: int| items@[i]->Ok_0@);
    let ghost ks = exprs_view(keys@);
    let mut out: Vec<Row> = Vec::new();
    let ghost mut perm: Seq<int> = Seq::empty();
    for item in it: items
        invariant
            input == Seq::new(it.seq().len(), |i: int| it.seq()[i]->Ok_0@),
            forall|i: int| 0 <= i < it.seq().len() ==> (#[trigger] it.seq()[i]) is Ok,
            ks == exprs_view(keys@),
            sort_keys_apply(input, ks),
            out@.len() == it.index(),
            sorts(perm, Seq::new(out@.len(), |i: int| out@[i]@), input.take(it.index() as int), ks),
    {
        let ghost idx = it.index() as int;
        let row = match item {
            Ok(row) => row,
            Err(_) => {
                proof {
                    assert(false);
                }
                Row::new(Vec::new())
            },
        };
        assert(row@ == input[idx]);
        let ghost view = Seq::new(out@.len(), |i: int| out@[i]@);
        let mut p: usize = 0;
        while p < out.len()
            invariant
                p <= out.len(),
                view == Seq::new(out@.len(), |i: int| out@[i]@),
                forall|q: int| 0 <= q < p ==> key_order(#[trigger] view[q], row@, ks) <= 0,
                sort_keys_apply(input, ks),
                sorts(perm, view, input.take(idx), ks),
                row@ == input[idx],
                ks == exprs_view(keys@),
                0 <= idx < input.len(),
            ensures
                p <= out.len(),
                forall|q: int| 0 <= q < p ==> key_order(#[trigger] view[q], row@, ks) <= 0,
                p < out.len() ==> key_order(view[p as int], row@, ks) > 0,
            decreases out.len() - p,
        {
            proof {
                let pi = perm[p as int];
                assert(input.take(idx)[pi] == input[pi]);
                assert(keys_apply(input[pi], ks));
                assert(keys_apply(input[idx], ks));
            }
            if compare_rows(&out[p], &row, keys) > 0 {
                break;
            }
            p = p + 1;
        }
        let ghost old_perm = perm;
        out.insert(p, row);
        proof {
            perm = old_perm.insert(p as int, idx);
            let nv = Seq::new(out@.len(), |i: int| out@[i]@);
            let x = input[idx];
            assert(nv =~= view.insert(p as int, x));
            assert(input.take(idx + 1) =~= input.take(idx).push(x));
            lemma_insert_keeps_sort(old_perm, view, input.take(idx), x, p as int, ks);
        }
    }
    let mut result: Vec<Item> = Vec::new();
    let n = out.len();
    proof {
        assert(input.take(input.len() as int) == input);
    }
    let ghost sorted_view = Seq::new(out@.len(), |i: int| out@[i]@);
    for row in it: out
        invariant
            sorted_view == Seq::new(it.seq().len(), |i: int| it.seq()[i]@),
            result@.len() == it.index(),
            forall|i: int| 0 <= i < result@.len() ==> (#[trigger] result@[i]) is Ok && result@[i]->Ok_0@ == sorted_view[i],
    {
        result.push(Ok(row));
    }
    proof {
        let rv = Seq::new(result@.len(), |i: int| result@[i]->Ok_0@);
        assert(rv =~= sorted_view);
        assert(sorts(perm, rv, input, ks));
    }
    result
}

/// Inserting a row `x` that comes from position `input.len()` of the input, after the rows
/// that do not come after it, keeps the rows stably sorted.
pub proof fn lemma_insert_keeps_sort(
    perm: Seq<int>,
    view: Seq<Seq<Value>>,
    input: Seq<Seq<Value>>,
    x: Seq<Value>,
    p: int,
    keys: Seq<ExprV>,
)
    requires
        sorts(perm, view, input, keys),
        0 <= p <= view.len(),
        forall|q: int| 0 <= q < p ==> key_order(#[trigger] view[q], x, keys) <= 0,
        p < view.len() ==> key_order(view[p], x, keys) > 0,
    ensures
        sorts(perm.insert(p, input.len() as int), view.insert(p, x), input.push(x), keys),
{
    let np = perm.insert(p, input.len() as int);
    let nv = view.insert(p, x);
    let ni = input.push(x);
    assert forall|i: int| 0 <= i < np.len() implies 0 <= #[trigger] np[i] < ni.len() && nv[i] == ni[np[i]] by {
        if i < p {
        } else if i > p {
            assert(np[i] == perm[i - 1]);
        }
    }
    assert forall|i: int, j: int| 0 <= i < j < np.len() implies #[trigger] np[i] != #[trigger] np[j] by {
        if i != p && j != p {
            let i0 = if i < p { i } else { i - 1 };
            let j0 = if j < p { j } else { j - 1 };
            assert(perm[i0] != perm[j0]);
        } else if i == p {
            assert(np[j] == perm[j - 1]);
        }
    }
    assert forall|i: int, j: int| 0 <= i < j < nv.len() implies key_order(#[trigger] nv[i], #[trigger] nv[j], keys) <= 0 && (key_order(nv[i], nv[j], keys) == 0 ==> np[i] < np[j]) by {
        if i != p && j != p {
            let i0 = if i < p { i } else { i - 1 };
            let j0 = if j < p { j } else { j - 1 };
            assert(nv[i] == view[i0] && nv[j] == view[j0]);
            assert(key_order(view[i0], view[j0], keys) <= 0);
        } else if j == p {
            assert(nv[i] == view[i]);
            assert(key_order(view[i], x, keys) <= 0);
            assert(np[i] == perm[i]);
        } else {
            assert(nv[j] == view[j - 1]);
            lemma_key_order(x, view[p], view[j - 1], keys);
            lemma_key_order(view[p], x, view[j - 1], keys);
            if j - 1 > p {
                assert(key_order(view[p], view[j - 1], keys) <= 0);
            } else {
                lemma_key_order(view[p], view[p], view[p], keys);
            }
        }
    }
}

/// The rows of a list of items that holds no error.
pub open spec fn rows_of(items: Seq<Item>) -> Seq<Seq<Value>> {
    Seq::new(items.len(), |i: int| items[i]->Ok_0@)
}

/// The CSV text of rows: the text of each row, each followed by a newline.
pub open spec fn rows_text(rows: Seq<Seq<Value>>) -> Seq<char>
    decreases rows.len(),
{
    if rows.len() == 0 {
        Seq::empty()
    } else {
        rows_text(rows.drop_last()) + row_text(rows.last()) + "\n"@
    }
}

/// The CSV text that writing the rows of a scan gives.
pub fn write_text(items: &Vec<Item>) -> (r: String)
    requires
        forall|i: int| 0 <= i < items@.len() ==> (#[trigger] items@[i]) is Ok,
    ensures
        r@ == rows_text(rows_of(items@)),
{
    let mut out = String::new();
    let mut i: usize = 0;
    while i < items.len()
        invariant
            i <= items.len(),
            forall|k: int| 0 <= k < items@.len() ==> (#[trigger] items@[k]) is Ok,
            out@ == rows_text(rows_of(items@).take(i as int)),
        decreases items.len() - i,
    {
        let ghost rows = rows_of(items@);
        proof {
            assert(rows.take(i as int + 1).drop_last() == rows.take(i as int));
            assert(rows.take(i as int + 1).last() == rows[i as int]);
            reveal_strlit("\n");
        }
        match &items[i] {
            Ok(row) => {
                let text = row.to_string();
                out = out.concat(text.as_str());
                out = out.concat("\n");
            },
            Err(_) => {
                proof {
                    assert(false);
                }
            },
        }
        i = i + 1;
    }
    proof {
        assert(rows_of(items@).take(items@.len() as int) == rows_of(items@));
    }
    out
}

}
