//! The long result of a reconciliation: the rows of both tables, each with
//! the table it came from (`_source`) and the summary of its key in the
//! wide result (`_summary`), sorted by key and source.
use super::width::{key_match, keys_match, matching, RowV};
use crate::table::{rows_view, Table, TableV};
use crate::text::{owned, str_eq};
use crate::value::{
    copy_row, lemma_seq_lt_irrefl_total, lemma_val_lt_order, strs, val_lt, value_lt, vals, VVal,
    Value,
};
use vstd::multiset::Multiset;
use vstd::prelude::*;

verus! {

// ---------------------------------------------------------------------------
// Order
// ---------------------------------------------------------------------------

/// Two values that neither sorts before the other.
pub open spec fn equiv(a: VVal, b: VVal) -> bool {
    !val_lt(a, b) && !val_lt(b, a)
}

/// The order of long rows: by key (column 0), then by source (column 1).
pub open spec fn row_lt(a: RowV, b: RowV) -> bool {
    val_lt(a[0], b[0]) || (equiv(a[0], b[0]) && val_lt(a[1], b[1]))
}

/// `s` with `r` inserted after every row that does not sort after it.
pub open spec fn insert_sorted(s: Seq<RowV>, r: RowV) -> Seq<RowV>
    decreases s.len(),
{
    if s.len() == 0 {
        seq![r]
    } else if row_lt(r, s.last()) {
        insert_sorted(s.drop_last(), r).push(s.last())
    } else {
        s.push(r)
    }
}

/// The rows sorted by [`row_lt`], rows that sort alike keeping their order.
pub open spec fn sort_rows(rows: Seq<RowV>) -> Seq<RowV>
    decreases rows.len(),
{
    if rows.len() == 0 {
        seq![]
    } else {
        insert_sorted(sort_rows(rows.drop_last()), rows.last())
    }
}

/// No row sorts before one that comes earlier.
pub open spec fn sorted(s: Seq<RowV>) -> bool {
    forall|i: int, j: int| 0 <= i < j < s.len() ==> !row_lt(#[trigger] s[j], #[trigger] s[i])
}

/// `val_lt` is a strict weak order.
pub proof fn lemma_val_lt_weak(a: VVal, b: VVal, c: VVal)
    ensures
        !val_lt(a, a),
        val_lt(a, b) ==> !val_lt(b, a),
        val_lt(a, b) && val_lt(b, c) ==> val_lt(a, c),
        !val_lt(a, b) && !val_lt(b, c) ==> !val_lt(a, c),
{
    lemma_val_lt_order(a, b, c);
    lemma_val_lt_order(c, b, a);
    lemma_val_lt_order(b, c, a);
    lemma_val_lt_order(c, a, b);
    lemma_val_lt_order(b, a, c);
    lemma_val_lt_order(a, c, b);
    match (a, b, c) {
        (VVal::Str(x), VVal::Str(y), VVal::Str(z)) => {
            lemma_seq_lt_irrefl_total(x, y);
            lemma_seq_lt_irrefl_total(y, z);
            lemma_seq_lt_irrefl_total(x, z);
        },
        _ => {},
    }
}

/// `row_lt` is a strict weak order.
pub proof fn lemma_row_lt_weak(a: RowV, b: RowV, c: RowV)
    ensures
        !row_lt(a, a),
        row_lt(a, b) ==> !row_lt(b, a),
        !row_lt(a, b) && !row_lt(b, c) ==> !row_lt(a, c),
{
    lemma_val_lt_weak(a[0], b[0], c[0]);
    lemma_val_lt_weak(c[0], b[0], a[0]);
    lemma_val_lt_weak(b[0], a[0], c[0]);
    lemma_val_lt_weak(a[0], c[0], b[0]);
    lemma_val_lt_weak(b[0], c[0], a[0]);
    lemma_val_lt_weak(c[0], a[0], b[0]);
    lemma_val_lt_weak(a[1], b[1], c[1]);
    lemma_val_lt_weak(c[1], b[1], a[1]);
    lemma_val_lt_weak(b[1], a[1], c[1]);
    lemma_val_lt_weak(a[1], c[1], b[1]);
}

proof fn lemma_insert_sorted(s: Seq<RowV>, r: RowV)
    requires
        sorted(s),
    ensures
        sorted(insert_sorted(s, r)),
        insert_sorted(s, r).to_multiset() == s.to_multiset().insert(r),
        insert_sorted(s, r).len() == s.len() + 1,
    decreases s.len(),
{
    broadcast use vstd::seq_lib::group_to_multiset_ensures;
    if s.len() == 0 {
        assert(insert_sorted(s, r) =~= seq![r]);
        assert(seq![r] =~= Seq::<RowV>::empty().push(r));
    } else {
        let d = s.drop_last();
        let last = s.last();
        assert(s =~= d.push(last));
        assert(sorted(d)) by {
            assert forall|i: int, j: int| 0 <= i < j < d.len() implies !row_lt(#[trigger] d[j], #[trigger] d[i]) by {
                assert(d[i] == s[i] && d[j] == s[j]);
            }
        }
        if row_lt(r, last) {
            lemma_insert_sorted(d, r);
            let x = insert_sorted(d, r);
            let y = x.push(last);
            assert forall|i: int, j: int| 0 <= i < j < y.len() implies !row_lt(#[trigger] y[j], #[trigger] y[i]) by {
                if j == y.len() - 1 {
                    assert(y[j] == last);
                    assert(y[i] == x[i]);
                    assert(x.to_multiset().contains(x[i]));
                    assert(d.to_multiset().insert(r).contains(x[i]));
                    if x[i] == r {
                        lemma_row_lt_weak(r, last, r);
                    } else {
                        assert(d.to_multiset().contains(x[i]));
                        assert(d.contains(x[i]));
                        let k = choose|k: int| 0 <= k < d.len() && d[k] == x[i];
                        assert(s[k] == d[k]);
                        assert(s[s.len() - 1] == last);
                        assert(!row_lt(s[s.len() - 1], s[k]));
                    }
                } else {
                    assert(y[i] == x[i] && y[j] == x[j]);
                }
            }
        } else {
            let y = s.push(r);
            assert forall|i: int, j: int| 0 <= i < j < y.len() implies !row_lt(#[trigger] y[j], #[trigger] y[i]) by {
                if j == y.len() - 1 {
                    assert(y[j] == r);
                    assert(y[i] == s[i]);
                    if i < s.len() - 1 {
                        assert(s[s.len() - 1] == last);
                        assert(!row_lt(s[s.len() - 1], s[i]));
                        lemma_row_lt_weak(r, last, s[i]);
                    }
                } else {
                    assert(y[i] == s[i] && y[j] == s[j]);
                }
            }
        }
    }
}

/// Sorting orders the rows and keeps each of them, as often as it comes.
pub proof fn law_sort_rows(rows: Seq<RowV>)
    ensures
        sorted(sort_rows(rows)),
        sort_rows(rows).to_multiset() == rows.to_multiset(),
        sort_rows(rows).len() == rows.len(),
    decreases rows.len(),
{
    broadcast use vstd::seq_lib::group_to_multiset_ensures;
    if rows.len() > 0 {
        law_sort_rows(rows.drop_last());
        lemma_insert_sorted(sort_rows(rows.drop_last()), rows.last());
        assert(rows =~= rows.drop_last().push(rows.last()));
    } else {
        assert(rows.to_multiset() =~= Multiset::empty());
        assert(sort_rows(rows).to_multiset() =~= Multiset::empty());
    }
}

// ---------------------------------------------------------------------------
// The long rows
// ---------------------------------------------------------------------------

/// The indices of the columns not named `pk`, in order.
pub open spec fn other_cols(names: Seq<Seq<char>>, pk: Seq<char>) -> Seq<int>
    decreases names.len(),
{
    if names.len() == 0 {
        seq![]
    } else if names.last() != pk {
        other_cols(names.drop_last(), pk).push(names.len() - 1)
    } else {
        other_cols(names.drop_last(), pk)
    }
}

/// The columns of the long result.
pub open spec fn long_names(names: Seq<Seq<char>>, pk: Seq<char>) -> Seq<Seq<char>> {
    seq![pk, "_source"@] + other_cols(names, pk).map_values(|j: int| names[j]) + seq!["_summary"@]
}

/// The start of a long row: key, source, then the other columns.
pub open spec fn long_base(x: RowV, pkc: int, others: Seq<int>, src: Seq<char>) -> RowV {
    seq![x[pkc], VVal::Str(src)] + others.map_values(|j: int| x[j])
}

/// The long rows of one row: one per wide row of its key, with that row's
/// summary (its last column), or one with a null summary when there is
/// none.
pub open spec fn long_of(x: RowV, pkc: int, others: Seq<int>, src: Seq<char>, w: Seq<RowV>) -> Seq<RowV> {
    let m = matching(w, 0, x[pkc]);
    if m.len() == 0 {
        seq![long_base(x, pkc, others, src) + seq![VVal::Null]]
    } else {
        m.map_values(|wr: RowV| long_base(x, pkc, others, src) + seq![wr.last()])
    }
}

/// The long rows of a table, in order.
pub open spec fn long_lines(rows: Seq<RowV>, pkc: int, others: Seq<int>, src: Seq<char>, w: Seq<RowV>) -> Seq<RowV>
    decreases rows.len(),
{
    if rows.len() == 0 {
        seq![]
    } else {
        long_lines(rows.drop_last(), pkc, others, src, w) + long_of(rows.last(), pkc, others, src, w)
    }
}

pub open spec fn columns_differ() -> Seq<char> {
    "两表列名不一致"@
}

/// The long result of tables `l` and `r` named `lname` and `rname`, keyed
/// by `pk`, from the wide result `w`: an error when the tables do not
/// have the same columns in the same order, or when they have a column
/// named `_source` or `_summary`; else the rows of `l`, then of `r`,
/// sorted by key and source (see [`sort_rows`]).
pub open spec fn long_spec(l: TableV, lname: Seq<char>, r: TableV, rname: Seq<char>, pk: Seq<char>, w: TableV) -> Result<TableV, super::ReconcileErrorV> {
    if l.names != r.names {
        Err(super::ReconcileErrorV::Process(columns_differ()))
    } else if l.names.contains("_source"@) || l.names.contains("_summary"@) {
        Err(super::ReconcileErrorV::Process(super::reconciler::duplicate_names()))
    } else {
        let pkc = l.col(pk);
        let others = other_cols(l.names, pk);
        Ok(TableV {
            names: long_names(l.names, pk),
            rows: sort_rows(long_lines(l.rows, pkc, others, lname, w.rows) + long_lines(r.rows, pkc, others, rname, w.rows)),
        })
    }
}

// ---------------------------------------------------------------------------
// Computing
// ---------------------------------------------------------------------------

/// Whether `a` sorts before `b` (see [`row_lt`]).
pub fn row_before(a: &Vec<Value>, b: &Vec<Value>) -> (r: bool)
    requires
        a@.len() >= 2,
        b@.len() >= 2,
    ensures
        r == row_lt(vals(a@), vals(b@)),
{
    let x = value_lt(&a[0], &b[0]);
    let y = value_lt(&b[0], &a[0]);
    let z = value_lt(&a[1], &b[1]);
    x || (!x && !y && z)
}

/// Inserts `r` into the sorted rows `out` (see [`insert_sorted`]).
pub fn insert_row(out: &mut Vec<Vec<Value>>, r: Vec<Value>)
    requires
        r@.len() >= 2,
        forall|k: int| 0 <= k < old(out)@.len() ==> (#[trigger] old(out)@[k])@.len() >= 2,
    ensures
        rows_view(final(out)@) == insert_sorted(rows_view(old(out)@), vals(r@)),
        forall|k: int| 0 <= k < final(out)@.len() ==> (#[trigger] final(out)@[k])@.len() >= 2,
{
    let ghost s = rows_view(out@);
    let ghost rv = vals(r@);
    let mut j = out.len();
    assert(s.take(j as int) =~= s);
    assert(s.skip(j as int) =~= Seq::<RowV>::empty());
    while j > 0 && row_before(&r, &out[j - 1])
        invariant
            s == rows_view(out@),
            rv == vals(r@),
            r@.len() >= 2,
            forall|k: int| 0 <= k < out@.len() ==> (#[trigger] out@[k])@.len() >= 2,
            j <= out@.len(),
            insert_sorted(s, rv) == insert_sorted(s.take(j as int), rv) + s.skip(j as int),
        decreases j,
    {
        assert(s.take(j as int).last() == s[j - 1]);
        assert(s.take(j as int).drop_last() =~= s.take(j - 1));
        assert(s.skip(j - 1) =~= seq![s[j - 1]] + s.skip(j as int));
        assert(insert_sorted(s.take(j as int), rv) == insert_sorted(s.take(j - 1), rv).push(s[j - 1]));
        assert(insert_sorted(s.take(j - 1), rv).push(s[j - 1]) + s.skip(j as int) =~= insert_sorted(s.take(j - 1), rv)
            + s.skip(j - 1));
        j = j - 1;
    }
    if j > 0 {
        assert(s.take(j as int).last() == s[j - 1]);
        assert(!row_lt(rv, s[j - 1]));
    }
    assert(insert_sorted(s.take(j as int), rv) =~= s.take(j as int).push(rv));
    let ghost before = out@;
    out.insert(j, r);
    assert(rows_view(out@) =~= s.take(j as int).push(rv) + s.skip(j as int));
    assert forall|k: int| 0 <= k < out@.len() implies (#[trigger] out@[k])@.len() >= 2 by {
        if k < j {
            assert(out@[k] == before[k]);
        } else if k > j {
            assert(out@[k] == before[k - 1]);
        }
    }
}

/// The rows sorted (see [`sort_rows`]).
pub fn sort_long(rows: &Vec<Vec<Value>>) -> (out: Vec<Vec<Value>>)
    requires
        forall|k: int| 0 <= k < rows@.len() ==> (#[trigger] rows@[k])@.len() >= 2,
    ensures
        rows_view(out@) == sort_rows(rows_view(rows@)),
{
    let ghost rv = rows_view(rows@);
    let mut out: Vec<Vec<Value>> = Vec::new();
    let mut i: usize = 0;
    while i < rows.len()
        invariant
            rv == rows_view(rows@),
            forall|k: int| 0 <= k < rows@.len() ==> (#[trigger] rows@[k])@.len() >= 2,
            forall|k: int| 0 <= k < out@.len() ==> (#[trigger] out@[k])@.len() >= 2,
            i <= rows@.len(),
            rows_view(out@) == sort_rows(rv.take(i as int)),
        decreases rows@.len() - i,
    {
        assert(rv.take(i + 1).drop_last() =~= rv.take(i as int));
        assert(rv.take(i + 1).last() == rv[i as int]);
        let r = copy_row(&rows[i]);
        insert_row(&mut out, r);
        i = i + 1;
    }
    assert(rv.take(rows@.len() as int) =~= rv);
    out
}

/// The indices of the columns not named `pk` (see [`other_cols`]).
pub fn other_col_list(names: &Vec<String>, pk: &String) -> (r: Vec<usize>)
    ensures
        r@.map_values(|x: usize| x as int) == other_cols(strs(names@), pk@),
        forall|k: int| 0 <= k < r@.len() ==> (#[trigger] r@[k]) < names@.len(),
{
    let ghost nv = strs(names@);
    let mut r: Vec<usize> = Vec::new();
    let mut i: usize = 0;
    while i < names.len()
        invariant
            nv == strs(names@),
            i <= names@.len(),
            r@.map_values(|x: usize| x as int) == other_cols(nv.take(i as int), pk@),
            forall|k: int| 0 <= k < r@.len() ==> (#[trigger] r@[k]) < i,
        decreases names@.len() - i,
    {
        assert(nv.take(i + 1).drop_last() =~= nv.take(i as int));
        assert(nv.take(i + 1).last() == nv[i as int]);
        if !str_eq(names[i].as_str(), pk.as_str()) {
            let ghost o = r@;
            r.push(i);
            assert(r@.map_values(|x: usize| x as int) =~= o.map_values(|x: usize| x as int).push(i as int));
        }
        i = i + 1;
    }
    assert(nv.take(names@.len() as int) =~= nv);
    r
}

/// The columns of the long result.
pub fn long_name_list(names: &Vec<String>, pk: &String, others: &Vec<usize>) -> (r: Vec<String>)
    requires
        others@.map_values(|x: usize| x as int) == other_cols(strs(names@), pk@),
        forall|k: int| 0 <= k < others@.len() ==> (#[trigger] others@[k]) < names@.len(),
    ensures
        strs(r@) == long_names(strs(names@), pk@),
{
    let ghost nv = strs(names@);
    let ghost oc = other_cols(nv, pk@);
    let mut r: Vec<String> = Vec::new();
    r.push(pk.clone());
    r.push(owned("_source"));
    let mut i: usize = 0;
    while i < others.len()
        invariant
            nv == strs(names@),
            oc == others@.map_values(|x: usize| x as int),
            forall|k: int| 0 <= k < others@.len() ==> (#[trigger] others@[k]) < names@.len(),
            i <= others@.len(),
            strs(r@) == seq![pk@, "_source"@] + oc.map_values(|j: int| nv[j]).take(i as int),
        decreases others@.len() - i,
    {
        let ghost o = strs(r@);
        let n = names[others[i]].clone();
        r.push(n);
        assert(oc[i as int] == others@[i as int] as int);
        assert(strs(r@) =~= o.push(n@));
        i = i + 1;
        assert(strs(r@) =~= seq![pk@, "_source"@] + oc.map_values(|j: int| nv[j]).take(i as int));
    }
    assert(oc.map_values(|j: int| nv[j]).take(others@.len() as int) =~= oc.map_values(|j: int| nv[j]));
    r.push(owned("_summary"));
    assert(strs(r@) =~= long_names(nv, pk@));
    r
}

/// The start of a long row (see [`long_base`]).
fn long_base_row(x: &Vec<Value>, pkc: usize, others: &Vec<usize>, src: &String) -> (r: Vec<Value>)
    requires
        pkc < x@.len(),
        forall|k: int| 0 <= k < others@.len() ==> (#[trigger] others@[k]) < x@.len(),
    ensures
        vals(r@) == long_base(vals(x@), pkc as int, others@.map_values(|v: usize| v as int), src@),
        r@.len() >= 2,
{
    let ghost oc = others@.map_values(|v: usize| v as int);
    let mut r: Vec<Value> = Vec::new();
    r.push(x[pkc].copy());
    r.push(Value::Str(src.clone()));
    let mut i: usize = 0;
    while i < others.len()
        invariant
            oc == others@.map_values(|v: usize| v as int),
            pkc < x@.len(),
            forall|k: int| 0 <= k < others@.len() ==> (#[trigger] others@[k]) < x@.len(),
            i <= others@.len(),
            r@.len() == 2 + i,
            vals(r@) == seq![vals(x@)[pkc as int], VVal::Str(src@)] + oc.map_values(|j: int| vals(x@)[j]).take(i as int),
        decreases others@.len() - i,
    {
        let ghost o = vals(r@);
        let v = x[others[i]].copy();
        r.push(v);
        assert(oc[i as int] == others@[i as int] as int);
        assert(vals(r@) =~= o.push(v@));
        i = i + 1;
        assert(vals(r@) =~= seq![vals(x@)[pkc as int], VVal::Str(src@)] + oc.map_values(|j: int| vals(x@)[j]).take(i as int));
    }
    assert(oc.map_values(|j: int| vals(x@)[j]).take(others@.len() as int) =~= oc.map_values(|j: int| vals(x@)[j]));
    r
}

/// Appends the long rows of table `t`, of source `src` (see [`long_lines`]).
pub fn push_long_lines(
    out: &mut Vec<Vec<Value>>,
    t: &Table,
    pkc: usize,
    others: &Vec<usize>,
    src: &String,
    w: &Table,
)
    requires
        t@.wf(),
        pkc < t@.names.len(),
        forall|k: int| 0 <= k < others@.len() ==> (#[trigger] others@[k]) < t@.names.len(),
        forall|k: int| 0 <= k < w@.rows.len() ==> (#[trigger] w@.rows[k]).len() >= 1,
        forall|k: int| 0 <= k < old(out)@.len() ==> (#[trigger] old(out)@[k])@.len() >= 2,
    ensures
        rows_view(final(out)@) == rows_view(old(out)@) + long_lines(
            t@.rows,
            pkc as int,
            others@.map_values(|v: usize| v as int),
            src@,
            w@.rows,
        ),
        forall|k: int| 0 <= k < final(out)@.len() ==> (#[trigger] final(out)@[k])@.len() >= 2,
{
    let ghost oc = others@.map_values(|v: usize| v as int);
    let ghost tr = t@.rows;
    let ghost wr = w@.rows;
    let ghost base = rows_view(out@);
    let mut i: usize = 0;
    while i < t.rows.len()
        invariant
            t@.wf(),
            tr == t@.rows,
            wr == w@.rows,
            oc == others@.map_values(|v: usize| v as int),
            pkc < t@.names.len(),
            forall|k: int| 0 <= k < others@.len() ==> (#[trigger] others@[k]) < t@.names.len(),
            forall|k: int| 0 <= k < wr.len() ==> (#[trigger] wr[k]).len() >= 1,
            forall|k: int| 0 <= k < out@.len() ==> (#[trigger] out@[k])@.len() >= 2,
            i <= tr.len(),
            rows_view(out@) == base + long_lines(tr.take(i as int), pkc as int, oc, src@, wr),
        decreases tr.len() - i,
    {
        let x = &t.rows[i];
        assert(vals(x@) == tr[i as int]);
        assert(tr[i as int].len() == t@.names.len());
        assert(tr.take(i + 1).drop_last() =~= tr.take(i as int));
        assert(tr.take(i + 1).last() == tr[i as int]);
        let ghost k = tr[i as int][pkc as int];
        let ghost b = long_base(tr[i as int], pkc as int, oc, src@);
        let ghost before = rows_view(out@);
        let mut any = false;
        let mut j: usize = 0;
        while j < w.rows.len()
            invariant
                t@.wf(),
                tr == t@.rows,
                wr == w@.rows,
                i < tr.len(),
                vals(x@) == tr[i as int],
                x@.len() == t@.names.len(),
                oc == others@.map_values(|v: usize| v as int),
                pkc < t@.names.len(),
                forall|q: int| 0 <= q < others@.len() ==> (#[trigger] others@[q]) < t@.names.len(),
                forall|q: int| 0 <= q < wr.len() ==> (#[trigger] wr[q]).len() >= 1,
                forall|q: int| 0 <= q < out@.len() ==> (#[trigger] out@[q])@.len() >= 2,
                k == tr[i as int][pkc as int],
                b == long_base(tr[i as int], pkc as int, oc, src@),
                j <= wr.len(),
                any == (matching(wr.take(j as int), 0, k).len() > 0),
                rows_view(out@) == before + matching(wr.take(j as int), 0, k).map_values(
                    |v: RowV| b + seq![v.last()],
                ),
            decreases wr.len() - j,
        {
            let y = &w.rows[j];
            assert(vals(y@) == wr[j as int]);
            assert(wr.take(j + 1).drop_last() =~= wr.take(j as int));
            assert(wr.take(j + 1).last() == wr[j as int]);
            assert(x@[pkc as int]@ == k);
            assert(y@.len() >= 1);
            if keys_match(&x[pkc], &y[0]) {
                let mut row = long_base_row(x, pkc, others, src);
                let last = y[y.len() - 1].copy();
                assert(last@ == wr[j as int].last());
                let ghost o0 = vals(row@);
                row.push(last);
                assert(vals(row@) =~= o0.push(last@));
                assert(vals(row@) == b + seq![wr[j as int].last()]);
                assert(y@[0]@ == wr[j as int][0]);
                assert(matching(wr.take(j + 1), 0, k) == matching(wr.take(j as int), 0, k).push(wr[j as int]));
                let ghost old_out = rows_view(out@);
                let ghost old_vec = out@;
                out.push(row);
                assert(rows_view(out@) =~= old_out.push(vals(row@)));
                assert(rows_view(out@) =~= before + matching(wr.take(j + 1), 0, k).map_values(
                    |v: RowV| b + seq![v.last()],
                ));
                assert forall|q: int| 0 <= q < out@.len() implies (#[trigger] out@[q])@.len() >= 2 by {
                    if q < old_vec.len() {
                        assert(out@[q] == old_vec[q]);
                    }
                }
                any = true;
            } else {
                assert(matching(wr.take(j + 1), 0, k) == matching(wr.take(j as int), 0, k));
            }
            j = j + 1;
        }
        assert(wr.take(wr.len() as int) =~= wr);
        if !any {
            let mut row = long_base_row(x, pkc, others, src);
            let ghost o0 = vals(row@);
            row.push(Value::Null);
            assert(vals(row@) =~= o0.push(VVal::Null));
            assert(vals(row@) == b + seq![VVal::Null]);
            assert(matching(wr, 0, tr[i as int][pkc as int]).len() == 0);
            let ghost old_out = rows_view(out@);
            let ghost old_vec = out@;
            out.push(row);
            assert(rows_view(out@) =~= old_out.push(vals(row@)));
            assert(long_of(tr[i as int], pkc as int, oc, src@, wr) =~= seq![vals(row@)]);
            assert forall|q: int| 0 <= q < out@.len() implies (#[trigger] out@[q])@.len() >= 2 by {
                if q < old_vec.len() {
                    assert(out@[q] == old_vec[q]);
                }
            }
        } else {
            assert(long_of(tr[i as int], pkc as int, oc, src@, wr) =~= matching(wr, 0, k).map_values(
                |v: RowV| b + seq![v.last()],
            ));
        }
        assert(long_lines(tr.take(i + 1), pkc as int, oc, src@, wr) == long_lines(tr.take(i as int), pkc as int, oc, src@, wr)
            + long_of(tr[i as int], pkc as int, oc, src@, wr));
        i = i + 1;
    }
    assert(tr.take(tr.len() as int) =~= tr);
}

/// The long result is ordered by key and source, and holds each long row
/// of the two tables as often as they give it.
pub proof fn law_long_sorted(l: TableV, lname: Seq<char>, r: TableV, rname: Seq<char>, pk: Seq<char>, w: TableV, out: TableV)
    requires
        long_spec(l, lname, r, rname, pk, w) == Ok::<TableV, super::ReconcileErrorV>(out),
    ensures
        sorted(out.rows),
        out.rows.to_multiset() == (long_lines(l.rows, l.col(pk), other_cols(l.names, pk), lname, w.rows)
            + long_lines(r.rows, l.col(pk), other_cols(l.names, pk), rname, w.rows)).to_multiset(),
{
    law_sort_rows(
        long_lines(l.rows, l.col(pk), other_cols(l.names, pk), lname, w.rows) + long_lines(
            r.rows,
            l.col(pk),
            other_cols(l.names, pk),
            rname,
            w.rows,
        ),
    );
}

/// The long row of each row when its key has exactly one wide row: the
/// row tagged with its source and carrying that wide row's summary.
pub open spec fn tagged_lines(rows: Seq<RowV>, pkc: int, others: Seq<int>, src: Seq<char>, w: Seq<RowV>) -> Seq<RowV> {
    rows.map_values(|x: RowV| long_base(x, pkc, others, src) + seq![matching(w, 0, x[pkc])[0].last()])
}

/// Each row whose key has exactly one wide row gives one long row.
proof fn lemma_long_lines_tagged(rows: Seq<RowV>, pkc: int, others: Seq<int>, src: Seq<char>, w: Seq<RowV>)
    requires
        forall|k: int| 0 <= k < rows.len() ==> matching(w, 0, (#[trigger] rows[k])[pkc]).len() == 1,
    ensures
        long_lines(rows, pkc, others, src, w) == tagged_lines(rows, pkc, others, src, w),
    decreases rows.len(),
{
    if rows.len() > 0 {
        let q = rows.drop_last();
        assert forall|k: int| 0 <= k < q.len() implies matching(w, 0, (#[trigger] q[k])[pkc]).len() == 1 by {
            assert(q[k] == rows[k]);
        }
        lemma_long_lines_tagged(q, pkc, others, src, w);
        let x = rows.last();
        assert(matching(w, 0, rows[rows.len() - 1][pkc]).len() == 1);
        let m = matching(w, 0, x[pkc]);
        assert(long_of(x, pkc, others, src, w) =~= seq![long_base(x, pkc, others, src) + seq![m[0].last()]]);
        assert(tagged_lines(rows, pkc, others, src, w) =~= tagged_lines(q, pkc, others, src, w).push(
            long_base(x, pkc, others, src) + seq![m[0].last()],
        ));
        assert(long_lines(rows, pkc, others, src, w) =~= tagged_lines(rows, pkc, others, src, w));
    } else {
        assert(tagged_lines(rows, pkc, others, src, w) =~= Seq::<RowV>::empty());
    }
}

/// The number of long rows whose source (column 1) is `src`.
pub open spec fn source_count(rows: Seq<RowV>, src: Seq<char>) -> nat
    decreases rows.len(),
{
    if rows.len() == 0 {
        0
    } else {
        source_count(rows.drop_last(), src) + if rows.last()[1] == VVal::Str(src) {
            1nat
        } else {
            0nat
        }
    }
}

proof fn lemma_source_count_concat(a: Seq<RowV>, b: Seq<RowV>, src: Seq<char>)
    ensures
        source_count(a + b, src) == source_count(a, src) + source_count(b, src),
    decreases b.len(),
{
    if b.len() > 0 {
        lemma_source_count_concat(a, b.drop_last(), src);
        assert((a + b).drop_last() =~= a + b.drop_last());
        assert((a + b).last() == b.last());
    } else {
        assert(a + b =~= a);
    }
}

proof fn lemma_source_count_insert(s: Seq<RowV>, r: RowV, src: Seq<char>)
    ensures
        source_count(insert_sorted(s, r), src) == source_count(s, src) + if r[1] == VVal::Str(src) {
            1nat
        } else {
            0nat
        },
    decreases s.len(),
{
    if s.len() > 0 {
        if row_lt(r, s.last()) {
            lemma_source_count_insert(s.drop_last(), r, src);
            let t = insert_sorted(s.drop_last(), r);
            assert(insert_sorted(s, r) == t.push(s.last()));
            assert(t.push(s.last()).drop_last() =~= t);
            assert(t.push(s.last()).last() == s.last());
        } else {
            assert(insert_sorted(s, r) == s.push(r));
            assert(s.push(r).drop_last() =~= s);
            assert(s.push(r).last() == r);
        }
    } else {
        assert(insert_sorted(s, r) == seq![r]);
        assert(seq![r].drop_last() =~= Seq::<RowV>::empty());
        assert(seq![r].last() == r);
        assert(source_count(Seq::<RowV>::empty(), src) == 0);
    }
}

/// Sorting keeps the number of rows of each source.
proof fn lemma_source_count_sort(rows: Seq<RowV>, src: Seq<char>)
    ensures
        source_count(sort_rows(rows), src) == source_count(rows, src),
    decreases rows.len(),
{
    if rows.len() > 0 {
        lemma_source_count_sort(rows.drop_last(), src);
        lemma_source_count_insert(sort_rows(rows.drop_last()), rows.last(), src);
    }
}

/// Every tagged row of a table carries that table's source.
proof fn lemma_source_count_tagged(rows: Seq<RowV>, pkc: int, others: Seq<int>, src: Seq<char>, w: Seq<RowV>, other: Seq<char>)
    ensures
        source_count(tagged_lines(rows, pkc, others, src, w), other) == if src == other {
            rows.len()
        } else {
            0
        },
    decreases rows.len(),
{
    if rows.len() > 0 {
        let q = rows.drop_last();
        lemma_source_count_tagged(q, pkc, others, src, w, other);
        assert(tagged_lines(rows, pkc, others, src, w).drop_last() =~= tagged_lines(q, pkc, others, src, w));
        let x = rows.last();
        assert(tagged_lines(rows, pkc, others, src, w).last() == long_base(x, pkc, others, src) + seq![
            matching(w, 0, x[pkc])[0].last(),
        ]);
        assert((long_base(x, pkc, others, src) + seq![matching(w, 0, x[pkc])[0].last()])[1] == VVal::Str(src));
        if src != other {
            assert(VVal::Str(src) != VVal::Str(other));
        }
    }
}

/// When every key of the two tables has exactly one row in the wide result
/// (as unique, present keys give, see [`super::width::law_unique_keys`]), the
/// long result has one row per row of the two tables: the row, tagged with
/// the name of its table, carrying the summary of its key in the wide
/// result; its columns are the key, `_source`, the other columns and
/// `_summary`.  When the two tables are named apart, as many rows come
/// from each as it has.
pub proof fn law_long_rows(l: TableV, lname: Seq<char>, r: TableV, rname: Seq<char>, pk: Seq<char>, w: TableV, out: TableV)
    requires
        long_spec(l, lname, r, rname, pk, w) == Ok::<TableV, super::ReconcileErrorV>(out),
        forall|k: int| 0 <= k < l.rows.len() ==> matching(w.rows, 0, (#[trigger] l.rows[k])[l.col(pk)]).len() == 1,
        forall|k: int| 0 <= k < r.rows.len() ==> matching(w.rows, 0, (#[trigger] r.rows[k])[l.col(pk)]).len() == 1,
    ensures
        out.names == long_names(l.names, pk),
        out.rows.len() == l.rows.len() + r.rows.len(),
        out.rows.to_multiset() == (tagged_lines(l.rows, l.col(pk), other_cols(l.names, pk), lname, w.rows)
            + tagged_lines(r.rows, l.col(pk), other_cols(l.names, pk), rname, w.rows)).to_multiset(),
        lname != rname ==> source_count(out.rows, lname) == l.rows.len() && source_count(out.rows, rname)
            == r.rows.len(),
{
    let pkc = l.col(pk);
    let others = other_cols(l.names, pk);
    lemma_long_lines_tagged(l.rows, pkc, others, lname, w.rows);
    lemma_long_lines_tagged(r.rows, pkc, others, rname, w.rows);
    let all = long_lines(l.rows, pkc, others, lname, w.rows) + long_lines(r.rows, pkc, others, rname, w.rows);
    law_sort_rows(all);
    let tl = tagged_lines(l.rows, pkc, others, lname, w.rows);
    let tr = tagged_lines(r.rows, pkc, others, rname, w.rows);
    lemma_source_count_sort(all, lname);
    lemma_source_count_sort(all, rname);
    lemma_source_count_concat(tl, tr, lname);
    lemma_source_count_concat(tl, tr, rname);
    lemma_source_count_tagged(l.rows, pkc, others, lname, w.rows, lname);
    lemma_source_count_tagged(l.rows, pkc, others, lname, w.rows, rname);
    lemma_source_count_tagged(r.rows, pkc, others, rname, w.rows, lname);
    lemma_source_count_tagged(r.rows, pkc, others, rname, w.rows, rname);
}

} // verus!
