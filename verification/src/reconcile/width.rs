//! The wide result of a reconciliation.
//!
//! The rows of the two tables are paired by primary key the way a full
//! outer join pairs them: each left row with every right row of the same
//! (non-null) key, or alone when there is none; then each right row that
//! no left row matches, alone.  Each pair gives one row: the key, the
//! compared columns of the left row and of the right row, where the row
//! came from (`_both`), one difference per compared column (`diff_name`),
//! and a summary of the differences (`_summary`).
use super::ReconcileColumn;
use crate::table::{rows_view, Table, TableV};
use crate::text::{concat, dec_text, push_char, push_dec};
use crate::value::{
    num_of, numeric, push_value, val_eq, value_eq, value_same, value_text, vals, VVal, Value,
};
use vstd::prelude::*;

verus! {

/// A row as plain values.
pub type RowV = Seq<VVal>;

/// A pair of rows of the join; either may be missing.
pub type Pair = (Option<RowV>, Option<RowV>);

/// Whether two keys pair rows: both present and equal.
pub open spec fn key_match(x: VVal, y: VVal) -> bool {
    !(x is Null) && x == y
}

/// The rows whose column `c` matches the key `k`, in order.
pub open spec fn matching(rows: Seq<RowV>, c: int, k: VVal) -> Seq<RowV>
    decreases rows.len(),
{
    if rows.len() == 0 {
        seq![]
    } else {
        let p = matching(rows.drop_last(), c, k);
        if key_match(k, rows.last()[c]) {
            p.push(rows.last())
        } else {
            p
        }
    }
}

/// The pairs of a left row: with each of its matching right rows, or
/// alone when it has none.
pub open spec fn left_pairs(a: RowV, m: Seq<RowV>) -> Seq<Pair> {
    if m.len() == 0 {
        seq![(Some(a), None)]
    } else {
        m.map_values(|b: RowV| (Some(a), Some(b)))
    }
}

/// The pairs of the left rows, in order.
pub open spec fn join_left(lrows: Seq<RowV>, rrows: Seq<RowV>, lp: int, rp: int) -> Seq<Pair>
    decreases lrows.len(),
{
    if lrows.len() == 0 {
        seq![]
    } else {
        join_left(lrows.drop_last(), rrows, lp, rp) + left_pairs(
            lrows.last(),
            matching(rrows, rp, lrows.last()[lp]),
        )
    }
}

/// The right rows that no left row matches, alone, in order.
pub open spec fn join_right(lrows: Seq<RowV>, rrows: Seq<RowV>, lp: int, rp: int) -> Seq<Pair>
    decreases rrows.len(),
{
    if rrows.len() == 0 {
        seq![]
    } else {
        let p = join_right(lrows, rrows.drop_last(), lp, rp);
        let b = rrows.last();
        if matching(lrows, lp, b[rp]).len() > 0 {
            p
        } else {
            p.push((None, Some(b)))
        }
    }
}

/// What the wide result is computed from.
pub struct WidthSpec {
    /// The key column of each table.
    pub lp: int,
    pub rp: int,
    /// The compared columns of each table, in scheme order.
    pub lc: Seq<int>,
    pub rc: Seq<int>,
    /// The methods and names of the compared columns.
    pub methods: Seq<ReconcileColumn>,
    pub names: Seq<Seq<char>>,
    /// The names of the two tables.
    pub lname: Seq<char>,
    pub rname: Seq<char>,
}

/// The value in column `c` of a row that may be missing.
pub open spec fn value_of(o: Option<RowV>, c: int) -> VVal {
    match o {
        Some(r) => r[c],
        None => VVal::Null,
    }
}

/// The text of a value (empty for a null).
pub open spec fn text_of(v: VVal) -> Seq<char> {
    match value_text(v) {
        Some(t) => t,
        None => Seq::empty(),
    }
}

/// The difference of two values under a method: null when either is
/// missing or they match; else `l != r` (exact) or `|l - r| > tol`
/// (numeric, when the two differ by more than the tolerance).
pub open spec fn diff_v(m: ReconcileColumn, l: VVal, r: VVal) -> VVal {
    if l is Null || r is Null {
        VVal::Null
    } else {
        match m {
            ReconcileColumn::Exact => if val_eq(l, r) {
                VVal::Null
            } else {
                VVal::Str(text_of(l) + " != "@ + text_of(r))
            },
            ReconcileColumn::Numeric(t) => match (num_of(l), num_of(r)) {
                (Some(x), Some(y)) => if -t <= x - y <= t {
                    VVal::Null
                } else {
                    VVal::Str("|"@ + text_of(l) + " - "@ + text_of(r) + "| > "@ + dec_text(t as int))
                },
                _ => VVal::Null,
            },
            _ => VVal::Null,
        }
    }
}

/// `name:difference` for each compared column that differs, in order.
pub open spec fn summary_parts(names: Seq<Seq<char>>, diffs: Seq<VVal>) -> Seq<Seq<char>>
    decreases diffs.len(),
{
    if diffs.len() == 0 {
        seq![]
    } else {
        let p = summary_parts(names, diffs.drop_last());
        match diffs.last() {
            VVal::Str(d) => p.push(names[diffs.len() - 1] + seq![':'] + d),
            _ => p,
        }
    }
}

/// Texts joined by `;`.
pub open spec fn join_semi(parts: Seq<Seq<char>>) -> Seq<char>
    decreases parts.len(),
{
    if parts.len() == 0 {
        Seq::empty()
    } else if parts.len() == 1 {
        parts[0]
    } else {
        join_semi(parts.drop_last()) + seq![';'] + parts.last()
    }
}

/// The summary of a row: for a row of both tables, its differences joined
/// by `;` (null when there is none); else `name only`.
pub open spec fn summary_v(both: Seq<char>, names: Seq<Seq<char>>, diffs: Seq<VVal>) -> VVal {
    if both == "both"@ {
        let s = join_semi(summary_parts(names, diffs));
        if s.len() == 0 {
            VVal::Null
        } else {
            VVal::Str(s)
        }
    } else {
        VVal::Str(both + " only"@)
    }
}

/// Where a pair came from: the right table's name when the left key is
/// missing, the left's when the right key is, `both` otherwise.
pub open spec fn both_v(p: Pair, s: WidthSpec) -> Seq<char> {
    if value_of(p.0, s.lp) is Null {
        s.rname
    } else if value_of(p.1, s.rp) is Null {
        s.lname
    } else {
        "both"@
    }
}

/// The compared values of one side of a pair.
pub open spec fn side_values(o: Option<RowV>, c: Seq<int>) -> Seq<VVal> {
    c.map_values(|k: int| value_of(o, k))
}

/// The differences of a pair.
pub open spec fn pair_diffs(p: Pair, s: WidthSpec) -> Seq<VVal> {
    Seq::new(s.methods.len(), |j: int| diff_v(s.methods[j], value_of(p.0, s.lc[j]), value_of(p.1, s.rc[j])))
}

/// The key of a pair: the left key when present, else the right one.
pub open spec fn key_v(p: Pair, s: WidthSpec) -> VVal {
    if !(value_of(p.0, s.lp) is Null) {
        value_of(p.0, s.lp)
    } else {
        value_of(p.1, s.rp)
    }
}

/// The row of the wide result for a pair.
pub open spec fn width_row(p: Pair, s: WidthSpec) -> RowV {
    seq![key_v(p, s)] + side_values(p.0, s.lc) + side_values(p.1, s.rc) + seq![VVal::Str(both_v(p, s))]
        + pair_diffs(p, s) + seq![summary_v(both_v(p, s), s.names, pair_diffs(p, s))]
}

/// `name_suffix` for each name.
pub open spec fn suffixed(names: Seq<Seq<char>>, suffix: Seq<char>) -> Seq<Seq<char>> {
    names.map_values(|n: Seq<char>| n + seq!['_'] + suffix)
}

/// `diff_name` for each name.
pub open spec fn diff_names(names: Seq<Seq<char>>) -> Seq<Seq<char>> {
    names.map_values(|n: Seq<char>| "diff_"@ + n)
}

/// The columns of the wide result.
pub open spec fn width_names(pk: Seq<char>, names: Seq<Seq<char>>, lname: Seq<char>, rname: Seq<char>) -> Seq<Seq<char>> {
    seq![pk] + suffixed(names, lname) + suffixed(names, rname) + seq!["_both"@] + diff_names(names) + seq![
        "_summary"@,
    ]
}

/// The columns made while computing the wide result: those of the result
/// and the suffixed keys of the two tables.
pub open spec fn work_names(pk: Seq<char>, names: Seq<Seq<char>>, lname: Seq<char>, rname: Seq<char>) -> Seq<Seq<char>> {
    width_names(pk, names, lname, rname) + seq![pk + seq!['_'] + lname, pk + seq!['_'] + rname]
}

// ---------------------------------------------------------------------------
// Computing rows
// ---------------------------------------------------------------------------

/// What the wide result is computed from, held by the program.
pub struct WidthCtx {
    pub lp: usize,
    pub rp: usize,
    pub lc: Vec<usize>,
    pub rc: Vec<usize>,
    pub methods: Vec<ReconcileColumn>,
    pub names: Vec<String>,
    pub lname: String,
    pub rname: String,
}

impl WidthCtx {
    pub open spec fn spec(&self) -> WidthSpec {
        WidthSpec {
            lp: self.lp as int,
            rp: self.rp as int,
            lc: self.lc@.map_values(|x: usize| x as int),
            rc: self.rc@.map_values(|x: usize| x as int),
            methods: self.methods@,
            names: self.names@.map_values(|x: String| x@),
            lname: self.lname@,
            rname: self.rname@,
        }
    }

    /// The columns of the context fit rows of `ln` and `rn` values.
    pub open spec fn fits(&self, ln: int, rn: int) -> bool {
        &&& self.lp < ln
        &&& self.rp < rn
        &&& self.lc@.len() == self.methods@.len()
        &&& self.rc@.len() == self.methods@.len()
        &&& self.names@.len() == self.methods@.len()
        &&& forall|j: int| 0 <= j < self.lc@.len() ==> (#[trigger] self.lc@[j]) < ln
        &&& forall|j: int| 0 <= j < self.rc@.len() ==> (#[trigger] self.rc@[j]) < rn
    }
}

/// The view of a row that may be missing.
pub open spec fn opt_vals(o: Option<&Vec<Value>>) -> Option<RowV> {
    match o {
        Some(r) => Some(vals(r@)),
        None => None,
    }
}

fn value_at(o: Option<&Vec<Value>>, c: usize) -> (r: Value)
    requires
        o matches Some(row) ==> c < row@.len(),
    ensures
        r@ == value_of(opt_vals(o), c as int),
{
    match o {
        Some(row) => row[c].copy(),
        None => Value::Null,
    }
}

/// `l != r`.
fn exact_text(l: &Value, r: &Value) -> (t: String)
    requires
        !(l@ is Null),
        !(r@ is Null),
    ensures
        t@ == text_of(l@) + " != "@ + text_of(r@),
{
    let mut s = String::new();
    push_value(&mut s, l);
    assert(s@ =~= text_of(l@)) by {
        assert(s@.skip(0) =~= s@);
    }
    let mut t = concat(s.as_str(), " != ");
    let ghost b = t@;
    push_value(&mut t, r);
    assert(t@ =~= b + text_of(r@));
    t
}

/// `|l - r| > tol`.
fn numeric_text(l: &Value, r: &Value, tol: i128) -> (t: String)
    requires
        !(l@ is Null),
        !(r@ is Null),
    ensures
        t@ == "|"@ + text_of(l@) + " - "@ + text_of(r@) + "| > "@ + dec_text(tol as int),
{
    let mut s = crate::text::owned("|");
    let ghost s0 = s@;
    push_value(&mut s, l);
    assert(s@ =~= s0 + text_of(l@));
    let mut s = concat(s.as_str(), " - ");
    let ghost s2 = s@;
    push_value(&mut s, r);
    assert(s@ =~= s2 + text_of(r@));
    let mut s = concat(s.as_str(), "| > ");
    push_dec(&mut s, tol);
    assert(s@ =~= "|"@ + text_of(l@) + " - "@ + text_of(r@) + "| > "@ + dec_text(tol as int));
    s
}

/// The difference of two values (see [`diff_v`]).
pub fn diff_value(m: ReconcileColumn, l: &Value, r: &Value) -> (d: Value)
    ensures
        d@ == diff_v(m, l@, r@),
{
    if l.is_null() || r.is_null() {
        return Value::Null;
    }
    match m {
        ReconcileColumn::Exact => {
            if value_eq(l, r) {
                Value::Null
            } else {
                Value::Str(exact_text(l, r))
            }
        },
        ReconcileColumn::Numeric(tol) => match (numeric(l), numeric(r)) {
            (Some(x), Some(y)) => {
                let within = if x >= y {
                    match x.checked_sub(y) {
                        Some(d) => d <= tol,
                        None => false,
                    }
                } else {
                    match y.checked_sub(x) {
                        Some(d) => d <= tol,
                        None => false,
                    }
                };
                if within {
                    Value::Null
                } else {
                    Value::Str(numeric_text(l, r, tol))
                }
            },
            _ => Value::Null,
        },
        _ => Value::Null,
    }
}

/// Builds the row of the wide result for a pair of rows.
pub fn width_row_of(a: Option<&Vec<Value>>, b: Option<&Vec<Value>>, ctx: &WidthCtx) -> (out: Vec<Value>)
    requires
        match a {
            Some(x) => ctx.lp < x@.len() && forall|j: int| 0 <= j < ctx.lc@.len() ==> (#[trigger] ctx.lc@[j]) < x@.len(),
            None => true,
        },
        match b {
            Some(y) => ctx.rp < y@.len() && forall|j: int| 0 <= j < ctx.rc@.len() ==> (#[trigger] ctx.rc@[j]) < y@.len(),
            None => true,
        },
        ctx.lc@.len() == ctx.methods@.len(),
        ctx.rc@.len() == ctx.methods@.len(),
        ctx.names@.len() == ctx.methods@.len(),
    ensures
        vals(out@) == width_row((opt_vals(a), opt_vals(b)), ctx.spec()),
{
    let ghost s = ctx.spec();
    let ghost p = (opt_vals(a), opt_vals(b));
    let m = ctx.methods.len();
    let lk = value_at(a, ctx.lp);
    let rk = value_at(b, ctx.rp);
    let both: String = if lk.is_null() {
        ctx.rname.clone()
    } else if rk.is_null() {
        ctx.lname.clone()
    } else {
        crate::text::owned("both")
    };
    assert(both@ == both_v(p, s));
    let mut out: Vec<Value> = Vec::new();
    out.push(if !lk.is_null() { lk } else { rk });
    let mut lv: Vec<Value> = Vec::new();
    let mut rv: Vec<Value> = Vec::new();
    let mut dv: Vec<Value> = Vec::new();
    let mut j: usize = 0;
    while j < m
        invariant
            m == ctx.methods@.len(),
            s == ctx.spec(),
            p == (opt_vals(a), opt_vals(b)),
            ctx.lc@.len() == m,
            ctx.rc@.len() == m,
            match a {
                Some(x) => forall|k: int| 0 <= k < ctx.lc@.len() ==> (#[trigger] ctx.lc@[k]) < x@.len(),
                None => true,
            },
            match b {
                Some(y) => forall|k: int| 0 <= k < ctx.rc@.len() ==> (#[trigger] ctx.rc@[k]) < y@.len(),
                None => true,
            },
            j <= m,
            vals(lv@) == side_values(p.0, s.lc).take(j as int),
            vals(rv@) == side_values(p.1, s.rc).take(j as int),
            vals(dv@) == pair_diffs(p, s).take(j as int),
        decreases m - j,
    {
        let x = value_at(a, ctx.lc[j]);
        let y = value_at(b, ctx.rc[j]);
        let d = diff_value(ctx.methods[j], &x, &y);
        assert(s.lc[j as int] == ctx.lc@[j as int] as int);
        assert(s.rc[j as int] == ctx.rc@[j as int] as int);
        assert(side_values(p.0, s.lc)[j as int] == x@);
        assert(side_values(p.1, s.rc)[j as int] == y@);
        assert(pair_diffs(p, s)[j as int] == d@);
        let ghost (ol, or, od) = (vals(lv@), vals(rv@), vals(dv@));
        lv.push(x);
        rv.push(y);
        dv.push(d);
        assert(vals(lv@) =~= ol.push(x@));
        assert(vals(rv@) =~= or.push(y@));
        assert(vals(dv@) =~= od.push(d@));
        assert(side_values(p.0, s.lc).take(j + 1) =~= side_values(p.0, s.lc).take(j as int).push(x@));
        assert(side_values(p.1, s.rc).take(j + 1) =~= side_values(p.1, s.rc).take(j as int).push(y@));
        assert(pair_diffs(p, s).take(j + 1) =~= pair_diffs(p, s).take(j as int).push(d@));
        j = j + 1;
        assert(vals(lv@) =~= side_values(p.0, s.lc).take(j as int));
        assert(vals(rv@) =~= side_values(p.1, s.rc).take(j as int));
        assert(vals(dv@) =~= pair_diffs(p, s).take(j as int));
    }
    assert(side_values(p.0, s.lc).take(m as int) =~= side_values(p.0, s.lc));
    assert(side_values(p.1, s.rc).take(m as int) =~= side_values(p.1, s.rc));
    assert(pair_diffs(p, s).take(m as int) =~= pair_diffs(p, s));
    let summary = summary_value(&both, &ctx.names, &dv);
    let ghost o0 = vals(out@);
    out.append(&mut lv);
    out.append(&mut rv);
    out.push(Value::Str(both));
    out.append(&mut dv);
    out.push(summary);
    assert(vals(out@) =~= width_row(p, s));
    out
}

/// The summary of a row (see [`summary_v`]).
pub fn summary_value(both: &String, names: &Vec<String>, diffs: &Vec<Value>) -> (r: Value)
    requires
        names@.len() == diffs@.len(),
    ensures
        r@ == summary_v(both@, names@.map_values(|x: String| x@), vals(diffs@)),
{
    let ghost nv = names@.map_values(|x: String| x@);
    let ghost dv = vals(diffs@);
    if !crate::text::str_eq(both.as_str(), "both") {
        let t = concat(both.as_str(), " only");
        return Value::Str(t);
    }
    let mut s = String::new();
    let mut any = false;
    let mut i: usize = 0;
    while i < diffs.len()
        invariant
            any == (s@.len() > 0),
            nv == names@.map_values(|x: String| x@),
            dv == vals(diffs@),
            names@.len() == diffs@.len(),
            i <= diffs@.len(),
            s@ == join_semi(summary_parts(nv, dv.take(i as int))),
        decreases diffs@.len() - i,
    {
        assert(dv.take(i + 1).drop_last() =~= dv.take(i as int));
        assert(dv.take(i + 1).last() == dv[i as int]);
        match &diffs[i] {
            Value::Str(d) => {
                let ghost parts = summary_parts(nv, dv.take(i as int));
                if any {
                    push_char(&mut s, ';');
                }
                let t = concat(s.as_str(), names[i].as_str());
                let mut t = t;
                push_char(&mut t, ':');
                let u = concat(t.as_str(), d.as_str());
                proof {
                    lemma_parts_nonempty(nv, dv.take(i as int));
                    lemma_join_semi_len(parts);
                    let np = parts.push(nv[i as int] + seq![':'] + d@);
                    assert(summary_parts(nv, dv.take(i + 1)) == np);
                    if parts.len() == 0 {
                        assert(join_semi(np) == np[0]);
                        assert(u@ =~= np[0]);
                    } else {
                        assert(np.drop_last() =~= parts);
                        assert(u@ =~= join_semi(parts) + seq![';'] + np.last());
                    }
                }
                s = u;
                any = true;
            },
            _ => {},
        }
        i = i + 1;
    }
    assert(dv.take(diffs@.len() as int) =~= dv);
    if !any {
        Value::Null
    } else {
        Value::Str(s)
    }
}

/// Each summary part holds at least its `:`.
pub proof fn lemma_parts_nonempty(names: Seq<Seq<char>>, diffs: Seq<VVal>)
    ensures
        forall|k: int| 0 <= k < summary_parts(names, diffs).len() ==> (#[trigger] summary_parts(names, diffs)[k]).len() > 0,
    decreases diffs.len(),
{
    if diffs.len() > 0 {
        lemma_parts_nonempty(names, diffs.drop_last());
        let p = summary_parts(names, diffs.drop_last());
        match diffs.last() {
            VVal::Str(d) => {
                let q = p.push(names[diffs.len() - 1] + seq![':'] + d);
                assert forall|k: int| 0 <= k < q.len() implies (#[trigger] q[k]).len() > 0 by {
                    if k < p.len() {
                        assert(q[k] == p[k]);
                    }
                }
            },
            _ => {},
        }
    }
}

/// Non-empty texts join to an empty text only when there are none.
pub proof fn lemma_join_semi_len(parts: Seq<Seq<char>>)
    requires
        forall|k: int| 0 <= k < parts.len() ==> (#[trigger] parts[k]).len() > 0,
    ensures
        (join_semi(parts).len() == 0) == (parts.len() == 0),
    decreases parts.len(),
{
    if parts.len() > 1 {
        assert forall|k: int| 0 <= k < parts.drop_last().len() implies (#[trigger] parts.drop_last()[k]).len() > 0 by {
            assert(parts.drop_last()[k] == parts[k]);
        }
        lemma_join_semi_len(parts.drop_last());
    }
}

// ---------------------------------------------------------------------------
// Joining
// ---------------------------------------------------------------------------

/// Whether two keys pair rows (see [`key_match`]).
pub fn keys_match(x: &Value, y: &Value) -> (r: bool)
    ensures
        r == key_match(x@, y@),
{
    !x.is_null() && value_same(x, y)
}

/// Whether some row of `t` has a key (column `c`) that matches `k`.
pub fn any_match(t: &Table, c: usize, k: &Value) -> (r: bool)
    requires
        t@.wf(),
        c < t@.names.len(),
    ensures
        r == (matching(t@.rows, c as int, k@).len() > 0),
{
    let ghost rows = t@.rows;
    let mut i: usize = 0;
    while i < t.rows.len()
        invariant
            t@.wf(),
            rows == t@.rows,
            c < t@.names.len(),
            i <= rows.len(),
            matching(rows.take(i as int), c as int, k@).len() == 0,
        decreases rows.len() - i,
    {
        assert(rows.take(i + 1).drop_last() =~= rows.take(i as int));
        assert(rows.take(i + 1).last() == rows[i as int]);
        assert(vals(t.rows@[i as int]@) == rows[i as int]);
        assert(rows[i as int].len() == t@.names.len());
        if keys_match(k, &t.rows[i][c]) {
            proof {
                lemma_matching_prefix(rows, c as int, k@, i + 1);
            }
            return true;
        }
        i = i + 1;
    }
    assert(rows.take(rows.len() as int) =~= rows);
    false
}

/// A match among the first rows is a match among all.
pub proof fn lemma_matching_prefix(rows: Seq<RowV>, c: int, k: VVal, n: int)
    requires
        0 <= n <= rows.len(),
    ensures
        matching(rows.take(n), c, k).len() <= matching(rows, c, k).len(),
    decreases rows.len(),
{
    if n < rows.len() {
        assert(rows.take(n) =~= rows.drop_last().take(n));
        lemma_matching_prefix(rows.drop_last(), c, k, n);
    } else {
        assert(rows.take(n) =~= rows);
    }
}

/// The rows of the wide result: one per pair of the join (see
/// [`join_left`] and [`join_right`]).
pub open spec fn width_rows_spec(l: TableV, r: TableV, s: WidthSpec) -> Seq<RowV> {
    (join_left(l.rows, r.rows, s.lp, s.rp) + join_right(l.rows, r.rows, s.lp, s.rp)).map_values(
        |p: Pair| width_row(p, s),
    )
}

/// The context fits both tables.
pub open spec fn ctx_fits(ctx: WidthCtx, l: TableV, r: TableV) -> bool {
    &&& l.wf()
    &&& r.wf()
    &&& ctx.fits(l.names.len() as int, r.names.len() as int)
}

fn left_rows(left: &Table, right: &Table, ctx: &WidthCtx, out: &mut Vec<Vec<Value>>)
    requires
        ctx_fits(*ctx, left@, right@),
    ensures
        rows_view(final(out)@) == rows_view(old(out)@) + join_left(left@.rows, right@.rows, ctx.lp as int, ctx.rp as int).map_values(
            |p: Pair| width_row(p, ctx.spec()),
        ),
{
    let ghost s = ctx.spec();
    let ghost lr = left@.rows;
    let ghost rr = right@.rows;
    let ghost base = rows_view(out@);
    let mut i: usize = 0;
    while i < left.rows.len()
        invariant
            ctx_fits(*ctx, left@, right@),
            s == ctx.spec(),
            lr == left@.rows,
            rr == right@.rows,
            i <= lr.len(),
            rows_view(out@) == base + join_left(lr.take(i as int), rr, s.lp, s.rp).map_values(|p: Pair| width_row(p, s)),
        decreases lr.len() - i,
    {
        let a = &left.rows[i];
        assert(vals(a@) == lr[i as int]);
        assert(lr[i as int].len() == left@.names.len());
        let ghost k = lr[i as int][s.lp];
        let ghost before = rows_view(out@);
        let mut any = false;
        let mut j: usize = 0;
        while j < right.rows.len()
            invariant
                ctx_fits(*ctx, left@, right@),
                s == ctx.spec(),
                lr == left@.rows,
                rr == right@.rows,
                i < lr.len(),
                vals(a@) == lr[i as int],
                a@.len() == left@.names.len(),
                k == lr[i as int][s.lp],
                j <= rr.len(),
                any == (matching(rr.take(j as int), s.rp, k).len() > 0),
                rows_view(out@) == before + matching(rr.take(j as int), s.rp, k).map_values(
                    |b: RowV| width_row((Some(lr[i as int]), Some(b)), s),
                ),
            decreases rr.len() - j,
        {
            let b = &right.rows[j];
            assert(vals(b@) == rr[j as int]);
            assert(rr[j as int].len() == right@.names.len());
            assert(rr.take(j + 1).drop_last() =~= rr.take(j as int));
            assert(rr.take(j + 1).last() == rr[j as int]);
            assert(a@[ctx.lp as int]@ == k);
            if keys_match(&a[ctx.lp], &b[ctx.rp]) {
                let row = width_row_of(Some(a), Some(b), ctx);
                let ghost old_out = rows_view(out@);
                out.push(row);
                assert(rows_view(out@) =~= old_out.push(vals(row@)));
                assert(rows_view(out@) =~= before + matching(rr.take(j + 1), s.rp, k).map_values(
                    |b: RowV| width_row((Some(lr[i as int]), Some(b)), s),
                ));
                any = true;
            } else {
                assert(matching(rr.take(j + 1), s.rp, k) == matching(rr.take(j as int), s.rp, k));
            }
            j = j + 1;
        }
        assert(rr.take(rr.len() as int) =~= rr);
        let ghost m = matching(rr, s.rp, k);
        assert(lr.take(i + 1).drop_last() =~= lr.take(i as int));
        assert(lr.take(i + 1).last() == lr[i as int]);
        if !any {
            let row = width_row_of(Some(a), None, ctx);
            let ghost old_out = rows_view(out@);
            out.push(row);
            assert(rows_view(out@) =~= old_out.push(vals(row@)));
            assert(left_pairs(lr[i as int], m).map_values(|p: Pair| width_row(p, s)) =~= seq![vals(row@)]);
        } else {
            assert(left_pairs(lr[i as int], m).map_values(|p: Pair| width_row(p, s)) =~= m.map_values(
                |b: RowV| width_row((Some(lr[i as int]), Some(b)), s),
            ));
        }
        assert(join_left(lr.take(i + 1), rr, s.lp, s.rp) == join_left(lr.take(i as int), rr, s.lp, s.rp) + left_pairs(lr[i as int], m));
        assert(join_left(lr.take(i + 1), rr, s.lp, s.rp).map_values(|p: Pair| width_row(p, s)) =~= join_left(
            lr.take(i as int),
            rr,
            s.lp,
            s.rp,
        ).map_values(|p: Pair| width_row(p, s)) + left_pairs(lr[i as int], m).map_values(|p: Pair| width_row(p, s)));
        i = i + 1;
    }
    assert(lr.take(lr.len() as int) =~= lr);
}

fn right_rows(left: &Table, right: &Table, ctx: &WidthCtx, out: &mut Vec<Vec<Value>>)
    requires
        ctx_fits(*ctx, left@, right@),
    ensures
        rows_view(final(out)@) == rows_view(old(out)@) + join_right(left@.rows, right@.rows, ctx.lp as int, ctx.rp as int).map_values(
            |p: Pair| width_row(p, ctx.spec()),
        ),
{
    let ghost s = ctx.spec();
    let ghost lr = left@.rows;
    let ghost rr = right@.rows;
    let ghost base = rows_view(out@);
    let mut j: usize = 0;
    while j < right.rows.len()
        invariant
            ctx_fits(*ctx, left@, right@),
            s == ctx.spec(),
            lr == left@.rows,
            rr == right@.rows,
            j <= rr.len(),
            rows_view(out@) == base + join_right(lr, rr.take(j as int), s.lp, s.rp).map_values(|p: Pair| width_row(p, s)),
        decreases rr.len() - j,
    {
        let b = &right.rows[j];
        assert(vals(b@) == rr[j as int]);
        assert(rr[j as int].len() == right@.names.len());
        assert(rr.take(j + 1).drop_last() =~= rr.take(j as int));
        assert(rr.take(j + 1).last() == rr[j as int]);
        assert(b@[ctx.rp as int]@ == rr[j as int][s.rp]);
        if !any_match(left, ctx.lp, &b[ctx.rp]) {
            let row = width_row_of(None, Some(b), ctx);
            let ghost old_out = rows_view(out@);
            out.push(row);
            assert(rows_view(out@) =~= old_out.push(vals(row@)));
            assert(rows_view(out@) =~= base + join_right(lr, rr.take(j + 1), s.lp, s.rp).map_values(|p: Pair| width_row(p, s)));
        } else {
            assert(join_right(lr, rr.take(j + 1), s.lp, s.rp) == join_right(lr, rr.take(j as int), s.lp, s.rp));
        }
        j = j + 1;
    }
    assert(rr.take(rr.len() as int) =~= rr);
}

/// The rows of the wide result (see [`width_rows_spec`]).
pub fn width_rows(left: &Table, right: &Table, ctx: &WidthCtx) -> (out: Vec<Vec<Value>>)
    requires
        ctx_fits(*ctx, left@, right@),
    ensures
        rows_view(out@) == width_rows_spec(left@, right@, ctx.spec()),
{
    let mut out: Vec<Vec<Value>> = Vec::new();
    assert(rows_view(out@) =~= Seq::<RowV>::empty());
    left_rows(left, right, ctx, &mut out);
    right_rows(left, right, ctx, &mut out);
    let ghost s = ctx.spec();
    let ghost jl = join_left(left@.rows, right@.rows, s.lp, s.rp);
    let ghost jr = join_right(left@.rows, right@.rows, s.lp, s.rp);
    assert((jl + jr).map_values(|p: Pair| width_row(p, s)) =~= jl.map_values(|p: Pair| width_row(p, s)) + jr.map_values(
        |p: Pair| width_row(p, s),
    ));
    assert(rows_view(out@) =~= width_rows_spec(left@, right@, s));
    out
}

// ---------------------------------------------------------------------------
// Laws
// ---------------------------------------------------------------------------

/// The summary of a row of the wide result: its last column.
pub open spec fn summary_of(row: RowV) -> VVal {
    row.last()
}

/// A key that only the left table has is summarised as `left only`, by the
/// left table's name.
pub proof fn law_left_only(a: RowV, s: WidthSpec)
    requires
        !(a[s.lp] is Null),
        s.lname != "both"@,
    ensures
        summary_of(width_row((Some(a), None), s)) == VVal::Str(s.lname + " only"@),
{
}

/// A key that only the right table has is summarised as `right only`, by
/// the right table's name.
pub proof fn law_right_only(b: RowV, s: WidthSpec)
    requires
        s.rname != "both"@,
    ensures
        summary_of(width_row((None, Some(b)), s)) == VVal::Str(s.rname + " only"@),
{
}

/// Two rows of the same key whose compared values are the same have no
/// difference, when no tolerance is negative.
pub proof fn law_agreeing_rows(a: RowV, b: RowV, s: WidthSpec)
    requires
        !(a[s.lp] is Null),
        !(b[s.rp] is Null),
        s.lc.len() == s.methods.len(),
        s.rc.len() == s.methods.len(),
        forall|j: int| 0 <= j < s.methods.len() ==> a[#[trigger] s.lc[j]] == b[s.rc[j]],
        forall|j: int| 0 <= j < s.methods.len() ==> (#[trigger] s.methods[j] matches ReconcileColumn::Numeric(t) ==> t >= 0),
    ensures
        forall|j: int| 0 <= j < s.methods.len() ==> (#[trigger] pair_diffs((Some(a), Some(b)), s)[j]) is Null,
        summary_of(width_row((Some(a), Some(b)), s)) is Null,
{
    let p = (Some(a), Some(b));
    let d = pair_diffs(p, s);
    assert forall|j: int| 0 <= j < s.methods.len() implies (#[trigger] d[j]) is Null by {
        let v = a[s.lc[j]];
        assert(b[s.rc[j]] == v);
        match s.methods[j] {
            ReconcileColumn::Numeric(t) => {},
            _ => {},
        }
    }
    lemma_no_parts(s.names, d);
}

/// No differences give no summary parts.
proof fn lemma_no_parts(names: Seq<Seq<char>>, diffs: Seq<VVal>)
    requires
        forall|j: int| 0 <= j < diffs.len() ==> (#[trigger] diffs[j]) is Null,
    ensures
        summary_parts(names, diffs).len() == 0,
    decreases diffs.len(),
{
    if diffs.len() > 0 {
        assert forall|j: int| 0 <= j < diffs.drop_last().len() implies (#[trigger] diffs.drop_last()[j]) is Null by {
            assert(diffs.drop_last()[j] == diffs[j]);
        }
        lemma_no_parts(names, diffs.drop_last());
        assert(diffs[diffs.len() - 1] == diffs.last());
    }
}

/// The keys in column `c` are present and no two rows share one.
pub open spec fn unique_keys(rows: Seq<RowV>, c: int) -> bool {
    &&& forall|k: int| 0 <= k < rows.len() ==> !((#[trigger] rows[k])[c] is Null)
    &&& forall|i: int, j: int| 0 <= i < j < rows.len() ==> (#[trigger] rows[i])[c] != (#[trigger] rows[j])[c]
}

/// The number of pairs whose key matches `k`.
pub open spec fn pairs_of_key(ps: Seq<Pair>, k: VVal, s: WidthSpec) -> nat
    decreases ps.len(),
{
    if ps.len() == 0 {
        0
    } else {
        pairs_of_key(ps.drop_last(), k, s) + if key_match(k, key_v(ps.last(), s)) {
            1nat
        } else {
            0nat
        }
    }
}

/// Wide rows of a key are the pairs of that key.
proof fn lemma_matching_pairs(ps: Seq<Pair>, k: VVal, s: WidthSpec)
    ensures
        matching(ps.map_values(|p: Pair| width_row(p, s)), 0, k).len() == pairs_of_key(ps, k, s),
    decreases ps.len(),
{
    if ps.len() > 0 {
        lemma_matching_pairs(ps.drop_last(), k, s);
        assert(ps.map_values(|p: Pair| width_row(p, s)).drop_last() =~= ps.drop_last().map_values(
            |p: Pair| width_row(p, s),
        ));
        assert(width_row(ps.last(), s)[0] == key_v(ps.last(), s));
    }
}

/// Counting pairs over two lists of pairs adds up.
proof fn lemma_pairs_concat(a: Seq<Pair>, b: Seq<Pair>, k: VVal, s: WidthSpec)
    ensures
        pairs_of_key(a + b, k, s) == pairs_of_key(a, k, s) + pairs_of_key(b, k, s),
    decreases b.len(),
{
    if b.len() > 0 {
        lemma_pairs_concat(a, b.drop_last(), k, s);
        assert((a + b).drop_last() =~= a + b.drop_last());
        assert((a + b).last() == b.last());
    } else {
        assert(a + b =~= a);
    }
}

/// Present, unique keys match at most once, and a key that a row has
/// matches exactly once.
proof fn lemma_matching_unique(rows: Seq<RowV>, c: int, k: VVal)
    requires
        unique_keys(rows, c),
    ensures
        matching(rows, c, k).len() <= 1,
        (exists|i: int| 0 <= i < rows.len() && (#[trigger] rows[i])[c] == k) ==> matching(rows, c, k).len() == 1,
        matching(rows, c, k).len() == 1 ==> exists|i: int| 0 <= i < rows.len() && (#[trigger] rows[i])[c] == k,
    decreases rows.len(),
{
    if rows.len() > 0 {
        let q = rows.drop_last();
        assert(unique_keys(q, c)) by {
            assert forall|t: int| 0 <= t < q.len() implies !((#[trigger] q[t])[c] is Null) by {
                assert(q[t] == rows[t]);
            }
            assert forall|i: int, j: int| 0 <= i < j < q.len() implies (#[trigger] q[i])[c] != (#[trigger] q[j])[c] by {
                assert(q[i] == rows[i] && q[j] == rows[j]);
            }
        }
        lemma_matching_unique(q, c, k);
        let last = rows[rows.len() - 1];
        assert(rows.last() == last);
        if key_match(k, last[c]) {
            if matching(q, c, k).len() == 1 {
                let i = choose|i: int| 0 <= i < q.len() && (#[trigger] q[i])[c] == k;
                assert(rows[i] == q[i]);
                assert(rows[i][c] != rows[rows.len() - 1][c]);
            }
        }
        if exists|i: int| 0 <= i < rows.len() && (#[trigger] rows[i])[c] == k {
            let i = choose|i: int| 0 <= i < rows.len() && (#[trigger] rows[i])[c] == k;
            if i < rows.len() - 1 {
                assert(q[i] == rows[i]);
                assert(rows[rows.len() - 1][c] != rows[i][c]);
            } else {
                assert(!(rows[i][c] is Null));
            }
        }
        if matching(rows, c, k).len() == 1 && !key_match(k, last[c]) {
            let i = choose|i: int| 0 <= i < q.len() && (#[trigger] q[i])[c] == k;
            assert(rows[i] == q[i]);
        }
    }
}

/// Each left row gives one pair, keyed by its own key, when no key of the
/// right table matches twice.
proof fn lemma_join_left_count(lrows: Seq<RowV>, rrows: Seq<RowV>, k: VVal, s: WidthSpec)
    requires
        unique_keys(rrows, s.rp),
        !(k is Null),
    ensures
        pairs_of_key(join_left(lrows, rrows, s.lp, s.rp), k, s) == matching(lrows, s.lp, k).len(),
    decreases lrows.len(),
{
    if lrows.len() > 0 {
        let q = lrows.drop_last();
        let a = lrows.last();
        let m = matching(rrows, s.rp, a[s.lp]);
        lemma_join_left_count(q, rrows, k, s);
        lemma_matching_unique(rrows, s.rp, a[s.lp]);
        let lp = left_pairs(a, m);
        lemma_pairs_concat(join_left(q, rrows, s.lp, s.rp), lp, k, s);
        if m.len() == 0 {
            assert(lp =~= seq![(Some(a), None::<RowV>)]);
            assert(lp.drop_last() =~= Seq::<Pair>::empty());
            assert(pairs_of_key(lp.drop_last(), k, s) == 0);
            assert(lp.last() == (Some(a), None::<RowV>));
            if a[s.lp] is Null {
                assert(key_v(lp.last(), s) == VVal::Null);
            } else {
                assert(key_v(lp.last(), s) == a[s.lp]);
            }
            assert(pairs_of_key(lp, k, s) == if key_match(k, a[s.lp]) { 1nat } else { 0nat });
        } else {
            assert(m.len() == 1);
            let b = m[0];
            assert(lp =~= seq![(Some(a), Some(b))]);
            assert(lp.drop_last() =~= Seq::<Pair>::empty());
            assert(pairs_of_key(lp.drop_last(), k, s) == 0);
            assert(lp.last() == (Some(a), Some(b)));
            lemma_matching_nonempty_key(rrows, s.rp, a[s.lp]);
            assert(key_v(lp.last(), s) == a[s.lp]);
            assert(pairs_of_key(lp, k, s) == if key_match(k, a[s.lp]) { 1nat } else { 0nat });
        }
    }
}

/// A key that matches some row is present.
proof fn lemma_matching_nonempty_key(rows: Seq<RowV>, c: int, k: VVal)
    requires
        matching(rows, c, k).len() > 0,
    ensures
        !(k is Null),
    decreases rows.len(),
{
    if rows.len() > 0 && !key_match(k, rows.last()[c]) {
        lemma_matching_nonempty_key(rows.drop_last(), c, k);
    }
}

/// The right rows alone are those of keys no left row has.
proof fn lemma_join_right_count(lrows: Seq<RowV>, rrows: Seq<RowV>, k: VVal, s: WidthSpec)
    requires
        !(k is Null),
    ensures
        pairs_of_key(join_right(lrows, rrows, s.lp, s.rp), k, s) == if matching(lrows, s.lp, k).len() > 0 {
            0
        } else {
            matching(rrows, s.rp, k).len()
        },
    decreases rrows.len(),
{
    if rrows.len() > 0 {
        let q = rrows.drop_last();
        let b = rrows.last();
        lemma_join_right_count(lrows, q, k, s);
        let p = join_right(lrows, q, s.lp, s.rp);
        if matching(lrows, s.lp, b[s.rp]).len() > 0 {
        } else {
            assert(join_right(lrows, rrows, s.lp, s.rp) == p.push((None::<RowV>, Some(b))));
            assert(p.push((None::<RowV>, Some(b))).drop_last() =~= p);
            assert(key_v((None::<RowV>, Some(b)), s) == b[s.rp]);
        }
    }
}

/// With present, unique keys on both sides, every key of either table has
/// exactly one row in the wide result.
pub proof fn law_unique_keys(l: TableV, r: TableV, s: WidthSpec)
    requires
        unique_keys(l.rows, s.lp),
        unique_keys(r.rows, s.rp),
    ensures
        forall|k: int| 0 <= k < l.rows.len() ==> matching(width_rows_spec(l, r, s), 0, (#[trigger] l.rows[k])[s.lp]).len() == 1,
        forall|k: int| 0 <= k < r.rows.len() ==> matching(width_rows_spec(l, r, s), 0, (#[trigger] r.rows[k])[s.rp]).len() == 1,
{
    let jl = join_left(l.rows, r.rows, s.lp, s.rp);
    let jr = join_right(l.rows, r.rows, s.lp, s.rp);
    assert forall|k: int| 0 <= k < l.rows.len() implies matching(width_rows_spec(l, r, s), 0, (#[trigger] l.rows[k])[s.lp]).len() == 1 by {
        let key = l.rows[k][s.lp];
        lemma_matching_pairs(jl + jr, key, s);
        lemma_pairs_concat(jl, jr, key, s);
        lemma_join_left_count(l.rows, r.rows, key, s);
        lemma_join_right_count(l.rows, r.rows, key, s);
        lemma_matching_unique(l.rows, s.lp, key);
    }
    assert forall|k: int| 0 <= k < r.rows.len() implies matching(width_rows_spec(l, r, s), 0, (#[trigger] r.rows[k])[s.rp]).len() == 1 by {
        let key = r.rows[k][s.rp];
        lemma_matching_pairs(jl + jr, key, s);
        lemma_pairs_concat(jl, jr, key, s);
        lemma_join_left_count(l.rows, r.rows, key, s);
        lemma_join_right_count(l.rows, r.rows, key, s);
        lemma_matching_unique(l.rows, s.lp, key);
        lemma_matching_unique(r.rows, s.rp, key);
    }
}

/// Two numbers compared with tolerance `t` differ exactly when they lie
/// more than `t` apart, either way: the difference is null when
/// `|l - r| <= t`, and a text when `l - r > t` or `r - l > t`.
pub proof fn law_numeric_diff(t: i128, l: VVal, r: VVal)
    requires
        num_of(l) is Some,
        num_of(r) is Some,
    ensures
        (diff_v(ReconcileColumn::Numeric(t), l, r) is Null) <==> (num_of(l)->0 - num_of(r)->0 <= t && num_of(r)->0
            - num_of(l)->0 <= t),
        num_of(l)->0 - num_of(r)->0 > t ==> diff_v(ReconcileColumn::Numeric(t), l, r) is Str,
        num_of(r)->0 - num_of(l)->0 > t ==> diff_v(ReconcileColumn::Numeric(t), l, r) is Str,
{
}

} // verus!
