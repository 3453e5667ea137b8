//! The reconciler: a checked scheme, two named tables, and the wide result
//! once the comparison has run.
use super::width::{
    join_left, join_right, key_match, law_agreeing_rows, left_pairs, matching, summary_of, width_row,
    RowV,
    diff_names, ctx_fits, suffixed, width_names, width_rows, width_rows_spec, work_names, WidthCtx,
    WidthSpec,
};
use super::long::{long_spec, other_col_list, long_name_list, push_long_lines, sort_long};
use super::{
    col_names, columns_view, compared, pk_count, pk_name, reconciled, ColumnsV, ReconcileColumn,
    ReconcileError, ReconcileErrorV,
};
use crate::table::{find_index, lemma_find_name, rows_view, Table, TableV};
use crate::text::{concat, owned, push_char, str_eq};
use crate::value::{num_of, numeric, strs, vals, VVal, Value};
use vstd::prelude::*;

verus! {

/// The reconciler of two tables.
pub struct Reconciler {
    /// The scheme: the method of each column.
    pub columns: Vec<(String, ReconcileColumn)>,
    /// The left table and its name.
    pub left: (String, Table),
    /// The right table and its name.
    pub right: (String, Table),
    /// The wide result, once computed.
    pub result: Option<Table>,
}

/// Whether a table has exactly the columns of the scheme (as sets of names).
pub open spec fn names_match(t: TableV, c: ColumnsV) -> bool {
    t.names.to_set() == col_names(c).to_set()
}

pub open spec fn left_mismatch() -> Seq<char> {
    "左数据框不匹配列名"@
}

pub open spec fn right_mismatch() -> Seq<char> {
    "右数据框不匹配列名"@
}

pub open spec fn duplicate_names() -> Seq<char> {
    "派生列名重复"@
}

pub open spec fn not_numeric() -> Seq<char> {
    "数值列含有非数值"@
}

/// The error text of a wide result asked for before reconciling.
pub open spec fn not_ready() -> Seq<char> {
    "需要先运行 build_result 方法"@
}

/// The error text of a long result asked for before reconciling.
pub open spec fn long_not_ready() -> Seq<char> {
    "实现错误，需要先运行 build_result 方法"@
}

/// Why a scheme and two tables make no reconciler, if they do not: the
/// number of primary keys when it is not one, or a table whose columns are
/// not those of the scheme.
pub open spec fn new_error(c: ColumnsV, l: TableV, r: TableV) -> Option<ReconcileErrorV> {
    if pk_count(c) != 1 {
        Some(ReconcileErrorV::PK(pk_count(c) as usize))
    } else if !names_match(l, c) {
        Some(ReconcileErrorV::NotMatch(left_mismatch()))
    } else if !names_match(r, c) {
        Some(ReconcileErrorV::NotMatch(right_mismatch()))
    } else {
        None
    }
}

/// A value a numeric column may hold: a number or a null.
pub open spec fn num_or_null(v: VVal) -> bool {
    v is Null || num_of(v) is Some
}

/// Whether column `c` of every row holds a number or a null.
pub open spec fn numeric_col(t: TableV, c: int) -> bool {
    forall|i: int| 0 <= i < t.rows.len() ==> num_or_null(#[trigger] t.rows[i][c])
}

/// Whether the numeric columns of `rc` hold numbers or nulls in `t`.
pub open spec fn numeric_ok(t: TableV, rc: ColumnsV) -> bool {
    forall|j: int| 0 <= j < rc.len() && (#[trigger] rc[j]).1 is Numeric ==> numeric_col(t, t.col(rc[j].0))
}

/// What the wide result of a scheme and two named tables is computed from.
pub open spec fn width_ctx_spec(c: ColumnsV, lname: Seq<char>, l: TableV, rname: Seq<char>, r: TableV) -> WidthSpec {
    let pk = pk_name(c);
    let rc = reconciled(c);
    let names = col_names(rc);
    WidthSpec {
        lp: l.col(pk),
        rp: r.col(pk),
        lc: names.map_values(|n: Seq<char>| l.col(n)),
        rc: names.map_values(|n: Seq<char>| r.col(n)),
        methods: rc.map_values(|x: (Seq<char>, ReconcileColumn)| x.1),
        names,
        lname,
        rname,
    }
}

/// The wide result: the columns `key`, `name_left…`, `name_right…`,
/// `_both`, `diff_name…`, `_summary` (see [`super::width`]), one row per
/// pair of the join; an error when the names made collide or a numeric
/// column holds something other than numbers.
pub open spec fn width_spec(c: ColumnsV, lname: Seq<char>, l: TableV, rname: Seq<char>, r: TableV) -> Result<TableV, ReconcileErrorV> {
    let pk = pk_name(c);
    let names = col_names(reconciled(c));
    if !work_names(pk, names, lname, rname).no_duplicates() {
        Err(ReconcileErrorV::Process(duplicate_names()))
    } else if !numeric_ok(l, reconciled(c)) || !numeric_ok(r, reconciled(c)) {
        Err(ReconcileErrorV::Process(not_numeric()))
    } else {
        Ok(TableV {
            names: width_names(pk, names, lname, rname),
            rows: width_rows_spec(l, r, width_ctx_spec(c, lname, l, rname, r)),
        })
    }
}

pub open spec fn reconciler_result_view(r: Result<Reconciler, ReconcileError>) -> Result<Option<TableV>, ReconcileErrorV> {
    match r {
        Ok(x) => Ok(
            match x.result {
                Some(t) => Some(t@),
                None => None,
            },
        ),
        Err(e) => Err(e@),
    }
}

// ---------------------------------------------------------------------------
// Lemmas on schemes
// ---------------------------------------------------------------------------

pub proof fn lemma_pk_exists(c: ColumnsV)
    ensures
        pk_count(c) > 0 ==> exists|k: int| 0 <= k < c.len() && (#[trigger] c[k]).1 is PK,
        pk_count(c) <= c.len(),
    decreases c.len(),
{
    if c.len() > 0 {
        lemma_pk_exists(c.drop_last());
        if pk_count(c.drop_last()) > 0 {
            let k = choose|k: int| 0 <= k < c.drop_last().len() && (#[trigger] c.drop_last()[k]).1 is PK;
            assert(c[k] == c.drop_last()[k]);
        } else if pk_count(c) > 0 {
            assert(c[c.len() - 1] == c.last());
        }
    }
}

pub proof fn lemma_pk_name(c: ColumnsV, k: int)
    requires
        0 <= k < c.len(),
        c[k].1 is PK,
        forall|j: int| 0 <= j < k ==> !((#[trigger] c[j]).1 is PK),
    ensures
        pk_name(c) == c[k].0,
    decreases c.len(),
{
    if k > 0 {
        assert(!(c[0].1 is PK));
        assert forall|j: int| 0 <= j < k - 1 implies !((#[trigger] c.drop_first()[j]).1 is PK) by {
            assert(c.drop_first()[j] == c[j + 1]);
        }
        lemma_pk_name(c.drop_first(), k - 1);
    }
}

pub proof fn lemma_reconciled(c: ColumnsV)
    ensures
        forall|j: int| 0 <= j < reconciled(c).len() ==> col_names(c).contains(#[trigger] reconciled(c)[j].0)
            && compared(reconciled(c)[j].1),
    decreases c.len(),
{
    if c.len() > 0 {
        lemma_reconciled(c.drop_last());
        let d = c.drop_last();
        assert forall|j: int| 0 <= j < reconciled(c).len() implies col_names(c).contains(#[trigger] reconciled(c)[j].0)
            && compared(reconciled(c)[j].1) by {
            if j < reconciled(d).len() {
                assert(reconciled(c)[j] == reconciled(d)[j]);
                let k = choose|k: int| 0 <= k < col_names(d).len() && col_names(d)[k] == reconciled(d)[j].0;
                assert(col_names(c)[k] == col_names(d)[k]);
            } else {
                assert(col_names(c)[c.len() - 1] == c.last().0);
            }
        }
    }
}

// ---------------------------------------------------------------------------
// Executable helpers
// ---------------------------------------------------------------------------

/// The names of a scheme's columns.
pub fn scheme_names(cols: &Vec<(String, ReconcileColumn)>) -> (r: Vec<String>)
    ensures
        strs(r@) == col_names(columns_view(cols@)),
{
    let mut r: Vec<String> = Vec::new();
    let mut i: usize = 0;
    while i < cols.len()
        invariant
            i <= cols@.len(),
            strs(r@) == col_names(columns_view(cols@)).take(i as int),
        decreases cols@.len() - i,
    {
        let ghost old_r = strs(r@);
        let n = cols[i].0.clone();
        r.push(n);
        assert(strs(r@) =~= old_r.push(n@));
        assert(col_names(columns_view(cols@))[i as int] == n@);
        i = i + 1;
        assert(strs(r@) =~= col_names(columns_view(cols@)).take(i as int));
    }
    assert(col_names(columns_view(cols@)).take(cols@.len() as int) =~= col_names(columns_view(cols@)));
    r
}

/// Whether every name of `a` is one of `b`.
pub fn names_within(a: &Vec<String>, b: &Vec<String>) -> (r: bool)
    ensures
        r == (forall|i: int| 0 <= i < a@.len() ==> strs(b@).contains(#[trigger] strs(a@)[i])),
{
    let mut i: usize = 0;
    while i < a.len()
        invariant
            i <= a@.len(),
            forall|k: int| 0 <= k < i ==> strs(b@).contains(#[trigger] strs(a@)[k]),
        decreases a@.len() - i,
    {
        match find_index(b, a[i].as_str()) {
            Some(_) => {
                proof {
                    lemma_find_name(strs(b@), a@[i as int]@);
                }
            },
            None => {
                assert(!strs(b@).contains(strs(a@)[i as int]));
                return false;
            },
        }
        i = i + 1;
    }
    true
}

/// Whether two lists hold the same names (as sets).
pub fn same_names(a: &Vec<String>, b: &Vec<String>) -> (r: bool)
    ensures
        r == (strs(a@).to_set() == strs(b@).to_set()),
{
    let x = names_within(a, b);
    let y = names_within(b, a);
    proof {
        if x && y {
            assert forall|n: Seq<char>| strs(a@).to_set().contains(n) == strs(b@).to_set().contains(n) by {
                if strs(a@).contains(n) {
                    let k = choose|k: int| 0 <= k < strs(a@).len() && strs(a@)[k] == n;
                    assert(strs(b@).contains(strs(a@)[k]));
                }
                if strs(b@).contains(n) {
                    let k = choose|k: int| 0 <= k < strs(b@).len() && strs(b@)[k] == n;
                    assert(strs(a@).contains(strs(b@)[k]));
                }
            }
            assert(strs(a@).to_set() =~= strs(b@).to_set());
        } else if !x {
            let i = choose|i: int| 0 <= i < a@.len() && !strs(b@).contains(#[trigger] strs(a@)[i]);
            assert(strs(a@).to_set().contains(strs(a@)[i]));
            assert(!strs(b@).to_set().contains(strs(a@)[i]));
        } else {
            let i = choose|i: int| 0 <= i < b@.len() && !strs(a@).contains(#[trigger] strs(b@)[i]);
            assert(strs(b@).to_set().contains(strs(b@)[i]));
            assert(!strs(a@).to_set().contains(strs(b@)[i]));
        }
    }
    x && y
}

/// The number of primary-key columns.
pub fn count_pk(cols: &Vec<(String, ReconcileColumn)>) -> (r: usize)
    ensures
        r as nat == pk_count(columns_view(cols@)),
{
    let ghost c = columns_view(cols@);
    let mut n: usize = 0;
    let mut i: usize = 0;
    while i < cols.len()
        invariant
            c == columns_view(cols@),
            i <= cols@.len(),
            n <= i,
            n as nat == pk_count(c.take(i as int)),
        decreases cols@.len() - i,
    {
        assert(c.take(i + 1).drop_last() =~= c.take(i as int));
        assert(c.take(i + 1).last() == c[i as int]);
        if cols[i].1 == ReconcileColumn::PK {
            n = n + 1;
        }
        i = i + 1;
    }
    assert(c.take(cols@.len() as int) =~= c);
    n
}

/// Whether no name is given twice.
pub fn distinct_names(v: &Vec<String>) -> (r: bool)
    ensures
        r == strs(v@).no_duplicates(),
{
    let ghost s = strs(v@);
    let mut i: usize = 0;
    while i < v.len()
        invariant
            s == strs(v@),
            i <= v@.len(),
            forall|a: int, b: int| 0 <= a < b < i ==> s[a] != s[b],
        decreases v@.len() - i,
    {
        let mut j: usize = 0;
        while j < i
            invariant
                s == strs(v@),
                i < v@.len(),
                j <= i,
                forall|a: int, b: int| 0 <= a < b < i ==> s[a] != s[b],
                forall|a: int| 0 <= a < j ==> s[a] != s[i as int],
            decreases i - j,
        {
            if str_eq(v[j].as_str(), v[i].as_str()) {
                assert(s[j as int] == s[i as int]);
                return false;
            }
            j = j + 1;
        }
        i = i + 1;
    }
    true
}

/// `name_suffix`.
fn suffix(n: &String, s: &String) -> (r: String)
    ensures
        r@ == n@ + seq!['_'] + s@,
{
    let mut t = n.clone();
    push_char(&mut t, '_');
    concat(t.as_str(), s.as_str())
}

impl Reconciler {
    /// The reconciler is well formed: distinct column names, one primary
    /// key, tables with the scheme's columns.
    pub open spec fn wf(&self) -> bool {
        let c = columns_view(self.columns@);
        &&& col_names(c).no_duplicates()
        &&& pk_count(c) == 1
        &&& self.left.1@.wf()
        &&& self.right.1@.wf()
        &&& names_match(self.left.1@, c)
        &&& names_match(self.right.1@, c)
        &&& (self.result matches Some(t) ==> self.width() == Ok::<TableV, ReconcileErrorV>(t@))
    }

    /// The wide result of the reconciler's tables.
    pub open spec fn width(&self) -> Result<TableV, ReconcileErrorV> {
        width_spec(columns_view(self.columns@), self.left.0@, self.left.1@, self.right.0@, self.right.1@)
    }

    /// A reconciler of two named tables under a scheme: the scheme must
    /// have exactly one primary key, and each table exactly the scheme's
    /// columns.
    pub fn new(
        columns: Vec<(String, ReconcileColumn)>,
        left: (String, Table),
        right: (String, Table),
    ) -> (r: Result<Reconciler, ReconcileError>)
        requires
            col_names(columns_view(columns@)).no_duplicates(),
            left.1@.wf(),
            right.1@.wf(),
        ensures
            match r {
                Ok(x) => new_error(columns_view(columns@), left.1@, right.1@) is None && x.columns == columns
                    && x.left == left && x.right == right && x.result is None && x.wf(),
                Err(e) => new_error(columns_view(columns@), left.1@, right.1@) == Some(e@),
            },
    {
        let n = count_pk(&columns);
        if n != 1 {
            return Err(ReconcileError::PK(n));
        }
        let names = scheme_names(&columns);
        if !same_names(&left.1.names, &names) {
            return Err(ReconcileError::NotMatch(owned("左数据框不匹配列名")));
        }
        if !same_names(&right.1.names, &names) {
            return Err(ReconcileError::NotMatch(owned("右数据框不匹配列名")));
        }
        Ok(Reconciler { columns, left, right, result: None })
    }

    /// The index of the primary key in the scheme.
    fn pk_index(&self) -> (k: usize)
        requires
            self.wf(),
        ensures
            k < self.columns@.len(),
            self.columns@[k as int].1 is PK,
            pk_name(columns_view(self.columns@)) == self.columns@[k as int].0@,
    {
        let ghost c = columns_view(self.columns@);
        proof {
            lemma_pk_exists(c);
        }
        let mut k: usize = 0;
        while k < self.columns.len()
            invariant
                c == columns_view(self.columns@),
                pk_count(c) == 1,
                exists|m: int| 0 <= m < c.len() && (#[trigger] c[m]).1 is PK,
                k <= self.columns@.len(),
                forall|j: int| 0 <= j < k ==> !((#[trigger] c[j]).1 is PK),
            decreases self.columns@.len() - k,
        {
            if self.columns[k].1 == ReconcileColumn::PK {
                proof {
                    assert(c[k as int].1 is PK);
                    lemma_pk_name(c, k as int);
                }
                return k;
            }
            assert(!(c[k as int].1 is PK));
            k = k + 1;
        }
        proof {
            let m = choose|m: int| 0 <= m < c.len() && (#[trigger] c[m]).1 is PK;
            assert(!(c[m].1 is PK));
        }
        0
    }

    /// The compared columns of the scheme.
    fn reconciled_columns(&self) -> (r: Vec<(String, ReconcileColumn)>)
        ensures
            columns_view(r@) == reconciled(columns_view(self.columns@)),
    {
        let ghost c = columns_view(self.columns@);
        let mut r: Vec<(String, ReconcileColumn)> = Vec::new();
        let mut i: usize = 0;
        while i < self.columns.len()
            invariant
                c == columns_view(self.columns@),
                i <= self.columns@.len(),
                columns_view(r@) == reconciled(c.take(i as int)),
            decreases self.columns@.len() - i,
        {
            assert(c.take(i + 1).drop_last() =~= c.take(i as int));
            assert(c.take(i + 1).last() == c[i as int]);
            let m = self.columns[i].1;
            match m {
                ReconcileColumn::Numeric(_) | ReconcileColumn::Exact => {
                    let ghost old_r = columns_view(r@);
                    r.push((self.columns[i].0.clone(), m));
                    assert(columns_view(r@) =~= old_r.push(c[i as int]));
                },
                _ => {},
            }
            i = i + 1;
        }
        assert(c.take(self.columns@.len() as int) =~= c);
        r
    }

    /// Runs the comparison: the wide result is stored in the reconciler
    /// (see [`width_spec`]).
    pub fn reconcile(self) -> (r: Result<Reconciler, ReconcileError>)
        requires
            self.wf(),
        ensures
            match r {
                Ok(x) => x.result is Some && self.width() == Ok::<TableV, ReconcileErrorV>(x.result.unwrap()@) && x.columns == self.columns
                    && x.left == self.left && x.right == self.right && x.wf(),
                Err(e) => self.width() == Err::<TableV, ReconcileErrorV>(e@),
            },
    {
        let ghost c = columns_view(self.columns@);
        let ghost l = self.left.1@;
        let ghost rt = self.right.1@;
        let k = self.pk_index();
        let pk = self.columns[k].0.clone();
        let rc = self.reconciled_columns();
        let ghost rcv = reconciled(c);
        proof {
            lemma_reconciled(c);
            assert(col_names(c)[k as int] == pk@);
        }
        let mut names: Vec<String> = Vec::new();
        let mut methods: Vec<ReconcileColumn> = Vec::new();
        let mut i: usize = 0;
        while i < rc.len()
            invariant
                columns_view(rc@) == rcv,
                i <= rc@.len(),
                strs(names@) == col_names(rcv).take(i as int),
                methods@ == rcv.map_values(|x: (Seq<char>, ReconcileColumn)| x.1).take(i as int),
            decreases rc@.len() - i,
        {
            let ghost (on, om) = (strs(names@), methods@);
            let n = rc[i].0.clone();
            names.push(n);
            methods.push(rc[i].1);
            assert(strs(names@) =~= on.push(n@));
            i = i + 1;
            assert(strs(names@) =~= col_names(rcv).take(i as int));
            assert(methods@ =~= rcv.map_values(|x: (Seq<char>, ReconcileColumn)| x.1).take(i as int));
        }
        assert(col_names(rcv).take(rc@.len() as int) =~= col_names(rcv));
        assert(rcv.map_values(|x: (Seq<char>, ReconcileColumn)| x.1).take(rc@.len() as int) =~= rcv.map_values(
            |x: (Seq<char>, ReconcileColumn)| x.1,
        ));
        let ghost nv = col_names(rcv);
        let lname = self.left.0.clone();
        let rname = self.right.0.clone();
        let wnames = width_name_list(&pk, &names, &lname, &rname);
        let mut work = width_name_list(&pk, &names, &lname, &rname);
        work.push(suffix(&pk, &lname));
        work.push(suffix(&pk, &rname));
        assert(strs(work@) =~= work_names(pk@, nv, lname@, rname@));
        if !distinct_names(&work) {
            return Err(ReconcileError::Process(owned("派生列名重复")));
        }
        // Column indices.
        proof {
            assert(col_names(c).contains(pk@));
            assert(l.names.to_set().contains(pk@));
            assert(rt.names.to_set().contains(pk@));
        }
        let lp = col_index(&self.left.1, &pk);
        let rp = col_index(&self.right.1, &pk);
        let mut lc: Vec<usize> = Vec::new();
        let mut rcx: Vec<usize> = Vec::new();
        let mut j: usize = 0;
        while j < names.len()
            invariant
                self.wf(),
                c == columns_view(self.columns@),
                l == self.left.1@,
                rt == self.right.1@,
                rcv == reconciled(c),
                nv == col_names(rcv),
                strs(names@) == nv,
                nv.len() == rcv.len(),
                names@.len() == rcv.len(),
                forall|q: int| 0 <= q < rcv.len() ==> col_names(c).contains(#[trigger] rcv[q].0),
                j <= names@.len(),
                lc@.len() == j,
                rcx@.len() == j,
                forall|q: int| 0 <= q < j ==> (#[trigger] lc@[q]) as int == l.col(nv[q]) && lc@[q] < l.names.len(),
                forall|q: int| 0 <= q < j ==> (#[trigger] rcx@[q]) as int == rt.col(nv[q]) && rcx@[q] < rt.names.len(),
            decreases names@.len() - j,
        {
            proof {
                assert(nv[j as int] == rcv[j as int].0);
                assert(col_names(c).contains(rcv[j as int].0));
                assert(l.names.to_set().contains(nv[j as int]));
                assert(rt.names.to_set().contains(nv[j as int]));
                assert(names@[j as int]@ == nv[j as int]);
            }
            lc.push(col_index(&self.left.1, &names[j]));
            rcx.push(col_index(&self.right.1, &names[j]));
            j = j + 1;
        }
        // Numeric columns.
        let mut q: usize = 0;
        while q < names.len()
            invariant
                self.wf(),
                l == self.left.1@,
                rt == self.right.1@,
                rcv == reconciled(c),
                nv == col_names(rcv),
                strs(names@) == nv,
                nv.len() == rcv.len(),
                names@.len() == rcv.len(),
                methods@ == rcv.map_values(|x: (Seq<char>, ReconcileColumn)| x.1),
                methods@.len() == rcv.len(),
                c == columns_view(self.columns@),
                work_names(pk_name(c), nv, self.left.0@, self.right.0@).no_duplicates(),
                lc@.len() == names@.len(),
                rcx@.len() == names@.len(),
                forall|u: int| 0 <= u < lc@.len() ==> (#[trigger] lc@[u]) as int == l.col(nv[u]) && lc@[u] < l.names.len(),
                forall|u: int| 0 <= u < rcx@.len() ==> (#[trigger] rcx@[u]) as int == rt.col(nv[u]) && rcx@[u] < rt.names.len(),
                q <= names@.len(),
                forall|u: int| 0 <= u < q && (#[trigger] rcv[u]).1 is Numeric ==> numeric_col(l, l.col(rcv[u].0))
                    && numeric_col(rt, rt.col(rcv[u].0)),
            decreases names@.len() - q,
        {
            assert(methods@[q as int] == rcv[q as int].1);
            match methods[q] {
                ReconcileColumn::Numeric(_) => {
                    let a = column_numeric(&self.left.1, lc[q]);
                    let b = column_numeric(&self.right.1, rcx[q]);
                    if !a || !b {
                        proof {
                            assert(rcv[q as int].1 is Numeric);
                            assert(nv[q as int] == rcv[q as int].0);
                            if !a {
                                assert(!numeric_col(l, l.col(rcv[q as int].0)));
                                assert(!numeric_ok(l, rcv));
                            } else {
                                assert(!numeric_col(rt, rt.col(rcv[q as int].0)));
                                assert(!numeric_ok(rt, rcv));
                            }
                        }
                        return Err(ReconcileError::Process(owned("数值列含有非数值")));
                    }
                },
                _ => {},
            }
            q = q + 1;
        }
        let ctx = WidthCtx { lp, rp, lc, rc: rcx, methods, names, lname, rname };
        assert(ctx.spec().lc =~= width_ctx_spec(c, self.left.0@, l, self.right.0@, rt).lc);
        assert(ctx.spec().rc =~= width_ctx_spec(c, self.left.0@, l, self.right.0@, rt).rc);
        assert(ctx.spec() == width_ctx_spec(c, self.left.0@, l, self.right.0@, rt));
        let rows = width_rows(&self.left.1, &self.right.1, &ctx);
        let t = Table { names: wnames, rows };
        assert(self.width() == Ok::<TableV, ReconcileErrorV>(t@));
        Ok(Reconciler { columns: self.columns, left: self.left, right: self.right, result: Some(t) })
    }

    /// The long result (see [`long_spec`]), once the comparison has run.
    pub fn get_long_result(&self) -> (r: Result<Table, ReconcileError>)
        requires
            self.wf(),
        ensures
            match self.result {
                None => r matches Err(e) && e@ == ReconcileErrorV::NotReady(long_not_ready()),
                Some(w) => long_result_view(r) == long_spec(
                    self.left.1@,
                    self.left.0@,
                    self.right.1@,
                    self.right.0@,
                    pk_name(columns_view(self.columns@)),
                    w@,
                ),
            },
    {
        let w = match &self.result {
            Some(w) => w,
            None => {
                return Err(ReconcileError::NotReady(owned("实现错误，需要先运行 build_result 方法")));
            },
        };
        proof {
            lemma_width_rows_len(self.left.1@, self.right.1@, width_ctx_spec(columns_view(self.columns@), self.left.0@, self.left.1@, self.right.0@, self.right.1@));
        }
        let l = &self.left.1;
        let r = &self.right.1;
        if !same_list(&l.names, &r.names) {
            return Err(ReconcileError::Process(owned("两表列名不一致")));
        }
        if find_index(&l.names, "_source").is_some() || find_index(&l.names, "_summary").is_some() {
            proof {
                lemma_find_name(l@.names, "_source"@);
                lemma_find_name(l@.names, "_summary"@);
            }
            return Err(ReconcileError::Process(owned("派生列名重复")));
        }
        proof {
            lemma_find_name(l@.names, "_source"@);
            lemma_find_name(l@.names, "_summary"@);
        }
        let k = self.pk_index();
        let pk = self.columns[k].0.clone();
        proof {
            assert(col_names(columns_view(self.columns@))[k as int] == pk@);
            assert(col_names(columns_view(self.columns@)).contains(pk@));
            assert(l@.names.to_set().contains(pk@));
        }
        let pkc = col_index(l, &pk);
        let others = other_col_list(&l.names, &pk);
        let names = long_name_list(&l.names, &pk, &others);
        let mut rows: Vec<Vec<Value>> = Vec::new();
        assert(rows_view(rows@) =~= Seq::<Seq<VVal>>::empty());
        push_long_lines(&mut rows, l, pkc, &others, &self.left.0, w);
        push_long_lines(&mut rows, r, pkc, &others, &self.right.0, w);
        let sorted = sort_long(&rows);
        let t = Table { names, rows: sorted };
        Ok(t)
    }

    /// The wide result, once the comparison has run.
    pub fn get_width_result(&self) -> (r: Result<Table, ReconcileError>)
        ensures
            match r {
                Ok(t) => self.result is Some && t@ == self.result.unwrap()@,
                Err(e) => self.result is None && e@ == ReconcileErrorV::NotReady(not_ready()),
            },
    {
        match &self.result {
            Some(t) => Ok(t.copy()),
            None => Err(ReconcileError::NotReady(owned("需要先运行 build_result 方法"))),
        }
    }
}

pub open spec fn long_result_view(r: Result<Table, ReconcileError>) -> Result<TableV, ReconcileErrorV> {
    match r {
        Ok(t) => Ok(t@),
        Err(e) => Err(e@),
    }
}

/// Every row of the wide result holds at least its key and its summary.
pub proof fn lemma_width_rows_len(l: TableV, r: TableV, s: WidthSpec)
    ensures
        forall|k: int| 0 <= k < width_rows_spec(l, r, s).len() ==> (#[trigger] width_rows_spec(l, r, s)[k]).len() >= 2,
{
}

/// Whether two lists hold the same names in the same order.
pub fn same_list(a: &Vec<String>, b: &Vec<String>) -> (r: bool)
    ensures
        r == (strs(a@) == strs(b@)),
{
    if a.len() != b.len() {
        assert(strs(a@).len() != strs(b@).len());
        return false;
    }
    let mut i: usize = 0;
    while i < a.len()
        invariant
            a@.len() == b@.len(),
            i <= a@.len(),
            forall|k: int| 0 <= k < i ==> strs(a@)[k] == strs(b@)[k],
        decreases a@.len() - i,
    {
        if !str_eq(a[i].as_str(), b[i].as_str()) {
            assert(strs(a@)[i as int] != strs(b@)[i as int]);
            return false;
        }
        i = i + 1;
    }
    assert(strs(a@) =~= strs(b@));
    true
}

/// The index of the column named `n` in `t`, which has one.
pub fn col_index(t: &Table, n: &String) -> (r: usize)
    requires
        t@.names.to_set().contains(n@),
    ensures
        r as int == t@.col(n@),
        r < t@.names.len(),
{
    match find_index(&t.names, n.as_str()) {
        Some(i) => i,
        None => {
            assert(t@.names.contains(n@));
            0
        },
    }
}

/// Whether column `c` of every row of `t` holds a number or a null.
pub fn column_numeric(t: &Table, c: usize) -> (r: bool)
    requires
        t@.wf(),
        c < t@.names.len(),
    ensures
        r == numeric_col(t@, c as int),
{
    let mut i: usize = 0;
    while i < t.rows.len()
        invariant
            t@.wf(),
            c < t@.names.len(),
            i <= t@.rows.len(),
            forall|k: int| 0 <= k < i ==> num_or_null(#[trigger] t@.rows[k][c as int]),
        decreases t@.rows.len() - i,
    {
        assert(vals(t.rows@[i as int]@) == t@.rows[i as int]);
        assert(t@.rows[i as int].len() == t@.names.len());
        let v = &t.rows[i][c];
        assert(v@ == t@.rows[i as int][c as int]);
        let ok = match v {
            Value::Null => true,
            _ => numeric(v).is_some(),
        };
        if !ok {
            return false;
        }
        i = i + 1;
    }
    true
}

/// `name_suffix` for each name.
pub fn suffixed_list(names: &Vec<String>, s: &String) -> (r: Vec<String>)
    ensures
        strs(r@) == suffixed(strs(names@), s@),
{
    let mut r: Vec<String> = Vec::new();
    let mut i: usize = 0;
    while i < names.len()
        invariant
            i <= names@.len(),
            strs(r@) == suffixed(strs(names@), s@).take(i as int),
        decreases names@.len() - i,
    {
        let ghost o = strs(r@);
        let t = suffix(&names[i], s);
        r.push(t);
        assert(strs(r@) =~= o.push(t@));
        i = i + 1;
        assert(strs(r@) =~= suffixed(strs(names@), s@).take(i as int));
    }
    assert(suffixed(strs(names@), s@).take(names@.len() as int) =~= suffixed(strs(names@), s@));
    r
}

/// `diff_name` for each name.
pub fn diff_list(names: &Vec<String>) -> (r: Vec<String>)
    ensures
        strs(r@) == diff_names(strs(names@)),
{
    let mut r: Vec<String> = Vec::new();
    let mut i: usize = 0;
    while i < names.len()
        invariant
            i <= names@.len(),
            strs(r@) == diff_names(strs(names@)).take(i as int),
        decreases names@.len() - i,
    {
        let ghost o = strs(r@);
        let t = concat("diff_", names[i].as_str());
        r.push(t);
        assert(strs(r@) =~= o.push(t@));
        i = i + 1;
        assert(strs(r@) =~= diff_names(strs(names@)).take(i as int));
    }
    assert(diff_names(strs(names@)).take(names@.len() as int) =~= diff_names(strs(names@)));
    r
}

/// The columns of the wide result.
pub fn width_name_list(pk: &String, names: &Vec<String>, lname: &String, rname: &String) -> (r: Vec<String>)
    ensures
        strs(r@) == width_names(pk@, strs(names@), lname@, rname@),
{
    let mut r: Vec<String> = Vec::new();
    r.push(pk.clone());
    let mut a = suffixed_list(names, lname);
    let mut b = suffixed_list(names, rname);
    let mut d = diff_list(names);
    let ghost (av, bv, dv) = (strs(a@), strs(b@), strs(d@));
    r.append(&mut a);
    r.append(&mut b);
    r.push(owned("_both"));
    r.append(&mut d);
    r.push(owned("_summary"));
    assert(strs(r@) =~= width_names(pk@, strs(names@), lname@, rname@));
    r
}

// ---------------------------------------------------------------------------
// Laws
// ---------------------------------------------------------------------------

/// Keys in column `c` that are present in every row and differ between
/// any two rows.
pub open spec fn keys_unique(t: TableV, c: int) -> bool {
    &&& forall|i: int| 0 <= i < t.rows.len() ==> !((#[trigger] t.rows[i])[c] is Null)
    &&& forall|i: int, j: int| 0 <= i < j < t.rows.len() ==> (#[trigger] t.rows[i])[c] != (#[trigger] t.rows[j])[c]
}

proof fn lemma_no_match(rows: Seq<RowV>, c: int, k: VVal)
    requires
        forall|i: int| 0 <= i < rows.len() ==> !key_match(k, (#[trigger] rows[i])[c]),
    ensures
        matching(rows, c, k).len() == 0,
    decreases rows.len(),
{
    if rows.len() > 0 {
        assert forall|i: int| 0 <= i < rows.drop_last().len() implies !key_match(k, (#[trigger] rows.drop_last()[i])[c]) by {
            assert(rows.drop_last()[i] == rows[i]);
        }
        lemma_no_match(rows.drop_last(), c, k);
        assert(rows[rows.len() - 1] == rows.last());
    }
}

/// With unique keys, a row's key matches that row alone.
proof fn lemma_match_self(rows: Seq<RowV>, c: int, i: int)
    requires
        0 <= i < rows.len(),
        forall|q: int| 0 <= q < rows.len() ==> !((#[trigger] rows[q])[c] is Null),
        forall|p: int, q: int| 0 <= p < q < rows.len() ==> (#[trigger] rows[p])[c] != (#[trigger] rows[q])[c],
    ensures
        matching(rows, c, rows[i][c]) == seq![rows[i]],
    decreases rows.len(),
{
    let d = rows.drop_last();
    assert forall|q: int| 0 <= q < d.len() implies !((#[trigger] d[q])[c] is Null) by {
        assert(d[q] == rows[q]);
    }
    assert forall|p: int, q: int| 0 <= p < q < d.len() implies (#[trigger] d[p])[c] != (#[trigger] d[q])[c] by {
        assert(d[p] == rows[p] && d[q] == rows[q]);
    }
    assert(rows[rows.len() - 1] == rows.last());
    if i == rows.len() - 1 {
        assert forall|q: int| 0 <= q < d.len() implies !key_match(rows[i][c], (#[trigger] d[q])[c]) by {
            assert(d[q] == rows[q]);
        }
        lemma_no_match(d, c, rows[i][c]);
        assert(matching(d, c, rows[i][c]) =~= Seq::<RowV>::empty());
        assert(matching(rows, c, rows[i][c]) =~= seq![rows[i]]);
    } else {
        assert(d[i] == rows[i]);
        lemma_match_self(d, c, i);
        assert(rows[i][c] != rows[rows.len() - 1][c]);
    }
}

proof fn lemma_join_self(rows: Seq<RowV>, c: int, n: int)
    requires
        0 <= n <= rows.len(),
        forall|q: int| 0 <= q < rows.len() ==> !((#[trigger] rows[q])[c] is Null),
        forall|p: int, q: int| 0 <= p < q < rows.len() ==> (#[trigger] rows[p])[c] != (#[trigger] rows[q])[c],
    ensures
        join_left(rows.take(n), rows, c, c) == rows.take(n).map_values(|a: RowV| (Some(a), Some(a))),
        join_right(rows, rows.take(n), c, c).len() == 0,
    decreases n,
{
    if n > 0 {
        lemma_join_self(rows, c, n - 1);
        let t = rows.take(n);
        assert(t.drop_last() =~= rows.take(n - 1));
        assert(t.last() == rows[n - 1]);
        lemma_match_self(rows, c, n - 1);
        assert(left_pairs(rows[n - 1], seq![rows[n - 1]]) =~= seq![(Some(rows[n - 1]), Some(rows[n - 1]))]);
        assert(join_left(t, rows, c, c) =~= t.map_values(|a: RowV| (Some(a), Some(a))));
    } else {
        assert(rows.take(0) =~= Seq::<RowV>::empty());
    }
}

/// Reconciling a table with itself, keys present and unique and no
/// tolerance negative, pairs each row with itself and finds no difference.
pub proof fn law_self_reconcile(c: ColumnsV, lname: Seq<char>, rname: Seq<char>, t: TableV, w: TableV)
    requires
        width_spec(c, lname, t, rname, t) == Ok::<TableV, ReconcileErrorV>(w),
        keys_unique(t, t.col(pk_name(c))),
        forall|j: int| 0 <= j < reconciled(c).len() ==> ((#[trigger] reconciled(c)[j]).1 matches ReconcileColumn::Numeric(x) ==> x >= 0),
    ensures
        w.rows.len() == t.rows.len(),
        forall|i: int| 0 <= i < w.rows.len() ==> summary_of(#[trigger] w.rows[i]) is Null,
{
    let s = width_ctx_spec(c, lname, t, rname, t);
    let pc = t.col(pk_name(c));
    lemma_join_self(t.rows, pc, t.rows.len() as int);
    assert(t.rows.take(t.rows.len() as int) =~= t.rows);
    let pairs = join_left(t.rows, t.rows, pc, pc) + join_right(t.rows, t.rows, pc, pc);
    assert(pairs =~= t.rows.map_values(|a: RowV| (Some(a), Some(a))));
    assert forall|i: int| 0 <= i < w.rows.len() implies summary_of(#[trigger] w.rows[i]) is Null by {
        let a = t.rows[i];
        assert(w.rows[i] == width_row((Some(a), Some(a)), s));
        assert forall|j: int| 0 <= j < s.methods.len() implies (#[trigger] s.methods[j] matches ReconcileColumn::Numeric(x) ==> x >= 0) by {
            assert(s.methods[j] == reconciled(c)[j].1);
        }
        assert forall|j: int| 0 <= j < s.methods.len() implies a[#[trigger] s.lc[j]] == a[s.rc[j]] by {
        }
        law_agreeing_rows(a, a, s);
    }
}

/// The long result of a reconciliation whose two tables have present,
/// unique keys holds one row per row of the two tables, tagged with the
/// name of its table and carrying the summary of its key in the wide
/// result; when the tables are named apart, as many rows come from each as
/// it has.
pub proof fn law_long_per_key(c: ColumnsV, lname: Seq<char>, l: TableV, rname: Seq<char>, r: TableV, w: TableV, out: TableV)
    requires
        width_spec(c, lname, l, rname, r) == Ok::<TableV, ReconcileErrorV>(w),
        long_spec(l, lname, r, rname, pk_name(c), w) == Ok::<TableV, ReconcileErrorV>(out),
        super::width::unique_keys(l.rows, l.col(pk_name(c))),
        super::width::unique_keys(r.rows, r.col(pk_name(c))),
    ensures
        out.rows.len() == l.rows.len() + r.rows.len(),
        out.rows.to_multiset() == (super::long::tagged_lines(
            l.rows,
            l.col(pk_name(c)),
            super::long::other_cols(l.names, pk_name(c)),
            lname,
            w.rows,
        ) + super::long::tagged_lines(
            r.rows,
            l.col(pk_name(c)),
            super::long::other_cols(l.names, pk_name(c)),
            rname,
            w.rows,
        )).to_multiset(),
        lname != rname ==> super::long::source_count(out.rows, lname) == l.rows.len()
            && super::long::source_count(out.rows, rname) == r.rows.len(),
{
    let s = width_ctx_spec(c, lname, l, rname, r);
    assert(l.names == r.names);
    assert(s.lp == s.rp);
    super::width::law_unique_keys(l, r, s);
    super::long::law_long_rows(l, lname, r, rname, pk_name(c), w, out);
}

} // verus!
