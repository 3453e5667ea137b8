//! Reconciliation: two tables compared column by column, rows paired by a
//! primary key.
//!
//! A scheme gives each column a method (see [`ReconcileColumn`]): exactly
//! one column is the primary key; numeric and exact columns are compared;
//! the others are carried along.  Columns are kept in the order in which
//! the scheme lists them.
use crate::table::find_name;
use vstd::prelude::*;

pub mod long;
pub mod option;
pub mod reconciler;
pub mod width;

pub use option::ReconcileOption;
pub use reconciler::Reconciler;

verus! {

/// How a column is reconciled.
#[derive(Debug, Clone, Copy, PartialEq, Eq, Structural)]
pub enum ReconcileColumn {
    /// The primary key that rows are paired by.
    PK,
    /// Numbers that match when they differ by at most the tolerance, in
    /// millionths (`Numeric(1000)` is a tolerance of 0.001).
    Numeric(i128),
    /// Values that must be equal.
    Exact,
    /// Carried along as information, not compared.
    Info,
}

/// Why a reconciliation could not be made.
#[derive(Debug)]
pub enum ReconcileError {
    /// A table has not been given.
    NotSet(String),
    /// The scheme does not have exactly one primary key; the number it has.
    PK(usize),
    /// The columns of a table are not those of the scheme.
    NotMatch(String),
    /// The tables cannot be processed: derived column names collide, a
    /// numeric column holds something other than numbers, or the two
    /// tables do not have the same columns in the same order.
    Process(String),
    /// The comparison has not been run yet.
    NotReady(String),
}

pub enum ReconcileErrorV {
    NotSet(Seq<char>),
    PK(usize),
    NotMatch(Seq<char>),
    Process(Seq<char>),
    NotReady(Seq<char>),
}

impl View for ReconcileError {
    type V = ReconcileErrorV;

    open spec fn view(&self) -> ReconcileErrorV {
        match self {
            ReconcileError::NotSet(s) => ReconcileErrorV::NotSet(s@),
            ReconcileError::PK(n) => ReconcileErrorV::PK(*n),
            ReconcileError::NotMatch(s) => ReconcileErrorV::NotMatch(s@),
            ReconcileError::Process(s) => ReconcileErrorV::Process(s@),
            ReconcileError::NotReady(s) => ReconcileErrorV::NotReady(s@),
        }
    }
}

/// A scheme as plain values: the name and method of each column.
pub type ColumnsV = Seq<(Seq<char>, ReconcileColumn)>;

/// The content of a scheme.
pub open spec fn columns_view(c: Seq<(String, ReconcileColumn)>) -> ColumnsV {
    c.map_values(|x: (String, ReconcileColumn)| (x.0@, x.1))
}

/// The names of a scheme's columns.
pub open spec fn col_names(c: ColumnsV) -> Seq<Seq<char>> {
    c.map_values(|x: (Seq<char>, ReconcileColumn)| x.0)
}

/// The number of primary-key columns.
pub open spec fn pk_count(c: ColumnsV) -> nat
    decreases c.len(),
{
    if c.len() == 0 {
        0
    } else {
        pk_count(c.drop_last()) + if c.last().1 is PK { 1nat } else { 0nat }
    }
}

/// The name of the first primary-key column.
pub open spec fn pk_name(c: ColumnsV) -> Seq<char>
    decreases c.len(),
{
    if c.len() == 0 {
        Seq::empty()
    } else if c[0].1 is PK {
        c[0].0
    } else {
        pk_name(c.drop_first())
    }
}

/// Whether a column is compared: numeric or exact.
pub open spec fn compared(m: ReconcileColumn) -> bool {
    m is Numeric || m is Exact
}

/// The compared columns, in order.
pub open spec fn reconciled(c: ColumnsV) -> ColumnsV
    decreases c.len(),
{
    if c.len() == 0 {
        seq![]
    } else if compared(c.last().1) {
        reconciled(c.drop_last()).push(c.last())
    } else {
        reconciled(c.drop_last())
    }
}

/// A column set with `p` added: a name already there takes the new method
/// in its place; a new name goes at the end.
pub open spec fn upsert(c: ColumnsV, p: (Seq<char>, ReconcileColumn)) -> ColumnsV {
    let k = find_name(col_names(c), p.0);
    if k < c.len() {
        c.update(k, p)
    } else {
        c.push(p)
    }
}

/// The columns of a list of pairs, as a map from names collects them: the
/// last method given for a name wins, names keep their first place.
pub open spec fn collect_columns(pairs: ColumnsV) -> ColumnsV
    decreases pairs.len(),
{
    if pairs.len() == 0 {
        seq![]
    } else {
        upsert(collect_columns(pairs.drop_last()), pairs.last())
    }
}

pub proof fn lemma_upsert_distinct(c: ColumnsV, p: (Seq<char>, ReconcileColumn))
    requires
        col_names(c).no_duplicates(),
    ensures
        col_names(upsert(c, p)).no_duplicates(),
{
    crate::table::lemma_find_name(col_names(c), p.0);
    let k = find_name(col_names(c), p.0);
    let u = upsert(c, p);
    if k < c.len() {
        assert(col_names(u) =~= col_names(c));
    } else {
        assert(col_names(u) =~= col_names(c).push(p.0));
        assert forall|i: int, j: int| 0 <= i < j < col_names(u).len() implies col_names(u)[i] != col_names(u)[j] by {
            if j == c.len() {
                assert(col_names(c).contains(col_names(c)[i]));
            }
        }
    }
}

pub proof fn lemma_collect_distinct(pairs: ColumnsV)
    ensures
        col_names(collect_columns(pairs)).no_duplicates(),
    decreases pairs.len(),
{
    if pairs.len() > 0 {
        lemma_collect_distinct(pairs.drop_last());
        lemma_upsert_distinct(collect_columns(pairs.drop_last()), pairs.last());
    }
}

/// The scheme of freight reconciliation.
pub open spec fn freight_scheme() -> ColumnsV {
    seq![
        ("运单号"@, ReconcileColumn::PK),
        ("货件单号"@, ReconcileColumn::Info),
        ("日期"@, ReconcileColumn::Info),
        ("物流中心编码"@, ReconcileColumn::Info),
        ("货代名称"@, ReconcileColumn::Info),
        ("件数"@, ReconcileColumn::Numeric(1000)),
        ("单价"@, ReconcileColumn::Numeric(1000)),
        ("计费重"@, ReconcileColumn::Numeric(1000)),
    ]
}

/// The scheme of customs reconciliation.
pub open spec fn customs_scheme() -> ColumnsV {
    seq![
        ("报关周次"@, ReconcileColumn::PK),
        ("运单号"@, ReconcileColumn::Info),
        ("货代名称"@, ReconcileColumn::Info),
        ("金额"@, ReconcileColumn::Numeric(1000)),
    ]
}

fn pair(n: &str, m: ReconcileColumn) -> (r: (String, ReconcileColumn))
    ensures
        r.0@ == n@,
        r.1 == m,
{
    (crate::text::owned(n), m)
}

/// The columns of freight reconciliation.
pub fn freight_reconcile_columns() -> (r: Vec<(String, ReconcileColumn)>)
    ensures
        columns_view(r@) == freight_scheme(),
{
    let r = vec![
        pair("运单号", ReconcileColumn::PK),
        pair("货件单号", ReconcileColumn::Info),
        pair("日期", ReconcileColumn::Info),
        pair("物流中心编码", ReconcileColumn::Info),
        pair("货代名称", ReconcileColumn::Info),
        pair("件数", ReconcileColumn::Numeric(1000)),
        pair("单价", ReconcileColumn::Numeric(1000)),
        pair("计费重", ReconcileColumn::Numeric(1000)),
    ];
    assert(columns_view(r@) =~= freight_scheme());
    r
}

/// The columns of customs reconciliation.
pub fn customs_reconcile_columns() -> (r: Vec<(String, ReconcileColumn)>)
    ensures
        columns_view(r@) == customs_scheme(),
{
    let r = vec![
        pair("报关周次", ReconcileColumn::PK),
        pair("运单号", ReconcileColumn::Info),
        pair("货代名称", ReconcileColumn::Info),
        pair("金额", ReconcileColumn::Numeric(1000)),
    ];
    assert(columns_view(r@) =~= customs_scheme());
    r
}

/// A scheme whose names are distinct is collected as it is.
pub proof fn lemma_collect_distinct_same(c: ColumnsV)
    requires
        col_names(c).no_duplicates(),
    ensures
        collect_columns(c) == c,
    decreases c.len(),
{
    if c.len() > 0 {
        let d = c.drop_last();
        assert(col_names(d).no_duplicates()) by {
            assert forall|i: int, j: int| 0 <= i < j < col_names(d).len() implies col_names(d)[i] != col_names(d)[j] by {
                assert(col_names(d)[i] == col_names(c)[i]);
                assert(col_names(d)[j] == col_names(c)[j]);
            }
        }
        lemma_collect_distinct_same(d);
        crate::table::lemma_find_name(col_names(d), c.last().0);
        if col_names(d).contains(c.last().0) {
            let k = choose|k: int| 0 <= k < col_names(d).len() && col_names(d)[k] == c.last().0;
            assert(col_names(c)[k] == col_names(c)[c.len() - 1]);
        }
        assert(c =~= d.push(c.last()));
    }
}

/// The freight scheme names each column once.
pub proof fn lemma_freight_scheme_distinct()
    ensures
        col_names(freight_scheme()).no_duplicates(),
        collect_columns(freight_scheme()) == freight_scheme(),
{
    reveal_strlit("运单号");
    reveal_strlit("货件单号");
    reveal_strlit("日期");
    reveal_strlit("物流中心编码");
    reveal_strlit("货代名称");
    reveal_strlit("件数");
    reveal_strlit("单价");
    reveal_strlit("计费重");
    assert("运单号"@.len() != "货件单号"@.len());
    assert("运单号"@.len() != "日期"@.len());
    assert("运单号"@.len() != "物流中心编码"@.len());
    assert("运单号"@.len() != "货代名称"@.len());
    assert("运单号"@.len() != "件数"@.len());
    assert("运单号"@.len() != "单价"@.len());
    assert("运单号"@[0] != "计费重"@[0]);
    assert("货件单号"@.len() != "日期"@.len());
    assert("货件单号"@.len() != "物流中心编码"@.len());
    assert("货件单号"@[1] != "货代名称"@[1]);
    assert("货件单号"@.len() != "件数"@.len());
    assert("货件单号"@.len() != "单价"@.len());
    assert("货件单号"@.len() != "计费重"@.len());
    assert("日期"@.len() != "物流中心编码"@.len());
    assert("日期"@.len() != "货代名称"@.len());
    assert("日期"@[0] != "件数"@[0]);
    assert("日期"@[0] != "单价"@[0]);
    assert("日期"@.len() != "计费重"@.len());
    assert("物流中心编码"@.len() != "货代名称"@.len());
    assert("物流中心编码"@.len() != "件数"@.len());
    assert("物流中心编码"@.len() != "单价"@.len());
    assert("物流中心编码"@.len() != "计费重"@.len());
    assert("货代名称"@.len() != "件数"@.len());
    assert("货代名称"@.len() != "单价"@.len());
    assert("货代名称"@.len() != "计费重"@.len());
    assert("件数"@[0] != "单价"@[0]);
    assert("件数"@.len() != "计费重"@.len());
    assert("单价"@.len() != "计费重"@.len());
    let s = col_names(freight_scheme());
    assert forall|i: int, j: int| 0 <= i < s.len() && 0 <= j < s.len() && i != j implies s[i] != s[j] by {
    }
    lemma_collect_distinct_same(freight_scheme());
}

/// The customs scheme names each column once.
pub proof fn lemma_customs_scheme_distinct()
    ensures
        col_names(customs_scheme()).no_duplicates(),
        collect_columns(customs_scheme()) == customs_scheme(),
{
    reveal_strlit("报关周次");
    reveal_strlit("运单号");
    reveal_strlit("货代名称");
    reveal_strlit("金额");
    assert("报关周次"@.len() != "运单号"@.len());
    assert("报关周次"@[0] != "货代名称"@[0]);
    assert("报关周次"@.len() != "金额"@.len());
    assert("运单号"@.len() != "货代名称"@.len());
    assert("运单号"@.len() != "金额"@.len());
    assert("货代名称"@.len() != "金额"@.len());
    let s = col_names(customs_scheme());
    assert forall|i: int, j: int| 0 <= i < s.len() && 0 <= j < s.len() && i != j implies s[i] != s[j] by {
    }
    lemma_collect_distinct_same(customs_scheme());
}

} // verus!
