//! Building a reconciler: a scheme, then the two named tables.
use super::reconciler::{new_error, Reconciler};
use super::{
    col_names, collect_columns, columns_view, customs_reconcile_columns, customs_scheme,
    freight_reconcile_columns, freight_scheme, lemma_customs_scheme_distinct,
    lemma_freight_scheme_distinct, lemma_upsert_distinct, upsert, ColumnsV,
    ReconcileColumn, ReconcileError, ReconcileErrorV,
};
use crate::table::{find_name, lemma_find_name, Table, TableV};
use crate::text::{owned, str_eq};
use vstd::prelude::*;

verus! {

/// The settings a reconciler is made from.
pub struct ReconcileOption {
    /// The scheme: the method of each column, each name once.
    pub columns: Vec<(String, ReconcileColumn)>,
    /// The name and table of the left side, once given.
    pub left: Option<(String, Table)>,
    /// The name and table of the right side, once given.
    pub right: Option<(String, Table)>,
}

pub open spec fn not_set_left() -> Seq<char> {
    "还未设置左部DataFrame"@
}

pub open spec fn not_set_right() -> Seq<char> {
    "还未设置右部DataFrame"@
}

/// The index of the column named `n`, or the number of columns.
pub fn find_column(cols: &Vec<(String, ReconcileColumn)>, n: &str) -> (r: usize)
    ensures
        r as int == find_name(col_names(columns_view(cols@)), n@),
        r <= cols@.len(),
{
    let ghost names = col_names(columns_view(cols@));
    proof {
        lemma_find_name(names, n@);
    }
    let mut i: usize = 0;
    while i < cols.len()
        invariant
            names == col_names(columns_view(cols@)),
            i <= cols@.len(),
            forall|j: int| 0 <= j < i ==> names[j] != n@,
            0 <= find_name(names, n@) <= names.len(),
            forall|j: int| 0 <= j < find_name(names, n@) ==> names[j] != n@,
            find_name(names, n@) < names.len() ==> names[find_name(names, n@)] == n@,
        decreases cols@.len() - i,
    {
        if str_eq(cols[i].0.as_str(), n) {
            assert(names[i as int] == n@);
            return i;
        }
        i = i + 1;
    }
    i
}

impl ReconcileOption {
    /// The scheme names each column once.
    pub open spec fn wf(&self) -> bool {
        col_names(columns_view(self.columns@)).no_duplicates()
    }

    /// Settings with the scheme `iter`: where a name is given twice, the
    /// last method given wins and the name keeps its first place.
    pub fn new_with_columns(iter: Vec<(String, ReconcileColumn)>) -> (r: Self)
        ensures
            columns_view(r.columns@) == collect_columns(columns_view(iter@)),
            r.left is None,
            r.right is None,
            r.wf(),
    {
        let ghost iv = columns_view(iter@);
        let mut cols: Vec<(String, ReconcileColumn)> = Vec::new();
        let n = iter.len();
        let mut i: usize = 0;
        assert(columns_view(cols@) =~= collect_columns(iv.take(0)));
        while i < n
            invariant
                n == iv.len(),
                iv == columns_view(iter@),
                i <= n,
                columns_view(cols@) == collect_columns(iv.take(i as int)),
                col_names(columns_view(cols@)).no_duplicates(),
            decreases n - i,
        {
            let p = (iter[i].0.clone(), iter[i].1);
            assert(iv.take(i + 1).drop_last() =~= iv.take(i as int));
            assert(iv.take(i + 1).last() == iv[i as int]);
            assert((p.0@, p.1) == iv[i as int]);
            let ghost before = columns_view(cols@);
            proof {
                lemma_upsert_distinct(before, (p.0@, p.1));
            }
            let k = find_column(&cols, p.0.as_str());
            if k < cols.len() {
                cols.set(k, p);
                assert(columns_view(cols@) =~= upsert(before, iv[i as int]));
            } else {
                cols.push(p);
                assert(columns_view(cols@) =~= upsert(before, iv[i as int]));
            }
            i = i + 1;
        }
        assert(iv.take(n as int) =~= iv);
        ReconcileOption { columns: cols, left: None, right: None }
    }

    /// Settings with the scheme of freight reconciliation.
    pub fn freight() -> (r: Self)
        ensures
            columns_view(r.columns@) == freight_scheme(),
            r.left is None,
            r.right is None,
            r.wf(),
    {
        proof {
            lemma_freight_scheme_distinct();
        }
        Self::new_with_columns(freight_reconcile_columns())
    }

    /// Settings with the scheme of customs reconciliation.
    pub fn customs() -> (r: Self)
        ensures
            columns_view(r.columns@) == customs_scheme(),
            r.left is None,
            r.right is None,
            r.wf(),
    {
        proof {
            lemma_customs_scheme_distinct();
        }
        Self::new_with_columns(customs_reconcile_columns())
    }

    /// The settings with `df`, named `name`, as the left table.
    pub fn left(self, df: Table, name: String) -> (r: Self)
        ensures
            r.columns == self.columns,
            r.left == Some((name, df)),
            r.right == self.right,
    {
        ReconcileOption { columns: self.columns, left: Some((name, df)), right: self.right }
    }

    /// The settings with `df`, named `name`, as the right table.
    pub fn right(self, df: Table, name: String) -> (r: Self)
        ensures
            r.columns == self.columns,
            r.left == self.left,
            r.right == Some((name, df)),
    {
        ReconcileOption { columns: self.columns, left: self.left, right: Some((name, df)) }
    }

    /// The reconciler of the settings: an error when a table is missing,
    /// else that of [`Reconciler::new`].
    pub fn try_into_reconciler(self) -> (r: Result<Reconciler, ReconcileError>)
        requires
            self.wf(),
            self.left matches Some(l) ==> l.1@.wf(),
            self.right matches Some(x) ==> x.1@.wf(),
        ensures
            match (self.left, self.right) {
                (None, _) => r matches Err(e) && e@ == ReconcileErrorV::NotSet(not_set_left()),
                (Some(_), None) => r matches Err(e) && e@ == ReconcileErrorV::NotSet(not_set_right()),
                (Some(l), Some(x)) => match r {
                    Ok(rec) => new_error(columns_view(self.columns@), l.1@, x.1@) is None && rec.columns == self.columns
                        && rec.left == l && rec.right == x && rec.result is None && rec.wf(),
                    Err(e) => new_error(columns_view(self.columns@), l.1@, x.1@) == Some(e@),
                },
            },
    {
        let left = match self.left {
            Some(l) => l,
            None => {
                return Err(ReconcileError::NotSet(owned("还未设置左部DataFrame")));
            },
        };
        let right = match self.right {
            Some(x) => x,
            None => {
                return Err(ReconcileError::NotSet(owned("还未设置右部DataFrame")));
            },
        };
        Reconciler::new(self.columns, left, right)
    }
}

} // verus!
