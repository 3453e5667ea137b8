//! Tables: named columns over rows of values.
use crate::value::{copy_row, strs, vals, VVal, Value};
use vstd::prelude::*;

verus! {

/// A table: column names, and rows holding one value per column.
///
/// Where two columns share a name, lookups find the first.
#[derive(Debug)]
pub struct Table {
    pub names: Vec<String>,
    pub rows: Vec<Vec<Value>>,
}

/// The content of a [`Table`].
pub struct TableV {
    pub names: Seq<Seq<char>>,
    pub rows: Seq<Seq<VVal>>,
}

/// The contents of rows.
pub open spec fn rows_view(rows: Seq<Vec<Value>>) -> Seq<Seq<VVal>> {
    rows.map_values(|r: Vec<Value>| vals(r@))
}

impl View for Table {
    type V = TableV;

    open spec fn view(&self) -> TableV {
        TableV { names: strs(self.names@), rows: rows_view(self.rows@) }
    }
}

/// Index of the first name equal to `n`, or `names.len()` when none is.
pub open spec fn find_name(names: Seq<Seq<char>>, n: Seq<char>) -> int
    decreases names.len(),
{
    if names.len() == 0 {
        0
    } else if names[0] == n {
        0
    } else {
        1 + find_name(names.drop_first(), n)
    }
}

pub proof fn lemma_find_name(names: Seq<Seq<char>>, n: Seq<char>)
    ensures
        0 <= find_name(names, n) <= names.len(),
        forall|j: int| 0 <= j < find_name(names, n) ==> names[j] != n,
        find_name(names, n) < names.len() ==> names[find_name(names, n)] == n,
        find_name(names, n) < names.len() <==> names.contains(n),
    decreases names.len(),
{
    if names.len() > 0 && names[0] != n {
        lemma_find_name(names.drop_first(), n);
        assert forall|j: int| 0 <= j < find_name(names, n) implies names[j] != n by {
            if j > 0 {
                assert(names[j] == names.drop_first()[j - 1]);
            }
        }
        if names.drop_first().contains(n) {
            let j = choose|j: int| 0 <= j < names.drop_first().len() && names.drop_first()[j] == n;
            assert(names[j + 1] == n);
        }
        if names.contains(n) {
            let j = choose|j: int| 0 <= j < names.len() && names[j] == n;
            assert(j > 0);
            assert(names.drop_first()[j - 1] == n);
        }
    }
    if names.len() > 0 && names[0] == n {
        assert(names.contains(n));
    }
}

impl TableV {
    /// Every row holds one value per column.
    pub open spec fn wf(self) -> bool {
        forall|i: int| 0 <= i < self.rows.len() ==> #[trigger] self.rows[i].len() == self.names.len()
    }

    /// The index of the column named `n` (the first one), or the number of
    /// columns when there is none.
    pub open spec fn col(self, n: Seq<char>) -> int {
        find_name(self.names, n)
    }

    pub open spec fn has(self, n: Seq<char>) -> bool {
        self.names.contains(n)
    }
}

/// Index of the first name equal to `n`.
pub fn find_index(names: &Vec<String>, n: &str) -> (r: Option<usize>)
    ensures
        match r {
            Some(i) => i as int == find_name(strs(names@), n@) && i < names@.len(),
            None => !strs(names@).contains(n@) && find_name(strs(names@), n@) == names@.len(),
        },
{
    proof {
        lemma_find_name(strs(names@), n@);
    }
    let mut i: usize = 0;
    while i < names.len()
        invariant
            i <= names@.len(),
            forall|j: int| 0 <= j < i ==> strs(names@)[j] != n@,
        decreases names@.len() - i,
    {
        if crate::text::str_eq(names[i].as_str(), n) {
            proof {
                lemma_find_name(strs(names@), n@);
                let k = find_name(strs(names@), n@);
                if k < i {
                    assert(strs(names@)[k] == n@);
                }
                if k > i {
                    assert(strs(names@)[i as int] == n@);
                }
            }
            return Some(i);
        }
        i = i + 1;
    }
    None
}

impl Table {
    /// The index of the column named `n`.
    pub fn column_index(&self, n: &str) -> (r: Option<usize>)
        ensures
            match r {
                Some(i) => i as int == self@.col(n@) && i < self.names@.len(),
                None => !self@.has(n@) && self@.col(n@) == self.names@.len(),
            },
    {
        find_index(&self.names, n)
    }

    /// The number of rows.
    pub fn height(&self) -> (r: usize)
        ensures
            r == self@.rows.len(),
    {
        self.rows.len()
    }

    /// A copy of the table.
    pub fn copy(&self) -> (r: Table)
        ensures
            r@ == self@,
    {
        let names = copy_strings(&self.names);
        let mut rows: Vec<Vec<Value>> = Vec::new();
        let mut i: usize = 0;
        while i < self.rows.len()
            invariant
                i <= self.rows@.len(),
                rows@.len() == i,
                rows_view(rows@) == rows_view(self.rows@.take(i as int)),
            decreases self.rows@.len() - i,
        {
            let ghost old_rows = rows@;
            rows.push(copy_row(&self.rows[i]));
            i = i + 1;
            assert forall|j: int| 0 <= j < i implies #[trigger] rows_view(rows@)[j] == rows_view(self.rows@.take(i as int))[j] by {
                if j < i - 1 {
                    assert(rows@[j] == old_rows[j]);
                    assert(rows_view(old_rows)[j] == rows_view(self.rows@.take(i - 1))[j]);
                }
            }
            assert(rows_view(rows@) =~= rows_view(self.rows@.take(i as int)));
        }
        assert(self.rows@.take(self.rows@.len() as int) =~= self.rows@);
        Table { names, rows }
    }
}

/// A copy of a list of strings.
pub fn copy_strings(v: &Vec<String>) -> (r: Vec<String>)
    ensures
        strs(r@) == strs(v@),
{
    let mut r: Vec<String> = Vec::new();
    let mut i: usize = 0;
    while i < v.len()
        invariant
            i <= v@.len(),
            r@.len() == i,
            strs(r@) == strs(v@.take(i as int)),
        decreases v@.len() - i,
    {
        let ghost old_r = r@;
        r.push(v[i].clone());
        i = i + 1;
        assert forall|j: int| 0 <= j < i implies #[trigger] strs(r@)[j] == strs(v@.take(i as int))[j] by {
            if j < i - 1 {
                assert(r@[j] == old_r[j]);
                assert(strs(old_r)[j] == strs(v@.take(i - 1))[j]);
            }
        }
        assert(strs(r@) =~= strs(v@.take(i as int)));
    }
    assert(v@.take(v@.len() as int) =~= v@);
    r
}

} // verus!
