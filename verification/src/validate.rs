//! Schema validation: columns are cast to their data types and rows are
//! grouped by the primary-key columns, the other columns aggregated.
use crate::table::{find_index, lemma_find_name, Table, TableV};
use crate::text::owned;
use crate::value::DType as D;
use crate::value::{
    cast, cast_spec, copy_row, num_of, row_same, strs, vals, DType, DTypeV, VVal, Value,
};
use vstd::prelude::*;

verus! {

/// How a column is treated when rows are grouped.
#[derive(Debug, Clone, Copy, PartialEq, Eq, Structural)]
pub enum AggOption {
    /// Part of the primary key that rows are grouped by.
    PK,
    /// The first non-null value of the group.
    ByFirst,
    /// The sum of the group's values.
    BySum,
}

/// One column of a schema: its name, data type and aggregation.
pub type SchemaEntry = (String, DType, AggOption);

/// The content of a schema entry.
pub type EntryV = (Seq<char>, DTypeV, AggOption);

/// A table schema: the columns to keep, their types and aggregations.
pub struct DataSchema {
    /// The entries, each column name once.
    pub(crate) entries: Vec<SchemaEntry>,
}

/// The validator of the bill and shipment tables.
pub type SchemaValidator = DataSchema;

pub open spec fn entries_view(e: Seq<SchemaEntry>) -> Seq<EntryV> {
    e.map_values(|x: SchemaEntry| (x.0@, x.1@, x.2))
}

impl View for DataSchema {
    type V = Seq<EntryV>;

    closed spec fn view(&self) -> Seq<EntryV> {
        entries_view(self.entries@)
    }
}

/// The column names of schema entries.
pub open spec fn entry_names(s: Seq<EntryV>) -> Seq<Seq<char>> {
    s.map_values(|e: EntryV| e.0)
}

/// The content of `(name, (type, aggregation))` pairs.
pub open spec fn pairs_entries(p: Seq<(String, (DType, AggOption))>) -> Seq<EntryV> {
    p.map_values(|x: (String, (DType, AggOption))| (x.0@, x.1.0@, x.1.1))
}

/// Entries with `e` added as a map from names adds it: a name already
/// there takes the new type and aggregation in its place; a new name goes
/// at the end.
pub open spec fn upsert_entry(s: Seq<EntryV>, e: EntryV) -> Seq<EntryV> {
    let k = crate::table::find_name(entry_names(s), e.0);
    if k < s.len() {
        s.update(k, e)
    } else {
        s.push(e)
    }
}

/// The entries of a list of pairs, collected as a map from names: the last
/// pair given for a name wins, names keep their first place.
pub open spec fn collect_entries(p: Seq<EntryV>) -> Seq<EntryV>
    decreases p.len(),
{
    if p.len() == 0 {
        seq![]
    } else {
        upsert_entry(collect_entries(p.drop_last()), p.last())
    }
}

/// Adding an entry keeps the names distinct.
pub proof fn lemma_upsert_entry_distinct(s: Seq<EntryV>, e: EntryV)
    requires
        entry_names(s).no_duplicates(),
    ensures
        entry_names(upsert_entry(s, e)).no_duplicates(),
{
    lemma_find_name(entry_names(s), e.0);
    let k = crate::table::find_name(entry_names(s), e.0);
    let u = upsert_entry(s, e);
    if k < s.len() {
        assert(entry_names(u) =~= entry_names(s));
    } else {
        assert(entry_names(u) =~= entry_names(s).push(e.0));
        assert forall|i: int, j: int| 0 <= i < j < entry_names(u).len() implies entry_names(u)[i] != entry_names(u)[j] by {
            if j == s.len() {
                assert(entry_names(s).contains(entry_names(s)[i]));
            }
        }
    }
}

/// A schema collected from pairs names each column once, and holds, for
/// each name given, the last pair given with that name.
pub proof fn lemma_collect_entries(p: Seq<EntryV>)
    ensures
        entry_names(collect_entries(p)).no_duplicates(),
        forall|n: Seq<char>| entry_names(collect_entries(p)).contains(n) <==> entry_names(p).contains(n),
        forall|k: int| 0 <= k < collect_entries(p).len() ==> exists|i: int| 0 <= i < p.len()
            && #[trigger] collect_entries(p)[k] == p[i]
            && forall|j: int| i < j < p.len() ==> p[j].0 != p[i].0,
    decreases p.len(),
{
    if p.len() > 0 {
        let q = p.drop_last();
        let c = collect_entries(q);
        let e = p.last();
        lemma_collect_entries(q);
        lemma_upsert_entry_distinct(c, e);
        lemma_find_name(entry_names(c), e.0);
        let kk = crate::table::find_name(entry_names(c), e.0);
        let u = upsert_entry(c, e);
        assert(u == collect_entries(p));
        assert forall|n: Seq<char>| entry_names(u).contains(n) <==> entry_names(p).contains(n) by {
            if entry_names(u).contains(n) {
                let t = choose|t: int| 0 <= t < entry_names(u).len() && entry_names(u)[t] == n;
                if t == kk || (kk == c.len() && t == c.len()) {
                    assert(entry_names(p)[p.len() - 1] == n);
                } else {
                    assert(entry_names(c)[t] == n);
                    assert(entry_names(c).contains(n));
                    assert(entry_names(q).contains(n));
                    let w = choose|w: int| 0 <= w < entry_names(q).len() && entry_names(q)[w] == n;
                    assert(entry_names(p)[w] == n);
                }
            }
            if entry_names(p).contains(n) {
                let w = choose|w: int| 0 <= w < entry_names(p).len() && entry_names(p)[w] == n;
                if w == p.len() - 1 {
                    if kk < c.len() {
                        assert(entry_names(u)[kk] == n);
                    } else {
                        assert(entry_names(u)[c.len() as int] == n);
                    }
                } else {
                    assert(entry_names(q)[w] == n);
                    assert(entry_names(q).contains(n));
                    assert(entry_names(c).contains(n));
                    let t = choose|t: int| 0 <= t < entry_names(c).len() && entry_names(c)[t] == n;
                    if t == kk {
                        assert(entry_names(u)[t] == n);
                    } else {
                        assert(entry_names(u)[t] == n);
                    }
                }
            }
        }
        assert forall|k: int| 0 <= k < u.len() implies exists|i: int| 0 <= i < p.len()
            && #[trigger] u[k] == p[i]
            && forall|j: int| i < j < p.len() ==> p[j].0 != p[i].0 by {
            if k == kk || k == c.len() {
                assert(u[k] == p[p.len() - 1]);
            } else {
                assert(u[k] == c[k]);
                let i = choose|i: int| 0 <= i < q.len() && #[trigger] c[k] == q[i]
                    && forall|j: int| i < j < q.len() ==> q[j].0 != q[i].0;
                assert(u[k] == p[i]);
                assert(c[k].0 == entry_names(c)[k]);
                assert(entry_names(c)[k] != e.0);
                assert forall|j: int| i < j < p.len() implies p[j].0 != p[i].0 by {
                    if j < q.len() {
                        assert(q[j] == p[j]);
                    }
                }
            }
        }
    }
}

/// Errors of validation.
#[derive(Debug)]
pub enum ValidateError {
    /// The table has no column of this name.
    ColumnNotFound(String),
    /// A column could not be summed: a value is not a number, or a running
    /// sum left the range of the number type.
    Sum,
}

pub enum ValidateErrorV {
    ColumnNotFound(Seq<char>),
    Sum,
}

impl View for ValidateError {
    type V = ValidateErrorV;

    open spec fn view(&self) -> ValidateErrorV {
        match self {
            ValidateError::ColumnNotFound(s) => ValidateErrorV::ColumnNotFound(s@),
            ValidateError::Sum => ValidateErrorV::Sum,
        }
    }
}

pub open spec fn result_view(r: Result<Table, ValidateError>) -> Result<TableV, ValidateErrorV> {
    match r {
        Ok(t) => Ok(t@),
        Err(e) => Err(e@),
    }
}

// ---------------------------------------------------------------------------
// Specification
// ---------------------------------------------------------------------------

/// Index of the first schema column missing from `t`, or the schema length.
pub open spec fn first_missing(schema: Seq<EntryV>, t: TableV) -> int
    decreases schema.len(),
{
    if schema.len() == 0 {
        0
    } else if !t.has(schema[0].0) {
        0
    } else {
        1 + first_missing(schema.drop_first(), t)
    }
}

/// The rows of `t` restricted to the schema's columns, each cast to its type.
pub open spec fn cast_rows(schema: Seq<EntryV>, t: TableV) -> Seq<Seq<VVal>> {
    t.rows.map_values(
        |r: Seq<VVal>|
            Seq::new(schema.len(), |j: int| cast_spec(r[t.col(schema[j].0)], schema[j].1)),
    )
}

/// Positions of the schema's key columns (`pk`) or of its other columns.
pub open spec fn positions(schema: Seq<EntryV>, pk: bool) -> Seq<int>
    decreases schema.len(),
{
    if schema.len() == 0 {
        Seq::empty()
    } else {
        let p = positions(schema.drop_last(), pk);
        if (schema.last().2 == AggOption::PK) == pk {
            p.push(schema.len() - 1)
        } else {
            p
        }
    }
}

/// The key of a row.
pub open spec fn key_of(row: Seq<VVal>, pkp: Seq<int>) -> Seq<VVal> {
    pkp.map_values(|j: int| row[j])
}

/// The distinct keys of `rows`, in the order they first appear.
pub open spec fn group_keys(rows: Seq<Seq<VVal>>, pkp: Seq<int>) -> Seq<Seq<VVal>>
    decreases rows.len(),
{
    if rows.len() == 0 {
        Seq::empty()
    } else {
        let p = group_keys(rows.drop_last(), pkp);
        let k = key_of(rows.last(), pkp);
        if p.contains(k) {
            p
        } else {
            p.push(k)
        }
    }
}

/// The first non-null value in column `a` of the rows with key `k`, or null.
pub open spec fn first_in(rows: Seq<Seq<VVal>>, pkp: Seq<int>, k: Seq<VVal>, a: int) -> VVal
    decreases rows.len(),
{
    if rows.len() == 0 {
        VVal::Null
    } else {
        let p = first_in(rows.drop_last(), pkp, k, a);
        if p is Null && key_of(rows.last(), pkp) == k {
            rows.last()[a]
        } else {
            p
        }
    }
}

pub open spec fn fits_i128(x: int) -> bool {
    i128::MIN <= x <= i128::MAX
}

/// The sum in millionths of the non-null values in column `a` of the rows
/// with key `k`, added in row order; `None` when a value is not a number
/// or a running sum leaves the range of `i128`.
pub open spec fn sum_in(rows: Seq<Seq<VVal>>, pkp: Seq<int>, k: Seq<VVal>, a: int) -> Option<int>
    decreases rows.len(),
{
    if rows.len() == 0 {
        Some(0)
    } else {
        match sum_in(rows.drop_last(), pkp, k, a) {
            None => None,
            Some(p) => if key_of(rows.last(), pkp) == k && !(rows.last()[a] is Null) {
                match num_of(rows.last()[a]) {
                    Some(x) => if fits_i128(p + x) {
                        Some(p + x)
                    } else {
                        None
                    },
                    None => None,
                }
            } else {
                Some(p)
            },
        }
    }
}

/// The aggregate of column `a` over the rows with key `k`.
pub open spec fn agg_val(rows: Seq<Seq<VVal>>, pkp: Seq<int>, k: Seq<VVal>, a: int, o: AggOption) -> Option<VVal> {
    if o == AggOption::BySum {
        match sum_in(rows, pkp, k, a) {
            Some(s) => Some(VVal::Num(s as i128)),
            None => None,
        }
    } else {
        Some(first_in(rows, pkp, k, a))
    }
}

/// The output row of the group with key `k`.
pub open spec fn group_row(schema: Seq<EntryV>, rows: Seq<Seq<VVal>>, k: Seq<VVal>) -> Seq<VVal> {
    let pkp = positions(schema, true);
    let ap = positions(schema, false);
    k + ap.map_values(|a: int| agg_val(rows, pkp, k, a, schema[a].2).unwrap())
}

/// Whether every aggregate of every group is defined.
pub open spec fn sums_ok(schema: Seq<EntryV>, rows: Seq<Seq<VVal>>) -> bool {
    let pkp = positions(schema, true);
    let ap = positions(schema, false);
    forall|g: int, j: int|
        0 <= g < group_keys(rows, pkp).len() && 0 <= j < ap.len() ==> (#[trigger] agg_val(
            rows,
            pkp,
            group_keys(rows, pkp)[g],
            ap[j],
            schema[ap[j]].2,
        )) is Some
}

/// What validating `t` against `schema` gives: the first missing column is
/// an error; otherwise the cast rows are grouped by the key columns, which
/// come first, followed by the aggregates of the other columns; groups
/// appear in the order their keys first appear.
pub open spec fn validate_spec(schema: Seq<EntryV>, t: TableV) -> Result<TableV, ValidateErrorV> {
    let m = first_missing(schema, t);
    if m < schema.len() {
        Err(ValidateErrorV::ColumnNotFound(schema[m].0))
    } else {
        let rows = cast_rows(schema, t);
        let pkp = positions(schema, true);
        let ap = positions(schema, false);
        if sums_ok(schema, rows) {
            Ok(
                TableV {
                    names: pkp.map_values(|j: int| schema[j].0) + ap.map_values(|j: int| schema[j].0),
                    rows: group_keys(rows, pkp).map_values(|k: Seq<VVal>| group_row(schema, rows, k)),
                },
            )
        } else {
            Err(ValidateErrorV::Sum)
        }
    }
}

// ---------------------------------------------------------------------------
// Lemmas
// ---------------------------------------------------------------------------

proof fn lemma_first_missing(schema: Seq<EntryV>, t: TableV)
    ensures
        0 <= first_missing(schema, t) <= schema.len(),
        forall|j: int| 0 <= j < first_missing(schema, t) ==> t.has(#[trigger] schema[j].0),
        first_missing(schema, t) < schema.len() ==> !t.has(schema[first_missing(schema, t)].0),
    decreases schema.len(),
{
    if schema.len() > 0 && t.has(schema[0].0) {
        lemma_first_missing(schema.drop_first(), t);
        assert forall|j: int| 0 <= j < first_missing(schema, t) implies t.has(#[trigger] schema[j].0) by {
            if j > 0 {
                assert(schema[j] == schema.drop_first()[j - 1]);
            }
        }
    }
}

pub proof fn lemma_positions(schema: Seq<EntryV>, pk: bool)
    ensures
        forall|i: int| 0 <= i < positions(schema, pk).len() ==> 0 <= #[trigger] positions(schema, pk)[i] < schema.len(),
        forall|i: int| 0 <= i < positions(schema, pk).len() ==> ((schema[#[trigger] positions(schema, pk)[i]].2 == AggOption::PK) == pk),
        forall|i: int, j: int| 0 <= i < j < positions(schema, pk).len() ==> #[trigger] positions(schema, pk)[i] < #[trigger] positions(schema, pk)[j],
    decreases schema.len(),
{
    if schema.len() > 0 {
        lemma_positions(schema.drop_last(), pk);
        let p = positions(schema.drop_last(), pk);
        assert forall|i: int| 0 <= i < p.len() implies schema[p[i]] == schema.drop_last()[p[i]] by {}
    }
}

/// Extending the rows with a row whose key is already a group leaves the
/// groups as they are; a new key is appended.
proof fn lemma_group_keys_contains(rows: Seq<Seq<VVal>>, pkp: Seq<int>, k: Seq<VVal>)
    ensures
        group_keys(rows, pkp).contains(k) <==> exists|i: int| 0 <= i < rows.len() && key_of(#[trigger] rows[i], pkp) == k,
    decreases rows.len(),
{
    if rows.len() > 0 {
        let d = rows.drop_last();
        let p = group_keys(d, pkp);
        let kk = key_of(rows.last(), pkp);
        lemma_group_keys_contains(d, pkp, k);
        if !p.contains(kk) {
            assert(p.push(kk)[p.len() as int] == kk);
        }
        assert(group_keys(rows, pkp).contains(kk));
        if group_keys(rows, pkp).contains(k) {
            if p.contains(k) {
                let i = choose|i: int| 0 <= i < d.len() && key_of(#[trigger] d[i], pkp) == k;
                assert(rows[i] == d[i]);
            } else {
                let h = choose|h: int| 0 <= h < group_keys(rows, pkp).len() && group_keys(rows, pkp)[h] == k;
                if h < p.len() {
                    assert(p[h] == k);
                }
                assert(k == kk);
                assert(key_of(rows[rows.len() - 1], pkp) == k);
            }
        }
        if exists|i: int| 0 <= i < rows.len() && key_of(#[trigger] rows[i], pkp) == k {
            let i = choose|i: int| 0 <= i < rows.len() && key_of(#[trigger] rows[i], pkp) == k;
            if i < rows.len() - 1 {
                assert(d[i] == rows[i]);
                assert(p.contains(k));
                let h = choose|h: int| 0 <= h < p.len() && p[h] == k;
                if !p.contains(kk) {
                    assert(p.push(kk)[h] == k);
                }
            } else {
                assert(k == kk);
            }
        }
    }
}

proof fn lemma_group_keys_distinct(rows: Seq<Seq<VVal>>, pkp: Seq<int>)
    ensures
        group_keys(rows, pkp).no_duplicates(),
    decreases rows.len(),
{
    if rows.len() > 0 {
        lemma_group_keys_distinct(rows.drop_last(), pkp);
    }
}

/// A key that no row has: its first value is null and its sums are zero.
proof fn lemma_absent_key(rows: Seq<Seq<VVal>>, pkp: Seq<int>, k: Seq<VVal>, a: int)
    requires
        forall|i: int| 0 <= i < rows.len() ==> key_of(#[trigger] rows[i], pkp) != k,
    ensures
        first_in(rows, pkp, k, a) is Null,
        sum_in(rows, pkp, k, a) == Some(0int),
    decreases rows.len(),
{
    if rows.len() > 0 {
        let d = rows.drop_last();
        assert forall|i: int| 0 <= i < d.len() implies key_of(#[trigger] d[i], pkp) != k by {
            assert(d[i] == rows[i]);
        }
        lemma_absent_key(d, pkp, k, a);
        assert(key_of(rows[rows.len() - 1], pkp) != k);
    }
}

/// One more row: how the first value and the sum of a group change.
proof fn lemma_step(rows: Seq<Seq<VVal>>, pkp: Seq<int>, k: Seq<VVal>, a: int, i: int)
    requires
        0 <= i < rows.len(),
    ensures
        first_in(rows.take(i + 1), pkp, k, a) == (if first_in(rows.take(i), pkp, k, a) is Null && key_of(rows[i], pkp) == k {
            rows[i][a]
        } else {
            first_in(rows.take(i), pkp, k, a)
        }),
        sum_in(rows.take(i + 1), pkp, k, a) == (match sum_in(rows.take(i), pkp, k, a) {
            None => None,
            Some(p) => if key_of(rows[i], pkp) == k && !(rows[i][a] is Null) {
                match num_of(rows[i][a]) {
                    Some(x) => if fits_i128(p + x) {
                        Some(p + x)
                    } else {
                        None
                    },
                    None => None,
                }
            } else {
                Some(p)
            },
        }),
{
    assert(rows.take(i + 1).drop_last() =~= rows.take(i));
    assert(rows.take(i + 1).last() == rows[i]);
}

/// A defined sum fits the number type.
proof fn lemma_sum_fits(rows: Seq<Seq<VVal>>, pkp: Seq<int>, k: Seq<VVal>, a: int)
    ensures
        sum_in(rows, pkp, k, a) matches Some(s) ==> fits_i128(s),
    decreases rows.len(),
{
    if rows.len() > 0 {
        lemma_sum_fits(rows.drop_last(), pkp, k, a);
    }
}

/// A failed sum stays failed when more rows follow.
proof fn lemma_sum_sticky(rows: Seq<Seq<VVal>>, pkp: Seq<int>, k: Seq<VVal>, a: int, i: int)
    requires
        0 <= i <= rows.len(),
        sum_in(rows.take(i), pkp, k, a) is None,
    ensures
        sum_in(rows, pkp, k, a) is None,
    decreases rows.len() - i,
{
    if i < rows.len() {
        assert(rows.take(i + 1).drop_last() =~= rows.take(i));
        lemma_sum_sticky(rows, pkp, k, a, i + 1);
    } else {
        assert(rows.take(i) =~= rows);
    }
}

// ---------------------------------------------------------------------------
// Implementation
// ---------------------------------------------------------------------------

impl DataSchema {
    /// Each column name occurs once.
    #[verifier::type_invariant]
    spec fn names_distinct(self) -> bool {
        entry_names(self@).no_duplicates()
    }

    /// A schema built from `(name, (type, aggregation))` pairs, as a map
    /// from names: where a name is given twice, the last pair given wins
    /// and the name keeps its first place.
    pub fn from_iter(iter: Vec<(String, (DType, AggOption))>) -> (r: DataSchema)
        ensures
            r@ == collect_entries(pairs_entries(iter@)),
            entry_names(r@).no_duplicates(),
    {
        let ghost iv = pairs_entries(iter@);
        let mut entries: Vec<SchemaEntry> = Vec::new();
        let n = iter.len();
        let mut i: usize = 0;
        assert(entries_view(entries@) =~= collect_entries(iv.take(0)));
        while i < n
            invariant
                n == iv.len(),
                iv == pairs_entries(iter@),
                i <= n,
                entries_view(entries@) == collect_entries(iv.take(i as int)),
                entry_names(entries_view(entries@)).no_duplicates(),
            decreases n - i,
        {
            let p: SchemaEntry = (iter[i].0.clone(), iter[i].1.0.copy(), iter[i].1.1);
            assert(iv.take(i + 1).drop_last() =~= iv.take(i as int));
            assert(iv.take(i + 1).last() == iv[i as int]);
            assert((p.0@, p.1@, p.2) == iv[i as int]);
            let ghost before = entries_view(entries@);
            proof {
                lemma_upsert_entry_distinct(before, iv[i as int]);
                lemma_find_name(entry_names(before), p.0@);
            }
            let mut k: usize = 0;
            while k < entries.len() && !crate::text::str_eq(entries[k].0.as_str(), p.0.as_str())
                invariant
                    before == entries_view(entries@),
                    k <= entries@.len(),
                    forall|j: int| 0 <= j < k ==> entry_names(before)[j] != p.0@,
                decreases entries@.len() - k,
            {
                assert(entry_names(before)[k as int] == entries@[k as int].0@);
                k = k + 1;
            }
            proof {
                if k < entries@.len() {
                    assert(entry_names(before)[k as int] == entries@[k as int].0@);
                }
            }
            if k < entries.len() {
                entries.set(k, p);
            } else {
                entries.push(p);
            }
            assert(entries_view(entries@) =~= upsert_entry(before, iv[i as int]));
            i = i + 1;
        }
        assert(iv.take(n as int) =~= iv);
        DataSchema { entries }
    }

    /// The name and data type of each column, in schema order.
    pub fn dtypes(&self) -> (r: Vec<(String, DType)>)
        ensures
            r@.len() == self@.len(),
            entry_names(self@).no_duplicates(),
            forall|i: int| 0 <= i < r@.len() ==> (#[trigger] r@[i]).0@ == self@[i].0 && r@[i].1@ == self@[i].1,
    {
        proof {
            use_type_invariant(self);
        }
        let mut r: Vec<(String, DType)> = Vec::new();
        let mut i: usize = 0;
        while i < self.entries.len()
            invariant
                i <= self.entries@.len(),
                r@.len() == i,
                forall|j: int| 0 <= j < i ==> (#[trigger] r@[j]).0@ == self@[j].0 && r@[j].1@ == self@[j].1,
            decreases self.entries@.len() - i,
        {
            let e = &self.entries[i];
            r.push((e.0.clone(), e.1.copy()));
            i = i + 1;
        }
        r
    }

    /// The name and aggregation of each column, in schema order.
    pub fn agg_options(&self) -> (r: Vec<(String, AggOption)>)
        ensures
            r@.len() == self@.len(),
            entry_names(self@).no_duplicates(),
            forall|i: int| 0 <= i < r@.len() ==> (#[trigger] r@[i]).0@ == self@[i].0 && r@[i].1 == self@[i].2,
    {
        proof {
            use_type_invariant(self);
        }
        let mut r: Vec<(String, AggOption)> = Vec::new();
        let mut i: usize = 0;
        while i < self.entries.len()
            invariant
                i <= self.entries@.len(),
                r@.len() == i,
                forall|j: int| 0 <= j < i ==> (#[trigger] r@[j]).0@ == self@[j].0 && r@[j].1 == self@[j].2,
            decreases self.entries@.len() - i,
        {
            let e = &self.entries[i];
            r.push((e.0.clone(), e.2));
            i = i + 1;
        }
        r
    }

    /// The index in `df` of each schema column, or the first one missing.
    fn column_indices(&self, df: &Table) -> (r: Result<Vec<usize>, ValidateError>)
        ensures
            match r {
                Ok(ix) => first_missing(self@, df@) == self@.len() && ix@.len() == self@.len()
                    && forall|j: int| 0 <= j < ix@.len() ==> (#[trigger] ix@[j]) as int == df@.col(self@[j].0) && ix@[j] < df@.names.len(),
                Err(e) => first_missing(self@, df@) < self@.len() && e@ == ValidateErrorV::ColumnNotFound(self@[first_missing(self@, df@)].0),
            },
    {
        proof {
            lemma_first_missing(self@, df@);
        }
        let mut ix: Vec<usize> = Vec::new();
        let mut j: usize = 0;
        while j < self.entries.len()
            invariant
                j <= self.entries@.len(),
                ix@.len() == j,
                forall|t: int| 0 <= t < j ==> df@.has(#[trigger] self@[t].0),
                forall|t: int| 0 <= t < j ==> (#[trigger] ix@[t]) as int == df@.col(self@[t].0) && ix@[t] < df@.names.len(),
                0 <= first_missing(self@, df@) <= self@.len(),
                forall|t: int| 0 <= t < first_missing(self@, df@) ==> df@.has(#[trigger] self@[t].0),
                first_missing(self@, df@) < self@.len() ==> !df@.has(self@[first_missing(self@, df@)].0),
            decreases self.entries@.len() - j,
        {
            assert(self@[j as int].0 == self.entries@[j as int].0@);
            match find_index(&df.names, self.entries[j].0.as_str()) {
                Some(k) => {
                    proof {
                        lemma_find_name(df@.names, self@[j as int].0);
                    }
                    ix.push(k);
                },
                None => {
                    proof {
                        let m = first_missing(self@, df@);
                        if m > j {
                            assert(df@.has(self@[j as int].0));
                        }
                        if m < j {
                            assert(df@.has(self@[m].0));
                        }
                    }
                    return Err(ValidateError::ColumnNotFound(self.entries[j].0.clone()));
                },
            }
            j = j + 1;
        }
        proof {
            let m = first_missing(self@, df@);
            if m < self@.len() {
                assert(df@.has(self@[m].0));
            }
        }
        Ok(ix)
    }

    /// The rows of `df` cast to the schema (see [`cast_rows`]).
    fn cast_table(&self, df: &Table, ix: &Vec<usize>) -> (r: Vec<Vec<Value>>)
        requires
            df@.wf(),
            ix@.len() == self@.len(),
            forall|j: int| 0 <= j < ix@.len() ==> (#[trigger] ix@[j]) as int == df@.col(self@[j].0) && ix@[j] < df@.names.len(),
        ensures
            crate::table::rows_view(r@) == cast_rows(self@, df@),
            forall|i: int| 0 <= i < r@.len() ==> (#[trigger] r@[i])@.len() == self@.len(),
    {
        let mut out: Vec<Vec<Value>> = Vec::new();
        let mut i: usize = 0;
        while i < df.rows.len()
            invariant
                df@.wf(),
                ix@.len() == self@.len(),
                forall|j: int| 0 <= j < ix@.len() ==> (#[trigger] ix@[j]) as int == df@.col(self@[j].0) && ix@[j] < df@.names.len(),
                i <= df.rows@.len(),
                out@.len() == i,
                forall|t: int| 0 <= t < i ==> #[trigger] vals(out@[t]@) == cast_rows(self@, df@)[t],
                forall|t: int| 0 <= t < i ==> (#[trigger] out@[t])@.len() == self@.len(),
            decreases df.rows@.len() - i,
        {
            let row = &df.rows[i];
            assert(vals(row@) == df@.rows[i as int]);
            assert(df@.rows[i as int].len() == df@.names.len());
            let mut nr: Vec<Value> = Vec::new();
            let mut j: usize = 0;
            while j < ix.len()
                invariant
                    ix@.len() == self@.len(),
                    forall|j: int| 0 <= j < ix@.len() ==> (#[trigger] ix@[j]) as int == df@.col(self@[j].0) && ix@[j] < df@.names.len(),
                    vals(row@) == df@.rows[i as int],
                    row@.len() == df@.names.len(),
                    j <= ix@.len(),
                    nr@.len() == j,
                    forall|t: int| 0 <= t < j ==> (#[trigger] nr@[t])@ == cast_spec(df@.rows[i as int][df@.col(self@[t].0)], self@[t].1),
                decreases ix@.len() - j,
            {
                let e = &self.entries[j];
                assert(e.1@ == self@[j as int].1);
                let v = cast(&row[ix[j]], &e.1);
                assert(row@[ix@[j as int] as int]@ == vals(row@)[ix@[j as int] as int]);
                nr.push(v);
                j = j + 1;
            }
            assert(vals(nr@) =~= cast_rows(self@, df@)[i as int]);
            out.push(nr);
            i = i + 1;
        }
        assert(crate::table::rows_view(out@) =~= cast_rows(self@, df@));
        out
    }

    /// Validates a table against the schema (see [`validate_spec`]).
    pub fn validate(&self, df: Table) -> (r: Result<Table, ValidateError>)
        requires
            df@.wf(),
        ensures
            result_view(r) == validate_spec(self@, df@),
    {
        let ix = match self.column_indices(&df) {
            Ok(ix) => ix,
            Err(e) => {
                return Err(e);
            },
        };
        let rows = self.cast_table(&df, &ix);
        let ghost cr = cast_rows(self@, df@);
        // key and aggregate positions
        let mut pkp: Vec<usize> = Vec::new();
        let mut ap: Vec<usize> = Vec::new();
        let mut names: Vec<String> = Vec::new();
        let mut anames: Vec<String> = Vec::new();
        let mut j: usize = 0;
        while j < self.entries.len()
            invariant
                j <= self.entries@.len(),
                pkp@.map_values(|x: usize| x as int) == positions(self@.take(j as int), true),
                ap@.map_values(|x: usize| x as int) == positions(self@.take(j as int), false),
                strs(names@) == positions(self@.take(j as int), true).map_values(|t: int| self@[t].0),
                strs(anames@) == positions(self@.take(j as int), false).map_values(|t: int| self@[t].0),
            decreases self.entries@.len() - j,
        {
            assert(self@.take(j + 1).drop_last() =~= self@.take(j as int));
            assert(self@.take(j + 1).last() == self@[j as int]);
            let e = &self.entries[j];
            assert(e.0@ == self@[j as int].0 && e.2 == self@[j as int].2);
            let ghost on = strs(names@);
            let ghost oa = strs(anames@);
            if e.2 == AggOption::PK {
                pkp.push(j);
                names.push(e.0.clone());
            } else {
                ap.push(j);
                anames.push(e.0.clone());
            }
            j = j + 1;
            if e.2 == AggOption::PK {
                assert(strs(names@) =~= on.push(e.0@));
                assert(strs(anames@) =~= oa);
            } else {
                assert(strs(anames@) =~= oa.push(e.0@));
                assert(strs(names@) =~= on);
            }
            assert(pkp@.map_values(|x: usize| x as int) =~= positions(self@.take(j as int), true));
            assert(ap@.map_values(|x: usize| x as int) =~= positions(self@.take(j as int), false));
            assert(strs(names@) =~= positions(self@.take(j as int), true).map_values(|t: int| self@[t].0));
            assert(strs(anames@) =~= positions(self@.take(j as int), false).map_values(|t: int| self@[t].0));
        }
        assert(self@.take(self@.len() as int) =~= self@);
        let ghost pk = positions(self@, true);
        let ghost agp = positions(self@, false);
        proof {
            lemma_positions(self@, true);
            lemma_positions(self@, false);
        }
        match group_rows(self, &rows, &pkp, &ap) {
            Some(out) => {
                let mut i: usize = 0;
                while i < anames.len()
                    invariant
                        i <= anames@.len(),
                        strs(names@) == pk.map_values(|t: int| self@[t].0) + strs(anames@).take(i as int),
                    decreases anames@.len() - i,
                {
                    let ghost on = strs(names@);
                    names.push(anames[i].clone());
                    assert(strs(names@) =~= on.push(strs(anames@)[i as int]));
                    assert(strs(anames@).take(i + 1) =~= strs(anames@).take(i as int).push(strs(anames@)[i as int]));
                    i = i + 1;
                    assert(strs(names@) =~= pk.map_values(|t: int| self@[t].0) + strs(anames@).take(i as int));
                }
                assert(strs(anames@).take(anames@.len() as int) =~= strs(anames@));
                Ok(Table { names, rows: out })
            },
            None => Err(ValidateError::Sum),
        }
    }
}

/// Groups cast rows by key: the rows of [`validate_spec`], or `None` when a
/// sum is undefined.
fn group_rows(schema: &DataSchema, rows: &Vec<Vec<Value>>, pkp: &Vec<usize>, ap: &Vec<usize>) -> (r: Option<Vec<Vec<Value>>>)
    requires
        forall|i: int| 0 <= i < rows@.len() ==> (#[trigger] rows@[i])@.len() == schema@.len(),
        pkp@.map_values(|x: usize| x as int) == positions(schema@, true),
        ap@.map_values(|x: usize| x as int) == positions(schema@, false),
    ensures
        match r {
            Some(out) => sums_ok(schema@, crate::table::rows_view(rows@)) && crate::table::rows_view(out@)
                == group_keys(crate::table::rows_view(rows@), positions(schema@, true)).map_values(
                |k: Seq<VVal>| group_row(schema@, crate::table::rows_view(rows@), k),
            ),
            None => !sums_ok(schema@, crate::table::rows_view(rows@)),
        },
{
    let ghost rv = crate::table::rows_view(rows@);
    let ghost pk = positions(schema@, true);
    let ghost agp = positions(schema@, false);
    proof {
        lemma_positions(schema@, true);
        lemma_positions(schema@, false);
    }
    assert(pkp@.len() == pk.len());
    assert(ap@.len() == agp.len());
    assert forall|t: int| 0 <= t < pkp@.len() implies (#[trigger] pkp@[t]) as int == pk[t] by {
        assert(pkp@.map_values(|x: usize| x as int)[t] == pk[t]);
    }
    assert forall|t: int| 0 <= t < ap@.len() implies (#[trigger] ap@[t]) as int == agp[t] by {
        assert(ap@.map_values(|x: usize| x as int)[t] == agp[t]);
    }
    let mut keys: Vec<Vec<Value>> = Vec::new();
    let mut accs: Vec<Vec<Value>> = Vec::new();
    let mut i: usize = 0;
    while i < rows.len()
        invariant
            rv == crate::table::rows_view(rows@),
            forall|i: int| 0 <= i < rows@.len() ==> (#[trigger] rows@[i])@.len() == schema@.len(),
            pk == positions(schema@, true),
            agp == positions(schema@, false),
            pkp@.len() == pk.len(),
            ap@.len() == agp.len(),
            forall|t: int| 0 <= t < pkp@.len() ==> (#[trigger] pkp@[t]) as int == pk[t],
            forall|t: int| 0 <= t < ap@.len() ==> (#[trigger] ap@[t]) as int == agp[t],
            forall|t: int| 0 <= t < pk.len() ==> 0 <= #[trigger] pk[t] < schema@.len(),
            forall|t: int| 0 <= t < agp.len() ==> 0 <= #[trigger] agp[t] < schema@.len(),
            i <= rows@.len(),
            keys@.len() == accs@.len(),
            crate::table::rows_view(keys@) == group_keys(rv.take(i as int), pk),
            forall|g: int| 0 <= g < accs@.len() ==> (#[trigger] accs@[g])@.len() == agp.len(),
            forall|g: int, t: int| 0 <= g < accs@.len() && 0 <= t < agp.len() ==> agg_val(rv.take(i as int), pk, group_keys(rv.take(i as int), pk)[g], agp[t], schema@[agp[t]].2) == Some(#[trigger] accs@[g]@[t]@),
        decreases rows@.len() - i,
    {
        let row = &rows[i];
        assert(vals(row@) == rv[i as int]);
        // the row's key
        let mut key: Vec<Value> = Vec::new();
        let mut t: usize = 0;
        while t < pkp.len()
            invariant
                forall|t: int| 0 <= t < pkp@.len() ==> (#[trigger] pkp@[t]) as int == pk[t],
                forall|t: int| 0 <= t < pk.len() ==> 0 <= #[trigger] pk[t] < schema@.len(),
                pkp@.len() == pk.len(),
                row@.len() == schema@.len(),
                vals(row@) == rv[i as int],
                t <= pkp@.len(),
                key@.len() == t,
                forall|u: int| 0 <= u < t ==> (#[trigger] key@[u])@ == rv[i as int][pk[u]],
            decreases pkp@.len() - t,
        {
            key.push(row[pkp[t]].copy());
            t = t + 1;
        }
        let ghost k = key_of(rv[i as int], pk);
        assert(vals(key@) =~= k);
        // find its group
        let mut g: usize = 0;
        while g < keys.len() && !row_same(&keys[g], &key)
            invariant
                g <= keys@.len(),
                forall|h: int| 0 <= h < g ==> vals(#[trigger] keys@[h]@) != vals(key@),
            decreases keys@.len() - g,
        {
            g = g + 1;
        }
        let ghost gk = group_keys(rv.take(i as int), pk);
        let ghost gk1 = group_keys(rv.take(i + 1), pk);
        assert(rv.take(i + 1).drop_last() =~= rv.take(i as int));
        assert(rv.take(i + 1).last() == rv[i as int]);
        assert(gk.len() == keys@.len());
        if g == keys.len() {
            // a new group
            assert(!gk.contains(k)) by {
                if gk.contains(k) {
                    let h = choose|h: int| 0 <= h < gk.len() && gk[h] == k;
                    assert(crate::table::rows_view(keys@)[h] == vals(keys@[h]@));
                }
            }
            assert(gk1 == gk.push(k));
            proof {
                lemma_group_keys_contains(rv.take(i as int), pk, k);
                assert forall|a: int| 0 <= a < rv.take(i as int).len() implies key_of(#[trigger] rv.take(i as int)[a], pk) != k by {}
                assert forall|t: int| 0 <= t < agp.len() implies #[trigger] first_in(rv.take(i as int), pk, k, agp[t]) is Null && sum_in(rv.take(i as int), pk, k, agp[t]) == Some(0int) by {
                    lemma_absent_key(rv.take(i as int), pk, k, agp[t]);
                }
            }
            let mut acc: Vec<Value> = Vec::new();
            let mut t: usize = 0;
            while t < ap.len()
                invariant
                    forall|t: int| 0 <= t < ap@.len() ==> (#[trigger] ap@[t]) as int == agp[t],
                    forall|t: int| 0 <= t < agp.len() ==> 0 <= #[trigger] agp[t] < schema@.len(),
                    ap@.len() == agp.len(),
                    row@.len() == schema@.len(),
                    vals(row@) == rv[i as int],
                    t <= ap@.len(),
                    acc@.len() == t,
                    forall|u: int| 0 <= u < t ==> agg_val(rv.take(i + 1), pk, k, agp[u], schema@[agp[u]].2) == Some(#[trigger] acc@[u]@),
                    forall|t: int| 0 <= t < agp.len() ==> #[trigger] first_in(rv.take(i as int), pk, k, agp[t]) is Null && sum_in(rv.take(i as int), pk, k, agp[t]) == Some(0int),
                    rv.len() == rows@.len(),
                    i < rows@.len(),
                    rv == crate::table::rows_view(rows@),
                    pk == positions(schema@, true),
                    agp == positions(schema@, false),
                    rv.take(i + 1).drop_last() == rv.take(i as int),
                    rv.take(i + 1).last() == rv[i as int],
                    key_of(rv[i as int], pk) == k,
                decreases ap@.len() - t,
            {
                let a = ap[t];
                let v = &row[a];
                let ghost old_acc = acc@;
                assert(v@ == rv[i as int][agp[t as int]]);
                proof {
                    lemma_step(rv, pk, k, agp[t as int], i as int);
                }
                if schema.entries[a].2 == AggOption::BySum {
                    assert(schema@[agp[t as int]].2 == AggOption::BySum);
                    if v.is_null() {
                        acc.push(Value::Num(0));
                    } else {
                        match crate::value::numeric(v) {
                            Some(x) => {
                                acc.push(Value::Num(x));
                            },
                            None => {
                                proof {
                                    lemma_sum_sticky(rv, pk, k, agp[t as int], i + 1);
                                    lemma_group_keys_contains(rv, pk, k);
                                    assert(rv.take(i + 1)[i as int] == rv[i as int]);
                                    assert(rv[i as int] == rv.take(i + 1)[i as int]);
                                    assert(group_keys(rv, pk).contains(k)) by {
                                        assert(key_of(rv[i as int], pk) == k);
                                    }
                                    let h = choose|h: int| 0 <= h < group_keys(rv, pk).len() && group_keys(rv, pk)[h] == k;
                                    assert(agg_val(rv, pk, group_keys(rv, pk)[h], agp[t as int], schema@[agp[t as int]].2) is None);
                                }
                                return None;
                            },
                        }
                    }
                } else {
                    acc.push(v.copy());
                }
                assert forall|u: int| 0 <= u < t + 1 implies agg_val(rv.take(i + 1), pk, k, agp[u], schema@[agp[u]].2) == Some(#[trigger] acc@[u]@) by {
                    if u < t {
                        assert(acc@[u] == old_acc[u]);
                    }
                }
                t = t + 1;
            }
            keys.push(key);
            accs.push(acc);
            proof {
                assert(crate::table::rows_view(keys@) =~= gk1);
                assert forall|h: int, t: int| 0 <= h < accs@.len() && 0 <= t < agp.len() implies agg_val(rv.take(i + 1), pk, gk1[h], agp[t], schema@[agp[t]].2) == Some(#[trigger] accs@[h]@[t]@) by {
                    if h < accs@.len() - 1 {
                        assert(gk1[h] == gk[h]);
                        assert(gk[h] != k) by {
                            lemma_group_keys_distinct(rv.take(i + 1), pk);
                        }
                    }
                }
            }
        } else {
            // an existing group
            assert(gk[g as int] == k) by {
                assert(crate::table::rows_view(keys@)[g as int] == vals(keys@[g as int]@));
            }
            assert(gk.contains(k));
            assert(gk1 == gk);
            let ghost accs_before = accs@;
            let mut acc = accs.remove(g);
            let mut t: usize = 0;
            let ghost old_acc = acc@;
            assert(acc == accs_before[g as int]);
            assert forall|u: int| 0 <= u < agp.len() implies agg_val(rv.take(i as int), pk, k, agp[u], schema@[agp[u]].2) == Some(#[trigger] old_acc[u]@) by {
                assert(accs_before[g as int]@[u] == old_acc[u]);
                assert(agg_val(rv.take(i as int), pk, gk[g as int], agp[u], schema@[agp[u]].2) == Some(accs_before[g as int]@[u]@));
            }
            while t < ap.len()
                invariant
                    forall|t: int| 0 <= t < ap@.len() ==> (#[trigger] ap@[t]) as int == agp[t],
                    forall|t: int| 0 <= t < agp.len() ==> 0 <= #[trigger] agp[t] < schema@.len(),
                    ap@.len() == agp.len(),
                    row@.len() == schema@.len(),
                    vals(row@) == rv[i as int],
                    t <= ap@.len(),
                    acc@.len() == agp.len(),
                    old_acc.len() == agp.len(),
                    forall|u: int| 0 <= u < t ==> agg_val(rv.take(i + 1), pk, k, agp[u], schema@[agp[u]].2) == Some(#[trigger] acc@[u]@),
                    forall|u: int| t <= u < agp.len() ==> #[trigger] acc@[u] == old_acc[u],
                    forall|u: int| 0 <= u < agp.len() ==> agg_val(rv.take(i as int), pk, k, agp[u], schema@[agp[u]].2) == Some(#[trigger] old_acc[u]@),
                    rv.len() == rows@.len(),
                    i < rows@.len(),
                    rv == crate::table::rows_view(rows@),
                    pk == positions(schema@, true),
                    agp == positions(schema@, false),
                    rv.take(i + 1).drop_last() == rv.take(i as int),
                    rv.take(i + 1).last() == rv[i as int],
                    key_of(rv[i as int], pk) == k,
                decreases ap@.len() - t,
            {
                let a = ap[t];
                let v = &row[a];
                assert(v@ == rv[i as int][agp[t as int]]);
                assert(acc@[t as int] == old_acc[t as int]);
                let ghost prev = acc@;
                proof {
                    lemma_step(rv, pk, k, agp[t as int], i as int);
                }
                if schema.entries[a].2 == AggOption::BySum {
                    assert(schema@[agp[t as int]].2 == AggOption::BySum);
                    if !v.is_null() {
                        proof {
                            lemma_sum_fits(rv.take(i as int), pk, k, agp[t as int]);
                        }
                        let cur = match &acc[t] {
                            Value::Num(c) => *c,
                            _ => 0,
                        };
                        let ghost p = sum_in(rv.take(i as int), pk, k, agp[t as int]);
                        assert(agg_val(rv.take(i as int), pk, k, agp[t as int], schema@[agp[t as int]].2) == Some(old_acc[t as int]@));
                        assert(p is Some);
                        assert(old_acc[t as int]@ == VVal::Num(p.unwrap() as i128));
                        assert(acc@[t as int]@ == VVal::Num(p.unwrap() as i128));
                        assert(cur as int == p.unwrap());
                        match crate::value::numeric(v) {
                            Some(x) => {
                                match cur.checked_add(x) {
                                    Some(s) => {
                                        acc.set(t, Value::Num(s));
                                    },
                                    None => {
                                        proof {
                                            lemma_sum_sticky(rv, pk, k, agp[t as int], i + 1);
                                            lemma_group_keys_contains(rv, pk, k);
                                            assert(group_keys(rv, pk).contains(k)) by {
                                                assert(key_of(rv[i as int], pk) == k);
                                            }
                                            let h = choose|h: int| 0 <= h < group_keys(rv, pk).len() && group_keys(rv, pk)[h] == k;
                                            assert(agg_val(rv, pk, group_keys(rv, pk)[h], agp[t as int], schema@[agp[t as int]].2) is None);
                                        }
                                        return None;
                                    },
                                }
                            },
                            None => {
                                proof {
                                    lemma_sum_sticky(rv, pk, k, agp[t as int], i + 1);
                                    lemma_group_keys_contains(rv, pk, k);
                                    assert(group_keys(rv, pk).contains(k)) by {
                                        assert(key_of(rv[i as int], pk) == k);
                                    }
                                    let h = choose|h: int| 0 <= h < group_keys(rv, pk).len() && group_keys(rv, pk)[h] == k;
                                    assert(agg_val(rv, pk, group_keys(rv, pk)[h], agp[t as int], schema@[agp[t as int]].2) is None);
                                }
                                return None;
                            },
                        }
                    }
                } else {
                    if acc[t].is_null() {
                        acc.set(t, v.copy());
                    }
                }
                assert forall|u: int| 0 <= u < t + 1 implies agg_val(rv.take(i + 1), pk, k, agp[u], schema@[agp[u]].2) == Some(#[trigger] acc@[u]@) by {
                    if u < t {
                        assert(acc@[u] == prev[u]);
                    }
                }
                assert forall|u: int| t + 1 <= u < agp.len() implies #[trigger] acc@[u] == old_acc[u] by {
                    assert(acc@[u] == prev[u]);
                }
                t = t + 1;
            }
            accs.insert(g, acc);
            proof {
                assert forall|h: int, t: int| 0 <= h < accs@.len() && 0 <= t < agp.len() implies agg_val(rv.take(i + 1), pk, gk1[h], agp[t], schema@[agp[t]].2) == Some(#[trigger] accs@[h]@[t]@) by {
                    if h != g {
                        assert(gk[h] != k) by {
                            lemma_group_keys_distinct(rv.take(i as int), pk);
                        }
                    }
                }
            }
        }
        i = i + 1;
    }
    assert(rv.take(rows@.len() as int) =~= rv);
    // assemble the output rows
    let ghost gks = group_keys(rv, pk);
    let mut out: Vec<Vec<Value>> = Vec::new();
    let mut h: usize = 0;
    while h < keys.len()
        invariant
            h <= keys@.len(),
            keys@.len() == accs@.len(),
            crate::table::rows_view(keys@) == gks,
            out@.len() == h,
            forall|x: int| 0 <= x < h ==> vals(#[trigger] out@[x]@) == group_row(schema@, rv, gks[x]),
            forall|g: int, t: int| 0 <= g < accs@.len() && 0 <= t < agp.len() ==> agg_val(rv, pk, gks[g], agp[t], schema@[agp[t]].2) == Some(#[trigger] accs@[g]@[t]@),
            forall|g: int| 0 <= g < accs@.len() ==> (#[trigger] accs@[g])@.len() == agp.len(),
            pk == positions(schema@, true),
            agp == positions(schema@, false),
        decreases keys@.len() - h,
    {
        let mut r = copy_row(&keys[h]);
        assert(vals(keys@[h as int]@) == gks[h as int]);
        let ghost kl = r@.len();
        let acc = &accs[h];
        let mut t: usize = 0;
        while t < acc.len()
            invariant
                t <= acc@.len(),
                acc@.len() == agp.len(),
                kl == gks[h as int].len(),
                r@.len() == kl + t,
                vals(r@.take(kl as int)) == gks[h as int],
                forall|u: int| 0 <= u < t ==> (#[trigger] r@[kl + u])@ == acc@[u]@,
            decreases acc@.len() - t,
        {
            let ghost old_r = r@;
            r.push(acc[t].copy());
            t = t + 1;
            assert(r@.take(kl as int) =~= old_r.take(kl as int));
            assert forall|u: int| 0 <= u < t implies (#[trigger] r@[kl + u])@ == acc@[u]@ by {
                if u < t - 1 {
                    assert(r@[kl + u] == old_r[kl + u]);
                }
            }
        }
        proof {
            let row_spec = group_row(schema@, rv, gks[h as int]);
            assert forall|x: int| 0 <= x < r@.len() implies #[trigger] vals(r@)[x] == row_spec[x] by {
                if x < kl {
                    assert(vals(r@.take(kl as int))[x] == vals(r@)[x]);
                } else {
                    let u = x - kl;
                    assert(r@[kl + u]@ == accs@[h as int]@[u]@);
                    assert(agg_val(rv, pk, gks[h as int], agp[u], schema@[agp[u]].2) == Some(accs@[h as int]@[u]@));
                }
            }
            assert(vals(r@) =~= row_spec);
        }
        out.push(r);
        h = h + 1;
    }
    assert(crate::table::rows_view(out@) =~= gks.map_values(|k: Seq<VVal>| group_row(schema@, rv, k)));
    proof {
        assert forall|g: int, j: int| 0 <= g < group_keys(rv, pk).len() && 0 <= j < agp.len() implies (#[trigger] agg_val(
            rv,
            pk,
            group_keys(rv, pk)[g],
            agp[j],
            schema@[agp[j]].2,
        )) is Some by {
            assert(agg_val(rv, pk, gks[g], agp[j], schema@[agp[j]].2) == Some(accs@[g]@[j]@));
        }
    }
    Some(out)
}

/// Validation leaves one row per primary key: the key columns, which come
/// first, differ between any two rows of a validated table.
pub proof fn law_validated_keys_unique(schema: Seq<EntryV>, t: TableV, v: TableV)
    requires
        validate_spec(schema, t) == Ok::<TableV, ValidateErrorV>(v),
    ensures
        forall|i: int, j: int|
            0 <= i < j < v.rows.len() ==> (#[trigger] v.rows[i]).take(positions(schema, true).len() as int) != (
            #[trigger] v.rows[j]).take(positions(schema, true).len() as int),
{
    let rows = cast_rows(schema, t);
    let pkp = positions(schema, true);
    let gk = group_keys(rows, pkp);
    lemma_group_keys_distinct(rows, pkp);
    lemma_group_keys_len(rows, pkp);
    assert forall|i: int, j: int| 0 <= i < j < v.rows.len() implies (#[trigger] v.rows[i]).take(pkp.len() as int) != (
    #[trigger] v.rows[j]).take(pkp.len() as int) by {
        assert(v.rows[i] == group_row(schema, rows, gk[i]));
        assert(v.rows[j] == group_row(schema, rows, gk[j]));
        assert(v.rows[i].take(pkp.len() as int) =~= gk[i]);
        assert(v.rows[j].take(pkp.len() as int) =~= gk[j]);
    }
}

/// Every group key has one value per key column.
proof fn lemma_group_keys_len(rows: Seq<Seq<VVal>>, pkp: Seq<int>)
    ensures
        forall|g: int| 0 <= g < group_keys(rows, pkp).len() ==> (#[trigger] group_keys(rows, pkp)[g]).len() == pkp.len(),
    decreases rows.len(),
{
    if rows.len() > 0 {
        lemma_group_keys_len(rows.drop_last(), pkp);
        let p = group_keys(rows.drop_last(), pkp);
        let k = key_of(rows.last(), pkp);
        assert(k.len() == pkp.len());
        if !p.contains(k) {
            assert forall|g: int| 0 <= g < p.push(k).len() implies (#[trigger] p.push(k)[g]).len() == pkp.len() by {
                if g < p.len() {
                    assert(p.push(k)[g] == p[g]);
                }
            }
        }
    }
}

// ---------------------------------------------------------------------------
// Validated data
// ---------------------------------------------------------------------------

/// Data that can be checked and grouped into a table of fixed columns.
pub trait IntoValidated: Sized {
    type Error;

    /// The table held.
    spec fn data(&self) -> TableV;

    /// The validated table.
    fn into_validated(self) -> Result<Table, Self::Error>
        requires
            self.data().wf(),
    ;
}

/// A parsed bill of a forwarder.
pub struct BillData(pub Table);

/// Parsed details of our own shipments.
pub struct ShipmentData(pub Table);

/// The categories of a bill line: freight or customs fee.
pub open spec fn bill_types() -> Seq<Seq<char>> {
    seq!["运费"@, "报关费"@]
}

/// The schema of bills: one row per waybill and bill type.
pub open spec fn bill_schema_view() -> Seq<EntryV> {
    seq![
        ("运单号"@, DTypeV::Str, AggOption::PK),
        ("账单类型"@, DTypeV::Category(bill_types()), AggOption::PK),
        ("货件单号"@, DTypeV::Str, AggOption::ByFirst),
        ("日期"@, DTypeV::Date, AggOption::ByFirst),
        ("物流中心编码"@, DTypeV::Str, AggOption::ByFirst),
        ("件数"@, DTypeV::Float, AggOption::ByFirst),
        ("货代名称"@, DTypeV::Str, AggOption::ByFirst),
        ("单价"@, DTypeV::Float, AggOption::BySum),
        ("计费重"@, DTypeV::Float, AggOption::ByFirst),
    ]
}

/// The schema of our shipment details: one row per shipment.
pub open spec fn shipment_schema_view() -> Seq<EntryV> {
    seq![
        ("货件单号"@, DTypeV::Str, AggOption::PK),
        ("报关周次"@, DTypeV::Str, AggOption::ByFirst),
        ("日期"@, DTypeV::Date, AggOption::ByFirst),
        ("物流中心编码"@, DTypeV::Str, AggOption::ByFirst),
        ("件数"@, DTypeV::Float, AggOption::BySum),
        ("计费重"@, DTypeV::Float, AggOption::BySum),
        ("单价"@, DTypeV::Float, AggOption::ByFirst),
        ("报关费"@, DTypeV::Float, AggOption::ByFirst),
    ]
}

/// Two texts differ where their lengths, first or second characters do.
spec fn texts_differ(a: Seq<char>, b: Seq<char>) -> bool {
    a.len() != b.len() || (a.len() > 1 && b.len() > 1 && (a[0] != b[0] || a[1] != b[1]))
}

/// The bill schema names each column once.
proof fn lemma_bill_schema_distinct()
    ensures
        entry_names(bill_schema_view()).no_duplicates(),
{
    reveal_strlit("运单号");
    reveal_strlit("账单类型");
    reveal_strlit("货件单号");
    reveal_strlit("日期");
    reveal_strlit("物流中心编码");
    reveal_strlit("件数");
    reveal_strlit("货代名称");
    reveal_strlit("单价");
    reveal_strlit("计费重");
    let n = entry_names(bill_schema_view());
    assert forall|i: int, j: int| 0 <= i < j < n.len() implies n[i] != n[j] by {
        assert(texts_differ(n[i], n[j]));
    }
}

/// The shipment schema names each column once.
proof fn lemma_shipment_schema_distinct()
    ensures
        entry_names(shipment_schema_view()).no_duplicates(),
{
    reveal_strlit("货件单号");
    reveal_strlit("报关周次");
    reveal_strlit("日期");
    reveal_strlit("物流中心编码");
    reveal_strlit("件数");
    reveal_strlit("计费重");
    reveal_strlit("单价");
    reveal_strlit("报关费");
    let n = entry_names(shipment_schema_view());
    assert forall|i: int, j: int| 0 <= i < j < n.len() implies n[i] != n[j] by {
        assert(texts_differ(n[i], n[j]));
    }
}

/// The schema of bills (see [`bill_schema_view`]).
pub fn bill_schema() -> (r: DataSchema)
    ensures
        r@ == bill_schema_view(),
{
    let mut cats: Vec<String> = Vec::new();
    cats.push(owned("运费"));
    cats.push(owned("报关费"));
    let mut e: Vec<SchemaEntry> = Vec::new();
    e.push((owned("运单号"), D::Str, AggOption::PK));
    e.push((owned("账单类型"), D::Category(cats), AggOption::PK));
    e.push((owned("货件单号"), D::Str, AggOption::ByFirst));
    e.push((owned("日期"), D::Date, AggOption::ByFirst));
    e.push((owned("物流中心编码"), D::Str, AggOption::ByFirst));
    e.push((owned("件数"), D::Float, AggOption::ByFirst));
    e.push((owned("货代名称"), D::Str, AggOption::ByFirst));
    e.push((owned("单价"), D::Float, AggOption::BySum));
    e.push((owned("计费重"), D::Float, AggOption::ByFirst));
    assert(strs(cats@) =~= bill_types());
    assert(entries_view(e@) =~= bill_schema_view());
    proof {
        lemma_bill_schema_distinct();
    }
    let r = DataSchema { entries: e };
    r
}

/// The schema of our shipment details (see [`shipment_schema_view`]).
pub fn shipment_schema() -> (r: DataSchema)
    ensures
        r@ == shipment_schema_view(),
{
    let mut e: Vec<SchemaEntry> = Vec::new();
    e.push((owned("货件单号"), D::Str, AggOption::PK));
    e.push((owned("报关周次"), D::Str, AggOption::ByFirst));
    e.push((owned("日期"), D::Date, AggOption::ByFirst));
    e.push((owned("物流中心编码"), D::Str, AggOption::ByFirst));
    e.push((owned("件数"), D::Float, AggOption::BySum));
    e.push((owned("计费重"), D::Float, AggOption::BySum));
    e.push((owned("单价"), D::Float, AggOption::ByFirst));
    e.push((owned("报关费"), D::Float, AggOption::ByFirst));
    assert(entries_view(e@) =~= shipment_schema_view());
    proof {
        lemma_shipment_schema_distinct();
    }
    let r = DataSchema { entries: e };
    r
}

impl IntoValidated for BillData {
    type Error = ValidateError;

    open spec fn data(&self) -> TableV {
        self.0@
    }

    /// The bill grouped by waybill and bill type (see [`bill_schema_view`]).
    fn into_validated(self) -> (r: Result<Table, ValidateError>)
        ensures
            result_view(r) == validate_spec(bill_schema_view(), self.0@),
    {
        bill_schema().validate(self.0)
    }
}

impl IntoValidated for ShipmentData {
    type Error = ValidateError;

    open spec fn data(&self) -> TableV {
        self.0@
    }

    /// The details grouped by shipment (see [`shipment_schema_view`]).
    fn into_validated(self) -> (r: Result<Table, ValidateError>)
        ensures
            result_view(r) == validate_spec(shipment_schema_view(), self.0@),
    {
        shipment_schema().validate(self.0)
    }
}

/// A table held for validation, as the first version of the library
/// offered it.
pub trait Validated: Sized {
    /// The table held.
    spec fn table(&self) -> TableV;

    /// Holds a table.
    fn with_dataframe(df: Table) -> (r: Self)
        ensures
            r.table() == df@,
    ;

    /// The validated table.
    fn get_valicated(&self) -> Result<Table, ValidateError>
        requires
            self.table().wf(),
    ;
}

/// A bill held for validation.
pub struct BillValidated {
    pub dataframe: Table,
}

/// Shipment details held for validation.
pub struct ShipmentValidated {
    pub dataframe: Table,
}

impl Validated for BillValidated {
    open spec fn table(&self) -> TableV {
        self.dataframe@
    }

    fn with_dataframe(df: Table) -> (r: Self) {
        BillValidated { dataframe: df }
    }

    /// The bill grouped by waybill and bill type (see [`bill_schema_view`]).
    fn get_valicated(&self) -> (r: Result<Table, ValidateError>)
        ensures
            result_view(r) == validate_spec(bill_schema_view(), self.dataframe@),
    {
        bill_schema().validate(self.dataframe.copy())
    }
}

impl Validated for ShipmentValidated {
    open spec fn table(&self) -> TableV {
        self.dataframe@
    }

    fn with_dataframe(df: Table) -> (r: Self) {
        ShipmentValidated { dataframe: df }
    }

    /// The details grouped by shipment (see [`shipment_schema_view`]).
    fn get_valicated(&self) -> (r: Result<Table, ValidateError>)
        ensures
            result_view(r) == validate_spec(shipment_schema_view(), self.dataframe@),
    {
        shipment_schema().validate(self.dataframe.copy())
    }
}

} // verus!
