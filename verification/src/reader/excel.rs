//! The reader of a table out of a worksheet grid (see [`super::grid`]).
use super::grid::{
    all_found, cell_value, column_cells, column_kind, data_len, dedup, done_at, grid_wf,
    header_cols, header_row_from, kind_run, last_upto, lemma_done_at, lemma_header_row,
    lemma_kind_run, lemma_last_upto, ordered_cols, read_spec, row_view, texts, Cell, CellKind,
    CellV, Grid,
};
use super::{ExcelError, ExcelErrorV};
use crate::table::{find_index, find_name, lemma_find_name, rows_view, Table, TableV};
use crate::text::owned;
use crate::value::{strs, vals, VVal, Value};
use vstd::prelude::*;

verus! {

/// Reads a table out of a worksheet grid, by the headers it must hold and
/// the primary column that tells how far it goes down.
pub struct ExcelReader {
    /// The grid, once loaded.
    pub data: Option<Grid>,
    /// The headers the table must hold.
    pub headers: Vec<String>,
    /// The primary column; the first header when not given.
    pub primary: Option<String>,
}

pub open spec fn read_result_view(r: Result<Table, ExcelError>) -> Result<TableV, ExcelErrorV> {
    match r {
        Ok(t) => Ok(t@),
        Err(e) => Err(e@),
    }
}

/// The texts of a row's cells.
pub fn row_texts(row: &Vec<Cell>) -> (r: Vec<String>)
    ensures
        strs(r@) == texts(row_view(row@)),
{
    let mut r: Vec<String> = Vec::new();
    let mut i: usize = 0;
    while i < row.len()
        invariant
            i <= row@.len(),
            strs(r@) == texts(row_view(row@)).take(i as int),
        decreases row@.len() - i,
    {
        let ghost o = strs(r@);
        let t = row[i].text.clone();
        r.push(t);
        assert(strs(r@) =~= o.push(t@));
        i = i + 1;
        assert(strs(r@) =~= texts(row_view(row@)).take(i as int));
    }
    assert(texts(row_view(row@)).take(row@.len() as int) =~= texts(row_view(row@)));
    r
}

/// Names without repeats (see [`dedup`]).
pub fn dedup_names(v: &Vec<String>) -> (r: Vec<String>)
    ensures
        strs(r@) == dedup(strs(v@)),
{
    let ghost sv = strs(v@);
    let mut r: Vec<String> = Vec::new();
    let mut i: usize = 0;
    while i < v.len()
        invariant
            sv == strs(v@),
            i <= v@.len(),
            strs(r@) == dedup(sv.take(i as int)),
        decreases v@.len() - i,
    {
        assert(sv.take(i + 1).drop_last() =~= sv.take(i as int));
        assert(sv.take(i + 1).last() == sv[i as int]);
        proof {
            lemma_find_name(strs(r@), v@[i as int]@);
        }
        match find_index(&r, v[i].as_str()) {
            Some(_) => {},
            None => {
                let ghost o = strs(r@);
                let t = v[i].clone();
                r.push(t);
                assert(strs(r@) =~= o.push(t@));
            },
        }
        i = i + 1;
    }
    assert(sv.take(v@.len() as int) =~= sv);
    r
}

/// Whether every header occurs among the texts of a row.
fn found_all(t: &Vec<String>, hl: &Vec<String>, row: Ghost<Seq<CellV>>) -> (r: bool)
    requires
        strs(t@) == texts(row@),
    ensures
        r == all_found(row@, strs(hl@)),
{
    let ghost hv = strs(hl@);
    let mut h: usize = 0;
    while h < hl.len()
        invariant
            strs(t@) == texts(row@),
            hv == strs(hl@),
            h <= hl@.len(),
            forall|k: int| 0 <= k < h ==> find_name(texts(row@), #[trigger] hv[k]) < row@.len(),
        decreases hl@.len() - h,
    {
        match find_index(t, hl[h].as_str()) {
            Some(_) => {},
            None => {
                assert(find_name(texts(row@), hv[h as int]) >= row@.len());
                return false;
            },
        }
        h = h + 1;
    }
    true
}

/// The last index at most `k` holding `n` (see [`last_upto`]).
fn last_at_most(t: &Vec<String>, n: &String, k: usize) -> (r: usize)
    requires
        0 <= find_name(strs(t@), n@) <= k < t@.len(),
    ensures
        r as int == last_upto(strs(t@), n@, k as int),
        r <= k,
{
    proof {
        lemma_last_upto(strs(t@), n@, k as int);
        lemma_find_name(strs(t@), n@);
    }
    let mut j = k;
    while !crate::text::str_eq(t[j].as_str(), n.as_str())
        invariant
            0 <= find_name(strs(t@), n@) <= j <= k < t@.len(),
            strs(t@)[find_name(strs(t@), n@)] == n@,
            last_upto(strs(t@), n@, k as int) == last_upto(strs(t@), n@, j as int),
        decreases j,
    {
        assert(strs(t@)[j as int] != n@);
        j = j - 1;
    }
    j
}

impl ExcelReader {
    /// A reader of a table with these headers.
    pub fn new(headers: Vec<String>) -> (r: Self)
        ensures
            r.data is None,
            r.headers == headers,
            r.primary is None,
    {
        ExcelReader { data: None, headers, primary: None }
    }

    /// Sets the primary column, which tells how far the table goes down.
    pub fn primary(self, name: &str) -> (r: Self)
        ensures
            r.data == self.data,
            r.headers == self.headers,
            r.primary matches Some(p) && p@ == name@,
    {
        ExcelReader { data: self.data, headers: self.headers, primary: Some(owned(name)) }
    }

    /// Loads the grid of a worksheet; an error when one is loaded already.
    pub fn load_grid(self, grid: Grid) -> (r: Result<Self, ExcelError>)
        ensures
            match r {
                Ok(x) => self.data is None && x.data == Some(grid) && x.headers == self.headers
                    && x.primary == self.primary,
                Err(e) => self.data is Some && e@ == ExcelErrorV::DuplicateLoad,
            },
    {
        if self.data.is_some() {
            return Err(ExcelError::DuplicateLoad);
        }
        Ok(ExcelReader { data: Some(grid), headers: self.headers, primary: self.primary })
    }

    /// Loads the grid of a worksheet in place of any loaded before.
    pub fn set_grid(self, grid: Grid) -> (r: Self)
        ensures
            r.data == Some(grid),
            r.headers == self.headers,
            r.primary == self.primary,
    {
        ExcelReader { data: Some(grid), headers: self.headers, primary: self.primary }
    }

    /// The primary column: the one given, or the first header.
    pub open spec fn primary_name(&self) -> Seq<char> {
        match self.primary {
            Some(p) => p@,
            None => self.headers@[0]@,
        }
    }

    /// Reads the table (see [`read_spec`]); an error when no grid is
    /// loaded.
    pub fn read(self) -> (r: Result<Table, ExcelError>)
        requires
            self.data is Some ==> (self.primary is Some || self.headers@.len() > 0),
            self.data matches Some(g) ==> grid_wf(g@),
        ensures
            match self.data {
                None => r matches Err(e) && e@ == ExcelErrorV::NotLoad,
                Some(g) => read_result_view(r) == read_spec(g@, strs(self.headers@), self.primary_name()),
            },
    {
        let ghost pn = self.primary_name();
        let ghost hs = strs(self.headers@);
        let grid = match self.data {
            Some(g) => g,
            None => {
                return Err(ExcelError::NotLoad);
            },
        };
        let primary = match self.primary {
            Some(p) => p,
            None => self.headers[0].clone(),
        };
        let mut all = self.headers;
        let ghost before_push = strs(all@);
        all.push(primary.clone());
        assert(strs(all@) =~= hs.push(pn));
        let hl = dedup_names(&all);
        let ghost hv = strs(hl@);
        let ghost g = grid@;
        // The header row.
        let mut hr: usize = 0;
        let mut found = false;
        proof {
            lemma_header_row(g, hv, 0);
        }
        while !found && hr < grid.cells.len()
            invariant
                g == grid@,
                hv == strs(hl@),
                hr <= g.len(),
                header_row_from(g, hv, 0) == header_row_from(g, hv, hr as int),
                found ==> hr < g.len() && all_found(g[hr as int], hv),
            decreases g.len() - hr + if found { 0int } else { 1int },
        {
            let t = row_texts(&grid.cells[hr]);
            assert(row_view(grid.cells@[hr as int]@) == g[hr as int]);
            if found_all(&t, &hl, Ghost(g[hr as int])) {
                found = true;
            } else {
                hr = hr + 1;
            }
        }
        if hr >= grid.cells.len() {
            return Err(ExcelError::Find(owned("未找到所有的表头")));
        }
        let ghost row = g[hr as int];
        assert(header_row_from(g, hv, hr as int) == hr);
        let row_t = row_texts(&grid.cells[hr]);
        assert(row_view(grid.cells@[hr as int]@) == row);
        proof {
            lemma_done_at(row, hv);
        }
        // The index at which the last header is first seen.
        let mut done: usize = 0;
        let mut h: usize = 0;
        let mut any = false;
        while h < hl.len()
            invariant
                hv == strs(hl@),
                strs(row_t@) == texts(row),
                all_found(row, hv),
                h <= hl@.len(),
                any == (h > 0),
                any ==> done as int == done_at(row, hv.take(h as int)),
                !any ==> done_at(row, hv.take(h as int)) == -1,
            decreases hl@.len() - h,
        {
            assert(hv.take(h + 1).drop_last() =~= hv.take(h as int));
            assert(hv.take(h + 1).last() == hv[h as int]);
            let f = match find_index(&row_t, hl[h].as_str()) {
                Some(f) => f,
                None => {
                    assert(find_name(texts(row), hv[h as int]) < row.len());
                    0
                },
            };
            if !any || f > done {
                done = f;
            }
            any = true;
            h = h + 1;
        }
        assert(hv.take(hl@.len() as int) =~= hv);
        proof {
            assert(hv.contains(pn)) by {
                lemma_dedup_contains(hs.push(pn), hs.len() as int);
            }
            let q = choose|q: int| 0 <= q < hv.len() && hv[q] == pn;
            assert(find_name(texts(row), hv[q]) <= done_at(row, hv));
            assert(find_name(texts(row), hv[q]) < row.len());
            lemma_find_name(texts(row), pn);
        }
        let pc = last_at_most(&row_t, &primary, done);
        // Header columns, and the data rows below.
        let ghost n = data_len(g, hr as int, pc as int);
        let mut n_rows: usize = 0;
        if hr + 1 < grid.cells.len() {
            assert(g[hr + 1].len() == g[0].len());
            assert(row.len() == g[0].len());
            let k0 = grid.cells[hr + 1][pc].kind;
            let mut r = hr + 1;
            proof {
                lemma_kind_run(g, pc as int, k0, r as int);
            }
            while r < grid.cells.len() && grid.cells[r][pc].kind == k0
                invariant
                    g == grid@,
                    grid_wf(g),
                    hr < g.len(),
                    pc < g[0].len(),
                    hr + 1 <= r <= g.len(),
                    n_rows == r - hr - 1,
                    kind_run(g, pc as int, k0, hr + 1) == n_rows + kind_run(g, pc as int, k0, r as int),
                decreases g.len() - r,
            {
                assert(g[r as int].len() == g[0].len());
                assert(grid.cells@[r as int]@[pc as int]@ == g[r as int][pc as int]);
                n_rows = n_rows + 1;
                r = r + 1;
            }
            assert(g[hr + 1][pc as int] == grid.cells@[hr + 1]@[pc as int]@);
        }
        assert(n_rows == n);
        let hc = header_col_list(&row_t, &hl, done, Ghost(row));
        let cols = ordered(&hc, grid.cells[hr].len());
        // The columns, converted.
        let table = build_table(&grid, &row_t, hr, n_rows, &cols, Ghost(header_cols(row, hv)));
        Ok(table)
    }
}

/// Names of a list of names with one more are those of its dedup, and the
/// one more is among them.
proof fn lemma_dedup_contains(s: Seq<Seq<char>>, k: int)
    requires
        0 <= k < s.len(),
    ensures
        dedup(s).contains(s[k]),
    decreases s.len(),
{
    if k == s.len() - 1 {
        if !dedup(s.drop_last()).contains(s.last()) {
            assert(dedup(s)[dedup(s).len() - 1] == s.last());
        }
    } else {
        assert(s.drop_last()[k] == s[k]);
        lemma_dedup_contains(s.drop_last(), k);
        let d = dedup(s.drop_last());
        let q = choose|q: int| 0 <= q < d.len() && d[q] == s[k];
        if !d.contains(s.last()) {
            assert(dedup(s)[q] == d[q]);
        }
    }
}

/// The column of each header in the header row (see [`header_cols`]).
fn header_col_list(t: &Vec<String>, hl: &Vec<String>, done: usize, row: Ghost<Seq<CellV>>) -> (r: Vec<usize>)
    requires
        strs(t@) == texts(row@),
        all_found(row@, strs(hl@)),
        done as int == done_at(row@, strs(hl@)),
    ensures
        r@.map_values(|x: usize| x as int) == header_cols(row@, strs(hl@)),
        forall|k: int| 0 <= k < r@.len() ==> (#[trigger] r@[k]) < row@.len(),
{
    let ghost hv = strs(hl@);
    proof {
        lemma_done_at(row@, hv);
        assert(strs(t@).len() == t@.len());
        assert(texts(row@).len() == row@.len());
    }
    let mut r: Vec<usize> = Vec::new();
    let mut h: usize = 0;
    while h < hl.len()
        invariant
            hv == strs(hl@),
            strs(t@) == texts(row@),
            all_found(row@, hv),
            done as int == done_at(row@, hv),
            done < row@.len(),
            t@.len() == row@.len(),
            forall|q: int| 0 <= q < hv.len() ==> find_name(texts(row@), #[trigger] hv[q]) <= done_at(row@, hv),
            h <= hl@.len(),
            r@.map_values(|x: usize| x as int) == header_cols(row@, hv).take(h as int),
            forall|k: int| 0 <= k < r@.len() ==> (#[trigger] r@[k]) < row@.len(),
        decreases hl@.len() - h,
    {
        proof {
            lemma_find_name(texts(row@), hv[h as int]);
            assert(find_name(texts(row@), hv[h as int]) < row@.len());
            assert(hl@[h as int]@ == hv[h as int]);
        }
        let c = last_at_most(t, &hl[h], done);
        let ghost o = r@;
        r.push(c);
        assert(r@.map_values(|x: usize| x as int) =~= o.map_values(|x: usize| x as int).push(c as int));
        h = h + 1;
        assert(r@.map_values(|x: usize| x as int) =~= header_cols(row@, hv).take(h as int));
    }
    assert(header_cols(row@, hv).take(hl@.len() as int) =~= header_cols(row@, hv));
    r
}

/// The columns below `w` that occur in `hc`, in increasing order.
fn ordered(hc: &Vec<usize>, w: usize) -> (r: Vec<usize>)
    ensures
        r@.map_values(|x: usize| x as int) == ordered_cols(hc@.map_values(|x: usize| x as int), w as int),
        forall|k: int| 0 <= k < r@.len() ==> (#[trigger] r@[k]) < w,
{
    let ghost hv = hc@.map_values(|x: usize| x as int);
    let mut r: Vec<usize> = Vec::new();
    let mut c: usize = 0;
    while c < w
        invariant
            hv == hc@.map_values(|x: usize| x as int),
            c <= w,
            r@.map_values(|x: usize| x as int) == ordered_cols(hv, c as int),
            forall|k: int| 0 <= k < r@.len() ==> (#[trigger] r@[k]) < c,
        decreases w - c,
    {
        let mut i: usize = 0;
        let mut has = false;
        while i < hc.len()
            invariant
                hv == hc@.map_values(|x: usize| x as int),
                i <= hc@.len(),
                has == (exists|k: int| 0 <= k < i && hv[k] == c as int),
            decreases hc@.len() - i,
        {
            if hc[i] == c {
                assert(hv[i as int] == c as int);
                has = true;
            }
            i = i + 1;
        }
        assert(has == hv.contains(c as int));
        if has {
            let ghost o = r@;
            r.push(c);
            assert(r@.map_values(|x: usize| x as int) =~= o.map_values(|x: usize| x as int).push(c as int));
        }
        c = c + 1;
    }
    r
}

fn next_kind(k: Option<CellKind>, last: CellKind) -> (r: Option<CellKind>)
    ensures
        r == (if last == CellKind::Null {
            k
        } else {
            match k {
                None => Some(last),
                Some(a) => if a == last {
                    Some(a)
                } else {
                    Some(CellKind::Text)
                },
            }
        }),
{
    if last == CellKind::Null {
        k
    } else {
        match k {
            None => Some(last),
            Some(a) => if a == last {
                Some(a)
            } else {
                Some(CellKind::Text)
            },
        }
    }
}

/// A cell read in a column of kind `k` (see [`cell_value`]).
pub fn cell_value_of(c: &Cell, k: Option<CellKind>) -> (r: Value)
    ensures
        r@ == cell_value(c@, k),
{
    match k {
        None => Value::Null,
        Some(CellKind::Float) => match c.num {
            Some(m) => Value::Num(m),
            None => Value::Null,
        },
        Some(CellKind::Int) => match c.int {
            Some(i) => Value::Int(i),
            None => Value::Null,
        },
        Some(CellKind::Date) => match c.date {
            Some(d) => Value::Date(d),
            None => Value::Null,
        },
        Some(_) => Value::Str(c.text.clone()),
    }
}

/// The values of column `c` in the `n` rows below the header row.
fn column_values(grid: &Grid, hr: usize, n: usize, c: usize) -> (r: Vec<Value>)
    requires
        grid_wf(grid@),
        hr + n < grid@.len(),
        c < grid@[0].len(),
    ensures
        r@.len() == n,
        forall|i: int| 0 <= i < n ==> (#[trigger] r@[i])@ == cell_value(
            grid@[hr + 1 + i][c as int],
            column_kind(column_cells(grid@, hr as int, n as int, c as int)),
        ),
{
    let ghost g = grid@;
    let ghost cells = column_cells(g, hr as int, n as int, c as int);
    let total = grid.cells.len();
    let mut kind: Option<CellKind> = None;
    let mut i: usize = 0;
    while i < n
        invariant
            g == grid@,
            g.len() == total,
            grid_wf(g),
            hr + n < g.len(),
            c < g[0].len(),
            cells == column_cells(g, hr as int, n as int, c as int),
            i <= n,
            kind == column_kind(cells.take(i as int)),
        decreases n - i,
    {
        assert(cells.take(i + 1).drop_last() =~= cells.take(i as int));
        assert(g[hr + 1 + i].len() == g[0].len());
        assert(cells.take(i + 1).last() == grid.cells@[hr + 1 + i]@[c as int]@);
        kind = next_kind(kind, grid.cells[hr + 1 + i][c].kind);
        i = i + 1;
    }
    assert(cells.take(n as int) =~= cells);
    let mut r: Vec<Value> = Vec::new();
    let mut i: usize = 0;
    while i < n
        invariant
            g == grid@,
            g.len() == total,
            grid_wf(g),
            hr + n < g.len(),
            c < g[0].len(),
            kind == column_kind(column_cells(g, hr as int, n as int, c as int)),
            i <= n,
            r@.len() == i,
            forall|q: int| 0 <= q < i ==> (#[trigger] r@[q])@ == cell_value(g[hr + 1 + q][c as int], kind),
        decreases n - i,
    {
        assert(g[hr + 1 + i].len() == g[0].len());
        assert(grid.cells@[hr + 1 + i]@[c as int]@ == g[hr + 1 + i][c as int]);
        r.push(cell_value_of(&grid.cells[hr + 1 + i][c], kind));
        i = i + 1;
    }
    r
}

/// The table of the grid from its header row `hr`, `n` data rows and the
/// columns `cols`.
fn build_table(grid: &Grid, row_t: &Vec<String>, hr: usize, n: usize, cols: &Vec<usize>, hc: Ghost<Seq<int>>) -> (t: Table)
    requires
        grid_wf(grid@),
        hr + n < grid@.len(),
        strs(row_t@) == texts(grid@[hr as int]),
        forall|k: int| 0 <= k < cols@.len() ==> (#[trigger] cols@[k]) < grid@[hr as int].len(),
    ensures
        t@.names == cols@.map_values(|x: usize| x as int).map_values(|c: int| texts(grid@[hr as int])[c]),
        t@.rows == Seq::new(
            n as nat,
            |i: int| cols@.map_values(|x: usize| x as int).map_values(
                |c: int| cell_value(grid@[hr + 1 + i][c], column_kind(column_cells(grid@, hr as int, n as int, c))),
            ),
        ),
{
    let ghost g = grid@;
    let ghost cv = cols@.map_values(|x: usize| x as int);
    let ghost rows_spec = Seq::new(
        n as nat,
        |i: int| cv.map_values(|c: int| cell_value(g[hr + 1 + i][c], column_kind(column_cells(g, hr as int, n as int, c)))),
    );
    assert(g[hr as int].len() == g[0].len());
    assert(strs(row_t@).len() == row_t@.len());
    assert(texts(g[hr as int]).len() == g[hr as int].len());
    // Names.
    let mut names: Vec<String> = Vec::new();
    let mut j: usize = 0;
    while j < cols.len()
        invariant
            g == grid@,
            hr < g.len(),
            row_t@.len() == g[hr as int].len(),
            cv == cols@.map_values(|x: usize| x as int),
            strs(row_t@) == texts(g[hr as int]),
            forall|k: int| 0 <= k < cols@.len() ==> (#[trigger] cols@[k]) < g[hr as int].len(),
            j <= cols@.len(),
            strs(names@) == cv.map_values(|c: int| texts(g[hr as int])[c]).take(j as int),
        decreases cols@.len() - j,
    {
        let ghost o = strs(names@);
        let t = row_t[cols[j]].clone();
        names.push(t);
        assert(strs(names@) =~= o.push(t@));
        j = j + 1;
        assert(strs(names@) =~= cv.map_values(|c: int| texts(g[hr as int])[c]).take(j as int));
    }
    assert(cv.map_values(|c: int| texts(g[hr as int])[c]).take(cols@.len() as int) =~= cv.map_values(
        |c: int| texts(g[hr as int])[c],
    ));
    // Columns.
    let mut columns: Vec<Vec<Value>> = Vec::new();
    let mut j: usize = 0;
    while j < cols.len()
        invariant
            g == grid@,
            grid_wf(g),
            hr + n < g.len(),
            g[hr as int].len() == g[0].len(),
            cv == cols@.map_values(|x: usize| x as int),
            forall|k: int| 0 <= k < cols@.len() ==> (#[trigger] cols@[k]) < g[hr as int].len(),
            j <= cols@.len(),
            columns@.len() == j,
            forall|q: int| 0 <= q < j ==> (#[trigger] columns@[q])@.len() == n,
            forall|q: int, i: int| 0 <= q < j && 0 <= i < n ==> (#[trigger] columns@[q]@[i])@ == cell_value(
                g[hr + 1 + i][cv[q]],
                column_kind(column_cells(g, hr as int, n as int, cv[q])),
            ),
        decreases cols@.len() - j,
    {
        let col = column_values(grid, hr, n, cols[j]);
        columns.push(col);
        j = j + 1;
    }
    // Rows.
    let mut rows: Vec<Vec<Value>> = Vec::new();
    let mut i: usize = 0;
    while i < n
        invariant
            g == grid@,
            cv == cols@.map_values(|x: usize| x as int),
            columns@.len() == cols@.len(),
            forall|q: int| 0 <= q < cols@.len() ==> (#[trigger] columns@[q])@.len() == n,
            forall|q: int, k: int| 0 <= q < cols@.len() && 0 <= k < n ==> (#[trigger] columns@[q]@[k])@ == cell_value(
                g[hr + 1 + k][cv[q]],
                column_kind(column_cells(g, hr as int, n as int, cv[q])),
            ),
            rows_spec == Seq::new(
                n as nat,
                |i: int| cv.map_values(|c: int| cell_value(g[hr + 1 + i][c], column_kind(column_cells(g, hr as int, n as int, c)))),
            ),
            i <= n,
            rows_view(rows@) == rows_spec.take(i as int),
        decreases n - i,
    {
        let mut row: Vec<Value> = Vec::new();
        let mut j: usize = 0;
        while j < cols.len()
            invariant
                columns@.len() == cols@.len(),
                forall|q: int| 0 <= q < cols@.len() ==> (#[trigger] columns@[q])@.len() == n,
                i < n,
                j <= cols@.len(),
                row@.len() == j,
                forall|q: int| 0 <= q < j ==> (#[trigger] row@[q])@ == columns@[q]@[i as int]@,
            decreases cols@.len() - j,
        {
            row.push(columns[j][i].copy());
            j = j + 1;
        }
        assert(vals(row@) =~= rows_spec[i as int]);
        let ghost o = rows_view(rows@);
        rows.push(row);
        assert(rows_view(rows@) =~= o.push(vals(row@)));
        i = i + 1;
        assert(rows_view(rows@) =~= rows_spec.take(i as int));
    }
    assert(rows_spec.take(n as int) =~= rows_spec);
    Table { names, rows }
}

} // verus!
