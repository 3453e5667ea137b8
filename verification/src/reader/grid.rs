//! Worksheet grids and how a table is found in one.
//!
//! A grid is the rectangle of cells a worksheet holds.  The table starts
//! at the first row that holds every wanted header (the row is read left
//! to right until all of them have been seen; a header seen twice by then
//! keeps its later column).  It goes down as long as the cells of the
//! primary column keep the kind of the first one below the header.  Its
//! columns are those of the headers, left to right.
use crate::table::{find_name, lemma_find_name};
use crate::value::{VVal, Value};
use vstd::prelude::*;

verus! {

/// The kind of a cell, by which the kind of a column is told.
#[derive(Debug, Clone, Copy, PartialEq, Eq, Structural)]
pub enum CellKind {
    Float,
    Int,
    Bool,
    Date,
    /// An empty cell, or an empty text.
    Null,
    /// Any other text.
    Text,
}

/// What a workbook cell holds, as the workbook reader tells it.
#[derive(Debug, Clone, Copy, PartialEq, Eq, Structural)]
pub enum RawKind {
    Float,
    Int,
    Bool,
    DateTime,
    Empty,
    String,
    /// An error value, or a date or duration written as ISO text.
    Other,
}

/// The kind of a cell that holds `raw` and displays `text`: an empty cell
/// or an empty string is null, another string or any other value is text.
pub open spec fn kind_spec(raw: RawKind, text: Seq<char>) -> CellKind {
    match raw {
        RawKind::Float => CellKind::Float,
        RawKind::Int => CellKind::Int,
        RawKind::Bool => CellKind::Bool,
        RawKind::DateTime => CellKind::Date,
        RawKind::Empty => CellKind::Null,
        RawKind::String => if text.len() == 0 {
            CellKind::Null
        } else {
            CellKind::Text
        },
        RawKind::Other => CellKind::Text,
    }
}

/// The kind of a cell (see [`kind_spec`]).
pub fn cell_kind(raw: RawKind, text: &str) -> (k: CellKind)
    ensures
        k == kind_spec(raw, text@),
{
    match raw {
        RawKind::Float => CellKind::Float,
        RawKind::Int => CellKind::Int,
        RawKind::Bool => CellKind::Bool,
        RawKind::DateTime => CellKind::Date,
        RawKind::Empty => CellKind::Null,
        RawKind::String => if crate::text::chars_of(text).len() == 0 {
            CellKind::Null
        } else {
            CellKind::Text
        },
        RawKind::Other => CellKind::Text,
    }
}

/// A worksheet cell as plain values.
#[derive(Debug)]
pub struct Cell {
    pub kind: CellKind,
    /// The text the cell displays.
    pub text: String,
    /// The cell read as an integer, when it reads as one.
    pub int: Option<i64>,
    /// The cell read as a decimal number, in millionths, when it reads as
    /// one.
    pub num: Option<i128>,
    /// The cell read as a date (days from the Common Era), when it reads
    /// as one.
    pub date: Option<i32>,
}

pub struct CellV {
    pub kind: CellKind,
    pub text: Seq<char>,
    pub int: Option<i64>,
    pub num: Option<i128>,
    pub date: Option<i32>,
}

impl View for Cell {
    type V = CellV;

    open spec fn view(&self) -> CellV {
        CellV { kind: self.kind, text: self.text@, int: self.int, num: self.num, date: self.date }
    }
}

/// The cells of a worksheet, row by row.
#[derive(Debug)]
pub struct Grid {
    pub cells: Vec<Vec<Cell>>,
}

pub open spec fn row_view(r: Seq<Cell>) -> Seq<CellV> {
    r.map_values(|c: Cell| c@)
}

impl View for Grid {
    type V = Seq<Seq<CellV>>;

    open spec fn view(&self) -> Seq<Seq<CellV>> {
        self.cells@.map_values(|r: Vec<Cell>| row_view(r@))
    }
}

/// Every row of a grid has the same number of cells.
pub open spec fn grid_wf(g: Seq<Seq<CellV>>) -> bool {
    forall|i: int| 0 <= i < g.len() ==> (#[trigger] g[i]).len() == g[0].len()
}

/// The texts of a row.
pub open spec fn texts(row: Seq<CellV>) -> Seq<Seq<char>> {
    row.map_values(|c: CellV| c.text)
}

/// Names without repeats, each at its first place.
pub open spec fn dedup(s: Seq<Seq<char>>) -> Seq<Seq<char>>
    decreases s.len(),
{
    if s.len() == 0 {
        seq![]
    } else if dedup(s.drop_last()).contains(s.last()) {
        dedup(s.drop_last())
    } else {
        dedup(s.drop_last()).push(s.last())
    }
}

/// Whether every header occurs in the row.
pub open spec fn all_found(row: Seq<CellV>, hl: Seq<Seq<char>>) -> bool {
    forall|h: int| 0 <= h < hl.len() ==> find_name(texts(row), #[trigger] hl[h]) < row.len()
}

/// The index of the cell at which the last header is first seen.
pub open spec fn done_at(row: Seq<CellV>, hl: Seq<Seq<char>>) -> int
    decreases hl.len(),
{
    if hl.len() == 0 {
        -1
    } else {
        let a = done_at(row, hl.drop_last());
        let b = find_name(texts(row), hl.last());
        if a >= b {
            a
        } else {
            b
        }
    }
}

/// The last index at most `k` holding `n`, or -1.
pub open spec fn last_upto(t: Seq<Seq<char>>, n: Seq<char>, k: int) -> int
    decreases k + 1,
{
    if k < 0 {
        -1
    } else if k < t.len() && t[k] == n {
        k
    } else {
        last_upto(t, n, k - 1)
    }
}

/// The first row at or after `r` that holds every header, or the number
/// of rows.
pub open spec fn header_row_from(g: Seq<Seq<CellV>>, hl: Seq<Seq<char>>, r: int) -> int
    decreases g.len() - r,
{
    if r < 0 || r >= g.len() {
        g.len() as int
    } else if all_found(g[r], hl) {
        r
    } else {
        header_row_from(g, hl, r + 1)
    }
}

/// The column of each header in the header row.
pub open spec fn header_cols(row: Seq<CellV>, hl: Seq<Seq<char>>) -> Seq<int> {
    hl.map_values(|n: Seq<char>| last_upto(texts(row), n, done_at(row, hl)))
}

/// The number of rows from `r` on whose cell in column `c` has kind `k`.
pub open spec fn kind_run(g: Seq<Seq<CellV>>, c: int, k: CellKind, r: int) -> int
    decreases g.len() - r,
{
    if 0 <= r < g.len() && g[r][c].kind == k {
        1 + kind_run(g, c, k, r + 1)
    } else {
        0
    }
}

/// The number of data rows below the header row `hr`, by the primary
/// column `pc`.
pub open spec fn data_len(g: Seq<Seq<CellV>>, hr: int, pc: int) -> int {
    if hr + 1 < g.len() {
        kind_run(g, pc, g[hr + 1][pc].kind, hr + 1)
    } else {
        0
    }
}

/// The columns of `cols` in increasing order: those below `w` that occur
/// in `cols`.
pub open spec fn ordered_cols(cols: Seq<int>, w: int) -> Seq<int>
    decreases w,
{
    if w <= 0 {
        seq![]
    } else if cols.contains(w - 1) {
        ordered_cols(cols, w - 1).push(w - 1)
    } else {
        ordered_cols(cols, w - 1)
    }
}

/// The kind of a column: that of its first non-empty cell, or text when
/// they differ; `None` when every cell is empty.
pub open spec fn column_kind(cells: Seq<CellV>) -> Option<CellKind>
    decreases cells.len(),
{
    if cells.len() == 0 {
        None
    } else {
        let k = column_kind(cells.drop_last());
        let last = cells.last().kind;
        if last == CellKind::Null {
            k
        } else {
            match k {
                None => Some(last),
                Some(a) => if a == last {
                    Some(a)
                } else {
                    Some(CellKind::Text)
                },
            }
        }
    }
}

/// A cell read in a column of kind `k`: a number, an integer or a date as
/// the cell reads (null when it does not); text in any other column.
pub open spec fn cell_value(c: CellV, k: Option<CellKind>) -> VVal {
    match k {
        None => VVal::Null,
        Some(CellKind::Float) => match c.num {
            Some(m) => VVal::Num(m),
            None => VVal::Null,
        },
        Some(CellKind::Int) => match c.int {
            Some(i) => VVal::Int(i),
            None => VVal::Null,
        },
        Some(CellKind::Date) => match c.date {
            Some(d) => VVal::Date(d),
            None => VVal::Null,
        },
        Some(_) => VVal::Str(c.text),
    }
}

/// The table of a grid, by its headers and primary column: an error when
/// no row holds every header (see the module).
pub open spec fn read_spec(g: Seq<Seq<CellV>>, headers: Seq<Seq<char>>, primary: Seq<char>) -> Result<crate::table::TableV, super::ExcelErrorV> {
    let hl = dedup(headers.push(primary));
    let hr = header_row_from(g, hl, 0);
    if hr >= g.len() {
        Err(super::ExcelErrorV::Find(not_found()))
    } else {
        let row = g[hr];
        let pc = last_upto(texts(row), primary, done_at(row, hl));
        let n = data_len(g, hr, pc);
        let cols = ordered_cols(header_cols(row, hl), row.len() as int);
        Ok(crate::table::TableV {
            names: cols.map_values(|c: int| texts(row)[c]),
            rows: Seq::new(
                n as nat,
                |i: int| cols.map_values(|c: int| cell_value(g[hr + 1 + i][c], column_kind(column_cells(g, hr, n, c)))),
            ),
        })
    }
}

/// The data cells of column `c`: the `n` rows below the header row `hr`.
pub open spec fn column_cells(g: Seq<Seq<CellV>>, hr: int, n: int, c: int) -> Seq<CellV> {
    Seq::new(n as nat, |i: int| g[hr + 1 + i][c])
}

pub open spec fn not_found() -> Seq<char> {
    "未找到所有的表头"@
}

// ---------------------------------------------------------------------------
// Lemmas
// ---------------------------------------------------------------------------

pub proof fn lemma_done_at(row: Seq<CellV>, hl: Seq<Seq<char>>)
    requires
        all_found(row, hl),
    ensures
        -1 <= done_at(row, hl) < row.len(),
        forall|h: int| 0 <= h < hl.len() ==> find_name(texts(row), #[trigger] hl[h]) <= done_at(row, hl),
    decreases hl.len(),
{
    if hl.len() > 0 {
        let d = hl.drop_last();
        assert(all_found(row, d)) by {
            assert forall|h: int| 0 <= h < d.len() implies find_name(texts(row), #[trigger] d[h]) < row.len() by {
                assert(d[h] == hl[h]);
            }
        }
        lemma_done_at(row, d);
        assert(hl[hl.len() - 1] == hl.last());
        lemma_find_name(texts(row), hl.last());
        assert forall|h: int| 0 <= h < hl.len() implies find_name(texts(row), #[trigger] hl[h]) <= done_at(row, hl) by {
            if h < hl.len() - 1 {
                assert(hl[h] == d[h]);
            }
        }
    }
}

pub proof fn lemma_last_upto(t: Seq<Seq<char>>, n: Seq<char>, k: int)
    requires
        0 <= find_name(t, n) <= k < t.len(),
    ensures
        find_name(t, n) <= last_upto(t, n, k) <= k,
        t[last_upto(t, n, k)] == n,
    decreases k + 1,
{
    lemma_find_name(t, n);
    if t[k] != n {
        lemma_last_upto(t, n, k - 1);
    }
}

/// The header row, when there is one, holds every header.
pub proof fn lemma_header_row(g: Seq<Seq<CellV>>, hl: Seq<Seq<char>>, r: int)
    requires
        0 <= r <= g.len(),
    ensures
        r <= header_row_from(g, hl, r) <= g.len(),
        header_row_from(g, hl, r) < g.len() ==> all_found(g[header_row_from(g, hl, r)], hl),
    decreases g.len() - r,
{
    if r < g.len() && !all_found(g[r], hl) {
        lemma_header_row(g, hl, r + 1);
    }
}

pub proof fn lemma_kind_run(g: Seq<Seq<CellV>>, c: int, k: CellKind, r: int)
    requires
        0 <= r <= g.len(),
    ensures
        0 <= kind_run(g, c, k, r) <= g.len() - r,
    decreases g.len() - r,
{
    if r < g.len() && g[r][c].kind == k {
        lemma_kind_run(g, c, k, r + 1);
    }
}

} // verus!
