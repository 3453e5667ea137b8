//! Statistics of a freight and a customs reconciliation: the lines of
//! either that differ, side by side.
//!
//! The customs lines are spread over their waybills (a customs line lists
//! its waybills separated by commas), then freight and customs lines are
//! paired by waybill and source the way a full outer join pairs them: each
//! freight line with every customs line of the same waybill and source, or
//! alone; then each customs line that no freight line matches, alone.  Only
//! the pairs with a difference on either side are kept.
use super::{RunError, RunErrorV};
use crate::parser::{check_text, cols_text, first_absent, indices, resolve, ParseError, ParseErrorV};
use crate::reconcile::reconciler::{num_or_null, numeric_col, column_numeric};
use crate::reconcile::width::{key_match, keys_match, RowV};
use crate::table::{find_index, lemma_find_name, rows_view, Table, TableV};
use crate::text::{split_char, split_on};
use crate::value::{num_of, numeric, strs, vals, VVal, Value};
use crate::parser::names_of;
use crate::text::owned;
use vstd::prelude::*;

verus! {

/// The columns read from the customs result.
pub open spec fn customs_cols() -> Seq<Seq<char>> {
    seq!["运单号"@, "_source"@, "金额"@, "_summary"@]
}

/// The columns read from the freight result.
pub open spec fn freight_cols() -> Seq<Seq<char>> {
    seq!["单价"@, "计费重"@, "运单号"@, "_source"@, "日期"@, "货代名称"@, "货件单号"@, "物流中心编码"@, "件数"@, "_summary"@]
}

/// The columns of the statistics.
pub open spec fn stasis_names() -> Seq<Seq<char>> {
    seq![
        "货代名称"@,
        "运单号"@,
        "数据来源"@,
        "提货时间"@,
        "货件单号"@,
        "物流中心编码"@,
        "物流单价"@,
        "箱数"@,
        "货件计费重"@,
        "预估运费"@,
        "报关费"@,
        "运费差异"@,
        "报关费差异"@,
    ]
}

/// Truncating division by a million.
pub open spec fn div_million(p: int) -> int {
    if p >= 0 {
        p / 1_000_000
    } else {
        -((-p) / 1_000_000)
    }
}

/// The product of two numbers in millionths (the fractional part beyond
/// six digits dropped); null when either is not a number, or when the
/// exact product of the millionths leaves the `i128` range.
pub open spec fn product_v(a: VVal, b: VVal) -> VVal {
    match (num_of(a), num_of(b)) {
        (Some(x), Some(y)) => if -i128::MAX <= x * y <= i128::MAX {
            VVal::Num(div_million(x * y) as i128)
        } else {
            VVal::Null
        },
        _ => VVal::Null,
    }
}

/// A freight line: estimated freight, waybill, source, date, forwarder,
/// shipment numbers, warehouse, unit price, pieces, weight, difference.
pub open spec fn freight_line(x: RowV, f: Seq<int>) -> RowV {
    seq![product_v(x[f[0]], x[f[1]]), x[f[2]], x[f[3]], x[f[4]], x[f[5]], x[f[6]], x[f[7]], x[f[0]], x[f[8]], x[f[1]], x[f[9]]]
}

/// The waybills of a customs line.
pub open spec fn waybills(v: VVal) -> Seq<Seq<char>> {
    match v {
        VVal::Str(s) => split_on(s, ','),
        _ => seq![],
    }
}

/// The lines of one customs row, one per waybill: waybill, source, fee,
/// difference.
pub open spec fn customs_lines_of(x: RowV, c: Seq<int>) -> Seq<RowV> {
    waybills(x[c[0]]).map_values(|w: Seq<char>| seq![VVal::Str(w), x[c[1]], x[c[2]], x[c[3]]])
}

/// The customs lines of all rows, in order.
pub open spec fn customs_lines(rows: Seq<RowV>, c: Seq<int>) -> Seq<RowV>
    decreases rows.len(),
{
    if rows.len() == 0 {
        seq![]
    } else {
        customs_lines(rows.drop_last(), c) + customs_lines_of(rows.last(), c)
    }
}

/// Whether a freight line and a customs line have the same waybill and
/// source.
pub open spec fn pair_match(f: RowV, c: RowV) -> bool {
    key_match(f[1], c[0]) && key_match(f[2], c[1])
}

/// The customs lines that match a freight line.
pub open spec fn customs_of(cs: Seq<RowV>, f: RowV) -> Seq<RowV>
    decreases cs.len(),
{
    if cs.len() == 0 {
        seq![]
    } else if pair_match(f, cs.last()) {
        customs_of(cs.drop_last(), f).push(cs.last())
    } else {
        customs_of(cs.drop_last(), f)
    }
}

/// Whether some freight line matches a customs line.
pub open spec fn has_freight(fs: Seq<RowV>, c: RowV) -> bool {
    exists|i: int| 0 <= i < fs.len() && pair_match(#[trigger] fs[i], c)
}

/// A line of the statistics from a pair; a missing side gives nulls.
pub open spec fn stasis_line(f: Option<RowV>, c: Option<RowV>) -> RowV {
    let vf = |k: int| match f {
        Some(x) => x[k],
        None => VVal::Null,
    };
    let vc = |k: int| match c {
        Some(x) => x[k],
        None => VVal::Null,
    };
    seq![vf(4), vf(1), vf(2), vf(3), vf(5), vf(6), vf(7), vf(8), vf(9), vf(0), vc(2), vf(10), vc(3)]
}

/// Whether a line of the statistics shows a difference.
pub open spec fn differs(l: RowV) -> bool {
    !(l[11] is Null) || !(l[12] is Null)
}

/// The lines kept: those that differ.
pub open spec fn kept(ls: Seq<RowV>) -> Seq<RowV>
    decreases ls.len(),
{
    if ls.len() == 0 {
        seq![]
    } else if differs(ls.last()) {
        kept(ls.drop_last()).push(ls.last())
    } else {
        kept(ls.drop_last())
    }
}

/// The lines of the freight lines, in order.
pub open spec fn freight_pairs(fs: Seq<RowV>, cs: Seq<RowV>) -> Seq<RowV>
    decreases fs.len(),
{
    if fs.len() == 0 {
        seq![]
    } else {
        let f = fs.last();
        let m = customs_of(cs, f);
        freight_pairs(fs.drop_last(), cs) + if m.len() == 0 {
            seq![stasis_line(Some(f), None)]
        } else {
            m.map_values(|c: RowV| stasis_line(Some(f), Some(c)))
        }
    }
}

/// The lines of the customs lines that no freight line matches, in order.
pub open spec fn customs_alone(fs: Seq<RowV>, cs: Seq<RowV>) -> Seq<RowV>
    decreases cs.len(),
{
    if cs.len() == 0 {
        seq![]
    } else if has_freight(fs, cs.last()) {
        customs_alone(fs, cs.drop_last())
    } else {
        customs_alone(fs, cs.drop_last()).push(stasis_line(None, Some(cs.last())))
    }
}

/// The statistics of a freight and a customs long result: an error when a
/// column is missing (customs columns first), when a customs waybill is
/// not text, or when a freight price or weight is not a number; else the
/// differing lines (see the module).
pub open spec fn stasis_spec(freight: TableV, customs: TableV) -> Result<TableV, RunErrorV> {
    let cm = first_absent(customs_cols(), customs);
    let fm = first_absent(freight_cols(), freight);
    let ci = indices(customs_cols(), customs);
    let fi = indices(freight_cols(), freight);
    if cm < 4 {
        Err(RunErrorV::Column(customs_cols()[cm]))
    } else if fm < 10 {
        Err(RunErrorV::Column(freight_cols()[fm]))
    } else if !cols_text(customs, seq![ci[0]]) {
        Err(RunErrorV::NotText("运单号"@))
    } else if !numeric_col(freight, fi[0]) {
        Err(RunErrorV::NotNumeric("单价"@))
    } else if !numeric_col(freight, fi[1]) {
        Err(RunErrorV::NotNumeric("计费重"@))
    } else {
        let fs = freight.rows.map_values(|x: RowV| freight_line(x, fi));
        let cs = customs_lines(customs.rows, ci);
        Ok(TableV { names: stasis_names(), rows: kept(freight_pairs(fs, cs) + customs_alone(fs, cs)) })
    }
}

// ---------------------------------------------------------------------------
// Computing
// ---------------------------------------------------------------------------

/// The product of two values (see [`product_v`]).
pub fn product(a: &Value, b: &Value) -> (r: Value)
    ensures
        r@ == product_v(a@, b@),
{
    match (numeric(a), numeric(b)) {
        (Some(x), Some(y)) => match x.checked_mul(y) {
            Some(p) => {
                if p == i128::MIN {
                    Value::Null
                } else if p >= 0 {
                    Value::Num(p / 1_000_000)
                } else {
                    Value::Num(-((-p) / 1_000_000))
                }
            },
            None => Value::Null,
        },
        _ => Value::Null,
    }
}

fn freight_line_of(x: &Vec<Value>, f: &Vec<usize>) -> (r: Vec<Value>)
    requires
        f@.len() == 10,
        forall|k: int| 0 <= k < 10 ==> (#[trigger] f@[k]) < x@.len(),
    ensures
        vals(r@) == freight_line(vals(x@), f@.map_values(|v: usize| v as int)),
        r@.len() == 11,
{
    let ghost fi = f@.map_values(|v: usize| v as int);
    let mut r: Vec<Value> = Vec::new();
    r.push(product(&x[f[0]], &x[f[1]]));
    r.push(x[f[2]].copy());
    r.push(x[f[3]].copy());
    r.push(x[f[4]].copy());
    r.push(x[f[5]].copy());
    r.push(x[f[6]].copy());
    r.push(x[f[7]].copy());
    r.push(x[f[0]].copy());
    r.push(x[f[8]].copy());
    r.push(x[f[1]].copy());
    r.push(x[f[9]].copy());
    proof {
        assert forall|k: int| 0 <= k < 10 implies #[trigger] vals(x@)[fi[k]] == x@[f@[k] as int]@ by {
        }
    }
    assert(vals(r@) =~= freight_line(vals(x@), fi));
    r
}

/// Appends the lines of each customs row.
fn push_customs_lines(out: &mut Vec<Vec<Value>>, t: &Table, c: &Vec<usize>)
    requires
        t@.wf(),
        c@.len() == 4,
        forall|k: int| 0 <= k < 4 ==> (#[trigger] c@[k]) < t@.names.len(),
        forall|k: int| 0 <= k < old(out)@.len() ==> (#[trigger] old(out)@[k])@.len() == 4,
    ensures
        rows_view(final(out)@) == rows_view(old(out)@) + customs_lines(t@.rows, c@.map_values(|v: usize| v as int)),
        forall|k: int| 0 <= k < final(out)@.len() ==> (#[trigger] final(out)@[k])@.len() == 4,
{
    let ghost ci = c@.map_values(|v: usize| v as int);
    let ghost rows = t@.rows;
    let ghost base = rows_view(out@);
    let mut i: usize = 0;
    while i < t.rows.len()
        invariant
            t@.wf(),
            rows == t@.rows,
            ci == c@.map_values(|v: usize| v as int),
            c@.len() == 4,
            forall|k: int| 0 <= k < 4 ==> (#[trigger] c@[k]) < t@.names.len(),
            forall|k: int| 0 <= k < out@.len() ==> (#[trigger] out@[k])@.len() == 4,
            i <= rows.len(),
            rows_view(out@) == base + customs_lines(rows.take(i as int), ci),
        decreases rows.len() - i,
    {
        let x = &t.rows[i];
        assert(vals(x@) == rows[i as int]);
        assert(rows[i as int].len() == t@.names.len());
        assert(rows.take(i + 1).drop_last() =~= rows.take(i as int));
        assert(rows.take(i + 1).last() == rows[i as int]);
        proof {
            assert forall|k: int| 0 <= k < 4 implies #[trigger] rows[i as int][ci[k]] == x@[c@[k] as int]@ by {
                assert(vals(x@)[c@[k] as int] == x@[c@[k] as int]@);
            }
        }
        let ghost before = rows_view(out@);
        let ghost lines = customs_lines_of(rows[i as int], ci);
        let pieces: Vec<String> = match &x[c[0]] {
            Value::Str(s) => split_char(s.as_str(), ','),
            _ => Vec::new(),
        };
        assert(pieces@.len() == lines.len());
        let mut j: usize = 0;
        while j < pieces.len()
            invariant
                t@.wf(),
                rows == t@.rows,
                i < rows.len(),
                vals(x@) == rows[i as int],
                ci == c@.map_values(|v: usize| v as int),
                c@.len() == 4,
                forall|k: int| 0 <= k < 4 ==> (#[trigger] c@[k]) < x@.len(),
                forall|k: int| 0 <= k < out@.len() ==> (#[trigger] out@[k])@.len() == 4,
                lines == customs_lines_of(rows[i as int], ci),
                pieces@.len() == lines.len(),
                forall|k: int| 0 <= k < pieces@.len() ==> (#[trigger] pieces@[k])@ == waybills(rows[i as int][ci[0]])[k],
                j <= pieces@.len(),
                rows_view(out@) == before + lines.take(j as int),
            decreases pieces@.len() - j,
        {
            let mut line: Vec<Value> = Vec::new();
            line.push(Value::Str(pieces[j].clone()));
            line.push(x[c[1]].copy());
            line.push(x[c[2]].copy());
            line.push(x[c[3]].copy());
            assert(vals(line@) =~= lines[j as int]);
            let ghost o = out@;
            out.push(line);
            assert(rows_view(out@) =~= rows_view(o).push(vals(line@)));
            assert(lines.take(j + 1) =~= lines.take(j as int).push(lines[j as int]));
            assert forall|k: int| 0 <= k < out@.len() implies (#[trigger] out@[k])@.len() == 4 by {
                if k < o.len() {
                    assert(out@[k] == o[k]);
                }
            }
            j = j + 1;
        }
        assert(lines.take(pieces@.len() as int) =~= lines);
        i = i + 1;
    }
    assert(rows.take(rows.len() as int) =~= rows);
}

/// The view of a line that may be missing.
pub open spec fn opt_row(o: Option<&Vec<Value>>) -> Option<RowV> {
    match o {
        Some(r) => Some(vals(r@)),
        None => None,
    }
}

fn at(o: Option<&Vec<Value>>, k: usize) -> (r: Value)
    requires
        o matches Some(x) ==> k < x@.len(),
    ensures
        r@ == match opt_row(o) {
            Some(x) => x[k as int],
            None => VVal::Null,
        },
{
    match o {
        Some(x) => x[k].copy(),
        None => Value::Null,
    }
}

fn stasis_line_of(f: Option<&Vec<Value>>, c: Option<&Vec<Value>>) -> (r: Vec<Value>)
    requires
        f matches Some(x) ==> x@.len() == 11,
        c matches Some(y) ==> y@.len() == 4,
    ensures
        vals(r@) == stasis_line(opt_row(f), opt_row(c)),
        r@.len() == 13,
{
    let mut r: Vec<Value> = Vec::new();
    r.push(at(f, 4));
    r.push(at(f, 1));
    r.push(at(f, 2));
    r.push(at(f, 3));
    r.push(at(f, 5));
    r.push(at(f, 6));
    r.push(at(f, 7));
    r.push(at(f, 8));
    r.push(at(f, 9));
    r.push(at(f, 0));
    r.push(at(c, 2));
    r.push(at(f, 10));
    r.push(at(c, 3));
    assert(vals(r@) =~= stasis_line(opt_row(f), opt_row(c)));
    r
}

fn lines_match(f: &Vec<Value>, c: &Vec<Value>) -> (r: bool)
    requires
        f@.len() == 11,
        c@.len() == 4,
    ensures
        r == pair_match(vals(f@), vals(c@)),
{
    keys_match(&f[1], &c[0]) && keys_match(&f[2], &c[1])
}

/// All lines of the join, before the filter.
fn joined_lines(fs: &Vec<Vec<Value>>, cs: &Vec<Vec<Value>>) -> (out: Vec<Vec<Value>>)
    requires
        forall|k: int| 0 <= k < fs@.len() ==> (#[trigger] fs@[k])@.len() == 11,
        forall|k: int| 0 <= k < cs@.len() ==> (#[trigger] cs@[k])@.len() == 4,
    ensures
        rows_view(out@) == freight_pairs(rows_view(fs@), rows_view(cs@)) + customs_alone(rows_view(fs@), rows_view(cs@)),
        forall|k: int| 0 <= k < out@.len() ==> (#[trigger] out@[k])@.len() == 13,
{
    let ghost fv = rows_view(fs@);
    let ghost cv = rows_view(cs@);
    let mut out: Vec<Vec<Value>> = Vec::new();
    let mut i: usize = 0;
    while i < fs.len()
        invariant
            fv == rows_view(fs@),
            cv == rows_view(cs@),
            forall|k: int| 0 <= k < fs@.len() ==> (#[trigger] fs@[k])@.len() == 11,
            forall|k: int| 0 <= k < cs@.len() ==> (#[trigger] cs@[k])@.len() == 4,
            i <= fs@.len(),
            forall|k: int| 0 <= k < out@.len() ==> (#[trigger] out@[k])@.len() == 13,
            rows_view(out@) == freight_pairs(fv.take(i as int), cv),
        decreases fs@.len() - i,
    {
        let f = &fs[i];
        assert(fv[i as int] == vals(f@));
        assert(fv.take(i + 1).drop_last() =~= fv.take(i as int));
        assert(fv.take(i + 1).last() == fv[i as int]);
        let ghost before = rows_view(out@);
        let mut any = false;
        let mut j: usize = 0;
        while j < cs.len()
            invariant
                fv == rows_view(fs@),
                cv == rows_view(cs@),
                forall|k: int| 0 <= k < cs@.len() ==> (#[trigger] cs@[k])@.len() == 4,
                f@.len() == 11,
                i < fs@.len(),
                fv[i as int] == vals(f@),
                j <= cs@.len(),
                forall|k: int| 0 <= k < out@.len() ==> (#[trigger] out@[k])@.len() == 13,
                any == (customs_of(cv.take(j as int), vals(f@)).len() > 0),
                rows_view(out@) == before + customs_of(cv.take(j as int), vals(f@)).map_values(
                    |c: RowV| stasis_line(Some(vals(f@)), Some(c)),
                ),
            decreases cs@.len() - j,
        {
            let c = &cs[j];
            assert(cv[j as int] == vals(c@));
            assert(cv.take(j + 1).drop_last() =~= cv.take(j as int));
            assert(cv.take(j + 1).last() == cv[j as int]);
            if lines_match(f, c) {
                let line = stasis_line_of(Some(f), Some(c));
                let ghost o = rows_view(out@);
                out.push(line);
                assert(rows_view(out@) =~= o.push(vals(line@)));
                assert(rows_view(out@) =~= before + customs_of(cv.take(j + 1), vals(f@)).map_values(
                    |c: RowV| stasis_line(Some(vals(f@)), Some(c)),
                ));
                any = true;
            }
            j = j + 1;
        }
        assert(cv.take(cs@.len() as int) =~= cv);
        if !any {
            let line = stasis_line_of(Some(f), None);
            let ghost o = rows_view(out@);
            out.push(line);
            assert(rows_view(out@) =~= o.push(vals(line@)));
        }
        assert(rows_view(out@) =~= freight_pairs(fv.take(i + 1), cv));
        i = i + 1;
    }
    assert(fv.take(fs@.len() as int) =~= fv);
    let ghost mid = rows_view(out@);
    let mut j: usize = 0;
    while j < cs.len()
        invariant
            fv == rows_view(fs@),
            cv == rows_view(cs@),
            forall|k: int| 0 <= k < fs@.len() ==> (#[trigger] fs@[k])@.len() == 11,
            forall|k: int| 0 <= k < cs@.len() ==> (#[trigger] cs@[k])@.len() == 4,
            j <= cs@.len(),
            mid == freight_pairs(fv, cv),
            forall|k: int| 0 <= k < out@.len() ==> (#[trigger] out@[k])@.len() == 13,
            rows_view(out@) == mid + customs_alone(fv, cv.take(j as int)),
        decreases cs@.len() - j,
    {
        let c = &cs[j];
        assert(cv[j as int] == vals(c@));
        assert(cv.take(j + 1).drop_last() =~= cv.take(j as int));
        assert(cv.take(j + 1).last() == cv[j as int]);
        let mut found = false;
        let mut i: usize = 0;
        while i < fs.len()
            invariant
                fv == rows_view(fs@),
                forall|k: int| 0 <= k < fs@.len() ==> (#[trigger] fs@[k])@.len() == 11,
                c@.len() == 4,
                i <= fs@.len(),
                found ==> has_freight(fv, vals(c@)),
                !found ==> forall|k: int| 0 <= k < i ==> !pair_match(#[trigger] fv[k], vals(c@)),
            decreases fs@.len() - i,
        {
            assert(fv[i as int] == vals(fs@[i as int]@));
            if lines_match(&fs[i], c) {
                assert(pair_match(fv[i as int], vals(c@)));
                found = true;
            }
            i = i + 1;
        }
        if !found {
            let line = stasis_line_of(None, Some(c));
            let ghost o = rows_view(out@);
            out.push(line);
            assert(rows_view(out@) =~= o.push(vals(line@)));
            assert(!has_freight(fv, cv[j as int]));
        }
        assert(rows_view(out@) =~= mid + customs_alone(fv, cv.take(j + 1)));
        j = j + 1;
    }
    assert(cv.take(cs@.len() as int) =~= cv);
    out
}

/// The lines that differ (see [`kept`]).
fn keep_differing(ls: &Vec<Vec<Value>>) -> (out: Vec<Vec<Value>>)
    requires
        forall|k: int| 0 <= k < ls@.len() ==> (#[trigger] ls@[k])@.len() == 13,
    ensures
        rows_view(out@) == kept(rows_view(ls@)),
{
    let ghost lv = rows_view(ls@);
    let mut out: Vec<Vec<Value>> = Vec::new();
    let mut i: usize = 0;
    while i < ls.len()
        invariant
            lv == rows_view(ls@),
            forall|k: int| 0 <= k < ls@.len() ==> (#[trigger] ls@[k])@.len() == 13,
            i <= ls@.len(),
            rows_view(out@) == kept(lv.take(i as int)),
        decreases ls@.len() - i,
    {
        let l = &ls[i];
        assert(lv[i as int] == vals(l@));
        assert(lv.take(i + 1).drop_last() =~= lv.take(i as int));
        assert(lv.take(i + 1).last() == lv[i as int]);
        if !l[11].is_null() || !l[12].is_null() {
            let c = crate::value::copy_row(l);
            let ghost o = rows_view(out@);
            out.push(c);
            assert(rows_view(out@) =~= o.push(vals(c@)));
        }
        i = i + 1;
    }
    assert(lv.take(ls@.len() as int) =~= lv);
    out
}

pub open spec fn stasis_result_view(r: Result<Table, RunError>) -> Result<TableV, RunErrorV> {
    match r {
        Ok(t) => Ok(t@),
        Err(e) => Err(e@),
    }
}

/// The statistics of a freight and a customs long result (see
/// [`stasis_spec`]).
pub fn stasis_freight_and_customs(freight: Table, customs: Table) -> (r: Result<Table, RunError>)
    requires
        freight@.wf(),
        customs@.wf(),
    ensures
        stasis_result_view(r) == stasis_spec(freight@, customs@),
{
    let cn = names_of(vec!["运单号", "_source", "金额", "_summary"]);
    assert(strs(cn@) =~= customs_cols());
    let ci = match resolve(&customs, &cn) {
        Ok(ix) => ix,
        Err(ParseError::ColumnNotFound(n)) => {
            return Err(RunError::Column(n));
        },
        Err(_) => {
            return Err(RunError::Any(owned("")));
        },
    };
    let fnames = names_of(vec!["单价", "计费重", "运单号", "_source", "日期", "货代名称", "货件单号", "物流中心编码", "件数", "_summary"]);
    assert(strs(fnames@) =~= freight_cols());
    let fi = match resolve(&freight, &fnames) {
        Ok(ix) => ix,
        Err(ParseError::ColumnNotFound(n)) => {
            return Err(RunError::Column(n));
        },
        Err(_) => {
            return Err(RunError::Any(owned("")));
        },
    };
    let ghost civ = indices(customs_cols(), customs@);
    let ghost fiv = indices(freight_cols(), freight@);
    assert(civ =~= ci@.map_values(|x: usize| x as int));
    assert(fiv =~= fi@.map_values(|x: usize| x as int));
    let tcols = vec![ci[0]];
    assert(tcols@.map_values(|c: usize| c as int) =~= seq![civ[0]]);
    if !check_text(&customs, &tcols) {
        return Err(RunError::NotText(owned("运单号")));
    }
    if !column_numeric(&freight, fi[0]) {
        return Err(RunError::NotNumeric(owned("单价")));
    }
    if !column_numeric(&freight, fi[1]) {
        return Err(RunError::NotNumeric(owned("计费重")));
    }
    // Freight lines.
    let ghost frows = freight@.rows;
    let mut fs: Vec<Vec<Value>> = Vec::new();
    let mut i: usize = 0;
    while i < freight.rows.len()
        invariant
            freight@.wf(),
            frows == freight@.rows,
            fi@.len() == 10,
            fiv == fi@.map_values(|x: usize| x as int),
            forall|k: int| 0 <= k < 10 ==> (#[trigger] fi@[k]) < freight@.names.len(),
            i <= frows.len(),
            fs@.len() == i,
            forall|k: int| 0 <= k < fs@.len() ==> (#[trigger] fs@[k])@.len() == 11,
            rows_view(fs@) == frows.take(i as int).map_values(|x: RowV| freight_line(x, fiv)),
        decreases frows.len() - i,
    {
        let x = &freight.rows[i];
        assert(vals(x@) == frows[i as int]);
        assert(frows[i as int].len() == freight@.names.len());
        let line = freight_line_of(x, &fi);
        let ghost o = rows_view(fs@);
        fs.push(line);
        assert(rows_view(fs@) =~= o.push(vals(line@)));
        i = i + 1;
        assert(rows_view(fs@) =~= frows.take(i as int).map_values(|x: RowV| freight_line(x, fiv)));
    }
    assert(frows.take(frows.len() as int) =~= frows);
    let mut cs: Vec<Vec<Value>> = Vec::new();
    assert(rows_view(cs@) =~= Seq::<RowV>::empty());
    push_customs_lines(&mut cs, &customs, &ci);
    let all = joined_lines(&fs, &cs);
    let rows = keep_differing(&all);
    let names = names_of(vec![
        "货代名称",
        "运单号",
        "数据来源",
        "提货时间",
        "货件单号",
        "物流中心编码",
        "物流单价",
        "箱数",
        "货件计费重",
        "预估运费",
        "报关费",
        "运费差异",
        "报关费差异",
    ]);
    assert(strs(names@) =~= stasis_names());
    Ok(Table { names, rows })
}

proof fn lemma_kept_differ(ls: Seq<RowV>)
    ensures
        forall|i: int| 0 <= i < kept(ls).len() ==> differs(#[trigger] kept(ls)[i]),
    decreases ls.len(),
{
    if ls.len() > 0 {
        lemma_kept_differ(ls.drop_last());
        let p = kept(ls.drop_last());
        if differs(ls.last()) {
            assert forall|i: int| 0 <= i < p.push(ls.last()).len() implies differs(#[trigger] p.push(ls.last())[i]) by {
                if i < p.len() {
                    assert(p.push(ls.last())[i] == p[i]);
                }
            }
        }
    }
}

/// Every line of the statistics shows a difference, in freight or in
/// customs.
pub proof fn law_stasis_lines_differ(freight: TableV, customs: TableV, out: TableV)
    requires
        stasis_spec(freight, customs) == Ok::<TableV, RunErrorV>(out),
    ensures
        forall|i: int| 0 <= i < out.rows.len() ==> !((#[trigger] out.rows[i])[11] is Null) || !(out.rows[i][12] is Null),
{
    let fi = indices(freight_cols(), freight);
    let ci = indices(customs_cols(), customs);
    let fs = freight.rows.map_values(|x: RowV| freight_line(x, fi));
    let cs = customs_lines(customs.rows, ci);
    lemma_kept_differ(freight_pairs(fs, cs) + customs_alone(fs, cs));
}

/// A line of the statistics has the waybill (column 1) and source
/// (column 2) of freight row `a`.
pub open spec fn freight_row_gives(l: RowV, freight: TableV, a: int) -> bool {
    &&& 0 <= a < freight.rows.len()
    &&& l[1] == freight.rows[a][freight.col("运单号"@)]
    &&& l[2] == freight.rows[a][freight.col("_source"@)]
}

/// A line of the statistics shows, as its waybill, source, customs fee
/// (column 10) and customs difference (column 12), the `j`-th waybill that
/// customs row `k` lists, and that row's source, amount and summary.
pub open spec fn customs_row_gives(l: RowV, customs: TableV, k: int, j: int) -> bool {
    &&& 0 <= k < customs.rows.len()
    &&& 0 <= j < waybills(customs.rows[k][customs.col("运单号"@)]).len()
    &&& l[1] == VVal::Str(waybills(customs.rows[k][customs.col("运单号"@)])[j])
    &&& l[2] == customs.rows[k][customs.col("_source"@)]
    &&& l[10] == customs.rows[k][customs.col("金额"@)]
    &&& l[12] == customs.rows[k][customs.col("_summary"@)]
}

/// A line of the statistics is sound against the freight and customs
/// lines: a line with a freight side has the waybill and source of a
/// freight line, and when it also shows a customs fee or difference, these
/// are those of a customs line of that same waybill and that same source.
pub open spec fn line_sound(l: RowV, fs: Seq<RowV>, cs: Seq<RowV>) -> bool {
    &&& !(l[1] is Null) ==> exists|a: int| 0 <= a < fs.len() && l[1] == (#[trigger] fs[a])[1] && l[2] == fs[a][2]
    &&& (!(l[1] is Null) && (!(l[10] is Null) || !(l[12] is Null))) ==> exists|b: int| 0 <= b < cs.len()
        && l[1] == (#[trigger] cs[b])[0] && l[2] == cs[b][1] && l[10] == cs[b][2] && l[12] == cs[b][3]
}

/// The customs lines matching a freight line are customs lines of its
/// waybill and source.
proof fn lemma_customs_of(cs: Seq<RowV>, f: RowV)
    ensures
        forall|i: int| 0 <= i < customs_of(cs, f).len() ==> pair_match(f, #[trigger] customs_of(cs, f)[i])
            && exists|b: int| 0 <= b < cs.len() && customs_of(cs, f)[i] == cs[b],
    decreases cs.len(),
{
    if cs.len() > 0 {
        let q = cs.drop_last();
        lemma_customs_of(q, f);
        let m = customs_of(q, f);
        assert forall|i: int| 0 <= i < customs_of(cs, f).len() implies pair_match(f, #[trigger] customs_of(cs, f)[i])
            && exists|b: int| 0 <= b < cs.len() && customs_of(cs, f)[i] == cs[b] by {
            if i < m.len() {
                assert(customs_of(cs, f)[i] == m[i]);
                let b = choose|b: int| 0 <= b < q.len() && m[i] == q[b];
                assert(cs[b] == q[b]);
            } else {
                assert(customs_of(cs, f)[i] == cs[cs.len() - 1]);
            }
        }
    }
}

/// Every line made from the first freight lines is sound.
proof fn lemma_freight_pairs_sound(fs: Seq<RowV>, cs: Seq<RowV>, all: Seq<RowV>)
    requires
        fs.len() <= all.len(),
        forall|a: int| 0 <= a < fs.len() ==> #[trigger] fs[a] == all[a],
    ensures
        forall|i: int| 0 <= i < freight_pairs(fs, cs).len() ==> line_sound(#[trigger] freight_pairs(fs, cs)[i], all, cs),
    decreases fs.len(),
{
    if fs.len() > 0 {
        let q = fs.drop_last();
        assert forall|a: int| 0 <= a < q.len() implies #[trigger] q[a] == all[a] by {
            assert(q[a] == fs[a]);
        }
        lemma_freight_pairs_sound(q, cs, all);
        let f = fs.last();
        let a2 = fs.len() - 1;
        assert(fs[a2] == all[a2]);
        let m = customs_of(cs, f);
        lemma_customs_of(cs, f);
        let tail = if m.len() == 0 {
            seq![stasis_line(Some(f), None)]
        } else {
            m.map_values(|c: RowV| stasis_line(Some(f), Some(c)))
        };
        let p = freight_pairs(q, cs);
        assert(freight_pairs(fs, cs) == p + tail);
        assert forall|i: int| 0 <= i < freight_pairs(fs, cs).len() implies line_sound(#[trigger] freight_pairs(fs, cs)[i], all, cs) by {
            if i < p.len() {
                assert(freight_pairs(fs, cs)[i] == p[i]);
            } else {
                let l = freight_pairs(fs, cs)[i];
                assert(l == tail[i - p.len()]);
                if m.len() == 0 {
                    assert(l == stasis_line(Some(f), None));
                    assert(l[1] == all[a2][1] && l[2] == all[a2][2]);
                } else {
                    let c = m[i - p.len()];
                    assert(l == stasis_line(Some(f), Some(c)));
                    assert(pair_match(f, c));
                    let b = choose|b: int| 0 <= b < cs.len() && m[i - p.len()] == cs[b];
                    assert(l[1] == all[a2][1] && l[2] == all[a2][2]);
                    assert(l[1] == cs[b][0] && l[2] == cs[b][1] && l[10] == cs[b][2] && l[12] == cs[b][3]);
                }
            }
        }
    }
}

/// The lines of customs lines alone have no freight side.
proof fn lemma_customs_alone_no_freight(fs: Seq<RowV>, cs: Seq<RowV>)
    ensures
        forall|i: int| 0 <= i < customs_alone(fs, cs).len() ==> (#[trigger] customs_alone(fs, cs)[i])[1] is Null,
    decreases cs.len(),
{
    if cs.len() > 0 {
        lemma_customs_alone_no_freight(fs, cs.drop_last());
        let p = customs_alone(fs, cs.drop_last());
        if !has_freight(fs, cs.last()) {
            assert forall|i: int| 0 <= i < p.push(stasis_line(None, Some(cs.last()))).len() implies (#[trigger] p.push(
                stasis_line(None, Some(cs.last())),
            )[i])[1] is Null by {
                if i < p.len() {
                    assert(p.push(stasis_line(None, Some(cs.last())))[i] == p[i]);
                }
            }
        }
    }
}

/// Keeping lines keeps only lines that were there.
proof fn lemma_kept_from(ls: Seq<RowV>)
    ensures
        forall|i: int| 0 <= i < kept(ls).len() ==> exists|j: int| 0 <= j < ls.len() && #[trigger] kept(ls)[i] == ls[j],
    decreases ls.len(),
{
    if ls.len() > 0 {
        let q = ls.drop_last();
        lemma_kept_from(q);
        let p = kept(q);
        assert forall|i: int| 0 <= i < kept(ls).len() implies exists|j: int| 0 <= j < ls.len() && #[trigger] kept(ls)[i] == ls[j] by {
            if i < p.len() {
                assert(kept(ls)[i] == p[i]);
                let j = choose|j: int| 0 <= j < q.len() && p[i] == q[j];
                assert(ls[j] == q[j]);
            } else {
                assert(kept(ls)[i] == ls[ls.len() - 1]);
            }
        }
    }
}

/// Customs line `l` is the `j`-th waybill of row `k`, with that row's
/// source, amount and summary.
pub open spec fn customs_line_from(l: RowV, rows: Seq<RowV>, c: Seq<int>, k: int, j: int) -> bool {
    &&& 0 <= k < rows.len()
    &&& 0 <= j < waybills(rows[k][c[0]]).len()
    &&& l == seq![VVal::Str(waybills(rows[k][c[0]])[j]), rows[k][c[1]], rows[k][c[2]], rows[k][c[3]]]
}

/// Each customs line is one waybill of a customs row, with that row's
/// source, amount and summary.
proof fn lemma_customs_line_from(rows: Seq<RowV>, c: Seq<int>, b: int)
    requires
        0 <= b < customs_lines(rows, c).len(),
    ensures
        exists|k: int, j: int| #[trigger] customs_line_from(customs_lines(rows, c)[b], rows, c, k, j),
    decreases rows.len(),
{
    let q = rows.drop_last();
    let p = customs_lines(q, c);
    let x = rows.last();
    let t = customs_lines_of(x, c);
    assert(customs_lines(rows, c) == p + t);
    if b < p.len() {
        lemma_customs_line_from(q, c, b);
        assert(customs_lines(rows, c)[b] == p[b]);
        let (k, j) = choose|k: int, j: int| #[trigger] customs_line_from(p[b], q, c, k, j);
        assert(rows[k] == q[k]);
        assert(customs_line_from(customs_lines(rows, c)[b], rows, c, k, j));
    } else {
        let j = b - p.len();
        assert(customs_lines(rows, c)[b] == t[j]);
        assert(rows[rows.len() - 1] == x);
        assert(t[j] == seq![VVal::Str(waybills(x[c[0]])[j]), x[c[1]], x[c[2]], x[c[3]]]);
        assert(customs_line_from(customs_lines(rows, c)[b], rows, c, rows.len() - 1, j));
    }
}

/// Every line of the statistics is sound against the freight and customs
/// lines it is made from.
proof fn lemma_stasis_lines_sound(fs: Seq<RowV>, cs: Seq<RowV>)
    ensures
        forall|i: int| 0 <= i < kept(freight_pairs(fs, cs) + customs_alone(fs, cs)).len() ==> line_sound(
            #[trigger] kept(freight_pairs(fs, cs) + customs_alone(fs, cs))[i],
            fs,
            cs,
        ),
{
    let ls = freight_pairs(fs, cs) + customs_alone(fs, cs);
    lemma_freight_pairs_sound(fs, cs, fs);
    lemma_customs_alone_no_freight(fs, cs);
    lemma_kept_from(ls);
    let fp = freight_pairs(fs, cs);
    assert forall|i: int| 0 <= i < kept(ls).len() implies line_sound(#[trigger] kept(ls)[i], fs, cs) by {
        let j = choose|j: int| 0 <= j < ls.len() && kept(ls)[i] == ls[j];
        if j < fp.len() {
            assert(ls[j] == fp[j]);
        } else {
            assert(ls[j] == customs_alone(fs, cs)[j - fp.len()]);
        }
    }
}

/// The statistics pair freight and customs by waybill and source alone:
/// a line with a freight side has the waybill and source of a freight row;
/// when it also shows a customs fee or difference, these are the amount
/// and summary of a customs row of that same source that lists that same
/// waybill.
#[verifier::rlimit(40)]
pub proof fn law_stasis_pairs_by_waybill_and_source(freight: TableV, customs: TableV, out: TableV)
    requires
        stasis_spec(freight, customs) == Ok::<TableV, RunErrorV>(out),
    ensures
        forall|i: int| 0 <= i < out.rows.len() && !((#[trigger] out.rows[i])[1] is Null) ==> exists|a: int|
            freight_row_gives(out.rows[i], freight, a),
        forall|i: int| 0 <= i < out.rows.len() && !((#[trigger] out.rows[i])[1] is Null) && (!(out.rows[i][10] is Null)
            || !(out.rows[i][12] is Null)) ==> exists|k: int, j: int| customs_row_gives(out.rows[i], customs, k, j),
{
    let fi = indices(freight_cols(), freight);
    let ci = indices(customs_cols(), customs);
    let fs = freight.rows.map_values(|x: RowV| freight_line(x, fi));
    let cs = customs_lines(customs.rows, ci);
    assert(out.rows == kept(freight_pairs(fs, cs) + customs_alone(fs, cs)));
    assert(fi[2] == freight.col("运单号"@) && fi[3] == freight.col("_source"@));
    assert(ci[0] == customs.col("运单号"@) && ci[1] == customs.col("_source"@) && ci[2] == customs.col("金额"@)
        && ci[3] == customs.col("_summary"@));
    lemma_stasis_lines_sound(fs, cs);
    assert forall|i: int| 0 <= i < out.rows.len() && !((#[trigger] out.rows[i])[1] is Null) implies exists|a: int|
        freight_row_gives(out.rows[i], freight, a) by {
        assert(line_sound(out.rows[i], fs, cs));
        let a = choose|a: int| 0 <= a < fs.len() && out.rows[i][1] == (#[trigger] fs[a])[1] && out.rows[i][2] == fs[a][2];
        assert(fs[a] == freight_line(freight.rows[a], fi));
        assert(freight_row_gives(out.rows[i], freight, a));
    }
    assert forall|i: int| 0 <= i < out.rows.len() && !((#[trigger] out.rows[i])[1] is Null) && (!(out.rows[i][10] is Null)
        || !(out.rows[i][12] is Null)) implies exists|k: int, j: int| customs_row_gives(out.rows[i], customs, k, j) by {
        assert(line_sound(out.rows[i], fs, cs));
        let b = choose|b: int| 0 <= b < cs.len() && out.rows[i][1] == (#[trigger] cs[b])[0] && out.rows[i][2] == cs[b][1]
            && out.rows[i][10] == cs[b][2] && out.rows[i][12] == cs[b][3];
        lemma_customs_line_from(customs.rows, ci, b);
        let (k, j) = choose|k: int, j: int| #[trigger] customs_line_from(cs[b], customs.rows, ci, k, j);
        assert(customs_row_gives(out.rows[i], customs, k, j));
    }
}

} // verus!
