//! The parser of Jingyida bills.
//!
//! Jingyida dates carry no year (`4月10`): the year of the configuration
//! is put before them.  A row with a freight price gives a freight line; a
//! row with another fee gives a customs line.  All freight lines come
//! first, then all customs lines, each group in the order of the sheet.
use super::{
    bill_names, bill_names_exec, check_text, clean_list_v, clean_list_value, cols_text,
    first_absent, indices, resolve, strip_v, strip_value, Parse, ParseError, ParseErrorV,
};
use crate::dates::{current_year, parse_date_prefix, strptime_prefix_days};
use crate::headers::JydHeaders;
use crate::table::{rows_view, Table, TableV};
use crate::text::{concat, int_text, owned, push_char, push_int};
use crate::validate::BillData;
use crate::value::{push_value, value_text, vals, VVal, Value};
use vstd::prelude::*;

verus! {

/// The parser of Jingyida bills.
pub struct JydParser;

/// How a Jingyida bill is read.
pub struct JydParseConfig {
    /// The format of the dates, without the year.
    pub datefmt: String,
    /// The year of the dates.
    pub year: i32,
    /// The column names.
    pub headers: JydHeaders,
}

impl JydParseConfig {
    /// A copy of the configuration.
    pub fn copy(&self) -> (r: Self)
        ensures
            r == *self,
    {
        JydParseConfig { datefmt: self.datefmt.clone(), year: self.year, headers: self.headers.copy() }
    }

    /// The configuration of Jingyida bills, for the current year.
    pub fn default() -> (r: Self)
        ensures
            r.datefmt@ == "%-m月%-d"@,
            r.headers.values() == JydHeaders::labels(),
    {
        JydParseConfig { datefmt: owned("%-m月%-d"), year: current_year(), headers: JydHeaders::default() }
    }
}

/// The text read as a date: the year, then `-` and the text of the cell
/// when it is not null.
pub open spec fn year_date_text(v: VVal, year: i32) -> Seq<char> {
    match value_text(v) {
        Some(t) => int_text(year as int) + seq!['-'] + t,
        None => int_text(year as int),
    }
}

/// The format the dates are read with: `%Y-` and the configured format.
pub open spec fn year_format(fmt: Seq<char>) -> Seq<char> {
    seq!['%', 'Y', '-'] + fmt
}

/// The date of a cell: [`year_date_text`] read with [`year_format`],
/// where the format may match a beginning of the text; null when it does
/// not.
pub open spec fn jyd_date_v(v: VVal, year: i32, fmt: Seq<char>) -> VVal {
    match strptime_prefix_days(year_date_text(v, year), year_format(fmt)) {
        Some(d) => VVal::Date(d),
        None => VVal::Null,
    }
}

/// The columns that every line of a row shares.
pub open spec fn jyd_base(r: Seq<VVal>, ix: Seq<int>, c: JydParseConfig) -> Seq<VVal> {
    seq![
        jyd_date_v(r[ix[0]], c.year, c.datefmt@),
        strip_v(r[ix[1]]),
        clean_list_v(r[ix[2]]),
        strip_v(r[ix[3]]),
        VVal::Str("京奕达"@),
        r[ix[4]],
        r[ix[5]],
    ]
}

/// The lines of `rows` whose column `ix[k]` is not null, priced by that
/// column and typed `kind`.
pub open spec fn jyd_lines(rows: Seq<Seq<VVal>>, ix: Seq<int>, c: JydParseConfig, k: int, kind: Seq<char>) -> Seq<Seq<VVal>>
    decreases rows.len(),
{
    if rows.len() == 0 {
        seq![]
    } else {
        let prev = jyd_lines(rows.drop_last(), ix, c, k, kind);
        let r = rows.last();
        if r[ix[k]] is Null {
            prev
        } else {
            prev.push(jyd_base(r, ix, c) + seq![r[ix[k]], VVal::Str(kind)])
        }
    }
}

/// What parsing a Jingyida bill gives: a missing column is an error, as is
/// a non-text value in a column read as text (waybill, shipment numbers,
/// warehouse); otherwise the freight lines (priced by the freight column),
/// then the customs lines (priced by the other-fee column).
pub open spec fn jyd_spec(t: TableV, c: JydParseConfig) -> Result<TableV, ParseErrorV> {
    let names = c.headers.values();
    let m = first_absent(names, t);
    let ix = indices(names, t);
    if m < names.len() {
        Err(ParseErrorV::ColumnNotFound(names[m]))
    } else if !cols_text(t, seq![ix[1], ix[2], ix[3]]) {
        Err(ParseErrorV::NotText)
    } else {
        Ok(TableV {
            names: bill_names(),
            rows: jyd_lines(t.rows, ix, c, 6, "运费"@) + jyd_lines(t.rows, ix, c, 7, "报关费"@),
        })
    }
}

/// The result of a parse as plain values.
pub open spec fn jyd_result_view(r: Result<BillData, ParseError>) -> Result<TableV, ParseErrorV> {
    match r {
        Ok(b) => Ok(b.0@),
        Err(e) => Err(e@),
    }
}

/// The date of a cell (see [`jyd_date_v`]).
pub fn jyd_date(v: &Value, year: i32, fmt: &str) -> (r: Value)
    ensures
        r@ == jyd_date_v(v@, year, fmt@),
{
    let mut text = String::new();
    push_int(&mut text, year as i128);
    if !v.is_null() {
        push_char(&mut text, '-');
        let ghost before = text@;
        push_value(&mut text, v);
        assert(text@ =~= before + text@.skip(before.len() as int));
    }
    assert(text@ =~= year_date_text(v@, year));
    let f = concat("%Y-", fmt);
    proof {
        reveal_strlit("%Y-");
    }
    assert(f@ =~= year_format(fmt@));
    match parse_date_prefix(text.as_str(), f.as_str()) {
        Some(d) => Value::Date(d),
        None => Value::Null,
    }
}

fn base_row(r: &Vec<Value>, ix: &Vec<usize>, config: &JydParseConfig) -> (out: Vec<Value>)
    requires
        ix@.len() == 8,
        forall|j: int| 0 <= j < 8 ==> (#[trigger] ix@[j]) < r@.len(),
    ensures
        vals(out@) == jyd_base(vals(r@), ix@.map_values(|x: usize| x as int), *config),
{
    let ghost ixs = ix@.map_values(|x: usize| x as int);
    let mut out: Vec<Value> = Vec::new();
    out.push(jyd_date(&r[ix[0]], config.year, config.datefmt.as_str()));
    out.push(strip_value(&r[ix[1]]));
    out.push(clean_list_value(&r[ix[2]]));
    out.push(strip_value(&r[ix[3]]));
    out.push(Value::text("京奕达"));
    out.push(r[ix[4]].copy());
    out.push(r[ix[5]].copy());
    proof {
        assert forall|j: int| 0 <= j < 8 implies #[trigger] vals(r@)[ixs[j]] == r@[ix@[j] as int]@ by {
        }
    }
    assert(vals(out@) =~= jyd_base(vals(r@), ixs, *config));
    out
}

/// Appends to `out` the lines of the rows whose column `ix[k]` is not null.
fn push_lines(
    out: &mut Vec<Vec<Value>>,
    data: &Table,
    ix: &Vec<usize>,
    config: &JydParseConfig,
    k: usize,
    kind: &str,
)
    requires
        data@.wf(),
        ix@.len() == 8,
        k < 8,
        forall|j: int| 0 <= j < 8 ==> (#[trigger] ix@[j]) < data@.names.len(),
    ensures
        rows_view(final(out)@) == rows_view(old(out)@) + jyd_lines(
            data@.rows,
            ix@.map_values(|x: usize| x as int),
            *config,
            k as int,
            kind@,
        ),
{
    let ghost ixs = ix@.map_values(|x: usize| x as int);
    let ghost rv = data@.rows;
    let ghost start = rows_view(out@);
    let mut i: usize = 0;
    while i < data.rows.len()
        invariant
            data@.wf(),
            rv == data@.rows,
            ix@.len() == 8,
            k < 8,
            ixs == ix@.map_values(|x: usize| x as int),
            forall|j: int| 0 <= j < 8 ==> (#[trigger] ix@[j]) < data@.names.len(),
            i <= rv.len(),
            rows_view(out@) == start + jyd_lines(rv.take(i as int), ixs, *config, k as int, kind@),
        decreases rv.len() - i,
    {
        let r = &data.rows[i];
        assert(vals(r@) == rv[i as int]);
        assert(rv[i as int].len() == data@.names.len());
        assert(rv.take(i + 1).drop_last() =~= rv.take(i as int));
        assert(rv.take(i + 1).last() == rv[i as int]);
        assert(vals(r@)[ixs[k as int]] == r@[ix@[k as int] as int]@);
        if !r[ix[k]].is_null() {
            let mut line = base_row(r, ix, config);
            line.push(r[ix[k]].copy());
            line.push(Value::Str(owned(kind)));
            let ghost old_out = out@;
            out.push(line);
            proof {
                assert(vals(line@) =~= jyd_base(rv[i as int], ixs, *config) + seq![rv[i as int][ixs[k as int]], VVal::Str(kind@)]);
                assert(rows_view(out@) =~= rows_view(old_out).push(vals(line@)));
                assert(rows_view(out@) =~= start + jyd_lines(rv.take(i + 1), ixs, *config, k as int, kind@));
            }
        }
        i = i + 1;
    }
    assert(rv.take(rv.len() as int) =~= rv);
}

impl Parse for JydParser {
    type Config = JydParseConfig;
    type Output = BillData;
    type Error = ParseError;

    fn parse(data: Table, config: JydParseConfig) -> (r: Result<BillData, ParseError>)
        ensures
            jyd_result_view(r) == jyd_spec(data@, config),
    {
        let names = config.headers.name_list();
        let ix = match resolve(&data, &names) {
            Ok(ix) => ix,
            Err(e) => {
                return Err(e);
            },
        };
        let ghost ixs = indices(config.headers.values(), data@);
        assert(ixs =~= ix@.map_values(|x: usize| x as int));
        let cols = vec![ix[1], ix[2], ix[3]];
        assert(cols@.map_values(|c: usize| c as int) =~= seq![ixs[1], ixs[2], ixs[3]]);
        if !check_text(&data, &cols) {
            return Err(ParseError::NotText);
        }
        let mut out: Vec<Vec<Value>> = Vec::new();
        assert(rows_view(out@) =~= Seq::<Seq<VVal>>::empty());
        push_lines(&mut out, &data, &ix, &config, 6, "运费");
        push_lines(&mut out, &data, &ix, &config, 7, "报关费");
        let names = bill_names_exec();
        let t = Table { names, rows: out };
        assert(t@.rows =~= jyd_lines(data@.rows, ixs, config, 6, "运费"@) + jyd_lines(data@.rows, ixs, config, 7, "报关费"@));
        Ok(BillData(t))
    }
}

/// Line `l` is the line of row `r` of `rows` priced by column `ix[k]`:
/// it carries that row's waybill and shipment numbers, and as its price
/// that row's value in the column, which is present.
pub open spec fn line_of_row(l: Seq<VVal>, rows: Seq<Seq<VVal>>, ix: Seq<int>, k: int, r: int) -> bool {
    &&& 0 <= r < rows.len()
    &&& l[1] == strip_v(rows[r][ix[1]])
    &&& l[2] == clean_list_v(rows[r][ix[2]])
    &&& !(rows[r][ix[k]] is Null)
    &&& l[7] == rows[r][ix[k]]
}

/// The lines of a kind are typed so, each is the line of a row priced by
/// the kind's column, and every row with a value there has its line.
proof fn lemma_jyd_lines(rows: Seq<Seq<VVal>>, ix: Seq<int>, c: JydParseConfig, k: int, kind: Seq<char>)
    ensures
        forall|i: int| 0 <= i < jyd_lines(rows, ix, c, k, kind).len() ==> (#[trigger] jyd_lines(rows, ix, c, k, kind)[i])[8]
            == VVal::Str(kind) && exists|r: int| line_of_row(jyd_lines(rows, ix, c, k, kind)[i], rows, ix, k, r),
        forall|r: int| 0 <= r < rows.len() && !((#[trigger] rows[r])[ix[k]] is Null) ==> exists|i: int| 0 <= i < jyd_lines(
            rows,
            ix,
            c,
            k,
            kind,
        ).len() && line_of_row(#[trigger] jyd_lines(rows, ix, c, k, kind)[i], rows, ix, k, r),
    decreases rows.len(),
{
    if rows.len() > 0 {
        let q = rows.drop_last();
        lemma_jyd_lines(q, ix, c, k, kind);
        let p = jyd_lines(q, ix, c, k, kind);
        let x = rows.last();
        let n = rows.len() - 1;
        assert(rows[n] == x);
        let out = jyd_lines(rows, ix, c, k, kind);
        let line = jyd_base(x, ix, c) + seq![x[ix[k]], VVal::Str(kind)];
        assert(line[1] == x[ix[1]] || line[1] == strip_v(x[ix[1]]));
        if x[ix[k]] is Null {
            assert(out == p);
        } else {
            assert(out == p.push(line));
            assert(line_of_row(line, rows, ix, k, n));
        }
        assert forall|i: int| 0 <= i < out.len() implies (#[trigger] out[i])[8] == VVal::Str(kind) && exists|r: int|
            line_of_row(out[i], rows, ix, k, r) by {
            if i < p.len() {
                assert(out[i] == p[i]);
                let r = choose|r: int| line_of_row(p[i], q, ix, k, r);
                assert(rows[r] == q[r]);
                assert(line_of_row(out[i], rows, ix, k, r));
            } else {
                assert(out[i] == line);
                assert(line_of_row(out[i], rows, ix, k, n));
            }
        }
        assert forall|r: int| 0 <= r < rows.len() && !((#[trigger] rows[r])[ix[k]] is Null) implies exists|i: int| 0 <= i
            < out.len() && line_of_row(#[trigger] out[i], rows, ix, k, r) by {
            if r < n {
                assert(q[r] == rows[r]);
                let i = choose|i: int| 0 <= i < p.len() && line_of_row(#[trigger] p[i], q, ix, k, r);
                assert(out[i] == p[i]);
                assert(line_of_row(out[i], rows, ix, k, r));
            } else {
                assert(out[p.len() as int] == line);
                assert(line_of_row(out[p.len() as int], rows, ix, k, r));
            }
        }
    }
}

/// A parsed Jingyida bill has freight and customs lines only; each freight
/// line is priced by the freight column of a row with a freight price, each
/// customs line by the other-fee column of a row with another fee, and
/// carries that row's waybill and shipment numbers; every row with a
/// freight price has its freight line, every row with another fee its
/// customs line.
pub proof fn law_jyd_lines_priced_by_their_column(t: TableV, c: JydParseConfig, out: TableV)
    requires
        jyd_spec(t, c) == Ok::<TableV, ParseErrorV>(out),
    ensures
        forall|i: int| 0 <= i < out.rows.len() ==> (#[trigger] out.rows[i])[8] == VVal::Str("运费"@) || out.rows[i][8]
            == VVal::Str("报关费"@),
        forall|i: int| 0 <= i < out.rows.len() && (#[trigger] out.rows[i])[8] == VVal::Str("运费"@) ==> exists|r: int|
            line_of_row(out.rows[i], t.rows, indices(c.headers.values(), t), 6, r),
        forall|i: int| 0 <= i < out.rows.len() && (#[trigger] out.rows[i])[8] == VVal::Str("报关费"@) ==> exists|r: int|
            line_of_row(out.rows[i], t.rows, indices(c.headers.values(), t), 7, r),
        forall|r: int| 0 <= r < t.rows.len() && !((#[trigger] t.rows[r])[t.col(c.headers.unit_price@)] is Null) ==> exists|i: int|
            0 <= i < out.rows.len() && out.rows[i][8] == VVal::Str("运费"@) && line_of_row(
            #[trigger] out.rows[i],
            t.rows,
            indices(c.headers.values(), t),
            6,
            r,
        ),
        forall|r: int| 0 <= r < t.rows.len() && !((#[trigger] t.rows[r])[t.col(c.headers.customs_fee@)] is Null) ==> exists|i: int|
            0 <= i < out.rows.len() && out.rows[i][8] == VVal::Str("报关费"@) && line_of_row(
            #[trigger] out.rows[i],
            t.rows,
            indices(c.headers.values(), t),
            7,
            r,
        ),
        indices(c.headers.values(), t)[1] == t.col(c.headers.waybill_no@),
        indices(c.headers.values(), t)[2] == t.col(c.headers.shipment_no@),
        indices(c.headers.values(), t)[6] == t.col(c.headers.unit_price@),
        indices(c.headers.values(), t)[7] == t.col(c.headers.customs_fee@),
{
    let ix = indices(c.headers.values(), t);
    let a = jyd_lines(t.rows, ix, c, 6, "运费"@);
    let b = jyd_lines(t.rows, ix, c, 7, "报关费"@);
    assert(out.rows == a + b);
    lemma_jyd_lines(t.rows, ix, c, 6, "运费"@);
    lemma_jyd_lines(t.rows, ix, c, 7, "报关费"@);
    reveal_strlit("运费");
    reveal_strlit("报关费");
    assert("运费"@.len() != "报关费"@.len());
    assert(VVal::Str("运费"@) != VVal::Str("报关费"@));
    assert forall|i: int| 0 <= i < out.rows.len() implies (#[trigger] out.rows[i])[8] == VVal::Str("运费"@) || out.rows[i][8]
        == VVal::Str("报关费"@) by {
        if i < a.len() {
            assert(out.rows[i] == a[i]);
        } else {
            assert(out.rows[i] == b[i - a.len()]);
        }
    }
    assert forall|i: int| 0 <= i < out.rows.len() && (#[trigger] out.rows[i])[8] == VVal::Str("运费"@) implies exists|r: int|
        line_of_row(out.rows[i], t.rows, ix, 6, r) by {
        if i < a.len() {
            assert(out.rows[i] == a[i]);
        } else {
            assert(out.rows[i] == b[i - a.len()]);
        }
    }
    assert forall|i: int| 0 <= i < out.rows.len() && (#[trigger] out.rows[i])[8] == VVal::Str("报关费"@) implies exists|r: int|
        line_of_row(out.rows[i], t.rows, ix, 7, r) by {
        if i < a.len() {
            assert(out.rows[i] == a[i]);
        } else {
            assert(out.rows[i] == b[i - a.len()]);
        }
    }
    assert forall|r: int| 0 <= r < t.rows.len() && !((#[trigger] t.rows[r])[t.col(c.headers.unit_price@)] is Null) implies exists|i: int|
        0 <= i < out.rows.len() && out.rows[i][8] == VVal::Str("运费"@) && line_of_row(#[trigger] out.rows[i], t.rows, ix, 6, r) by {
        assert(ix[6] == t.col(c.headers.unit_price@));
        let i = choose|i: int| 0 <= i < a.len() && line_of_row(#[trigger] a[i], t.rows, ix, 6, r);
        assert(out.rows[i] == a[i]);
    }
    assert forall|r: int| 0 <= r < t.rows.len() && !((#[trigger] t.rows[r])[t.col(c.headers.customs_fee@)] is Null) implies exists|i: int|
        0 <= i < out.rows.len() && out.rows[i][8] == VVal::Str("报关费"@) && line_of_row(#[trigger] out.rows[i], t.rows, ix, 7, r) by {
        assert(ix[7] == t.col(c.headers.customs_fee@));
        let i = choose|i: int| 0 <= i < b.len() && line_of_row(#[trigger] b[i], t.rows, ix, 7, r);
        assert(out.rows[a.len() + i] == b[i]);
    }
}

} // verus!
