//! The parser of our own shipment details (the head-haul sheet).
use super::{
    check_text, cols_text, first_absent, indices, names_of, resolve, strip_v, strip_value, Parse,
    ParseError, ParseErrorV,
};
use crate::dates::current_year;
use crate::headers::HeadwayHeaders;
use crate::table::{rows_view, Table, TableV};
use crate::text::{concat, int_text, push_char, push_int, strip, strip_char};
use crate::validate::ShipmentData;
use crate::value::{cast, cast_spec, strs, vals, DType, DTypeV, VVal, Value};
use vstd::prelude::*;

verus! {

/// The parser of shipment details.
pub struct HeadwayParser;

/// How shipment details are read.
pub struct HeadwayParseConfig {
    /// The year of the customs weeks.
    pub year: i32,
    /// The column names.
    pub headers: HeadwayHeaders,
}

impl HeadwayParseConfig {
    /// A copy of the configuration.
    pub fn copy(&self) -> (r: Self)
        ensures
            r == *self,
    {
        HeadwayParseConfig { year: self.year, headers: self.headers.copy() }
    }

    /// The configuration of shipment details, for the current year.
    pub fn default() -> (r: Self)
        ensures
            r.headers.values() == HeadwayHeaders::labels(),
    {
        HeadwayParseConfig { year: current_year(), headers: HeadwayHeaders::default() }
    }
}

/// The columns of parsed shipment details.
pub open spec fn shipment_names() -> Seq<Seq<char>> {
    seq!["报关周次"@, "货件单号"@, "物流中心编码"@, "件数"@, "计费重"@, "单价"@, "报关费"@, "日期"@]
}

/// The customs week of a cell: `Y`, the year and the week without
/// surrounding spaces when the week starts with `W` (`W15002` in 2026
/// gives `Y2026W15002`); null otherwise.
pub open spec fn customs_no_v(v: VVal, year: i32) -> VVal {
    match v {
        VVal::Str(s) => if s.len() > 0 && s[0] == 'W' {
            VVal::Str(seq!['Y'] + int_text(year as int) + strip(s, ' '))
        } else {
            VVal::Null
        },
        _ => VVal::Null,
    }
}

/// One parsed row; `ix` holds the indices of the header columns in field
/// order.
pub open spec fn headway_row(r: Seq<VVal>, ix: Seq<int>, c: HeadwayParseConfig) -> Seq<VVal> {
    seq![
        customs_no_v(r[ix[7]], c.year),
        strip_v(r[ix[1]]),
        r[ix[2]],
        r[ix[3]],
        r[ix[4]],
        r[ix[5]],
        cast_spec(r[ix[6]], DTypeV::Float),
        r[ix[0]],
    ]
}

/// What parsing shipment details gives: a missing column is an error, as
/// is a non-text value in a column read as text (customs week, shipment
/// number); otherwise one row per input row (see [`headway_row`]).
pub open spec fn headway_spec(t: TableV, c: HeadwayParseConfig) -> Result<TableV, ParseErrorV> {
    let names = c.headers.values();
    let m = first_absent(names, t);
    let ix = indices(names, t);
    if m < names.len() {
        Err(ParseErrorV::ColumnNotFound(names[m]))
    } else if !cols_text(t, seq![ix[7], ix[1]]) {
        Err(ParseErrorV::NotText)
    } else {
        Ok(TableV { names: shipment_names(), rows: t.rows.map_values(|r: Seq<VVal>| headway_row(r, ix, c)) })
    }
}

/// The result of a parse as plain values.
pub open spec fn headway_result_view(r: Result<ShipmentData, ParseError>) -> Result<TableV, ParseErrorV> {
    match r {
        Ok(b) => Ok(b.0@),
        Err(e) => Err(e@),
    }
}

/// The customs week of a cell (see [`customs_no_v`]).
pub fn customs_no(v: &Value, year: i32) -> (r: Value)
    ensures
        r@ == customs_no_v(v@, year),
{
    match v {
        Value::Str(s) => {
            let cs = crate::text::chars_of(s.as_str());
            if cs.len() > 0 && cs[0] == 'W' {
                let mut out = String::new();
                push_char(&mut out, 'Y');
                push_int(&mut out, year as i128);
                let w = strip_char(s.as_str(), ' ');
                let t = concat(out.as_str(), w.as_str());
                assert(t@ =~= seq!['Y'] + int_text(year as int) + strip(s@, ' '));
                Value::Str(t)
            } else {
                Value::Null
            }
        },
        _ => Value::Null,
    }
}

/// The column names of parsed shipment details.
pub fn shipment_names_exec() -> (r: Vec<String>)
    ensures
        strs(r@) == shipment_names(),
{
    let r = names_of(vec!["报关周次", "货件单号", "物流中心编码", "件数", "计费重", "单价", "报关费", "日期"]);
    assert(strs(r@) =~= shipment_names());
    r
}

impl Parse for HeadwayParser {
    type Config = HeadwayParseConfig;
    type Output = ShipmentData;
    type Error = ParseError;

    fn parse(data: Table, config: HeadwayParseConfig) -> (r: Result<ShipmentData, ParseError>)
        ensures
            headway_result_view(r) == headway_spec(data@, config),
    {
        let names = config.headers.name_list();
        let ix = match resolve(&data, &names) {
            Ok(ix) => ix,
            Err(e) => {
                return Err(e);
            },
        };
        let ghost ixs = indices(config.headers.values(), data@);
        assert(ixs =~= ix@.map_values(|x: usize| x as int));
        let cols = vec![ix[7], ix[1]];
        assert(cols@.map_values(|c: usize| c as int) =~= seq![ixs[7], ixs[1]]);
        if !check_text(&data, &cols) {
            return Err(ParseError::NotText);
        }
        let float = DType::Float;
        let mut rows: Vec<Vec<Value>> = Vec::new();
        let mut i: usize = 0;
        while i < data.rows.len()
            invariant
                data@.wf(),
                float@ == DTypeV::Float,
                ix@.len() == 8,
                forall|j: int| 0 <= j < 8 ==> (#[trigger] ix@[j]) < data@.names.len() && ix@[j] as int == ixs[j],
                i <= data@.rows.len(),
                rows@.len() == i,
                forall|a: int| 0 <= a < i ==> vals(#[trigger] rows@[a]@) == headway_row(data@.rows[a], ixs, config),
            decreases data@.rows.len() - i,
        {
            let r = &data.rows[i];
            assert(vals(r@) == data@.rows[i as int]);
            assert(data@.rows[i as int].len() == data@.names.len());
            assert(r@.len() == data@.names.len());
            let mut out: Vec<Value> = Vec::new();
            out.push(customs_no(&r[ix[7]], config.year));
            out.push(strip_value(&r[ix[1]]));
            out.push(r[ix[2]].copy());
            out.push(r[ix[3]].copy());
            out.push(r[ix[4]].copy());
            out.push(r[ix[5]].copy());
            out.push(cast(&r[ix[6]], &float));
            out.push(r[ix[0]].copy());
            proof {
                let rv = data@.rows[i as int];
                assert forall|j: int| 0 <= j < 8 implies #[trigger] r@[ix@[j] as int]@ == rv[ixs[j]] by {
                    assert(vals(r@)[ix@[j] as int] == r@[ix@[j] as int]@);
                }
                assert(vals(out@) =~= headway_row(rv, ixs, config));
            }
            rows.push(out);
            i = i + 1;
        }
        let names = shipment_names_exec();
        let t = Table { names, rows };
        assert(rows_view(t.rows@) =~= data@.rows.map_values(|r: Seq<VVal>| headway_row(r, ixs, config)));
        Ok(ShipmentData(t))
    }
}

} // verus!
