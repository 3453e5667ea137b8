//! The parser of Wanbang bills, also used for the Guoruntong and Jimi bills
//! whose sheets share their layout.
use super::{
    bill_names, bill_names_exec, check_text, clean_list_v, clean_list_value, cols_text, date_v, date_value, first_absent,
    indices, resolve, split_head_v, split_head_value, split_tail_v, split_tail_value,
    strip_v, strip_value, Parse, ParseError, ParseErrorV,
};
use crate::headers::WbHeaders;
use crate::table::{rows_view, Table, TableV};
use crate::text::owned;
use crate::validate::BillData;
use crate::value::{vals, VVal, Value};
use vstd::prelude::*;

verus! {

/// The parser of Wanbang bills.
pub struct WbParser;

/// The same parser, under the name the rest of the crate uses.
pub type WBParser = WbParser;

/// How a Wanbang-style bill is read.
pub struct WBParseConfig {
    /// The format of the dates.
    pub datefmt: String,
    /// The unit that marks a freight line, and the one that marks a customs
    /// fee line, in the unit-price column (`3.60/KG`).
    pub units: (String, String),
    /// The name of the forwarder, written in every row.
    pub forwarder: String,
    /// The column names.
    pub headers: WbHeaders,
}

impl WBParseConfig {
    /// A copy of the configuration.
    pub fn copy(&self) -> (r: Self)
        ensures
            r == *self,
    {
        WBParseConfig {
            datefmt: self.datefmt.clone(),
            units: (self.units.0.clone(), self.units.1.clone()),
            forwarder: self.forwarder.clone(),
            headers: self.headers.copy(),
        }
    }

    /// The configuration of Wanbang bills.
    pub fn default() -> (r: Self)
        ensures
            r.datefmt@ == "%Y/%m/%d"@,
            r.units.0@ == "KG"@,
            r.units.1@ == "票"@,
            r.forwarder@ == "万邦"@,
            r.headers.values() == WbHeaders::labels(),
    {
        WBParseConfig {
            datefmt: owned("%Y/%m/%d"),
            units: (owned("KG"), owned("票")),
            forwarder: owned("万邦"),
            headers: WbHeaders::default(),
        }
    }

    /// The configuration of Guoruntong bills: shipment numbers in
    /// `扩展单号`, warehouse codes in `地址编码`.
    pub fn grt() -> (r: Self)
        ensures
            r.datefmt@ == "%Y/%m/%d"@,
            r.units.0@ == "KG"@,
            r.units.1@ == "票"@,
            r.forwarder@ == "国润通"@,
            r.headers.values() == WbHeaders::labels().update(2, "扩展单号"@).update(3, "地址编码"@),
    {
        let mut headers = WbHeaders::default();
        headers.shipment_no = owned("扩展单号");
        headers.warehouse_code = owned("地址编码");
        let r = WBParseConfig {
            datefmt: owned("%Y/%m/%d"),
            units: (owned("KG"), owned("票")),
            forwarder: owned("国润通"),
            headers,
        };
        assert(r.headers.values() =~= WbHeaders::labels().update(2, "扩展单号"@).update(3, "地址编码"@));
        r
    }

    /// The configuration of Jimi bills: shipment numbers in `客户运单号`,
    /// warehouse codes in `仓库代码`, weights in `收费重(KG)`.
    pub fn jm() -> (r: Self)
        ensures
            r.datefmt@ == "%Y/%m/%d"@,
            r.units.0@ == "KG"@,
            r.units.1@ == "票"@,
            r.forwarder@ == "积米"@,
            r.headers.values() == WbHeaders::labels().update(2, "客户运单号"@).update(3, "仓库代码"@).update(
                5,
                "收费重(KG)"@,
            ),
    {
        let mut headers = WbHeaders::default();
        headers.shipment_no = owned("客户运单号");
        headers.warehouse_code = owned("仓库代码");
        headers.chargeable_weight = owned("收费重(KG)");
        let r = WBParseConfig {
            datefmt: owned("%Y/%m/%d"),
            units: (owned("KG"), owned("票")),
            forwarder: owned("积米"),
            headers,
        };
        assert(r.headers.values() =~= WbHeaders::labels().update(2, "客户运单号"@).update(3, "仓库代码"@).update(
            5,
            "收费重(KG)"@,
        ));
        r
    }
}

/// The bill type of a line whose unit is `unit`: freight when it is the
/// freight unit `freight`, a customs fee otherwise.
pub open spec fn wb_type_v(unit: VVal, freight: Seq<char>) -> VVal {
    if unit == VVal::Str(freight) {
        VVal::Str("运费"@)
    } else {
        VVal::Str("报关费"@)
    }
}

/// One parsed row; `ix` holds the indices of the header columns in field
/// order.
pub open spec fn wb_row(r: Seq<VVal>, ix: Seq<int>, c: WBParseConfig) -> Seq<VVal> {
    seq![
        date_v(r[ix[0]], c.datefmt@),
        strip_v(r[ix[1]]),
        clean_list_v(r[ix[2]]),
        strip_v(r[ix[3]]),
        VVal::Str(c.forwarder@),
        r[ix[4]],
        r[ix[5]],
        split_head_v(r[ix[6]]),
        wb_type_v(split_tail_v(r[ix[6]]), c.units.0@),
    ]
}

/// What parsing a Wanbang-style bill gives: a missing column is an error,
/// as is a non-text value in a column read as text (date, waybill,
/// shipment numbers, warehouse, unit price); otherwise one row per input
/// row (see [`wb_row`]).
pub open spec fn wb_spec(t: TableV, c: WBParseConfig) -> Result<TableV, ParseErrorV> {
    let names = c.headers.values();
    let m = first_absent(names, t);
    let ix = indices(names, t);
    if m < names.len() {
        Err(ParseErrorV::ColumnNotFound(names[m]))
    } else if !cols_text(t, seq![ix[0], ix[1], ix[2], ix[3], ix[6]]) {
        Err(ParseErrorV::NotText)
    } else {
        Ok(TableV { names: bill_names(), rows: t.rows.map_values(|r: Seq<VVal>| wb_row(r, ix, c)) })
    }
}

pub open spec fn bill_result_view(r: Result<BillData, ParseError>) -> Result<TableV, ParseErrorV> {
    match r {
        Ok(b) => Ok(b.0@),
        Err(e) => Err(e@),
    }
}

impl Parse for WbParser {
    type Config = WBParseConfig;
    type Output = BillData;
    type Error = ParseError;

    fn parse(data: Table, config: WBParseConfig) -> (r: Result<BillData, ParseError>)
        ensures
            bill_result_view(r) == wb_spec(data@, config),
    {
        let names = config.headers.name_list();
        let ix = match resolve(&data, &names) {
            Ok(ix) => ix,
            Err(e) => {
                return Err(e);
            },
        };
        let ghost ixs = indices(config.headers.values(), data@);
        assert(ixs =~= ix@.map_values(|x: usize| x as int));
        let cols = vec![ix[0], ix[1], ix[2], ix[3], ix[6]];
        assert(cols@.map_values(|c: usize| c as int) =~= seq![ixs[0], ixs[1], ixs[2], ixs[3], ixs[6]]);
        if !check_text(&data, &cols) {
            return Err(ParseError::NotText);
        }
        let mut rows: Vec<Vec<Value>> = Vec::new();
        let mut i: usize = 0;
        while i < data.rows.len()
            invariant
                data@.wf(),
                ix@.len() == 7,
                forall|j: int| 0 <= j < 7 ==> (#[trigger] ix@[j]) < data@.names.len() && ix@[j] as int == ixs[j],
                i <= data@.rows.len(),
                rows@.len() == i,
                forall|a: int| 0 <= a < i ==> vals(#[trigger] rows@[a]@) == wb_row(data@.rows[a], ixs, config),
            decreases data@.rows.len() - i,
        {
            let r = &data.rows[i];
            assert(vals(r@) == data@.rows[i as int]);
            assert(data@.rows[i as int].len() == data@.names.len());
            assert(r@.len() == data@.names.len());
            let mut out: Vec<Value> = Vec::new();
            out.push(date_value(&r[ix[0]], config.datefmt.as_str()));
            out.push(strip_value(&r[ix[1]]));
            out.push(clean_list_value(&r[ix[2]]));
            out.push(strip_value(&r[ix[3]]));
            out.push(Value::Str(config.forwarder.clone()));
            out.push(r[ix[4]].copy());
            out.push(r[ix[5]].copy());
            out.push(split_head_value(&r[ix[6]]));
            let tail = split_tail_value(&r[ix[6]]);
            let is_freight = match &tail {
                Value::Str(u) => *u == config.units.0,
                _ => false,
            };
            out.push(if is_freight { Value::text("运费") } else { Value::text("报关费") });
            proof {
                let rv = data@.rows[i as int];
                assert forall|j: int| 0 <= j < 7 implies #[trigger] r@[ix@[j] as int]@ == rv[ixs[j]] by {
                    assert(vals(r@)[ix@[j] as int] == r@[ix@[j] as int]@);
                }
                assert(vals(out@) =~= wb_row(rv, ixs, config));
            }
            rows.push(out);
            i = i + 1;
        }
        let names = bill_names_exec();
        let t = Table { names, rows };
        assert(rows_view(t.rows@) =~= data@.rows.map_values(|r: Seq<VVal>| wb_row(r, ixs, config)));
        Ok(BillData(t))
    }
}

} // verus!
