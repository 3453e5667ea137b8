//! The parser of Didadi bills.
//!
//! A Didadi bill has no price column: each line carries a price formula
//! (see [`super::formula`]).  A line with a freight term gives a freight
//! line priced by that term; a line with fee terms gives a customs line
//! priced by their sum.  All freight lines come first, then all customs
//! lines, each group in the order of the sheet.
use super::formula::{
    fee_sum, fee_texts, fees, first_price, first_price_of, fits, lemma_fees_unsigned, sum_fees,
};
use super::{
    bill_names, bill_names_exec, check_text, clean_list_v, clean_list_value, cols_text, date_v,
    date_value, first_absent, indices, resolve, strip_v, strip_value, Parse, ParseError,
    ParseErrorV,
};
use crate::headers::DDDHeaders;
use crate::table::{rows_view, Table, TableV};
use crate::text::{chars_of, owned, parse_dec, spec_parse_dec};
use crate::validate::BillData;
use crate::value::{vals, VVal, Value};
use vstd::prelude::*;

verus! {

/// The parser of Didadi bills.
pub struct DDDParser;

/// How a Didadi bill is read.
pub struct DDDParseConfig {
    /// The format of the dates.
    pub datefmt: String,
    /// The column names.
    pub headers: DDDHeaders,
}

impl DDDParseConfig {
    /// A copy of the configuration.
    pub fn copy(&self) -> (r: Self)
        ensures
            r == *self,
    {
        DDDParseConfig { datefmt: self.datefmt.clone(), headers: self.headers.copy() }
    }

    /// The configuration of Didadi bills.
    pub fn default() -> (r: Self)
        ensures
            r.datefmt@ == "%Y-%m-%d"@,
            r.headers.values() == DDDHeaders::labels(),
    {
        DDDParseConfig { datefmt: owned("%Y-%m-%d"), headers: DDDHeaders::default() }
    }
}

/// The freight price of a formula: the number of its first freight term,
/// or null when it has none.
pub open spec fn freight_price_v(f: VVal) -> VVal {
    match f {
        VVal::Str(s) => match first_price(s, 0) {
            Some(p) => match spec_parse_dec(p) {
                Some(m) => VVal::Num(m as i128),
                None => VVal::Null,
            },
            None => VVal::Null,
        },
        _ => VVal::Null,
    }
}

/// The customs price of a formula: the sum of its fee terms (null when the
/// sum does not fit in an `i128`), or `None` when it has no fee term.
pub open spec fn customs_price_v(f: VVal) -> Option<VVal> {
    match f {
        VVal::Str(s) => if fees(s, 0).len() > 0 {
            Some(
                if fits(fee_sum(fees(s, 0))) {
                    VVal::Num(fee_sum(fees(s, 0)) as i128)
                } else {
                    VVal::Null
                },
            )
        } else {
            None
        },
        _ => None,
    }
}

/// The columns that every line of a row shares.
pub open spec fn ddd_base(r: Seq<VVal>, ix: Seq<int>, c: DDDParseConfig) -> Seq<VVal> {
    seq![
        date_v(r[ix[0]], c.datefmt@),
        strip_v(r[ix[1]]),
        clean_list_v(r[ix[2]]),
        strip_v(r[ix[3]]),
        VVal::Str("嘀嗒嘀"@),
        r[ix[4]],
        r[ix[5]],
    ]
}

/// The freight lines of `rows`.
pub open spec fn ddd_freight(rows: Seq<Seq<VVal>>, ix: Seq<int>, c: DDDParseConfig) -> Seq<Seq<VVal>>
    decreases rows.len(),
{
    if rows.len() == 0 {
        seq![]
    } else {
        let prev = ddd_freight(rows.drop_last(), ix, c);
        let r = rows.last();
        let p = freight_price_v(r[ix[6]]);
        if p is Null {
            prev
        } else {
            prev.push(ddd_base(r, ix, c) + seq![p, VVal::Str("运费"@)])
        }
    }
}

/// The customs lines of `rows`.
pub open spec fn ddd_customs(rows: Seq<Seq<VVal>>, ix: Seq<int>, c: DDDParseConfig) -> Seq<Seq<VVal>>
    decreases rows.len(),
{
    if rows.len() == 0 {
        seq![]
    } else {
        let prev = ddd_customs(rows.drop_last(), ix, c);
        let r = rows.last();
        match customs_price_v(r[ix[6]]) {
            Some(p) => prev.push(ddd_base(r, ix, c) + seq![p, VVal::Str("报关费"@)]),
            None => prev,
        }
    }
}

/// What parsing a Didadi bill gives: a missing column is an error, as is a
/// non-text value in a column read as text (date, waybill, shipment
/// numbers, warehouse, formula); otherwise the freight lines, then the
/// customs lines.
pub open spec fn ddd_spec(t: TableV, c: DDDParseConfig) -> Result<TableV, ParseErrorV> {
    let names = c.headers.values();
    let m = first_absent(names, t);
    let ix = indices(names, t);
    if m < names.len() {
        Err(ParseErrorV::ColumnNotFound(names[m]))
    } else if !cols_text(t, seq![ix[0], ix[1], ix[2], ix[3], ix[6]]) {
        Err(ParseErrorV::NotText)
    } else {
        Ok(TableV { names: bill_names(), rows: ddd_freight(t.rows, ix, c) + ddd_customs(t.rows, ix, c) })
    }
}

/// The result of a parse as plain values.
pub open spec fn ddd_result_view(r: Result<BillData, ParseError>) -> Result<TableV, ParseErrorV> {
    match r {
        Ok(b) => Ok(b.0@),
        Err(e) => Err(e@),
    }
}

/// The freight price of a formula cell (see [`freight_price_v`]).
pub fn freight_price(f: &Value) -> (r: Value)
    ensures
        r@ == freight_price_v(f@),
{
    match f {
        Value::Str(s) => {
            let cs = chars_of(s.as_str());
            match first_price_of(&cs) {
                Some(p) => match parse_dec(p.as_str()) {
                    Some(m) => Value::Num(m),
                    None => Value::Null,
                },
                None => Value::Null,
            }
        },
        _ => Value::Null,
    }
}

/// The customs price of a formula cell (see [`customs_price_v`]).
pub fn customs_price(f: &Value) -> (r: Option<Value>)
    ensures
        match r {
            Some(v) => customs_price_v(f@) == Some(v@),
            None => customs_price_v(f@) is None,
        },
{
    match f {
        Value::Str(s) => {
            let cs = chars_of(s.as_str());
            let texts = fee_texts(&cs);
            if texts.len() == 0 {
                return None;
            }
            proof {
                lemma_fees_unsigned(cs@, 0);
            }
            match sum_fees(&texts) {
                Some(v) => Some(Value::Num(v)),
                None => Some(Value::Null),
            }
        },
        _ => None,
    }
}

fn base_row(r: &Vec<Value>, ix: &Vec<usize>, config: &DDDParseConfig) -> (out: Vec<Value>)
    requires
        ix@.len() == 7,
        forall|j: int| 0 <= j < 7 ==> (#[trigger] ix@[j]) < r@.len(),
    ensures
        vals(out@) == ddd_base(vals(r@), ix@.map_values(|x: usize| x as int), *config),
{
    let ghost ixs = ix@.map_values(|x: usize| x as int);
    let mut out: Vec<Value> = Vec::new();
    out.push(date_value(&r[ix[0]], config.datefmt.as_str()));
    out.push(strip_value(&r[ix[1]]));
    out.push(clean_list_value(&r[ix[2]]));
    out.push(strip_value(&r[ix[3]]));
    out.push(Value::text("嘀嗒嘀"));
    out.push(r[ix[4]].copy());
    out.push(r[ix[5]].copy());
    proof {
        assert forall|j: int| 0 <= j < 7 implies #[trigger] vals(r@)[ixs[j]] == r@[ix@[j] as int]@ by {
        }
    }
    assert(vals(out@) =~= ddd_base(vals(r@), ixs, *config));
    out
}

impl Parse for DDDParser {
    type Config = DDDParseConfig;
    type Output = BillData;
    type Error = ParseError;

    fn parse(data: Table, config: DDDParseConfig) -> (r: Result<BillData, ParseError>)
        ensures
            ddd_result_view(r) == ddd_spec(data@, config),
    {
        let names = config.headers.name_list();
        let ix = match resolve(&data, &names) {
            Ok(ix) => ix,
            Err(e) => {
                return Err(e);
            },
        };
        let ghost ixs = indices(config.headers.values(), data@);
        assert(ixs =~= ix@.map_values(|x: usize| x as int));
        let cols = vec![ix[0], ix[1], ix[2], ix[3], ix[6]];
        assert(cols@.map_values(|c: usize| c as int) =~= seq![ixs[0], ixs[1], ixs[2], ixs[3], ixs[6]]);
        if !check_text(&data, &cols) {
            return Err(ParseError::NotText);
        }
        let ghost rv = data@.rows;
        let mut out: Vec<Vec<Value>> = Vec::new();
        let mut i: usize = 0;
        while i < data.rows.len()
            invariant
                data@.wf(),
                rv == data@.rows,
                ix@.len() == 7,
                ixs == ix@.map_values(|x: usize| x as int),
                forall|j: int| 0 <= j < 7 ==> (#[trigger] ix@[j]) < data@.names.len(),
                i <= rv.len(),
                rows_view(out@) == ddd_freight(rv.take(i as int), ixs, config),
            decreases rv.len() - i,
        {
            let r = &data.rows[i];
            assert(vals(r@) == rv[i as int]);
            assert(rv[i as int].len() == data@.names.len());
            assert(rv.take(i + 1).drop_last() =~= rv.take(i as int));
            assert(rv.take(i + 1).last() == rv[i as int]);
            assert(vals(r@)[ixs[6]] == r@[ix@[6] as int]@);
            let p = freight_price(&r[ix[6]]);
            if !p.is_null() {
                let mut line = base_row(r, &ix, &config);
                line.push(p);
                line.push(Value::text("运费"));
                let ghost old_out = out@;
                out.push(line);
                proof {
                    assert(vals(line@) =~= ddd_base(rv[i as int], ixs, config) + seq![p@, VVal::Str("运费"@)]);
                    assert(rows_view(out@) =~= rows_view(old_out).push(vals(line@)));
                }
            }
            i = i + 1;
        }
        assert(rv.take(rv.len() as int) =~= rv);
        let ghost freight = rows_view(out@);
        let mut j: usize = 0;
        while j < data.rows.len()
            invariant
                data@.wf(),
                rv == data@.rows,
                ix@.len() == 7,
                ixs == ix@.map_values(|x: usize| x as int),
                forall|k: int| 0 <= k < 7 ==> (#[trigger] ix@[k]) < data@.names.len(),
                j <= rv.len(),
                freight == ddd_freight(rv, ixs, config),
                rows_view(out@) == freight + ddd_customs(rv.take(j as int), ixs, config),
            decreases rv.len() - j,
        {
            let r = &data.rows[j];
            assert(vals(r@) == rv[j as int]);
            assert(rv[j as int].len() == data@.names.len());
            assert(rv.take(j + 1).drop_last() =~= rv.take(j as int));
            assert(rv.take(j + 1).last() == rv[j as int]);
            assert(vals(r@)[ixs[6]] == r@[ix@[6] as int]@);
            match customs_price(&r[ix[6]]) {
                Some(p) => {
                    let mut line = base_row(r, &ix, &config);
                    line.push(p);
                    line.push(Value::text("报关费"));
                    let ghost old_out = out@;
                    out.push(line);
                    proof {
                        assert(vals(line@) =~= ddd_base(rv[j as int], ixs, config) + seq![p@, VVal::Str("报关费"@)]);
                        assert(rows_view(out@) =~= rows_view(old_out).push(vals(line@)));
                        assert(rows_view(out@) =~= freight + ddd_customs(rv.take(j + 1), ixs, config));
                    }
                },
                None => {
                    assert(ddd_customs(rv.take(j + 1), ixs, config) == ddd_customs(rv.take(j as int), ixs, config));
                },
            }
            j = j + 1;
        }
        let names = bill_names_exec();
        let t = Table { names, rows: out };
        Ok(BillData(t))
    }
}

} // verus!
