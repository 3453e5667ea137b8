//! The parser of Tiansheng bills.
//!
//! A Tiansheng bill gives the unit of each line in a column of its own; the
//! lines whose unit matches the customs pattern of the configuration are
//! customs fees, all others freight.
use super::{
    check_text, clean_list_v, clean_list_value, cols_text, date_v, date_value, first_absent,
    indices, resolve, strip_v, strip_value, ts_bill_names, ts_bill_names_exec, Parse, ParseError,
    ParseErrorV,
};
use crate::headers::TSHeaders;
use crate::table::{rows_view, Table, TableV};
use crate::text::{
    chars_of, contains_chars, contains_seq, owned, split_char, split_on, string_of_range,
};
use crate::validate::BillData;
use crate::value::{vals, VVal, Value};
use vstd::prelude::*;

verus! {

// ---------------------------------------------------------------------------
// Unit patterns
// ---------------------------------------------------------------------------

/// A character with a meaning of its own in a regular expression.
pub open spec fn is_meta(c: char) -> bool {
    c == '\\' || c == '.' || c == '+' || c == '*' || c == '?' || c == '(' || c == ')' || c == '['
        || c == ']' || c == '{' || c == '}' || c == '^' || c == '$' || c == '|'
}

/// Text without regular-expression syntax.
pub open spec fn literal(s: Seq<char>) -> bool {
    forall|j: int| 0 <= j < s.len() ==> !is_meta(#[trigger] s[j])
}

/// A pattern without the one pair of parentheses around it, if it has one.
pub open spec fn group_body(p: Seq<char>) -> Seq<char> {
    if p.len() >= 2 && p[0] == '(' && p[p.len() - 1] == ')' {
        p.subrange(1, p.len() - 1)
    } else {
        p
    }
}

/// The alternatives of a unit pattern of the form `a|b|c`, with or without
/// one pair of parentheses around it, each alternative a literal text
/// (`(KG|立方|kg)`, `(票)`); `None` for a pattern of another form.
pub open spec fn pattern_alts(p: Seq<char>) -> Option<Seq<Seq<char>>> {
    let alts = split_on(group_body(p), '|');
    if forall|i: int| 0 <= i < alts.len() ==> literal(#[trigger] alts[i]) {
        Some(alts)
    } else {
        None
    }
}

/// Whether one of the alternatives occurs in `s` (the pattern matches
/// somewhere in `s`).
pub open spec fn matches_any(s: Seq<char>, alts: Seq<Seq<char>>) -> bool {
    exists|i: int| 0 <= i < alts.len() && contains_seq(s, #[trigger] alts[i])
}

/// The contents of character vectors.
pub open spec fn char_seqs(v: Seq<Vec<char>>) -> Seq<Seq<char>> {
    v.map_values(|x: Vec<char>| x@)
}

fn is_meta_char(c: char) -> (r: bool)
    ensures
        r == is_meta(c),
{
    c == '\\' || c == '.' || c == '+' || c == '*' || c == '?' || c == '(' || c == ')' || c == '['
        || c == ']' || c == '{' || c == '}' || c == '^' || c == '$' || c == '|'
}

/// Whether `s` holds no regular-expression syntax.
pub fn is_literal(s: &Vec<char>) -> (r: bool)
    ensures
        r == literal(s@),
{
    let mut j: usize = 0;
    while j < s.len()
        invariant
            j <= s@.len(),
            forall|k: int| 0 <= k < j ==> !is_meta(#[trigger] s@[k]),
        decreases s@.len() - j,
    {
        if is_meta_char(s[j]) {
            assert(is_meta(s@[j as int]));
            return false;
        }
        j = j + 1;
    }
    true
}

/// The alternatives of a unit pattern (see [`pattern_alts`]).
pub fn compile_alts(p: &str) -> (r: Option<Vec<Vec<char>>>)
    ensures
        match r {
            Some(a) => pattern_alts(p@) == Some(char_seqs(a@)),
            None => pattern_alts(p@) is None,
        },
{
    let cs = chars_of(p);
    let n = cs.len();
    let body = if n >= 2 && cs[0] == '(' && cs[n - 1] == ')' {
        string_of_range(&cs, 1, n - 1)
    } else {
        string_of_range(&cs, 0, n)
    };
    assert(cs@.subrange(0, n as int) =~= cs@);
    assert(body@ == group_body(p@));
    let pieces = split_char(body.as_str(), '|');
    let ghost alts = split_on(group_body(p@), '|');
    let mut out: Vec<Vec<char>> = Vec::new();
    let mut i: usize = 0;
    while i < pieces.len()
        invariant
            alts == split_on(group_body(p@), '|'),
            pieces@.len() == alts.len(),
            forall|k: int| 0 <= k < pieces@.len() ==> #[trigger] pieces@[k]@ == alts[k],
            i <= pieces@.len(),
            out@.len() == i,
            forall|k: int| 0 <= k < i ==> (#[trigger] out@[k])@ == alts[k] && literal(alts[k]),
        decreases pieces@.len() - i,
    {
        let piece = chars_of(pieces[i].as_str());
        if !is_literal(&piece) {
            assert(!literal(alts[i as int]));
            return None;
        }
        out.push(piece);
        i = i + 1;
    }
    assert(char_seqs(out@) =~= alts);
    Some(out)
}

/// Whether one of `alts` occurs in `s`.
pub fn matches_any_of(s: &Vec<char>, alts: &Vec<Vec<char>>) -> (r: bool)
    ensures
        r == matches_any(s@, char_seqs(alts@)),
{
    let ghost av = char_seqs(alts@);
    let mut i: usize = 0;
    while i < alts.len()
        invariant
            av == char_seqs(alts@),
            i <= alts@.len(),
            forall|k: int| 0 <= k < i ==> !contains_seq(s@, #[trigger] av[k]),
        decreases alts@.len() - i,
    {
        if contains_chars(s, &alts[i]) {
            assert(contains_seq(s@, av[i as int]));
            return true;
        }
        i = i + 1;
    }
    false
}

// ---------------------------------------------------------------------------
// The parser
// ---------------------------------------------------------------------------

/// The parser of Tiansheng bills.
pub struct TSParser;

/// How a Tiansheng bill is read.
pub struct TSParseConfig {
    /// The format of the dates.
    pub datefmt: String,
    /// The patterns of the freight units and of the customs units.
    pub units: (String, String),
    /// The column names.
    pub headers: TSHeaders,
}

impl TSParseConfig {
    /// A copy of the configuration.
    pub fn copy(&self) -> (r: Self)
        ensures
            r == *self,
    {
        TSParseConfig {
            datefmt: self.datefmt.clone(),
            units: (self.units.0.clone(), self.units.1.clone()),
            headers: self.headers.copy(),
        }
    }

    /// The configuration of Tiansheng bills.
    pub fn default() -> (r: Self)
        ensures
            r.datefmt@ == "%Y-%m-%d"@,
            r.units.0@ == "(KG|立方|kg)"@,
            r.units.1@ == "(票)"@,
            r.headers.values() == TSHeaders::labels(),
    {
        TSParseConfig {
            datefmt: owned("%Y-%m-%d"),
            units: (owned("(KG|立方|kg)"), owned("(票)")),
            headers: TSHeaders::default(),
        }
    }
}

/// The bill type of a line whose unit is `unit`: a customs fee when the
/// customs pattern matches the unit, freight otherwise (a missing unit
/// included).
pub open spec fn ts_type_v(unit: VVal, alts: Seq<Seq<char>>) -> VVal {
    match unit {
        VVal::Str(s) => if matches_any(s, alts) {
            VVal::Str("报关费"@)
        } else {
            VVal::Str("运费"@)
        },
        _ => VVal::Str("运费"@),
    }
}

/// One parsed row; `ix` holds the indices of the header columns in field
/// order.
pub open spec fn ts_row(r: Seq<VVal>, ix: Seq<int>, c: TSParseConfig, alts: Seq<Seq<char>>) -> Seq<VVal> {
    seq![
        date_v(r[ix[0]], c.datefmt@),
        strip_v(r[ix[1]]),
        clean_list_v(r[ix[2]]),
        strip_v(r[ix[3]]),
        VVal::Str("天盛"@),
        r[ix[4]],
        r[ix[5]],
        ts_type_v(r[ix[7]], alts),
        r[ix[6]],
    ]
}

/// What parsing a Tiansheng bill gives: a missing column is an error; so
/// is a customs pattern of a form other than that of [`pattern_alts`], and
/// a non-text value in a column read as text (date, waybill, shipment
/// numbers, warehouse, unit); otherwise one row per input row (see
/// [`ts_row`]).
pub open spec fn ts_spec(t: TableV, c: TSParseConfig) -> Result<TableV, ParseErrorV> {
    let names = c.headers.values();
    let m = first_absent(names, t);
    let ix = indices(names, t);
    if m < names.len() {
        Err(ParseErrorV::ColumnNotFound(names[m]))
    } else if pattern_alts(c.units.1@) is None {
        Err(ParseErrorV::Pattern(c.units.1@))
    } else if !cols_text(t, seq![ix[0], ix[1], ix[2], ix[3], ix[7]]) {
        Err(ParseErrorV::NotText)
    } else {
        let alts = pattern_alts(c.units.1@).unwrap();
        Ok(TableV { names: ts_bill_names(), rows: t.rows.map_values(|r: Seq<VVal>| ts_row(r, ix, c, alts)) })
    }
}

/// The result of a parse as plain values.
pub open spec fn ts_result_view(r: Result<BillData, ParseError>) -> Result<TableV, ParseErrorV> {
    match r {
        Ok(b) => Ok(b.0@),
        Err(e) => Err(e@),
    }
}

fn ts_type_value(unit: &Value, alts: &Vec<Vec<char>>) -> (r: Value)
    ensures
        r@ == ts_type_v(unit@, char_seqs(alts@)),
{
    let customs = match unit {
        Value::Str(s) => {
            let cs = chars_of(s.as_str());
            matches_any_of(&cs, alts)
        },
        _ => false,
    };
    if customs {
        Value::text("报关费")
    } else {
        Value::text("运费")
    }
}

impl Parse for TSParser {
    type Config = TSParseConfig;
    type Output = BillData;
    type Error = ParseError;

    fn parse(data: Table, config: TSParseConfig) -> (r: Result<BillData, ParseError>)
        ensures
            ts_result_view(r) == ts_spec(data@, config),
    {
        let names = config.headers.name_list();
        let ix = match resolve(&data, &names) {
            Ok(ix) => ix,
            Err(e) => {
                return Err(e);
            },
        };
        let alts = match compile_alts(config.units.1.as_str()) {
            Some(a) => a,
            None => {
                return Err(ParseError::Pattern(config.units.1.clone()));
            },
        };
        let ghost av = char_seqs(alts@);
        let ghost ixs = indices(config.headers.values(), data@);
        assert(ixs =~= ix@.map_values(|x: usize| x as int));
        let cols = vec![ix[0], ix[1], ix[2], ix[3], ix[7]];
        assert(cols@.map_values(|c: usize| c as int) =~= seq![ixs[0], ixs[1], ixs[2], ixs[3], ixs[7]]);
        if !check_text(&data, &cols) {
            return Err(ParseError::NotText);
        }
        let mut rows: Vec<Vec<Value>> = Vec::new();
        let mut i: usize = 0;
        while i < data.rows.len()
            invariant
                data@.wf(),
                av == char_seqs(alts@),
                ix@.len() == 8,
                forall|j: int| 0 <= j < 8 ==> (#[trigger] ix@[j]) < data@.names.len() && ix@[j] as int == ixs[j],
                i <= data@.rows.len(),
                rows@.len() == i,
                forall|a: int| 0 <= a < i ==> vals(#[trigger] rows@[a]@) == ts_row(data@.rows[a], ixs, config, av),
            decreases data@.rows.len() - i,
        {
            let r = &data.rows[i];
            assert(vals(r@) == data@.rows[i as int]);
            assert(data@.rows[i as int].len() == data@.names.len());
            assert(r@.len() == data@.names.len());
            let mut out: Vec<Value> = Vec::new();
            out.push(date_value(&r[ix[0]], config.datefmt.as_str()));
            out.push(strip_value(&r[ix[1]]));
            out.push(clean_list_value(&r[ix[2]]));
            out.push(strip_value(&r[ix[3]]));
            out.push(Value::text("天盛"));
            out.push(r[ix[4]].copy());
            out.push(r[ix[5]].copy());
            out.push(ts_type_value(&r[ix[7]], &alts));
            out.push(r[ix[6]].copy());
            proof {
                let rv = data@.rows[i as int];
                assert forall|j: int| 0 <= j < 8 implies #[trigger] r@[ix@[j] as int]@ == rv[ixs[j]] by {
                    assert(vals(r@)[ix@[j] as int] == r@[ix@[j] as int]@);
                }
                assert(vals(out@) =~= ts_row(rv, ixs, config, av));
            }
            rows.push(out);
            i = i + 1;
        }
        let names = ts_bill_names_exec();
        let t = Table { names, rows };
        assert(rows_view(t.rows@) =~= data@.rows.map_values(|r: Seq<VVal>| ts_row(r, ixs, config, av)));
        Ok(BillData(t))
    }
}

} // verus!
