//! Parsers that turn the sheets of each forwarder, and our own shipment
//! details, into tables with common column names.
//!
//! Every parser looks up its columns by the names in its header struct,
//! cleans text cells and parses dates, and yields a [`BillData`] (a bill of
//! a forwarder) or a [`ShipmentData`] (our own details) ready for
//! validation.
use crate::dates::{parse_date_exact, strptime_days};
use crate::table::{find_index, lemma_find_name, Table, TableV};
use crate::text::{
    owned, replace_all_char, replace_char, strip, strip_char, find_char, lemma_find_char,
    chars_of, string_of_range, find_char_from,
};
use crate::value::{strs, vals, VVal, Value};
use vstd::prelude::*;

pub mod ddd;
pub mod formula;
pub mod headway;
pub mod jyd;
pub mod ts;
pub mod wb;

pub use crate::headers::{AsHeaders, DDDHeaders, HeadwayHeaders, JydHeaders, TSHeaders, WbHeaders};
pub use crate::validate::{BillData, IntoValidated, ShipmentData};




pub use ddd::{DDDParseConfig, DDDParser};
pub use headway::{HeadwayParseConfig, HeadwayParser};
pub use jyd::{JydParseConfig, JydParser};
pub use ts::{TSParseConfig, TSParser};
pub use wb::{WBParseConfig, WbParser};

verus! {

/// Parsers of sheets into tables ready for validation.
pub trait Parse {
    type Output;
    type Config;
    type Error;

    /// Cleans `data` by the rules of `config`.
    fn parse(data: Table, config: Self::Config) -> Result<Self::Output, Self::Error>
        requires
            data@.wf(),
    ;
}

/// Why a sheet could not be parsed.
#[derive(Debug)]
pub enum ParseError {
    /// The sheet has no column of this name.
    ColumnNotFound(String),
    /// A column that must hold text holds another kind of value.
    NotText,
    /// A unit pattern is not of the supported form: literal alternatives
    /// separated by `|`, with or without one pair of parentheses around.
    Pattern(String),
}

pub enum ParseErrorV {
    ColumnNotFound(Seq<char>),
    NotText,
    Pattern(Seq<char>),
}

impl View for ParseError {
    type V = ParseErrorV;

    open spec fn view(&self) -> ParseErrorV {
        match self {
            ParseError::ColumnNotFound(s) => ParseErrorV::ColumnNotFound(s@),
            ParseError::NotText => ParseErrorV::NotText,
            ParseError::Pattern(p) => ParseErrorV::Pattern(p@),
        }
    }
}

// ---------------------------------------------------------------------------
// Columns
// ---------------------------------------------------------------------------

/// Index of the first name in `names` that `t` has no column for, or
/// `names.len()`.
pub open spec fn first_absent(names: Seq<Seq<char>>, t: TableV) -> int
    decreases names.len(),
{
    if names.len() == 0 {
        0
    } else if !t.has(names[0]) {
        0
    } else {
        1 + first_absent(names.drop_first(), t)
    }
}

pub proof fn lemma_first_absent(names: Seq<Seq<char>>, t: TableV)
    ensures
        0 <= first_absent(names, t) <= names.len(),
        forall|j: int| 0 <= j < first_absent(names, t) ==> t.has(#[trigger] names[j]),
        first_absent(names, t) < names.len() ==> !t.has(names[first_absent(names, t)]),
    decreases names.len(),
{
    if names.len() > 0 && t.has(names[0]) {
        lemma_first_absent(names.drop_first(), t);
        assert forall|j: int| 0 <= j < first_absent(names, t) implies t.has(#[trigger] names[j]) by {
            if j > 0 {
                assert(names[j] == names.drop_first()[j - 1]);
            }
        }
    }
}

/// The column indices of `names` in `t`.
pub open spec fn indices(names: Seq<Seq<char>>, t: TableV) -> Seq<int> {
    names.map_values(|n: Seq<char>| t.col(n))
}

/// The index in `t` of each of `names`, or the first name it lacks.
pub fn resolve(t: &Table, names: &Vec<String>) -> (r: Result<Vec<usize>, ParseError>)
    ensures
        match r {
            Ok(ix) => first_absent(strs(names@), t@) == names@.len() && ix@.len() == names@.len()
                && ix@.map_values(|x: usize| x as int) == indices(strs(names@), t@)
                && forall|j: int| 0 <= j < ix@.len() ==> (#[trigger] ix@[j]) as int == indices(strs(names@), t@)[j]
                && ix@[j] < t@.names.len(),
            Err(e) => first_absent(strs(names@), t@) < names@.len() && e@ == ParseErrorV::ColumnNotFound(
                strs(names@)[first_absent(strs(names@), t@)],
            ),
        },
{
    let ghost nv = strs(names@);
    proof {
        lemma_first_absent(nv, t@);
    }
    let mut ix: Vec<usize> = Vec::new();
    let mut j: usize = 0;
    while j < names.len()
        invariant
            nv == strs(names@),
            j <= names@.len(),
            ix@.len() == j,
            forall|u: int| 0 <= u < j ==> t@.has(#[trigger] nv[u]),
            forall|u: int| 0 <= u < j ==> (#[trigger] ix@[u]) as int == t@.col(nv[u]) && ix@[u] < t@.names.len(),
            0 <= first_absent(nv, t@) <= nv.len(),
            forall|u: int| 0 <= u < first_absent(nv, t@) ==> t@.has(#[trigger] nv[u]),
            first_absent(nv, t@) < nv.len() ==> !t@.has(nv[first_absent(nv, t@)]),
        decreases names@.len() - j,
    {
        match find_index(&t.names, names[j].as_str()) {
            Some(k) => {
                proof {
                    lemma_find_name(t@.names, nv[j as int]);
                }
                ix.push(k);
            },
            None => {
                proof {
                    let m = first_absent(nv, t@);
                    if m > j {
                        assert(t@.has(nv[j as int]));
                    }
                    if m < j {
                        assert(t@.has(nv[m]));
                    }
                }
                return Err(ParseError::ColumnNotFound(names[j].clone()));
            },
        }
        j = j + 1;
    }
    proof {
        let m = first_absent(nv, t@);
        if m < nv.len() {
            assert(t@.has(nv[m]));
        }
        assert(ix@.map_values(|x: usize| x as int) =~= indices(nv, t@));
    }
    Ok(ix)
}

/// Whether a value can go through a text operation: text or null.
pub open spec fn text_ok(v: VVal) -> bool {
    v is Str || v is Null
}

/// Whether the columns `cols` of every row of `t` hold text or nulls.
pub open spec fn cols_text(t: TableV, cols: Seq<int>) -> bool {
    forall|i: int, j: int| 0 <= i < t.rows.len() && 0 <= j < cols.len() ==> text_ok(#[trigger] t.rows[i][cols[j]])
}

/// Whether the columns `cols` of every row hold text or nulls.
pub fn check_text(t: &Table, cols: &Vec<usize>) -> (r: bool)
    requires
        t@.wf(),
        forall|j: int| 0 <= j < cols@.len() ==> (#[trigger] cols@[j]) < t@.names.len(),
    ensures
        r == cols_text(t@, cols@.map_values(|c: usize| c as int)),
{
    let ghost cs = cols@.map_values(|c: usize| c as int);
    let mut i: usize = 0;
    while i < t.rows.len()
        invariant
            t@.wf(),
            forall|j: int| 0 <= j < cols@.len() ==> (#[trigger] cols@[j]) < t@.names.len(),
            cs == cols@.map_values(|c: usize| c as int),
            i <= t@.rows.len(),
            forall|a: int, j: int| 0 <= a < i && 0 <= j < cs.len() ==> text_ok(#[trigger] t@.rows[a][cs[j]]),
        decreases t@.rows.len() - i,
    {
        let row = &t.rows[i];
        assert(vals(row@) == t@.rows[i as int]);
        assert(t@.rows[i as int].len() == t@.names.len());
        let mut j: usize = 0;
        while j < cols.len()
            invariant
                t@.wf(),
                i < t@.rows.len(),
                forall|j: int| 0 <= j < cols@.len() ==> (#[trigger] cols@[j]) < t@.names.len(),
                cs == cols@.map_values(|c: usize| c as int),
                vals(row@) == t@.rows[i as int],
                row@.len() == t@.names.len(),
                j <= cols@.len(),
                forall|u: int| 0 <= u < j ==> text_ok(#[trigger] t@.rows[i as int][cs[u]]),
            decreases cols@.len() - j,
        {
            let c = cols[j];
            assert(row@[c as int]@ == t@.rows[i as int][cs[j as int]]);
            match &row[c] {
                Value::Str(_) => {},
                Value::Null => {},
                _ => {
                    assert(!text_ok(t@.rows[i as int][cs[j as int]]));
                    return false;
                },
            }
            j = j + 1;
        }
        i = i + 1;
    }
    true
}

// ---------------------------------------------------------------------------
// Cell transforms
// ---------------------------------------------------------------------------

/// A text cell without surrounding spaces; null for any other value.
pub open spec fn strip_v(v: VVal) -> VVal {
    match v {
        VVal::Str(s) => VVal::Str(strip(s, ' ')),
        _ => VVal::Null,
    }
}

/// A list of shipment numbers with spaces and full-width commas turned into
/// commas, after surrounding spaces are removed.
pub open spec fn clean_list_v(v: VVal) -> VVal {
    match v {
        VVal::Str(s) => VVal::Str(replace_char(replace_char(strip(s, ' '), ' ', ','), '，', ',')),
        _ => VVal::Null,
    }
}

/// A text cell read as a date with the format `fmt`; null when it does not
/// parse; the whole text must match the format.
pub open spec fn date_v(v: VVal, fmt: Seq<char>) -> VVal {
    match v {
        VVal::Str(s) => match strptime_days(s, fmt) {
            Some(d) => VVal::Date(d),
            None => VVal::Null,
        },
        _ => VVal::Null,
    }
}

pub fn strip_value(v: &Value) -> (r: Value)
    ensures
        r@ == strip_v(v@),
{
    match v {
        Value::Str(s) => Value::Str(strip_char(s.as_str(), ' ')),
        _ => Value::Null,
    }
}

pub fn clean_list_value(v: &Value) -> (r: Value)
    ensures
        r@ == clean_list_v(v@),
{
    match v {
        Value::Str(s) => {
            let a = strip_char(s.as_str(), ' ');
            let b = replace_all_char(a.as_str(), ' ', ',');
            let c = replace_all_char(b.as_str(), '，', ',');
            Value::Str(c)
        },
        _ => Value::Null,
    }
}

pub fn date_value(v: &Value, fmt: &str) -> (r: Value)
    ensures
        r@ == date_v(v@, fmt@),
{
    match v {
        Value::Str(s) => match parse_date_exact(s.as_str(), fmt) {
            Some(d) => Value::Date(d),
            None => Value::Null,
        },
        _ => Value::Null,
    }
}

/// The text before the first `/`, or all of it when there is none.
pub open spec fn split_head_v(v: VVal) -> VVal {
    match v {
        VVal::Str(s) => VVal::Str(s.take(find_char(s, '/'))),
        _ => VVal::Null,
    }
}

/// The text after the first `/`, or null when there is none.
pub open spec fn split_tail_v(v: VVal) -> VVal {
    match v {
        VVal::Str(s) => if find_char(s, '/') < s.len() {
            VVal::Str(s.skip(find_char(s, '/') + 1))
        } else {
            VVal::Null
        },
        _ => VVal::Null,
    }
}

pub fn split_head_value(v: &Value) -> (r: Value)
    ensures
        r@ == split_head_v(v@),
{
    match v {
        Value::Str(s) => {
            let cs = chars_of(s.as_str());
            let k = find_char_from(&cs, '/', 0);
            assert(cs@.skip(0) =~= cs@);
            assert(cs@.subrange(0, k as int) =~= cs@.take(k as int));
            Value::Str(string_of_range(&cs, 0, k))
        },
        _ => Value::Null,
    }
}

pub fn split_tail_value(v: &Value) -> (r: Value)
    ensures
        r@ == split_tail_v(v@),
{
    match v {
        Value::Str(s) => {
            let cs = chars_of(s.as_str());
            let k = find_char_from(&cs, '/', 0);
            assert(cs@.skip(0) =~= cs@);
            if k < cs.len() {
                assert(cs@.subrange(k + 1, cs@.len() as int) =~= cs@.skip(k + 1));
                Value::Str(string_of_range(&cs, k + 1, cs.len()))
            } else {
                Value::Null
            }
        },
        _ => Value::Null,
    }
}

/// The columns of a parsed bill.
pub open spec fn bill_names() -> Seq<Seq<char>> {
    seq!["日期"@, "运单号"@, "货件单号"@, "物流中心编码"@, "货代名称"@, "件数"@, "计费重"@, "单价"@, "账单类型"@]
}

/// The columns of a parsed Tiansheng bill: the bill type comes before the
/// unit price.
pub open spec fn ts_bill_names() -> Seq<Seq<char>> {
    seq!["日期"@, "运单号"@, "货件单号"@, "物流中心编码"@, "货代名称"@, "件数"@, "计费重"@, "账单类型"@, "单价"@]
}

/// The column names of a parsed bill.
pub fn bill_names_exec() -> (r: Vec<String>)
    ensures
        strs(r@) == bill_names(),
{
    let r = names_of(vec!["日期", "运单号", "货件单号", "物流中心编码", "货代名称", "件数", "计费重", "单价", "账单类型"]);
    assert(strs(r@) =~= bill_names());
    r
}

/// The column names of a parsed Tiansheng bill.
pub fn ts_bill_names_exec() -> (r: Vec<String>)
    ensures
        strs(r@) == ts_bill_names(),
{
    let r = names_of(vec!["日期", "运单号", "货件单号", "物流中心编码", "货代名称", "件数", "计费重", "账单类型", "单价"]);
    assert(strs(r@) =~= ts_bill_names());
    r
}

/// The names of a list of literals.
pub fn names_of(v: Vec<&str>) -> (r: Vec<String>)
    ensures
        r@.len() == v@.len(),
        forall|i: int| 0 <= i < v@.len() ==> (#[trigger] r@[i])@ == v@[i]@,
{
    let mut r: Vec<String> = Vec::new();
    let mut i: usize = 0;
    while i < v.len()
        invariant
            i <= v@.len(),
            r@.len() == i,
            forall|j: int| 0 <= j < i ==> (#[trigger] r@[j])@ == v@[j]@,
        decreases v@.len() - i,
    {
        r.push(owned(v[i]));
        i = i + 1;
    }
    r
}

} // verus!
