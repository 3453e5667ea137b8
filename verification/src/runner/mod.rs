//! The steps of a whole run, for the application: parsing each sheet by
//! its template, reconciling freight and customs, and the statistics of
//! the differences.
use crate::headers::{AsHeaders, pairs_view, updated};
use crate::parser::{
    DDDParseConfig, DDDParser, HeadwayParseConfig, HeadwayParser, JydParseConfig, JydParser, Parse,
    ParseError, ParseErrorV,
    TSParseConfig, TSParser, WBParseConfig, WbParser,
};
use crate::reader::{ExcelError, ExcelErrorV};
use crate::reconcile::reconciler::{new_error, width_spec};
use crate::reconcile::{
    columns_view, customs_scheme, freight_scheme, ColumnsV, ReconcileError, ReconcileErrorV,
    ReconcileOption, Reconciler,
};
use crate::text::owned;
use crate::table::{Table, TableV};
use crate::validate::{BillData, ShipmentData};
use vstd::prelude::*;

pub mod stasis;

pub use stasis::stasis_freight_and_customs;

verus! {

/// Why a run failed.
#[derive(Debug)]
pub enum RunError {
    /// A sheet could not be read.
    Load(ExcelError),
    /// A sheet could not be parsed.
    Parse(ParseError),
    /// A reconciliation could not be made.
    Reconcile(ReconcileError),
    /// A column the statistics need is missing.
    Column(String),
    /// A column the statistics read as text holds another kind of value.
    NotText(String),
    /// A column the statistics compute with holds something other than
    /// numbers.
    NotNumeric(String),
    /// Any other failure, described.
    Any(String),
}

pub enum RunErrorV {
    Load(ExcelErrorV),
    Parse(ParseErrorV),
    Reconcile(ReconcileErrorV),
    Column(Seq<char>),
    NotText(Seq<char>),
    NotNumeric(Seq<char>),
    Any(Seq<char>),
}

impl View for RunError {
    type V = RunErrorV;

    open spec fn view(&self) -> RunErrorV {
        match self {
            RunError::Load(e) => RunErrorV::Load(e@),
            RunError::Parse(e) => RunErrorV::Parse(e@),
            RunError::Reconcile(e) => RunErrorV::Reconcile(e@),
            RunError::Column(s) => RunErrorV::Column(s@),
            RunError::NotText(s) => RunErrorV::NotText(s@),
            RunError::NotNumeric(s) => RunErrorV::NotNumeric(s@),
            RunError::Any(s) => RunErrorV::Any(s@),
        }
    }
}

/// The parser a template uses, with its configuration.
pub enum ParseConfig {
    WB(WBParseConfig),
    TS(TSParseConfig),
    DDD(DDDParseConfig),
    Jyd(JydParseConfig),
    Headway(HeadwayParseConfig),
}

/// The column names of a parse configuration, in the order of its labels.
pub open spec fn config_values(c: ParseConfig) -> Seq<Seq<char>> {
    match c {
        ParseConfig::WB(x) => x.headers.values(),
        ParseConfig::TS(x) => x.headers.values(),
        ParseConfig::DDD(x) => x.headers.values(),
        ParseConfig::Jyd(x) => x.headers.values(),
        ParseConfig::Headway(x) => x.headers.values(),
    }
}

/// Which parser a configuration is for.
pub open spec fn config_kind(c: ParseConfig) -> int {
    match c {
        ParseConfig::WB(_) => 0,
        ParseConfig::TS(_) => 1,
        ParseConfig::DDD(_) => 2,
        ParseConfig::Jyd(_) => 3,
        ParseConfig::Headway(_) => 4,
    }
}

/// The labels of a parse configuration's columns.
pub open spec fn config_labels(c: ParseConfig) -> Seq<Seq<char>> {
    match c {
        ParseConfig::WB(x) => crate::headers::WbHeaders::labels(),
        ParseConfig::TS(x) => crate::headers::TSHeaders::labels(),
        ParseConfig::DDD(x) => crate::headers::DDDHeaders::labels(),
        ParseConfig::Jyd(x) => crate::headers::JydHeaders::labels(),
        ParseConfig::Headway(x) => crate::headers::HeadwayHeaders::labels(),
    }
}

/// Whether two configurations are for the same parser and agree on
/// everything but the column names.
pub open spec fn same_settings(a: ParseConfig, b: ParseConfig) -> bool {
    match (a, b) {
        (ParseConfig::WB(x), ParseConfig::WB(y)) => x.datefmt == y.datefmt && x.units == y.units && x.forwarder
            == y.forwarder,
        (ParseConfig::TS(x), ParseConfig::TS(y)) => x.datefmt == y.datefmt && x.units == y.units,
        (ParseConfig::DDD(x), ParseConfig::DDD(y)) => x.datefmt == y.datefmt,
        (ParseConfig::Jyd(x), ParseConfig::Jyd(y)) => x.datefmt == y.datefmt && x.year == y.year,
        (ParseConfig::Headway(x), ParseConfig::Headway(y)) => x.year == y.year,
        _ => false,
    }
}

impl ParseConfig {
    /// The `(label, name)` pairs of the configuration's columns.
    pub fn as_headers(&self) -> (r: Vec<(String, String)>)
        ensures
            pairs_view(r@) == config_labels(*self).zip_with(config_values(*self)),
    {
        match self {
            ParseConfig::WB(c) => c.headers.as_headers(),
            ParseConfig::TS(c) => c.headers.as_headers(),
            ParseConfig::DDD(c) => c.headers.as_headers(),
            ParseConfig::Jyd(c) => c.headers.as_headers(),
            ParseConfig::Headway(c) => c.headers.as_headers(),
        }
    }

    /// Renames the configuration's columns (see [`AsHeaders::update_headers`]).
    pub fn update_headers(&mut self, headers: Vec<(String, String)>)
        ensures
            config_kind(*final(self)) == config_kind(*old(self)),
            same_settings(*final(self), *old(self)),
            config_labels(*final(self)) == config_labels(*old(self)),
            config_values(*final(self)) == updated(
                config_values(*old(self)),
                config_labels(*old(self)),
                pairs_view(headers@),
            ),
    {
        match self {
            ParseConfig::WB(c) => c.headers.update_headers(headers),
            ParseConfig::TS(c) => c.headers.update_headers(headers),
            ParseConfig::DDD(c) => c.headers.update_headers(headers),
            ParseConfig::Jyd(c) => c.headers.update_headers(headers),
            ParseConfig::Headway(c) => c.headers.update_headers(headers),
        }
    }
}

/// Where the data of a template comes from.
pub enum ReadConfig {
    /// A sheet of a workbook file.
    ExcelFilePath { path: String, name: String },
    /// A sheet of a workbook held in memory, with the extension that tells
    /// its format.
    ExcelReadSeek { bytes: Vec<u8>, name: String, extension: String },
}

/// A template: one parse configuration, and the sheets it applies to.
pub struct Template {
    pub parse_config: ParseConfig,
    pub sources: Vec<ReadConfig>,
}

/// What parsing a sheet gives: a bill or shipment details.
pub enum Parsed {
    Bill(BillData),
    Shipment(ShipmentData),
}

pub open spec fn parsed_view(r: Result<Parsed, RunError>) -> Result<TableV, RunErrorV> {
    match r {
        Ok(Parsed::Bill(b)) => Ok(b.0@),
        Ok(Parsed::Shipment(s)) => Ok(s.0@),
        Err(e) => Err(e@),
    }
}

/// What parsing a sheet by a configuration gives (see each parser).
pub open spec fn parse_spec(c: ParseConfig, t: TableV) -> Result<TableV, RunErrorV> {
    let r = match c {
        ParseConfig::WB(x) => crate::parser::wb::wb_spec(t, x),
        ParseConfig::TS(x) => crate::parser::ts::ts_spec(t, x),
        ParseConfig::DDD(x) => crate::parser::ddd::ddd_spec(t, x),
        ParseConfig::Jyd(x) => crate::parser::jyd::jyd_spec(t, x),
        ParseConfig::Headway(x) => crate::parser::headway::headway_spec(t, x),
    };
    match r {
        Ok(v) => Ok(v),
        Err(e) => Err(RunErrorV::Parse(e)),
    }
}

/// Whether a configuration gives shipment details rather than a bill.
pub open spec fn gives_shipments(c: ParseConfig) -> bool {
    c is Headway
}

/// Parses a sheet by a template's configuration.
pub fn parse_with(config: &ParseConfig, data: Table) -> (r: Result<Parsed, RunError>)
    requires
        data@.wf(),
    ensures
        parsed_view(r) == parse_spec(*config, data@),
        r matches Ok(p) ==> (p is Shipment <==> gives_shipments(*config)),
{
    match config {
        ParseConfig::WB(c) => match WbParser::parse(data, c.copy()) {
            Ok(b) => Ok(Parsed::Bill(b)),
            Err(e) => Err(RunError::Parse(e)),
        },
        ParseConfig::TS(c) => match TSParser::parse(data, c.copy()) {
            Ok(b) => Ok(Parsed::Bill(b)),
            Err(e) => Err(RunError::Parse(e)),
        },
        ParseConfig::DDD(c) => match DDDParser::parse(data, c.copy()) {
            Ok(b) => Ok(Parsed::Bill(b)),
            Err(e) => Err(RunError::Parse(e)),
        },
        ParseConfig::Jyd(c) => match JydParser::parse(data, c.copy()) {
            Ok(b) => Ok(Parsed::Bill(b)),
            Err(e) => Err(RunError::Parse(e)),
        },
        ParseConfig::Headway(c) => match HeadwayParser::parse(data, c.copy()) {
            Ok(s) => Ok(Parsed::Shipment(s)),
            Err(e) => Err(RunError::Parse(e)),
        },
    }
}

/// The wide result of reconciling `l` (our forwarders' side, named
/// `物流`) with `r` (our own side, named `我方`) under `scheme`, or why it
/// cannot be made.
pub open spec fn pair_spec(scheme: ColumnsV, l: TableV, r: TableV) -> Result<TableV, ReconcileErrorV> {
    match new_error(scheme, l, r) {
        Some(e) => Err(e),
        None => width_spec(scheme, "物流"@, l, "我方"@, r),
    }
}

/// One reconciliation of the run: `l` against `r` under the settings.
fn reconcile_one(option: ReconcileOption, l: Table, r: Table) -> (out: Result<Reconciler, RunError>)
    requires
        option.wf(),
        option.left is None,
        option.right is None,
        l@.wf(),
        r@.wf(),
    ensures
        match out {
            Ok(x) => x.wf() && x.result is Some && pair_spec(columns_view(option.columns@), l@, r@) == Ok::<TableV, ReconcileErrorV>(x.result.unwrap()@)
                && x.columns == option.columns && x.left == (x.left.0, l) && x.left.0@ == "物流"@ && x.right == (x.right.0, r) && x.right.0@ == "我方"@,
            Err(e) => exists|re: ReconcileErrorV| pair_spec(columns_view(option.columns@), l@, r@) == Err::<TableV, ReconcileErrorV>(re)
                && e@ == RunErrorV::Reconcile(re),
        },
{
    let ghost scheme = columns_view(option.columns@);
    let ghost (lv, rv) = (l@, r@);
    let o = option.left(l, owned("物流")).right(r, owned("我方"));
    let rec = match o.try_into_reconciler() {
        Ok(x) => x,
        Err(e) => {
            return Err(RunError::Reconcile(e));
        },
    };
    match rec.reconcile() {
        Ok(x) => Ok(x),
        Err(e) => Err(RunError::Reconcile(e)),
    }
}

/// The freight and the customs reconciliations of a run: the forwarders'
/// freight lines against ours, then their customs lines against ours.
pub fn reconcile_freight_and_customs(
    freight_bill: Table,
    freight_headway: Table,
    customs_bill: Table,
    customs_headway: Table,
) -> (r: Result<(Reconciler, Reconciler), RunError>)
    requires
        freight_bill@.wf(),
        freight_headway@.wf(),
        customs_bill@.wf(),
        customs_headway@.wf(),
    ensures
        match r {
            Ok((a, b)) => a.wf() && b.wf() && a.result is Some && b.result is Some
                && columns_view(a.columns@) == freight_scheme() && a.left.0@ == "物流"@ && a.left.1 == freight_bill
                && a.right.0@ == "我方"@ && a.right.1 == freight_headway
                && columns_view(b.columns@) == customs_scheme() && b.left.0@ == "物流"@ && b.left.1 == customs_bill
                && b.right.0@ == "我方"@ && b.right.1 == customs_headway
                && pair_spec(freight_scheme(), freight_bill@, freight_headway@) == Ok::<TableV, ReconcileErrorV>(a.result.unwrap()@)
                && pair_spec(customs_scheme(), customs_bill@, customs_headway@) == Ok::<TableV, ReconcileErrorV>(b.result.unwrap()@),
            Err(e) => exists|re: ReconcileErrorV| e@ == RunErrorV::Reconcile(re) && (
                pair_spec(freight_scheme(), freight_bill@, freight_headway@) == Err::<TableV, ReconcileErrorV>(re)
                || (pair_spec(freight_scheme(), freight_bill@, freight_headway@) is Ok
                    && pair_spec(customs_scheme(), customs_bill@, customs_headway@) == Err::<TableV, ReconcileErrorV>(re))),
        },
{
    let a = match reconcile_one(ReconcileOption::freight(), freight_bill, freight_headway) {
        Ok(x) => x,
        Err(e) => {
            return Err(e);
        },
    };
    let b = match reconcile_one(ReconcileOption::customs(), customs_bill, customs_headway) {
        Ok(x) => x,
        Err(e) => {
            return Err(e);
        },
    };
    Ok((a, b))
}

/// The result of parsing sheets in order: the bills and the shipment
/// details, each in the order of the sheets; the first error stops it.
pub open spec fn parse_all_spec(items: Seq<(ParseConfig, TableV)>) -> Result<(Seq<TableV>, Seq<TableV>), RunErrorV>
    decreases items.len(),
{
    if items.len() == 0 {
        Ok((seq![], seq![]))
    } else {
        match parse_all_spec(items.drop_last()) {
            Err(e) => Err(e),
            Ok((b, s)) => {
                let (c, t) = items.last();
                match parse_spec(c, t) {
                    Err(e) => Err(e),
                    Ok(v) => if gives_shipments(c) {
                        Ok((b, s.push(v)))
                    } else {
                        Ok((b.push(v), s))
                    },
                }
            },
        }
    }
}

/// The view of a list of configured sheets.
pub open spec fn items_view(items: Seq<(ParseConfig, Table)>) -> Seq<(ParseConfig, TableV)> {
    items.map_values(|x: (ParseConfig, Table)| (x.0, x.1@))
}

pub open spec fn bills_view(b: Seq<BillData>) -> Seq<TableV> {
    b.map_values(|x: BillData| x.0@)
}

pub open spec fn shipments_view(s: Seq<ShipmentData>) -> Seq<TableV> {
    s.map_values(|x: ShipmentData| x.0@)
}

/// The result of [`parse_all`] as plain values.
pub open spec fn parse_all_view(r: Result<(Vec<BillData>, Vec<ShipmentData>), RunError>) -> Result<(Seq<TableV>, Seq<TableV>), RunErrorV> {
    match r {
        Ok((b, s)) => Ok((bills_view(b@), shipments_view(s@))),
        Err(e) => Err(e@),
    }
}

/// Parses one sheet and adds the result to the bills or the shipments.
fn add_parsed(
    bills: &mut Vec<BillData>,
    shipments: &mut Vec<ShipmentData>,
    config: &ParseConfig,
    table: Table,
) -> (r: Result<(), RunError>)
    requires
        table@.wf(),
    ensures
        match r {
            Ok(_) => match parse_spec(*config, table@) {
                Ok(v) => if gives_shipments(*config) {
                    bills_view(final(bills)@) == bills_view(old(bills)@) && shipments_view(final(shipments)@)
                        == shipments_view(old(shipments)@).push(v)
                } else {
                    bills_view(final(bills)@) == bills_view(old(bills)@).push(v) && shipments_view(
                        final(shipments)@,
                    ) == shipments_view(old(shipments)@)
                },
                Err(_) => false,
            },
            Err(e) => parse_spec(*config, table@) == Err::<TableV, RunErrorV>(e@),
        },
{
    match parse_with(config, table) {
        Ok(Parsed::Bill(b)) => {
            let ghost o = bills@;
            bills.push(b);
            assert(bills_view(bills@) =~= bills_view(o).push(bills@.last().0@));
            Ok(())
        },
        Ok(Parsed::Shipment(sh)) => {
            let ghost o = shipments@;
            shipments.push(sh);
            assert(shipments_view(shipments@) =~= shipments_view(o).push(shipments@.last().0@));
            Ok(())
        },
        Err(e) => Err(e),
    }
}

/// Parses each sheet by its template's configuration, in order, gathering
/// the bills and the shipment details.
#[verifier::rlimit(40)]
pub fn parse_all(items: Vec<(ParseConfig, Table)>) -> (r: Result<(Vec<BillData>, Vec<ShipmentData>), RunError>)
    requires
        forall|k: int| 0 <= k < items@.len() ==> (#[trigger] items@[k]).1@.wf(),
    ensures
        parse_all_view(r) == parse_all_spec(items_view(items@)),
{
    let ghost iv = items_view(items@);
    let mut bills: Vec<BillData> = Vec::new();
    let mut shipments: Vec<ShipmentData> = Vec::new();
    let mut rest = items;
    let n = rest.len();
    let mut i: usize = 0;
    assert(iv.take(0) =~= Seq::<(ParseConfig, TableV)>::empty());
    assert(bills_view(bills@) =~= Seq::<TableV>::empty());
    assert(shipments_view(shipments@) =~= Seq::<TableV>::empty());
    assert(items_view(rest@) =~= iv.skip(0));
    while i < n
        invariant
            iv == items_view(items@),
            n == iv.len(),
            i <= n,
            rest@.len() == n - i,
            items_view(rest@) == iv.skip(i as int),
            forall|q: int| 0 <= q < rest@.len() ==> (#[trigger] rest@[q]).1@.wf(),
            parse_all_spec(iv.take(i as int)) == Ok::<(Seq<TableV>, Seq<TableV>), RunErrorV>(
                (bills_view(bills@), shipments_view(shipments@)),
            ),
        decreases n - i,
    {
        let ghost before = rest@;
        let (config, table) = rest.remove(0);
        assert(items_view(before)[0] == iv[i as int]);
        assert forall|q: int| 0 <= q < rest@.len() implies #[trigger] items_view(rest@)[q] == iv.skip(i + 1)[q] by {
            assert(rest@[q] == before[q + 1]);
            assert(items_view(before)[q + 1] == iv.skip(i as int)[q + 1]);
        }
        assert(items_view(rest@) =~= iv.skip(i + 1));
        assert forall|q: int| 0 <= q < rest@.len() implies (#[trigger] rest@[q]).1@.wf() by {
            assert(rest@[q] == before[q + 1]);
        }
        assert(iv.take(i + 1).drop_last() =~= iv.take(i as int));
        assert(iv.take(i + 1).last() == iv[i as int]);
        assert(before[0].1@.wf());
        match add_parsed(&mut bills, &mut shipments, &config, table) {
            Ok(_) => {},
            Err(e) => {
                proof {
                    assert(iv[i as int] == (config, before[0].1@));
                    assert(parse_spec(config, before[0].1@) == Err::<TableV, RunErrorV>(e@));
                    assert(parse_all_spec(iv.take(i + 1)) == Err::<(Seq<TableV>, Seq<TableV>), RunErrorV>(e@));
                    lemma_parse_all_err(iv, i as int);
                    assert(parse_all_spec(iv) == Err::<(Seq<TableV>, Seq<TableV>), RunErrorV>(e@));
                }
                return Err(e);
            },
        }
        i = i + 1;
    }
    assert(iv.take(n as int) =~= iv);
    Ok((bills, shipments))
}

/// Once a prefix fails, every longer prefix fails with the same error.
proof fn lemma_parse_all_err(items: Seq<(ParseConfig, TableV)>, i: int)
    requires
        0 <= i < items.len(),
        parse_all_spec(items.take(i + 1)) is Err,
    ensures
        parse_all_spec(items) == parse_all_spec(items.take(i + 1)),
    decreases items.len(),
{
    if i + 1 < items.len() {
        assert(items.drop_last().take(i + 1) =~= items.take(i + 1));
        lemma_parse_all_err(items.drop_last(), i);
    } else {
        assert(items.take(i + 1) =~= items);
    }
}

/// The parses that succeed of the sheets of one screen, in order: of the
/// bill screen only those with a WB configuration, of the shipment screen
/// only those with a Headway configuration; other sheets, and sheets whose
/// parse fails, are left out.
pub open spec fn kept_parses(items: Seq<(ParseConfig, TableV)>, shipments: bool) -> Seq<TableV>
    decreases items.len(),
{
    if items.len() == 0 {
        seq![]
    } else {
        let rest = kept_parses(items.drop_last(), shipments);
        let (c, t) = items.last();
        if (if shipments { c is Headway } else { c is WB }) {
            match parse_spec(c, t) {
                Ok(v) => rest.push(v),
                Err(_) => rest,
            }
        } else {
            rest
        }
    }
}

/// Parses the sheets of the bill screen and of the shipment screen as a
/// run of the screens does: bills by WB configurations, shipment details by
/// Headway configurations, each in order; sheets of other configurations
/// and sheets whose parse fails are left out.
pub fn parse_kept(bills: Vec<(ParseConfig, Table)>, shipments: Vec<(ParseConfig, Table)>) -> (r: (Vec<BillData>, Vec<ShipmentData>))
    requires
        forall|k: int| 0 <= k < bills@.len() ==> (#[trigger] bills@[k]).1@.wf(),
        forall|k: int| 0 <= k < shipments@.len() ==> (#[trigger] shipments@[k]).1@.wf(),
    ensures
        bills_view(r.0@) == kept_parses(items_view(bills@), false),
        shipments_view(r.1@) == kept_parses(items_view(shipments@), true),
{
    let ghost bv = items_view(bills@);
    let mut out_b: Vec<BillData> = Vec::new();
    let mut rest = bills;
    let n = rest.len();
    let mut i: usize = 0;
    assert(bv.take(0) =~= Seq::<(ParseConfig, TableV)>::empty());
    assert(bills_view(out_b@) =~= Seq::<TableV>::empty());
    assert(items_view(rest@) =~= bv.skip(0));
    while i < n
        invariant
            n == bv.len(),
            i <= n,
            rest@.len() == n - i,
            items_view(rest@) == bv.skip(i as int),
            forall|q: int| 0 <= q < rest@.len() ==> (#[trigger] rest@[q]).1@.wf(),
            bills_view(out_b@) == kept_parses(bv.take(i as int), false),
        decreases n - i,
    {
        let ghost before = rest@;
        let (config, table) = rest.remove(0);
        assert(items_view(before)[0] == bv[i as int]);
        assert forall|q: int| 0 <= q < rest@.len() implies #[trigger] items_view(rest@)[q] == bv.skip(i + 1)[q] by {
            assert(rest@[q] == before[q + 1]);
            assert(items_view(before)[q + 1] == bv.skip(i as int)[q + 1]);
        }
        assert(items_view(rest@) =~= bv.skip(i + 1));
        assert forall|q: int| 0 <= q < rest@.len() implies (#[trigger] rest@[q]).1@.wf() by {
            assert(rest@[q] == before[q + 1]);
        }
        assert(bv.take(i + 1).drop_last() =~= bv.take(i as int));
        assert(bv.take(i + 1).last() == bv[i as int]);
        assert(before[0].1@.wf());
        assert(bv[i as int] == (config, before[0].1@));
        let ghost o = out_b@;
        let is_wb = match &config {
            ParseConfig::WB(_) => true,
            _ => false,
        };
        if is_wb {
            match parse_with(&config, table) {
                Ok(Parsed::Bill(b)) => {
                    out_b.push(b);
                    assert(bills_view(out_b@) =~= bills_view(o).push(out_b@.last().0@));
                },
                Ok(Parsed::Shipment(_)) => {},
                Err(_) => {},
            }
        }
        i = i + 1;
    }
    assert(bv.take(n as int) =~= bv);
    let ghost sv = items_view(shipments@);
    let mut out_s: Vec<ShipmentData> = Vec::new();
    let mut rest = shipments;
    let n = rest.len();
    let mut i: usize = 0;
    assert(sv.take(0) =~= Seq::<(ParseConfig, TableV)>::empty());
    assert(shipments_view(out_s@) =~= Seq::<TableV>::empty());
    assert(items_view(rest@) =~= sv.skip(0));
    while i < n
        invariant
            n == sv.len(),
            i <= n,
            rest@.len() == n - i,
            items_view(rest@) == sv.skip(i as int),
            forall|q: int| 0 <= q < rest@.len() ==> (#[trigger] rest@[q]).1@.wf(),
            shipments_view(out_s@) == kept_parses(sv.take(i as int), true),
        decreases n - i,
    {
        let ghost before = rest@;
        let (config, table) = rest.remove(0);
        assert(items_view(before)[0] == sv[i as int]);
        assert forall|q: int| 0 <= q < rest@.len() implies #[trigger] items_view(rest@)[q] == sv.skip(i + 1)[q] by {
            assert(rest@[q] == before[q + 1]);
            assert(items_view(before)[q + 1] == sv.skip(i as int)[q + 1]);
        }
        assert(items_view(rest@) =~= sv.skip(i + 1));
        assert forall|q: int| 0 <= q < rest@.len() implies (#[trigger] rest@[q]).1@.wf() by {
            assert(rest@[q] == before[q + 1]);
        }
        assert(sv.take(i + 1).drop_last() =~= sv.take(i as int));
        assert(sv.take(i + 1).last() == sv[i as int]);
        assert(before[0].1@.wf());
        assert(sv[i as int] == (config, before[0].1@));
        let ghost o = out_s@;
        let is_headway = match &config {
            ParseConfig::Headway(_) => true,
            _ => false,
        };
        if is_headway {
            match parse_with(&config, table) {
                Ok(Parsed::Shipment(x)) => {
                    out_s.push(x);
                    assert(shipments_view(out_s@) =~= shipments_view(o).push(out_s@.last().0@));
                },
                Ok(Parsed::Bill(_)) => {},
                Err(_) => {},
            }
        }
        i = i + 1;
    }
    assert(sv.take(n as int) =~= sv);
    (out_b, out_s)
}

} // verus!
