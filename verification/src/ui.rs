//! The state of the application's screens, and how messages change it.
//!
//! Drawing and file dialogs belong to the application; here are the
//! decisions: which headers a new template starts with, what each message
//! does to a template or a sheet, and the run template a screen stands for.
use crate::headers::{
    pairs_view, AsHeaders, DDDHeaders, HeadwayHeaders, JydHeaders, TSHeaders, WbHeaders,
};
use crate::parser::{
    DDDParseConfig, HeadwayParseConfig, JydParseConfig, TSParseConfig, WBParseConfig,
};
use crate::runner::{ParseConfig, ReadConfig, RunError, RunErrorV, Template};
use crate::text::owned;
use vstd::prelude::*;

verus! {

/// The kinds of templates.
#[derive(Debug, Clone, Copy, PartialEq, Eq, Structural)]
pub enum TemplateType {
    Wb,
    Grt,
    Jm,
    Ddd,
    Ts,
    Jyd,
    Headway,
}

/// The name shown for a kind of template.
pub open spec fn template_name(t: TemplateType) -> Seq<char> {
    match t {
        TemplateType::Wb => "万邦"@,
        TemplateType::Grt => "国润通"@,
        TemplateType::Jm => "积米"@,
        TemplateType::Ddd => "嘀嗒嘀"@,
        TemplateType::Ts => "天盛"@,
        TemplateType::Jyd => "京奕达"@,
        TemplateType::Headway => "头程明细"@,
    }
}

impl TemplateType {
    /// The name shown for the kind.
    pub fn name(&self) -> (r: String)
        ensures
            r@ == template_name(*self),
    {
        match self {
            TemplateType::Wb => owned("万邦"),
            TemplateType::Grt => owned("国润通"),
            TemplateType::Jm => owned("积米"),
            TemplateType::Ddd => owned("嘀嗒嘀"),
            TemplateType::Ts => owned("天盛"),
            TemplateType::Jyd => owned("京奕达"),
            TemplateType::Headway => owned("头程明细"),
        }
    }
}

/// The kinds of parsers of the first version of the application.
#[derive(Debug, Clone, Copy, PartialEq, Eq, Structural)]
pub enum ParserType {
    WB,
    Headway,
}

impl ParserType {
    /// The name of the parser.
    pub fn name(&self) -> (r: &'static str)
        ensures
            r@ == match *self {
                ParserType::Headway => "物流头程"@,
                ParserType::WB => "万邦"@,
            },
    {
        match self {
            ParserType::Headway => "物流头程",
            ParserType::WB => "万邦",
        }
    }

    /// The text the parser is displayed by.
    pub fn display_text(&self) -> (r: &'static str)
        ensures
            r@ == match *self {
                ParserType::Headway => "头程明细"@,
                ParserType::WB => "万邦"@,
            },
    {
        match self {
            ParserType::Headway => "头程明细",
            ParserType::WB => "万邦",
        }
    }
}

/// What the user chose for one parser: the column names, the sheets
/// (workbook path and sheet name) and the primary column.
#[derive(Debug)]
pub struct UserData {
    pub parser_type: ParserType,
    pub headers: Vec<(String, String)>,
    pub sheets: Vec<(String, String)>,
    pub primary: String,
}

/// Which dialog is open: the header editor of a template (screen, template),
/// or the run results.
#[derive(Debug, Clone, Copy, PartialEq, Eq, Structural)]
pub enum ModalState {
    Template(usize, usize),
    Runner,
}

// ---------------------------------------------------------------------------
// Sheets
// ---------------------------------------------------------------------------

/// A workbook added to a template: its path, its sheets, the sheet chosen
/// and whether it takes part in the run.
pub struct SheetState {
    pub path: String,
    pub sheets: Vec<String>,
    pub selected: Option<String>,
    pub chosen: bool,
}

/// What the user does to a sheet.
pub enum SheetMessage {
    Delete,
    Chosen(bool),
    Selected(String),
}

/// What a message does to a sheet: choosing or selecting changes that
/// alone; deleting leaves the sheet as it is.
pub open spec fn sheet_step(o: SheetState, m: SheetMessage, f: SheetState) -> bool {
    f.path == o.path && f.sheets == o.sheets && match m {
        SheetMessage::Delete => f.chosen == o.chosen && f.selected == o.selected,
        SheetMessage::Chosen(c) => f.chosen == c && f.selected == o.selected,
        SheetMessage::Selected(n) => f.selected == Some(n) && f.chosen == o.chosen,
    }
}

impl SheetState {
    /// A workbook with these sheets, nothing chosen.
    pub fn new(path: String, sheets: Vec<String>) -> (r: Self)
        ensures
            r.path == path,
            r.sheets == sheets,
            r.selected is None,
            !r.chosen,
    {
        SheetState { path, sheets, selected: None, chosen: false }
    }

    /// Applies a message; deleting is the template's business.
    pub fn update(&mut self, message: SheetMessage)
        ensures
            sheet_step(*old(self), message, *final(self)),
    {
        match message {
            SheetMessage::Delete => {},
            SheetMessage::Chosen(c) => {
                self.chosen = c;
            },
            SheetMessage::Selected(n) => {
                self.selected = Some(n);
            },
        }
    }
}

// ---------------------------------------------------------------------------
// Templates
// ---------------------------------------------------------------------------

/// A template on a screen: its kind, its `(label, name)` headers and the
/// workbooks added to it.
pub struct TemplateState {
    pub temp_type: TemplateType,
    pub headers: Vec<(String, String)>,
    pub sheets: Vec<SheetState>,
}

/// What the user does to a template.
pub enum TemplateMessage {
    Delete,
    ShowModal(bool),
    UpdateHeader(String, String),
    ImportFile,
    InsertSheet(Option<SheetState>),
    Sheet(usize, SheetMessage),
}

/// What the application must do after a message.
#[derive(Debug, Clone, Copy, PartialEq, Eq, Structural)]
pub enum Action {
    Nothing,
    /// Ask for a workbook, and answer with `InsertSheet`.
    LoadWorkbook,
}

/// The labels and default names of a kind of template.
pub open spec fn template_pairs(t: TemplateType) -> Seq<(Seq<char>, Seq<char>)> {
    match t {
        TemplateType::Wb => WbHeaders::labels().zip_with(WbHeaders::labels()),
        TemplateType::Grt => WbHeaders::labels().zip_with(WbHeaders::labels().update(2, "扩展单号"@).update(3, "地址编码"@)),
        TemplateType::Jm => WbHeaders::labels().zip_with(
            WbHeaders::labels().update(2, "客户运单号"@).update(3, "仓库代码"@).update(5, "收费重(KG)"@),
        ),
        TemplateType::Ts => TSHeaders::labels().zip_with(TSHeaders::labels()),
        TemplateType::Ddd => DDDHeaders::labels().zip_with(DDDHeaders::labels()),
        TemplateType::Jyd => JydHeaders::labels().zip_with(JydHeaders::labels()),
        TemplateType::Headway => HeadwayHeaders::labels().zip_with(HeadwayHeaders::labels()),
    }
}

/// The index of the first header labelled `k`, or the number of headers.
pub open spec fn label_index(h: Seq<(Seq<char>, Seq<char>)>, k: Seq<char>) -> int
    decreases h.len(),
{
    if h.len() == 0 {
        0
    } else if h[0].0 == k {
        0
    } else {
        1 + label_index(h.drop_first(), k)
    }
}

proof fn lemma_label_index(h: Seq<(Seq<char>, Seq<char>)>, k: Seq<char>)
    ensures
        0 <= label_index(h, k) <= h.len(),
        forall|j: int| 0 <= j < label_index(h, k) ==> h[j].0 != k,
        label_index(h, k) < h.len() ==> h[label_index(h, k)].0 == k,
    decreases h.len(),
{
    if h.len() > 0 && h[0].0 != k {
        lemma_label_index(h.drop_first(), k);
        assert forall|j: int| 0 <= j < label_index(h, k) implies h[j].0 != k by {
            if j > 0 {
                assert(h[j] == h.drop_first()[j - 1]);
            }
        }
    }
}

/// The headers with the name of label `k` set to `v`, when there is one.
pub open spec fn set_header(h: Seq<(Seq<char>, Seq<char>)>, k: Seq<char>, v: Seq<char>) -> Seq<(Seq<char>, Seq<char>)> {
    let i = label_index(h, k);
    if i < h.len() {
        h.update(i, (k, v))
    } else {
        h
    }
}

/// What a message does to a template: a header's name is set, a workbook
/// added, a sheet removed, or the sheet addressed takes the message (one
/// that is not there leaves the template as it is); importing asks for a
/// workbook; the other messages leave the template as it is.
pub open spec fn template_step(o: TemplateState, m: TemplateMessage, f: TemplateState, a: Action) -> bool {
    f.temp_type == o.temp_type && match m {
        TemplateMessage::UpdateHeader(k, v) => pairs_view(f.headers@) =~= set_header(pairs_view(o.headers@), k@, v@)
            && f.sheets == o.sheets && a == Action::Nothing,
        TemplateMessage::ImportFile => f.headers == o.headers && f.sheets == o.sheets && a == Action::LoadWorkbook,
        TemplateMessage::InsertSheet(Some(x)) => f.headers == o.headers && f.sheets@ =~= o.sheets@.push(x) && a
            == Action::Nothing,
        TemplateMessage::Sheet(i, SheetMessage::Delete) => f.headers == o.headers && f.sheets@ =~= o.sheets@.remove(
            i as int,
        ) && a == Action::Nothing,
        TemplateMessage::Sheet(i, sm) => f.headers == o.headers && f.sheets@.len() == o.sheets@.len() && a
            == Action::Nothing && (forall|j: int| 0 <= j < o.sheets@.len() && j != i ==> f.sheets@[j] == o.sheets@[j])
            && (i < o.sheets@.len() ==> sheet_step(o.sheets@[i as int], sm, f.sheets@[i as int])),
        _ => f.headers == o.headers && f.sheets == o.sheets && a == Action::Nothing,
    }
}

impl TemplateState {
    /// A new template of kind `t`, with that kind's default headers.
    pub fn new(t: TemplateType) -> (r: Self)
        ensures
            r.temp_type == t,
            pairs_view(r.headers@) == template_pairs(t),
            r.sheets@.len() == 0,
    {
        let headers = match t {
            TemplateType::Wb => WBParseConfig::default().headers.as_headers(),
            TemplateType::Grt => WBParseConfig::grt().headers.as_headers(),
            TemplateType::Jm => WBParseConfig::jm().headers.as_headers(),
            TemplateType::Ts => TSParseConfig::default().headers.as_headers(),
            TemplateType::Ddd => DDDParseConfig::default().headers.as_headers(),
            TemplateType::Jyd => JydParseConfig::default().headers.as_headers(),
            TemplateType::Headway => HeadwayParseConfig::default().headers.as_headers(),
        };
        TemplateState { temp_type: t, headers, sheets: Vec::new() }
    }

    /// Sets the name of the header labelled `k`, when there is one.
    pub fn set_header_value(&mut self, k: &String, v: String)
        ensures
            final(self).temp_type == old(self).temp_type,
            final(self).sheets == old(self).sheets,
            pairs_view(final(self).headers@) == set_header(pairs_view(old(self).headers@), k@, v@),
    {
        let ghost h = pairs_view(self.headers@);
        proof {
            lemma_label_index(h, k@);
        }
        let mut i: usize = 0;
        while i < self.headers.len()
            invariant
                h == pairs_view(self.headers@),
                self.headers == old(self).headers,
                self.temp_type == old(self).temp_type,
                self.sheets == old(self).sheets,
                i <= self.headers@.len(),
                forall|j: int| 0 <= j < i ==> h[j].0 != k@,
                0 <= label_index(h, k@) <= h.len(),
                forall|j: int| 0 <= j < label_index(h, k@) ==> h[j].0 != k@,
                label_index(h, k@) < h.len() ==> h[label_index(h, k@)].0 == k@,
            decreases self.headers@.len() - i,
        {
            if crate::text::str_eq(self.headers[i].0.as_str(), k.as_str()) {
                assert(h[i as int].0 == k@);
                assert(label_index(h, k@) == i as int);
                let label = self.headers[i].0.clone();
                self.headers.set(i, (label, v));
                assert(pairs_view(self.headers@) =~= set_header(h, k@, v@));
                return;
            }
            i = i + 1;
        }
        assert(label_index(h, k@) == h.len());
    }

    /// Applies a message: a header's name is set, a workbook is added, or a
    /// sheet is changed or removed; importing asks the application for a
    /// workbook.
    pub fn update(&mut self, message: TemplateMessage) -> (a: Action)
        requires
            message matches TemplateMessage::Sheet(i, SheetMessage::Delete) ==> i < old(self).sheets@.len(),
        ensures
            template_step(*old(self), message, *final(self), a),
    {
        match message {
            TemplateMessage::Delete | TemplateMessage::ShowModal(_) => Action::Nothing,
            TemplateMessage::UpdateHeader(k, v) => {
                self.set_header_value(&k, v);
                Action::Nothing
            },
            TemplateMessage::ImportFile => Action::LoadWorkbook,
            TemplateMessage::InsertSheet(s) => {
                match s {
                    Some(s) => {
                        self.sheets.push(s);
                    },
                    None => {},
                }
                Action::Nothing
            },
            TemplateMessage::Sheet(i, SheetMessage::Delete) => {
                self.sheets.remove(i);
                Action::Nothing
            },
            TemplateMessage::Sheet(i, m) => {
                if i < self.sheets.len() {
                    let mut s = self.sheets.remove(i);
                    s.update(m);
                    self.sheets.insert(i, s);
                    assert forall|j: int| 0 <= j < old(self).sheets@.len() && j != i implies self.sheets@[j] == old(
                        self,
                    ).sheets@[j] by {}
                }
                Action::Nothing
            },
        }
    }
}

// ---------------------------------------------------------------------------
// Screens
// ---------------------------------------------------------------------------

/// A screen of templates: the forwarders' bills, or our own details.
pub struct DetailState {
    pub title: String,
    /// The kinds of templates the screen offers.
    pub choices: Vec<TemplateType>,
    /// The kind chosen for the next template.
    pub temp_type: Option<TemplateType>,
    pub templates: Vec<TemplateState>,
}

/// What the user does on a screen.
pub enum DetailMessage {
    AddTemplate,
    SelectTemplateType(TemplateType),
    Template(usize, TemplateMessage),
}

/// Whether a message on a screen deletes a template or a sheet that is
/// there to delete.
pub open spec fn detail_message_ok(d: DetailState, m: DetailMessage) -> bool {
    match m {
        DetailMessage::Template(i, TemplateMessage::Delete) => i < d.templates@.len(),
        DetailMessage::Template(i, TemplateMessage::Sheet(j, SheetMessage::Delete)) => i < d.templates@.len()
            ==> j < d.templates@[i as int].sheets@.len(),
        _ => true,
    }
}

/// What a message does to a screen: a kind is chosen, a template of the
/// chosen kind added, a template removed, or the template addressed takes
/// the message, and its answer is the screen's (one that is not there
/// leaves the screen as it is).
pub open spec fn detail_step(o: DetailState, m: DetailMessage, f: DetailState, a: Action) -> bool {
    f.title == o.title && f.choices == o.choices && match m {
        DetailMessage::SelectTemplateType(t) => f.temp_type == Some(t) && f.templates == o.templates && a
            == Action::Nothing,
        DetailMessage::AddTemplate => f.temp_type == o.temp_type && match o.temp_type {
            Some(t) => f.templates@.len() == o.templates@.len() + 1 && f.templates@.drop_last() =~= o.templates@
                && f.templates@.last().temp_type == t && pairs_view(f.templates@.last().headers@) == template_pairs(t)
                && f.templates@.last().sheets@.len() == 0,
            None => f.templates == o.templates,
        } && a == Action::Nothing,
        DetailMessage::Template(i, TemplateMessage::Delete) => f.temp_type == o.temp_type && f.templates@
            =~= o.templates@.remove(i as int) && a == Action::Nothing,
        DetailMessage::Template(i, tm) => f.temp_type == o.temp_type && f.templates@.len() == o.templates@.len()
            && (forall|j: int| 0 <= j < o.templates@.len() && j != i ==> f.templates@[j] == o.templates@[j]) && (if i
            < o.templates@.len() {
            template_step(o.templates@[i as int], tm, f.templates@[i as int], a)
        } else {
            a == Action::Nothing
        }),
    }
}

impl DetailState {
    /// The screen of the forwarders' bills.
    pub fn bill() -> (r: Self)
        ensures
            r.title@ == "物流账单"@,
            r.choices@ == seq![TemplateType::Wb, TemplateType::Ts, TemplateType::Ddd, TemplateType::Grt],
            r.temp_type is None,
            r.templates@.len() == 0,
    {
        DetailState {
            title: owned("物流账单"),
            choices: vec![TemplateType::Wb, TemplateType::Ts, TemplateType::Ddd, TemplateType::Grt],
            temp_type: None,
            templates: Vec::new(),
        }
    }

    /// The screen of our own shipment details.
    pub fn shipment() -> (r: Self)
        ensures
            r.title@ == "我方明细"@,
            r.choices@ == seq![TemplateType::Headway],
            r.temp_type is None,
            r.templates@.len() == 0,
    {
        DetailState {
            title: owned("我方明细"),
            choices: vec![TemplateType::Headway],
            temp_type: None,
            templates: Vec::new(),
        }
    }

    /// Applies a message: a kind is chosen, a template of the chosen kind
    /// added, or a template changed or removed.
    pub fn update(&mut self, message: DetailMessage) -> (a: Action)
        requires
            detail_message_ok(*old(self), message),
        ensures
            detail_step(*old(self), message, *final(self), a),
    {
        match message {
            DetailMessage::SelectTemplateType(t) => {
                self.temp_type = Some(t);
                Action::Nothing
            },
            DetailMessage::AddTemplate => {
                match self.temp_type {
                    Some(t) => {
                        let state = TemplateState::new(t);
                        self.templates.push(state);
                    },
                    None => {},
                }
                Action::Nothing
            },
            DetailMessage::Template(i, TemplateMessage::Delete) => {
                self.templates.remove(i);
                Action::Nothing
            },
            DetailMessage::Template(i, m) => {
                if i < self.templates.len() {
                    let mut t = self.templates.remove(i);
                    let ghost t0 = t;
                    assert(t0 == old(self).templates@[i as int]);
                    let a = t.update(m);
                    assert(template_step(t0, m, t, a));
                    self.templates.insert(i, t);
                    assert(self.templates@[i as int] == t);
                    assert forall|j: int| 0 <= j < old(self).templates@.len() && j != i implies self.templates@[j]
                        == old(self).templates@[j] by {}
                    a
                } else {
                    Action::Nothing
                }
            },
        }
    }
}

// ---------------------------------------------------------------------------
// Runs
// ---------------------------------------------------------------------------

/// The parse configuration kind of a template kind, with its default
/// column names (see [`template_pairs`]).
pub open spec fn config_kind_matches(t: TemplateType, c: ParseConfig) -> bool {
    match t {
        TemplateType::Wb | TemplateType::Grt | TemplateType::Jm => c is WB,
        TemplateType::Ts => c is TS,
        TemplateType::Ddd => c is DDD,
        TemplateType::Jyd => c is Jyd,
        TemplateType::Headway => c is Headway,
    }
}

/// The settings of a template kind's base configuration, the column names
/// and the year aside: WB bills of Wanbang, Guoruntong or Jimi, Tiansheng,
/// Didadi, Jiayida bills, or our own shipment details.
pub open spec fn base_settings(t: TemplateType, c: ParseConfig) -> bool {
    match c {
        ParseConfig::WB(x) => (t is Wb || t is Grt || t is Jm) && x.datefmt@ == "%Y/%m/%d"@ && x.units.0@ == "KG"@
            && x.units.1@ == "票"@ && x.forwarder@ == (if t is Grt {
            "国润通"@
        } else if t is Jm {
            "积米"@
        } else {
            "万邦"@
        }),
        ParseConfig::TS(x) => t is Ts && x.datefmt@ == "%Y-%m-%d"@ && x.units.0@ == "(KG|立方|kg)"@ && x.units.1@
            == "(票)"@,
        ParseConfig::DDD(x) => t is Ddd && x.datefmt@ == "%Y-%m-%d"@,
        ParseConfig::Jyd(x) => t is Jyd && x.datefmt@ == "%-m月%-d"@,
        ParseConfig::Headway(_) => t is Headway,
    }
}

/// The sheets of a template that take part in a run: those chosen, with a
/// sheet selected, as (path, sheet name).
pub open spec fn chosen_sources(s: Seq<SheetState>) -> Seq<(Seq<char>, Seq<char>)>
    decreases s.len(),
{
    if s.len() == 0 {
        seq![]
    } else {
        let p = chosen_sources(s.drop_last());
        let l = s.last();
        match l.selected {
            Some(n) => if l.chosen {
                p.push((l.path@, n@))
            } else {
                p
            },
            None => p,
        }
    }
}

/// The view of a run's sources, all read from workbook files.
pub open spec fn file_sources(v: Seq<ReadConfig>) -> Option<Seq<(Seq<char>, Seq<char>)>>
    decreases v.len(),
{
    if v.len() == 0 {
        Some(seq![])
    } else {
        match (file_sources(v.drop_last()), v.last()) {
            (Some(p), ReadConfig::ExcelFilePath { path, name }) => Some(p.push((path@, name@))),
            _ => None,
        }
    }
}

fn copy_pairs(v: &Vec<(String, String)>) -> (r: Vec<(String, String)>)
    ensures
        pairs_view(r@) == pairs_view(v@),
{
    let mut r: Vec<(String, String)> = Vec::new();
    let mut i: usize = 0;
    while i < v.len()
        invariant
            i <= v@.len(),
            pairs_view(r@) == pairs_view(v@).take(i as int),
        decreases v@.len() - i,
    {
        let ghost o = pairs_view(r@);
        let p = (v[i].0.clone(), v[i].1.clone());
        r.push(p);
        assert(pairs_view(r@) =~= o.push((p.0@, p.1@)));
        i = i + 1;
        assert(pairs_view(r@) =~= pairs_view(v@).take(i as int));
    }
    assert(pairs_view(v@).take(v@.len() as int) =~= pairs_view(v@));
    r
}

/// The run template of a template on a screen: its kind's default
/// configuration with the screen's header names applied, and the chosen
/// sheets.
pub fn template_of(state: &TemplateState) -> (r: Template)
    ensures
        config_kind_matches(state.temp_type, r.parse_config),
        base_settings(state.temp_type, r.parse_config),
        crate::runner::config_values(r.parse_config) == crate::headers::updated(
            template_pairs(state.temp_type).map_values(|p: (Seq<char>, Seq<char>)| p.1),
            crate::runner::config_labels(r.parse_config),
            pairs_view(state.headers@),
        ),
        file_sources(r.sources@) == Some(chosen_sources(state.sheets@)),
{
    let headers = copy_pairs(&state.headers);
    let parse_config = match state.temp_type {
        TemplateType::Wb => ParseConfig::WB(WBParseConfig::default()),
        TemplateType::Grt => ParseConfig::WB(WBParseConfig::grt()),
        TemplateType::Jm => ParseConfig::WB(WBParseConfig::jm()),
        TemplateType::Ts => ParseConfig::TS(TSParseConfig::default()),
        TemplateType::Ddd => ParseConfig::DDD(DDDParseConfig::default()),
        TemplateType::Jyd => ParseConfig::Jyd(JydParseConfig::default()),
        TemplateType::Headway => ParseConfig::Headway(HeadwayParseConfig::default()),
    };
    let mut parse_config = parse_config;
    assert(base_settings(state.temp_type, parse_config));
    assert(crate::runner::config_values(parse_config) =~= template_pairs(state.temp_type).map_values(
        |p: (Seq<char>, Seq<char>)| p.1,
    ));
    parse_config.update_headers(headers);
    let mut sources: Vec<ReadConfig> = Vec::new();
    let mut i: usize = 0;
    while i < state.sheets.len()
        invariant
            i <= state.sheets@.len(),
            file_sources(sources@) == Some(chosen_sources(state.sheets@.take(i as int))),
        decreases state.sheets@.len() - i,
    {
        let s = &state.sheets[i];
        assert(state.sheets@.take(i + 1).drop_last() =~= state.sheets@.take(i as int));
        assert(state.sheets@.take(i + 1).last() == *s);
        if s.chosen {
            match &s.selected {
                Some(n) => {
                    let ghost o = sources@;
                    sources.push(ReadConfig::ExcelFilePath { path: s.path.clone(), name: n.clone() });
                    assert(sources@.drop_last() =~= o);
                },
                None => {},
            }
        }
        i = i + 1;
    }
    assert(state.sheets@.take(state.sheets@.len() as int) =~= state.sheets@);
    Template { parse_config, sources }
}

pub open spec fn no_bills() -> Seq<char> {
    "物流账单内未检测到任何数据，请检查是否导入文件或者核对表头是否正确"@
}

pub open spec fn no_shipments() -> Seq<char> {
    "我方明细内未检测到任何数据，请检查是否导入文件或者核对表头是否正确"@
}

/// A run needs templates on both screens.
pub fn check_run(bills: &Vec<TemplateState>, shipments: &Vec<TemplateState>) -> (r: Result<(), RunError>)
    ensures
        match r {
            Ok(_) => bills@.len() > 0 && shipments@.len() > 0,
            Err(e) => (bills@.len() == 0 && e@ == RunErrorV::Any(no_bills())) || (bills@.len() > 0
                && shipments@.len() == 0 && e@ == RunErrorV::Any(no_shipments())),
        },
{
    if bills.len() == 0 {
        return Err(RunError::Any(owned("物流账单内未检测到任何数据，请检查是否导入文件或者核对表头是否正确")));
    }
    if shipments.len() == 0 {
        return Err(RunError::Any(owned("我方明细内未检测到任何数据，请检查是否导入文件或者核对表头是否正确")));
    }
    Ok(())
}

// ---------------------------------------------------------------------------
// The run panel
// ---------------------------------------------------------------------------

/// The run panel: whether a run is going on, the last results (the freight
/// and the customs long results, or an error text) and a message shown.
pub struct RunnerState {
    pub running: bool,
    pub result: Option<Result<(crate::table::Table, crate::table::Table), String>>,
    pub msg: Option<String>,
}

/// What happens on the run panel.
pub enum RunnerMessage {
    Run,
    Ran(Result<(crate::table::Table, crate::table::Table), String>),
    ExportToExcel,
    ExportStasisToExcel,
    Exported(Result<String, String>),
    ShowModal(bool),
    ShowMsg(String),
    HideMsg,
}

/// What the application must do for the run panel.
pub enum RunnerAction {
    Nothing,
    /// Run the reconciliation of the screens' templates; answer with `Ran`.
    StartRun,
    /// Open the results dialog.
    ShowResults,
    /// Write the long results to a workbook; answer with `Exported`.
    ExportResults,
    /// Write the statistics to a workbook; answer with `Exported`.
    ExportStasis,
    /// Show this message (answer with `ShowMsg`).
    ShowMsg(String),
}

/// Whether results are there to export: no run going on, and the last run
/// succeeded.
pub open spec fn can_export(r: RunnerState) -> bool {
    !r.running && r.result matches Some(Ok(_))
}

pub open spec fn error_prefix() -> Seq<char> {
    "出错了: "@
}

/// What a message does to the run panel.
pub open spec fn runner_step(o: RunnerState, m: RunnerMessage, f: RunnerState, a: RunnerAction) -> bool {
    match m {
        RunnerMessage::Run => f.running && f.result == o.result && f.msg == o.msg && a is StartRun,
        RunnerMessage::Ran(res) => !f.running && f.result == Some(res) && f.msg == o.msg && a is ShowResults,
        RunnerMessage::ExportToExcel => f == o && (if can_export(o) {
            a is ExportResults
        } else {
            a is Nothing
        }),
        RunnerMessage::ExportStasisToExcel => f == o && (if can_export(o) {
            a is ExportStasis
        } else {
            a is Nothing
        }),
        RunnerMessage::Exported(Ok(t)) => f == o && (a matches RunnerAction::ShowMsg(x) && x@ =~= t@),
        RunnerMessage::Exported(Err(t)) => f == o && (a matches RunnerAction::ShowMsg(x) && x@ =~= error_prefix()
            + t@),
        RunnerMessage::ShowMsg(t) => f.msg == Some(t) && f.running == o.running && f.result == o.result && a is Nothing,
        RunnerMessage::HideMsg => f.msg is None && f.running == o.running && f.result == o.result && a is Nothing,
        RunnerMessage::ShowModal(_) => f == o && a is Nothing,
    }
}

impl RunnerState {
    pub fn new() -> (r: Self)
        ensures
            !r.running,
            r.result is None,
            r.msg is None,
    {
        RunnerState { running: false, result: None, msg: None }
    }

    /// Applies a message.
    pub fn update(&mut self, message: RunnerMessage) -> (a: RunnerAction)
        ensures
            runner_step(*old(self), message, *final(self), a),
    {
        match message {
            RunnerMessage::ShowModal(_) => RunnerAction::Nothing,
            RunnerMessage::Run => {
                self.running = true;
                RunnerAction::StartRun
            },
            RunnerMessage::Ran(res) => {
                self.running = false;
                self.result = Some(res);
                RunnerAction::ShowResults
            },
            RunnerMessage::ExportToExcel => {
                if !self.running && matches!(self.result, Some(Ok(_))) {
                    RunnerAction::ExportResults
                } else {
                    RunnerAction::Nothing
                }
            },
            RunnerMessage::ExportStasisToExcel => {
                if !self.running && matches!(self.result, Some(Ok(_))) {
                    RunnerAction::ExportStasis
                } else {
                    RunnerAction::Nothing
                }
            },
            RunnerMessage::Exported(res) => match res {
                Ok(m) => RunnerAction::ShowMsg(m),
                Err(m) => RunnerAction::ShowMsg(crate::text::concat("出错了: ", m.as_str())),
            },
            RunnerMessage::ShowMsg(m) => {
                self.msg = Some(m);
                RunnerAction::Nothing
            },
            RunnerMessage::HideMsg => {
                self.msg = None;
                RunnerAction::Nothing
            },
        }
    }
}

// ---------------------------------------------------------------------------
// The window and the application
// ---------------------------------------------------------------------------

/// The main window: the bills screen, our details screen, the dialog open
/// and the run panel.
pub struct WindowState {
    pub bills: DetailState,
    pub shipments: DetailState,
    pub modal_state: Option<ModalState>,
    pub runner: RunnerState,
}

/// What happens in the window; screen 0 is the bills, screen 1 our
/// details.
pub enum WindowMessage {
    Detail(usize, DetailMessage),
    Runner(RunnerMessage),
    ShowModal(Option<ModalState>),
    Reset,
    Save,
    Exit,
}

/// What the application must do for the window.
pub enum WindowAction {
    Nothing,
    /// Close the window.
    Close,
    /// Handle this message next.
    Then(WindowMessage),
    /// What a screen asks for, on that screen.
    Detail(usize, Action),
    /// What the run panel asks for.
    Runner(RunnerAction),
}

/// A fresh window: both screens empty, no dialog, no results.
pub open spec fn fresh_window(w: WindowState) -> bool {
    &&& w.bills.title@ == "物流账单"@
    &&& w.bills.choices@ == seq![TemplateType::Wb, TemplateType::Ts, TemplateType::Ddd, TemplateType::Grt]
    &&& w.bills.templates@.len() == 0
    &&& w.bills.temp_type is None
    &&& w.shipments.title@ == "我方明细"@
    &&& w.shipments.choices@ == seq![TemplateType::Headway]
    &&& w.shipments.templates@.len() == 0
    &&& w.shipments.temp_type is None
    &&& w.modal_state is None
    &&& !w.runner.running
    &&& w.runner.result is None
    &&& w.runner.msg is None
}

/// Whether a window message is one the window can take: a screen that
/// exists, and a deletion of something that is there.
pub open spec fn window_message_ok(w: WindowState, m: WindowMessage) -> bool {
    match m {
        WindowMessage::Detail(0, d) => detail_message_ok(w.bills, d),
        WindowMessage::Detail(1, d) => detail_message_ok(w.shipments, d),
        _ => true,
    }
}

/// What a message does to the window: a header editor or the results
/// dialog that opens or closes becomes a dialog message, with the window as
/// it is; a dialog message sets the dialog alone; other messages go to the
/// screen addressed (one that is not there leaves the window as it is) or
/// to the run panel, whose answer is the window's; resetting gives a fresh
/// window; saving and closing leave the window as it is.
pub open spec fn window_step(o: WindowState, m: WindowMessage, f: WindowState, a: WindowAction) -> bool {
    match m {
        WindowMessage::Reset => fresh_window(f) && a is Nothing,
        WindowMessage::Exit => f == o && a is Close,
        WindowMessage::Save => f == o && a is Nothing,
        WindowMessage::ShowModal(st) => f.modal_state == st && f.bills == o.bills && f.shipments == o.shipments
            && f.runner == o.runner && a is Nothing,
        WindowMessage::Detail(i, DetailMessage::Template(j, TemplateMessage::ShowModal(true))) => f == o && (
        a matches WindowAction::Then(WindowMessage::ShowModal(Some(ModalState::Template(x, y)))) && x == i && y
            == j),
        WindowMessage::Detail(_, DetailMessage::Template(_, TemplateMessage::ShowModal(false))) => f == o && (
        a matches WindowAction::Then(WindowMessage::ShowModal(None))),
        WindowMessage::Runner(RunnerMessage::ShowModal(true)) => f == o && (a matches WindowAction::Then(
            WindowMessage::ShowModal(Some(ModalState::Runner)),
        )),
        WindowMessage::Runner(RunnerMessage::ShowModal(false)) => f == o && (a matches WindowAction::Then(
            WindowMessage::ShowModal(None),
        )),
        WindowMessage::Detail(i, dm) => f.modal_state == o.modal_state && f.runner == o.runner && (if i == 0 {
            f.shipments == o.shipments && (a matches WindowAction::Detail(k, da) && k == 0 && detail_step(
                o.bills,
                dm,
                f.bills,
                da,
            ))
        } else if i == 1 {
            f.bills == o.bills && (a matches WindowAction::Detail(k, da) && k == 1 && detail_step(
                o.shipments,
                dm,
                f.shipments,
                da,
            ))
        } else {
            f == o && a is Nothing
        }),
        WindowMessage::Runner(rm) => f.modal_state == o.modal_state && f.bills == o.bills && f.shipments
            == o.shipments && (a matches WindowAction::Runner(ra) && runner_step(o.runner, rm, f.runner, ra)),
    }
}

impl WindowState {
    pub fn new() -> (r: Self)
        ensures
            fresh_window(r),
    {
        WindowState {
            bills: DetailState::bill(),
            shipments: DetailState::shipment(),
            modal_state: None,
            runner: RunnerState::new(),
        }
    }

    /// Applies a message: a header editor that opens or closes becomes a
    /// dialog message; other screen messages go to their screen.
    pub fn update(&mut self, message: WindowMessage) -> (a: WindowAction)
        requires
            window_message_ok(*old(self), message),
        ensures
            window_step(*old(self), message, *final(self), a),
    {
        match message {
            WindowMessage::Save => WindowAction::Nothing,
            WindowMessage::Reset => {
                *self = WindowState::new();
                WindowAction::Nothing
            },
            WindowMessage::Exit => WindowAction::Close,
            WindowMessage::ShowModal(st) => {
                self.modal_state = st;
                WindowAction::Nothing
            },
            WindowMessage::Detail(i, DetailMessage::Template(j, TemplateMessage::ShowModal(showing))) => {
                if showing {
                    WindowAction::Then(WindowMessage::ShowModal(Some(ModalState::Template(i, j))))
                } else {
                    WindowAction::Then(WindowMessage::ShowModal(None))
                }
            },
            WindowMessage::Detail(i, m) => {
                if i == 0 {
                    WindowAction::Detail(0, self.bills.update(m))
                } else if i == 1 {
                    WindowAction::Detail(1, self.shipments.update(m))
                } else {
                    WindowAction::Nothing
                }
            },
            WindowMessage::Runner(RunnerMessage::ShowModal(showing)) => {
                if showing {
                    WindowAction::Then(WindowMessage::ShowModal(Some(ModalState::Runner)))
                } else {
                    WindowAction::Then(WindowMessage::ShowModal(None))
                }
            },
            WindowMessage::Runner(m) => WindowAction::Runner(self.runner.update(m)),
        }
    }
}

/// The application: loading its saved screens, then running the window.
pub enum AppState {
    Loading,
    Loaded(WindowState),
}

/// What happens to the application: the saved screens arrive (or could
/// not be read), or a window message.
pub enum AppMessage {
    Loaded(Result<(DetailState, DetailState), String>),
    WindowMessage(WindowMessage),
}

/// What the application must do.
pub enum AppAction {
    Nothing,
    /// Save the screens, then close the window.
    SaveAndExit,
    Window(WindowAction),
}

impl AppState {
    /// The application starts by loading its saved screens.
    pub fn new() -> (r: Self)
        ensures
            r is Loading,
    {
        AppState::Loading
    }

    /// Applies a message: loading ends with the saved screens, or fresh
    /// ones when they could not be read; a loaded window saves before it
    /// closes, and takes every other window message.
    pub fn update(&mut self, message: AppMessage) -> (a: AppAction)
        requires
            *old(self) matches AppState::Loaded(w) ==> (message matches AppMessage::WindowMessage(m) ==> window_message_ok(w, m)),
        ensures
            match (*old(self), message) {
                (AppState::Loading, AppMessage::Loaded(Ok((b, s)))) => (*final(self) matches AppState::Loaded(w)
                    && w.bills == b && w.shipments == s && w.modal_state is None && !w.runner.running
                    && w.runner.result is None && w.runner.msg is None) && a is Nothing,
                (AppState::Loading, AppMessage::Loaded(Err(_))) => (*final(self) matches AppState::Loaded(w)
                    && fresh_window(w)) && a is Nothing,
                (AppState::Loading, AppMessage::WindowMessage(_)) => *final(self) == *old(self) && a is Nothing,
                (AppState::Loaded(_), AppMessage::WindowMessage(WindowMessage::Save)) => *final(self) == *old(self)
                    && a is SaveAndExit,
                (AppState::Loaded(_), AppMessage::Loaded(_)) => *final(self) == *old(self) && a is Nothing,
                (AppState::Loaded(w0), AppMessage::WindowMessage(m)) => (*final(self) matches AppState::Loaded(w) && (
                a matches AppAction::Window(wa) && window_step(w0, m, w, wa))),
            },
    {
        match message {
            AppMessage::Loaded(res) => {
                if let AppState::Loading = self {
                    match res {
                        Ok((b, s)) => {
                            *self = AppState::Loaded(
                                WindowState { bills: b, shipments: s, modal_state: None, runner: RunnerState::new() },
                            );
                        },
                        Err(_) => {
                            *self = AppState::Loaded(WindowState::new());
                        },
                    }
                }
                AppAction::Nothing
            },
            AppMessage::WindowMessage(m) => match self {
                AppState::Loading => AppAction::Nothing,
                AppState::Loaded(w) => match m {
                    WindowMessage::Save => AppAction::SaveAndExit,
                    m => AppAction::Window(w.update(m)),
                },
            },
        }
    }
}

} // verus!
