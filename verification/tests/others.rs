use logirecon::reader::grid::{Cell, CellKind, Grid};
use logirecon::reader::{ExcelReader, ExcelError};
use logirecon::runner::stasis::stasis_freight_and_customs;
use logirecon::runner::{parse_with, ParseConfig, Parsed, RunError};
use logirecon::table::Table;
use logirecon::text::{parse_dec, split_char};
use logirecon::ui::{
    check_run, template_of, Action, DetailMessage, DetailState, ParserType, SheetMessage,
    SheetState, TemplateMessage, TemplateState, TemplateType,
};
use logirecon::parser::WBParseConfig;
use logirecon::value::Value;

fn s(x: &str) -> Value {
    Value::Str(x.to_string())
}

fn num(x: &str) -> Value {
    Value::Num(parse_dec(x).unwrap())
}

fn table(names: &[&str], rows: Vec<Vec<Value>>) -> Table {
    Table { names: names.iter().map(|n| n.to_string()).collect(), rows }
}

fn text_cell(t: &str) -> Cell {
    Cell {
        kind: if t.is_empty() { CellKind::Null } else { CellKind::Text },
        text: t.to_string(),
        int: None,
        num: None,
        date: None,
    }
}

fn int_cell(i: i64) -> Cell {
    Cell { kind: CellKind::Int, text: i.to_string(), int: Some(i), num: Some(i as i128 * 1_000_000), date: None }
}

#[test]
fn reader_finds_table_below_title() {
    let grid = Grid {
        cells: vec![
            vec![text_cell("账单"), text_cell(""), text_cell("")],
            vec![text_cell("序号"), text_cell("运单号"), text_cell("件数")],
            vec![int_cell(1), text_cell("WB1"), int_cell(3)],
            vec![int_cell(2), text_cell("WB2"), text_cell("")],
            vec![text_cell("合计"), text_cell(""), int_cell(3)],
        ],
    };
    let reader = ExcelReader::new(vec!["运单号".to_string(), "件数".to_string()])
        .primary("序号")
        .load_grid(grid)
        .unwrap();
    let t = reader.read().unwrap();
    assert_eq!(t.names, vec!["序号", "运单号", "件数"]);
    assert_eq!(t.rows.len(), 2);
    assert!(matches!(t.rows[0][0], Value::Int(1)));
    assert!(matches!(&t.rows[1][1], Value::Str(x) if x == "WB2"));
    assert!(matches!(t.rows[0][2], Value::Int(3)));
    assert!(t.rows[1][2].is_null());
}

#[test]
fn reader_errors() {
    let r = ExcelReader::new(vec!["a".to_string()]);
    assert!(matches!(r.read(), Err(ExcelError::NotLoad)));
    let r = ExcelReader::new(Vec::new());
    assert!(matches!(r.read(), Err(ExcelError::NotLoad)));
    let grid = Grid { cells: vec![vec![text_cell("b")]] };
    let r = ExcelReader::new(vec!["a".to_string()]).load_grid(grid).unwrap();
    assert!(matches!(r.read(), Err(ExcelError::Find(_))));
    let r = ExcelReader::new(vec!["a".to_string()])
        .load_grid(Grid { cells: vec![] })
        .unwrap();
    assert!(matches!(r.load_grid(Grid { cells: vec![] }), Err(ExcelError::DuplicateLoad)));
}

#[test]
fn split_char_keeps_empty_pieces() {
    let p = split_char("a,,b", ',');
    assert_eq!(p, vec!["a", "", "b"]);
}

#[test]
fn stasis_pairs_freight_and_customs() {
    let freight = table(
        &["运单号", "_source", "日期", "货件单号", "物流中心编码", "货代名称", "件数", "单价", "计费重", "_summary"],
        vec![
            vec![s("WB1"), s("物流"), Value::Null, s("F1"), s("W"), s("万邦"), num("2"), num("3.5"), num("10"), s("单价:diff")],
            vec![s("WB2"), s("物流"), Value::Null, s("F2"), s("W"), s("万邦"), num("2"), num("3.5"), num("10"), Value::Null],
        ],
    );
    let customs = table(
        &["报关周次", "_source", "运单号", "货代名称", "金额", "_summary"],
        vec![vec![s("Y2026W1"), s("物流"), s("WB2,WB3"), s("万邦"), num("150"), s("金额:diff")]],
    );
    let out = stasis_freight_and_customs(freight, customs).unwrap();
    assert_eq!(out.names.len(), 13);
    assert_eq!(out.rows.len(), 3);
    // WB1: freight difference only, estimated freight 3.5 * 10
    assert!(matches!(&out.rows[0][1], Value::Str(x) if x == "WB1"));
    assert!(matches!(out.rows[0][9], Value::Num(35_000_000)));
    assert!(out.rows[0][10].is_null());
    // WB2: paired with its customs line
    assert!(matches!(&out.rows[1][1], Value::Str(x) if x == "WB2"));
    assert!(matches!(out.rows[1][10], Value::Num(150_000_000)));
    // WB3: customs alone, no freight side
    assert!(out.rows[2][1].is_null());
    assert!(matches!(&out.rows[2][12], Value::Str(x) if x == "金额:diff"));
}

#[test]
fn stasis_missing_column() {
    let freight = table(&["运单号"], vec![]);
    let customs = table(&["运单号", "_source", "金额"], vec![]);
    match stasis_freight_and_customs(freight, customs) {
        Err(RunError::Column(c)) => assert_eq!(c, "_summary"),
        _ => panic!("expected a missing column"),
    }
}

#[test]
fn parse_with_dispatches() {
    let data = table(&["日期", "运单号", "订单号", "仓库编码", "件数", "收费重", "单价"], vec![]);
    let r = parse_with(&ParseConfig::WB(WBParseConfig::default()), data).unwrap();
    assert!(matches!(r, Parsed::Bill(_)));
}

#[test]
fn template_names() {
    assert_eq!(TemplateType::Wb.name(), "万邦");
    assert_eq!(TemplateType::Headway.name(), "头程明细");
    assert_eq!(TemplateType::Jyd.name(), "京奕达");
    assert_eq!(ParserType::Headway.name(), "物流头程");
    assert_eq!(ParserType::WB.name(), "万邦");
    assert_eq!(ParserType::Headway.display_text(), "头程明细");
}

#[test]
fn template_state_updates() {
    let mut t = TemplateState::new(TemplateType::Grt);
    assert_eq!(t.headers[2], ("订单号".to_string(), "扩展单号".to_string()));
    assert_eq!(t.update(TemplateMessage::UpdateHeader("日期".to_string(), "发货日期".to_string())), Action::Nothing);
    assert_eq!(t.headers[0].1, "发货日期");
    assert_eq!(t.update(TemplateMessage::ImportFile), Action::LoadWorkbook);
    let sheet = SheetState::new("a.xlsx".to_string(), vec!["S1".to_string()]);
    t.update(TemplateMessage::InsertSheet(Some(sheet)));
    t.update(TemplateMessage::Sheet(0, SheetMessage::Selected("S1".to_string())));
    t.update(TemplateMessage::Sheet(0, SheetMessage::Chosen(true)));
    let run = template_of(&t);
    assert_eq!(run.sources.len(), 1);
    match &run.parse_config {
        ParseConfig::WB(c) => {
            assert_eq!(c.headers.date, "发货日期");
            assert_eq!(c.headers.shipment_no, "扩展单号");
        },
        _ => panic!("expected a Wanbang configuration"),
    }
    t.update(TemplateMessage::Sheet(0, SheetMessage::Delete));
    assert_eq!(t.sheets.len(), 0);
}

#[test]
fn detail_screens() {
    let mut d = DetailState::bill();
    assert_eq!(d.title, "物流账单");
    d.update(DetailMessage::AddTemplate);
    assert_eq!(d.templates.len(), 0);
    d.update(DetailMessage::SelectTemplateType(TemplateType::Ddd));
    d.update(DetailMessage::AddTemplate);
    assert_eq!(d.templates.len(), 1);
    assert_eq!(d.templates[0].temp_type, TemplateType::Ddd);
    d.update(DetailMessage::Template(0, TemplateMessage::Delete));
    assert_eq!(d.templates.len(), 0);
    let e = DetailState::shipment();
    assert!(matches!(check_run(&d.templates, &e.templates), Err(RunError::Any(_))));
}

use logirecon::ui::{AppAction, AppMessage, AppState, RunnerAction, RunnerMessage, RunnerState, WindowAction, WindowMessage, WindowState, ModalState};

#[test]
fn runner_panel_exports_only_after_success() {
    let mut r = RunnerState::new();
    assert!(matches!(r.update(RunnerMessage::ExportToExcel), RunnerAction::Nothing));
    assert!(matches!(r.update(RunnerMessage::Run), RunnerAction::StartRun));
    assert!(r.running);
    assert!(matches!(r.update(RunnerMessage::ExportStasisToExcel), RunnerAction::Nothing));
    let empty = || Table { names: vec![], rows: vec![] };
    assert!(matches!(r.update(RunnerMessage::Ran(Ok((empty(), empty())))), RunnerAction::ShowResults));
    assert!(!r.running);
    assert!(matches!(r.update(RunnerMessage::ExportToExcel), RunnerAction::ExportResults));
    match r.update(RunnerMessage::Exported(Err("磁盘已满".to_string()))) {
        RunnerAction::ShowMsg(m) => assert_eq!(m, "出错了: 磁盘已满"),
        _ => panic!("expected a message"),
    }
    r.update(RunnerMessage::ShowMsg("hi".to_string()));
    assert_eq!(r.msg.as_deref(), Some("hi"));
    r.update(RunnerMessage::HideMsg);
    assert!(r.msg.is_none());
}

#[test]
fn window_routes_messages() {
    let mut w = WindowState::new();
    let a = w.update(WindowMessage::Detail(0, DetailMessage::Template(2, TemplateMessage::ShowModal(true))));
    assert!(matches!(a, WindowAction::Then(WindowMessage::ShowModal(Some(ModalState::Template(0, 2))))));
    w.update(WindowMessage::ShowModal(Some(ModalState::Runner)));
    assert_eq!(w.modal_state, Some(ModalState::Runner));
    w.update(WindowMessage::Detail(1, DetailMessage::SelectTemplateType(TemplateType::Headway)));
    w.update(WindowMessage::Detail(1, DetailMessage::AddTemplate));
    assert_eq!(w.shipments.templates.len(), 1);
    assert_eq!(w.bills.templates.len(), 0);
    w.update(WindowMessage::Reset);
    assert_eq!(w.shipments.templates.len(), 0);
    assert!(w.modal_state.is_none());
    assert!(matches!(w.update(WindowMessage::Exit), WindowAction::Close));
}

#[test]
fn app_loads_then_saves_on_close() {
    let mut app = AppState::new();
    assert!(matches!(app, AppState::Loading));
    app.update(AppMessage::Loaded(Err("no file".to_string())));
    match &app {
        AppState::Loaded(w) => assert_eq!(w.bills.title, "物流账单"),
        _ => panic!("expected a loaded application"),
    }
    assert!(matches!(app.update(AppMessage::WindowMessage(WindowMessage::Save)), AppAction::SaveAndExit));
}
