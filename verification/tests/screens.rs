use logirecon::parser::{HeadwayParseConfig, TSParseConfig, WBParseConfig};
use logirecon::reader::grid::{cell_kind, CellKind, RawKind};
use logirecon::reconcile::{ReconcileColumn, ReconcileOption};
use logirecon::runner::{parse_kept, reconcile_freight_and_customs, ParseConfig};
use logirecon::reader::{workbook_format, ExcelError, WorkbookFormat};
use logirecon::parser::formula::{fee_texts, first_price_of, sum_fees};
use logirecon::text::chars_of;
use logirecon::table::Table;
use logirecon::text::parse_dec;
use logirecon::ui::{
    template_of, Action, AppAction, AppMessage, AppState, DetailMessage, SheetMessage, SheetState,
    TemplateMessage, TemplateState, TemplateType, WindowAction, WindowMessage,
};
use logirecon::validate::{AggOption, DataSchema};
use logirecon::value::{DType, Value};

fn s(x: &str) -> Value {
    Value::Str(x.to_string())
}

fn num(x: &str) -> Value {
    Value::Num(parse_dec(x).unwrap())
}

fn table(names: &[&str], rows: Vec<Vec<Value>>) -> Table {
    Table { names: names.iter().map(|n| n.to_string()).collect(), rows }
}

fn wb_sheet() -> Table {
    table(
        &["发货日期", "运单号", "订单号", "仓库编码", "件数", "收费重", "单价"],
        vec![vec![
            s("2026/04/04"),
            s("WB2604024559"),
            s("FBA199JBH82C"),
            s("GEU2"),
            Value::Int(141),
            Value::Int(1899),
            s("3.60/KG"),
        ]],
    )
}

fn headway_sheet() -> Table {
    table(
        &["报关周次", "货件单号", "物流中心编码", "箱数", "货件计费重", "物流单价", "报关费", "提货时间"],
        vec![vec![
            s("W15002"),
            s("FBA15LMGRQ7F"),
            s("BER8"),
            Value::Int(144),
            num("178.00"),
            num("7.4"),
            num("250.00"),
            s("2026/4/10"),
        ]],
    )
}

#[test]
fn schema_later_entry_replaces_earlier() {
    let schema = DataSchema::from_iter(vec![
        ("a".to_string(), (DType::Str, AggOption::PK)),
        ("b".to_string(), (DType::Date, AggOption::ByFirst)),
        ("a".to_string(), (DType::Float, AggOption::BySum)),
    ]);
    let d = schema.dtypes();
    assert_eq!(d.len(), 2);
    assert_eq!(d[0].0, "a");
    assert!(matches!(d[0].1, DType::Float));
    assert_eq!(d[1].0, "b");
    assert!(matches!(d[1].1, DType::Date));
    let a = schema.agg_options();
    assert_eq!(a.len(), 2);
    assert_eq!(a[0], ("a".to_string(), AggOption::BySum));
    assert_eq!(a[1], ("b".to_string(), AggOption::ByFirst));
}

#[test]
fn parse_kept_keeps_wb_bills_and_headway_details() {
    let mut wb = WBParseConfig::default();
    wb.headers.date = "发货日期".to_string();
    let mut headway = HeadwayParseConfig::default();
    headway.year = 2026;
    let bills = vec![
        (ParseConfig::WB(wb.copy()), wb_sheet()),
        (ParseConfig::TS(TSParseConfig::default()), wb_sheet()),
        (ParseConfig::WB(WBParseConfig::default()), wb_sheet()),
        (ParseConfig::WB(wb.copy()), wb_sheet()),
    ];
    let shipments = vec![
        (ParseConfig::WB(wb.copy()), wb_sheet()),
        (ParseConfig::Headway(headway), headway_sheet()),
    ];
    let (b, sh) = parse_kept(bills, shipments);
    // the TS sheet is not a WB bill, and the third one lacks its date column
    assert_eq!(b.len(), 2);
    assert_eq!(b[0].0.rows.len(), 1);
    assert_eq!(sh.len(), 1);
    assert_eq!(sh[0].0.names[0], "报关周次");
}

#[test]
fn parse_kept_with_nothing_kept() {
    let (b, sh) = parse_kept(vec![(ParseConfig::TS(TSParseConfig::default()), wb_sheet())], vec![]);
    assert!(b.is_empty());
    assert!(sh.is_empty());
}

#[test]
fn cell_kinds() {
    assert_eq!(cell_kind(RawKind::String, ""), CellKind::Null);
    assert_eq!(cell_kind(RawKind::String, "x"), CellKind::Text);
    assert_eq!(cell_kind(RawKind::Empty, ""), CellKind::Null);
    assert_eq!(cell_kind(RawKind::Float, "1.5"), CellKind::Float);
    assert_eq!(cell_kind(RawKind::DateTime, "2026-04-01"), CellKind::Date);
    assert_eq!(cell_kind(RawKind::Other, "#DIV/0!"), CellKind::Text);
}

#[test]
fn template_of_keeps_the_base_settings() {
    let t = TemplateState::new(TemplateType::Grt);
    match template_of(&t).parse_config {
        ParseConfig::WB(c) => {
            assert_eq!(c.forwarder, "国润通");
            assert_eq!(c.datefmt, "%Y/%m/%d");
            assert_eq!(c.units, ("KG".to_string(), "票".to_string()));
        },
        _ => panic!("expected a WB configuration"),
    }
    let t = TemplateState::new(TemplateType::Ts);
    match template_of(&t).parse_config {
        ParseConfig::TS(c) => assert_eq!(c.units.0, "(KG|立方|kg)"),
        _ => panic!("expected a TS configuration"),
    }
}

#[test]
fn app_forwards_window_messages() {
    let mut app = AppState::new();
    app.update(AppMessage::Loaded(Err("no file".to_string())));
    let a = app.update(AppMessage::WindowMessage(WindowMessage::Detail(
        0,
        DetailMessage::SelectTemplateType(TemplateType::Wb),
    )));
    assert!(matches!(a, AppAction::Window(WindowAction::Detail(0, Action::Nothing))));
    app.update(AppMessage::WindowMessage(WindowMessage::Detail(0, DetailMessage::AddTemplate)));
    let a = app.update(AppMessage::WindowMessage(WindowMessage::Detail(
        0,
        DetailMessage::Template(0, TemplateMessage::ImportFile),
    )));
    assert!(matches!(a, AppAction::Window(WindowAction::Detail(0, Action::LoadWorkbook))));
    app.update(AppMessage::WindowMessage(WindowMessage::Detail(
        0,
        DetailMessage::Template(0, TemplateMessage::InsertSheet(Some(SheetState::new(
            "a.xlsx".to_string(),
            vec!["S1".to_string()],
        )))),
    )));
    app.update(AppMessage::WindowMessage(WindowMessage::Detail(
        0,
        DetailMessage::Template(0, TemplateMessage::Sheet(0, SheetMessage::Chosen(true))),
    )));
    // a second arrival of the saved screens changes nothing
    app.update(AppMessage::Loaded(Err("again".to_string())));
    match &app {
        AppState::Loaded(w) => {
            assert_eq!(w.bills.templates.len(), 1);
            assert!(w.bills.templates[0].sheets[0].chosen);
        },
        _ => panic!("expected a loaded application"),
    }
}

#[test]
fn long_result_one_row_per_row_with_its_key_summary() {
    let l = table(&["k", "v"], vec![vec![s("a"), num("1")], vec![s("b"), num("2")]]);
    let r = table(&["k", "v"], vec![vec![s("b"), num("3")], vec![s("c"), num("4")]]);
    let rec = ReconcileOption::new_with_columns(vec![
        ("k".to_string(), ReconcileColumn::PK),
        ("v".to_string(), ReconcileColumn::Numeric(0)),
    ])
    .left(l, "L".to_string())
    .right(r, "R".to_string())
    .try_into_reconciler()
    .unwrap()
    .reconcile()
    .unwrap();
    let w = rec.get_width_result().unwrap();
    let long = rec.get_long_result().unwrap();
    assert_eq!(long.rows.len(), 4);
    let last = long.names.len() - 1;
    let wlast = w.names.len() - 1;
    for row in &long.rows {
        let key = match &row[0] {
            Value::Str(k) => k.clone(),
            _ => panic!("expected a key"),
        };
        let wrow = w.rows.iter().find(|x| matches!(&x[0], Value::Str(k) if *k == key)).unwrap();
        match (&row[last], &wrow[wlast]) {
            (Value::Str(a), Value::Str(b)) => assert_eq!(a, b),
            (Value::Null, Value::Null) => {},
            _ => panic!("summaries differ"),
        }
    }
    let from_l = long.rows.iter().filter(|x| matches!(&x[1], Value::Str(t) if t == "L")).count();
    assert_eq!(from_l, 2);
}

#[test]
fn workbook_formats_by_extension() {
    assert_eq!(workbook_format("xla").unwrap(), WorkbookFormat::Xls);
    assert_eq!(workbook_format("xlsm").unwrap(), WorkbookFormat::Xlsx);
    assert_eq!(workbook_format("xlsb").unwrap(), WorkbookFormat::Xlsb);
    assert_eq!(workbook_format("ods").unwrap(), WorkbookFormat::Ods);
    match workbook_format("csv") {
        Err(ExcelError::Load(m)) => assert_eq!(m, "Cannot detect file format"),
        _ => panic!("expected a load error"),
    }
}

#[test]
fn formula_digits_of_any_script() {
    let cs = chars_of("<2*\u{663}.5>+<\u{661}\u{665}\u{660}>+<20>");
    assert_eq!(first_price_of(&cs), Some("\u{663}.5".to_string()));
    let fees = fee_texts(&cs);
    assert_eq!(fees, vec!["\u{661}\u{665}\u{660}".to_string(), "20".to_string()]);
    // a number not written in ASCII digits does not read, and counts as nothing
    assert_eq!(sum_fees(&fees), Some(20_000_000));
    assert_eq!(parse_dec("\u{663}.5"), None);
}

#[test]
fn freight_and_customs_reconcilers_hold_their_settings() {
    let freight = || {
        table(
            &["运单号", "货件单号", "日期", "物流中心编码", "货代名称", "件数", "单价", "计费重"],
            vec![vec![s("WB1"), s("F1"), s("2026-04-01"), s("GEU2"), s("万邦"), num("2"), num("3.6"), num("10")]],
        )
    };
    let customs = || table(&["报关周次", "运单号", "货代名称", "金额"], vec![vec![s("Y2026W1"), s("WB1"), s("万邦"), num("150")]]);
    let (f, c) = reconcile_freight_and_customs(freight(), freight(), customs(), customs()).unwrap();
    assert_eq!(f.left.0, "物流");
    assert_eq!(f.right.0, "我方");
    assert_eq!(c.left.0, "物流");
    assert_eq!(c.right.0, "我方");
    assert_eq!(f.columns[0], ("运单号".to_string(), ReconcileColumn::PK));
    assert_eq!(c.columns[0], ("报关周次".to_string(), ReconcileColumn::PK));
    let long = f.get_long_result().unwrap();
    let sources: Vec<bool> = long.rows.iter().map(|r| matches!(&r[1], Value::Str(t) if t == "物流" || t == "我方")).collect();
    assert_eq!(sources, vec![true, true]);
}
