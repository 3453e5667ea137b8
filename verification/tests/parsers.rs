use logirecon::parser::{
    DDDParseConfig, DDDParser, HeadwayParseConfig, HeadwayParser, JydParseConfig, JydParser,
    Parse, ParseError, TSParseConfig, TSParser, WBParseConfig, WbParser,
};
use logirecon::table::Table;
use logirecon::text::parse_dec;
use logirecon::validate::IntoValidated;
use logirecon::value::Value;

fn s(x: &str) -> Value {
    Value::Str(x.to_string())
}

fn num(x: &str) -> Value {
    Value::Num(parse_dec(x).unwrap())
}

fn table(names: &[&str], rows: Vec<Vec<Value>>) -> Table {
    Table { names: names.iter().map(|n| n.to_string()).collect(), rows }
}

fn col(t: &Table, name: &str) -> Vec<Value> {
    let i = t.names.iter().position(|n| n == name).unwrap();
    t.rows.iter().map(|r| r[i].copy()).collect()
}

#[test]
fn wb_test_parse() {
    let data = table(
        &["发货日期", "运单号", "订单号", "仓库编码", "件数", "收费重", "单价"],
        vec![vec![
            s("2026/04/04"),
            s("WB2604024559"),
            s("FBA199JBH82C,FBA199JCMDW7,FBA199KNT8RY"),
            s("GEU2"),
            Value::Int(141),
            Value::Int(1899),
            s("3.60/KG"),
        ]],
    );
    let mut config = WBParseConfig::default();
    config.headers.date = "发货日期".to_string();
    let bill = WbParser::parse(data, config).unwrap();
    println!("{:?}", &bill.0);
    assert_eq!(
        bill.0.names,
        vec!["日期", "运单号", "货件单号", "物流中心编码", "货代名称", "件数", "计费重", "单价", "账单类型"]
    );
    assert!(matches!(&col(&bill.0, "单价")[0], Value::Str(p) if p == "3.60"));
    assert!(matches!(&col(&bill.0, "账单类型")[0], Value::Str(p) if p == "运费"));
    assert!(matches!(&col(&bill.0, "货代名称")[0], Value::Str(p) if p == "万邦"));
    let data = bill.into_validated().unwrap();
    println!("{:?}", data);
    assert_eq!(data.rows.len(), 1);
}

#[test]
fn headway_test_parse() {
    let data = table(
        &["报关周次", "货件单号", "物流中心编码", "箱数", "货件计费重", "物流单价", "报关或其他费", "提货时间"],
        vec![vec![
            s("W15002"),
            s("FBA15LMGRQ7F"),
            s("BER8"),
            Value::Int(144),
            num("178.00"),
            num("7.4"),
            num("250.00"),
            s("2026/4/10"),
        ]],
    );
    let mut config = HeadwayParseConfig::default();
    config.year = 2026;
    config.headers.customs_fee = "报关或其他费".to_string();
    let output = HeadwayParser::parse(data, config).unwrap();
    println!("{:?}", &output.0);
    assert!(matches!(&col(&output.0, "报关周次")[0], Value::Str(p) if p == "Y2026W15002"));
    assert!(matches!(col(&output.0, "报关费")[0], Value::Num(250_000_000)));
    let data = output.into_validated().unwrap();
    println!("{:?}", data);
    assert_eq!(data.rows.len(), 1);
}

#[test]
fn wb_customs_line_and_cleaning() {
    let data = table(
        &["日期", "运单号", "订单号", "仓库编码", "件数", "收费重", "单价"],
        vec![vec![
            s("2026/04/04"),
            s("  WB1 "),
            s(" FBA1 FBA2，FBA3 "),
            s(" GEU2"),
            Value::Int(1),
            Value::Int(10),
            s("150/票"),
        ]],
    );
    let bill = WbParser::parse(data, WBParseConfig::default()).unwrap();
    let row = &bill.0.rows[0];
    assert!(matches!(&row[1], Value::Str(p) if p == "WB1"));
    assert!(matches!(&row[2], Value::Str(p) if p == "FBA1,FBA2,FBA3"));
    assert!(matches!(&row[3], Value::Str(p) if p == "GEU2"));
    assert!(matches!(&row[7], Value::Str(p) if p == "150"));
    assert!(matches!(&row[8], Value::Str(p) if p == "报关费"));
    assert!(matches!(&row[0], Value::Date(_)));
}

#[test]
fn wb_missing_column_error() {
    let data = table(&["日期", "运单号"], vec![]);
    match WbParser::parse(data, WBParseConfig::default()) {
        Err(ParseError::ColumnNotFound(c)) => assert_eq!(c, "订单号"),
        _ => panic!("expected a missing column"),
    }
}

#[test]
fn wb_not_text_error() {
    let data = table(
        &["日期", "运单号", "订单号", "仓库编码", "件数", "收费重", "单价"],
        vec![vec![s("2026/04/04"), Value::Int(5), s("A"), s("B"), Value::Int(1), Value::Int(1), s("1/KG")]],
    );
    assert!(matches!(WbParser::parse(data, WBParseConfig::default()), Err(ParseError::NotText)));
}

#[test]
fn grt_and_jm_configs() {
    let grt = WBParseConfig::grt();
    assert_eq!(grt.forwarder, "国润通");
    assert_eq!(grt.headers.shipment_no, "扩展单号");
    assert_eq!(grt.headers.warehouse_code, "地址编码");
    let jm = WBParseConfig::jm();
    assert_eq!(jm.forwarder, "积米");
    assert_eq!(jm.headers.chargeable_weight, "收费重(KG)");
}

#[test]
fn ts_units_pattern() {
    let data = table(
        &["日期", "运单号", "客户运单号", "地址编码", "件数", "收费重", "单价", "单位"],
        vec![
            vec![s("2026-04-01"), s("T1"), s("F1"), s("W1"), Value::Int(1), num("2.5"), num("3.2"), s("KG")],
            vec![s("2026-04-01"), s("T1"), s("F1"), s("W1"), Value::Int(1), num("2.5"), num("50"), s("每票")],
            vec![s("2026-04-01"), s("T2"), s("F2"), s("W1"), Value::Int(1), num("2.5"), num("3.2"), Value::Null],
        ],
    );
    let bill = TSParser::parse(data, TSParseConfig::default()).unwrap();
    assert_eq!(bill.0.names[7], "账单类型");
    assert_eq!(bill.0.names[8], "单价");
    assert!(matches!(&bill.0.rows[0][7], Value::Str(p) if p == "运费"));
    assert!(matches!(&bill.0.rows[1][7], Value::Str(p) if p == "报关费"));
    assert!(matches!(&bill.0.rows[2][7], Value::Str(p) if p == "运费"));
    assert!(matches!(&bill.0.rows[0][4], Value::Str(p) if p == "天盛"));
}

#[test]
fn ts_unsupported_pattern() {
    let data = table(&["日期", "运单号", "客户运单号", "地址编码", "件数", "收费重", "单价", "单位"], vec![]);
    let mut config = TSParseConfig::default();
    config.units.1 = "票.*".to_string();
    assert!(matches!(TSParser::parse(data, config), Err(ParseError::Pattern(_))));
}

#[test]
fn ddd_formula_lines() {
    let data = table(
        &["签入日期", "运单号", "FBA单号", "目的仓", "件数", "收费重", "计算公式"],
        vec![
            vec![s("2026-04-02"), s("D1"), s("F1"), s("W1"), Value::Int(3), num("21"), s("<21*3.60>+<150>+<20.5>")],
            vec![s("2026-04-02"), s("D2"), s("F2"), s("W1"), Value::Int(3), num("21"), s("<150>")],
            vec![s("2026-04-02"), s("D3"), s("F3"), s("W1"), Value::Int(3), num("21"), s("无")],
        ],
    );
    let bill = DDDParser::parse(data, DDDParseConfig::default()).unwrap();
    assert_eq!(bill.0.rows.len(), 3);
    // freight lines first
    assert!(matches!(&bill.0.rows[0][1], Value::Str(p) if p == "D1"));
    assert!(matches!(bill.0.rows[0][7], Value::Num(3_600_000)));
    assert!(matches!(&bill.0.rows[0][8], Value::Str(p) if p == "运费"));
    // then customs lines
    assert!(matches!(&bill.0.rows[1][1], Value::Str(p) if p == "D1"));
    assert!(matches!(bill.0.rows[1][7], Value::Num(170_500_000)));
    assert!(matches!(&bill.0.rows[1][8], Value::Str(p) if p == "报关费"));
    assert!(matches!(&bill.0.rows[2][1], Value::Str(p) if p == "D2"));
    assert!(matches!(bill.0.rows[2][7], Value::Num(150_000_000)));
}

#[test]
fn jyd_dates_and_lines() {
    let data = table(
        &["签入日期", "运单号", "FBA单号", "目的仓", "件数", "收费重", "运费", "其他费用"],
        vec![
            vec![s("4月10"), s("J1"), s("F1"), s("W1"), Value::Int(2), num("10"), num("4.5"), num("80")],
            vec![s("4月11"), s("J2"), s("F2"), s("W1"), Value::Int(2), num("10"), Value::Null, num("60")],
        ],
    );
    let mut config = JydParseConfig::default();
    config.year = 2026;
    let bill = JydParser::parse(data, config).unwrap();
    assert_eq!(bill.0.rows.len(), 3);
    assert!(matches!(&bill.0.rows[0][8], Value::Str(p) if p == "运费"));
    assert!(matches!(&bill.0.rows[1][8], Value::Str(p) if p == "报关费"));
    assert!(matches!(&bill.0.rows[2][1], Value::Str(p) if p == "J2"));
    assert!(matches!(&bill.0.rows[0][0], Value::Date(_)));
    assert!(matches!(&bill.0.rows[0][4], Value::Str(p) if p == "京奕达"));
}

#[test]
fn headway_week_without_w_is_null() {
    let data = table(
        &["报关周次", "货件单号", "物流中心编码", "箱数", "货件计费重", "物流单价", "报关费", "提货时间"],
        vec![vec![s("15002"), s(" F "), s("BER8"), Value::Int(1), num("1"), num("1"), s("abc"), Value::Null]],
    );
    let mut config = HeadwayParseConfig::default();
    config.year = 2026;
    let out = HeadwayParser::parse(data, config).unwrap();
    assert!(out.0.rows[0][0].is_null());
    assert!(matches!(&out.0.rows[0][1], Value::Str(p) if p == "F"));
    assert!(out.0.rows[0][6].is_null());
}
