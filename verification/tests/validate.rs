use logirecon::table::Table;
use logirecon::text::parse_dec;
use logirecon::validate::{
    bill_schema, AggOption, BillData, BillValidated, IntoValidated, ValidateError, Validated,
};
use logirecon::value::{DType, Value};

fn s(x: &str) -> Value {
    Value::Str(x.to_string())
}

fn num(x: &str) -> Value {
    Value::Num(parse_dec(x).unwrap())
}

fn bill(rows: Vec<Vec<Value>>) -> Table {
    Table {
        names: ["日期", "运单号", "货件单号", "物流中心编码", "货代名称", "件数", "计费重", "单价", "账单类型"]
            .iter()
            .map(|n| n.to_string())
            .collect(),
        rows,
    }
}

#[test]
fn validate_groups_by_waybill_and_type() {
    let t = bill(vec![
        vec![s("2026-04-01"), s("WB1"), s("F1"), s("GEU2"), Value::Int(2), num("10"), num("3.5"), s("运费")],
        vec![s("2026-04-01"), s("WB1"), s("F2"), s("GEU2"), Value::Int(2), num("10"), num("1.5"), s("运费")],
        vec![s("2026-04-01"), s("WB1"), s("F1"), s("GEU2"), Value::Int(2), num("10"), num("150"), s("报关费")],
    ]
    .into_iter()
    .map(|mut r| {
        r.insert(4, s("万邦"));
        r
    })
    .collect());
    let v = BillData(t).into_validated().unwrap();
    assert_eq!(v.names[0], "运单号");
    assert_eq!(v.names[1], "账单类型");
    assert_eq!(v.rows.len(), 2);
    let price = v.names.iter().position(|n| n == "单价").unwrap();
    assert!(matches!(v.rows[0][price], Value::Num(5_000_000)));
    assert!(matches!(v.rows[1][price], Value::Num(150_000_000)));
    let shipment = v.names.iter().position(|n| n == "货件单号").unwrap();
    assert!(matches!(&v.rows[0][shipment], Value::Str(x) if x == "F1"));
    let date = v.names.iter().position(|n| n == "日期").unwrap();
    assert!(matches!(v.rows[0][date], Value::Date(_)));
}

#[test]
fn validate_missing_column_and_bad_sum() {
    let t = Table { names: vec!["运单号".to_string()], rows: vec![] };
    assert!(matches!(BillData(t).into_validated(), Err(ValidateError::ColumnNotFound(_))));
    let mut row = vec![s("2026-04-01"), s("WB1"), s("F1"), s("GEU2"), s("万邦"), Value::Int(2), num("10"), num("3.5"), s("运费")];
    row[7] = s("abc");
    let t = bill(vec![row]);
    // a price that does not read as a number becomes null, which sums to zero
    let v = BillData(t).into_validated().unwrap();
    let price = v.names.iter().position(|n| n == "单价").unwrap();
    assert!(matches!(v.rows[0][price], Value::Num(0)));
}

#[test]
fn validated_view_of_the_first_version() {
    let t = bill(vec![vec![
        s("2026-04-01"),
        s("WB1"),
        s("F1"),
        s("GEU2"),
        s("万邦"),
        Value::Int(2),
        num("10"),
        num("3.5"),
        s("其他"),
    ]]);
    let b = BillValidated::with_dataframe(t);
    let v = b.get_valicated().unwrap();
    // an unknown bill type is not one of the categories: it becomes null
    assert!(v.rows[0][1].is_null());
}

#[test]
fn schema_lists() {
    let schema = bill_schema();
    let d = schema.dtypes();
    assert_eq!(d.len(), 9);
    assert_eq!(d[0].0, "运单号");
    assert!(matches!(d[0].1, DType::Str));
    let a = schema.agg_options();
    assert_eq!(a[1].1, AggOption::PK);
    assert_eq!(a[7].1, AggOption::BySum);
}
