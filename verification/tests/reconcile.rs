use logirecon::reconcile::{ReconcileColumn, ReconcileError, ReconcileOption};
use logirecon::table::Table;
use logirecon::text::parse_dec;
use logirecon::value::Value;

fn s(x: &str) -> Value {
    Value::Str(x.to_string())
}

fn num(x: &str) -> Value {
    Value::Num(parse_dec(x).unwrap())
}

fn table(names: &[&str], rows: Vec<Vec<Value>>) -> Table {
    Table { names: names.iter().map(|n| n.to_string()).collect(), rows }
}

fn text(v: &Value) -> Option<String> {
    match v {
        Value::Str(t) => Some(t.clone()),
        Value::Null => None,
        _ => Some("?".to_string()),
    }
}

fn frames() -> (Table, Table) {
    let df1 = table(
        &["Score", "No", "Name"],
        vec![
            vec![num("99.0"), s("1"), s("李勇")],
            vec![num("81.5"), s("2"), s("张三")],
            vec![num("75."), s("3"), s("李四")],
        ],
    );
    let df2 = table(
        &["Score", "No", "Name"],
        vec![
            vec![num("99.5"), s("2"), s("李勇")],
            vec![num("81.5"), s("1"), s("张三")],
            vec![num("75."), s("3"), s("胡五")],
        ],
    );
    (df1, df2)
}

fn columns() -> Vec<(String, ReconcileColumn)> {
    vec![
        ("Score".to_string(), ReconcileColumn::Numeric(100_000)),
        ("Name".to_string(), ReconcileColumn::PK),
        ("No".to_string(), ReconcileColumn::Exact),
    ]
}

#[test]
fn test_resonsiler() {
    let (df1, df2) = frames();
    let reconciler = ReconcileOption::new_with_columns(columns())
        .left(df1, "A".to_string())
        .right(df2, "B".to_string())
        .try_into_reconciler()
        .unwrap()
        .reconcile()
        .unwrap();
    let width_res = reconciler.get_width_result().unwrap();
    println!("width result : {:?}", width_res);
    let long_res = reconciler.get_long_result().unwrap();
    println!("long result : {:?}", long_res);

    assert_eq!(
        width_res.names,
        vec!["Name", "Score_A", "No_A", "Score_B", "No_B", "_both", "diff_Score", "diff_No", "_summary"]
    );
    let summaries: Vec<Option<String>> = width_res.rows.iter().map(|r| text(&r[8])).collect();
    assert_eq!(
        summaries,
        vec![
            Some("Score:|99.0 - 99.5| > 0.1;No:1 != 2".to_string()),
            Some("No:2 != 1".to_string()),
            Some("A only".to_string()),
            Some("B only".to_string()),
        ]
    );
    let keys: Vec<Option<String>> = width_res.rows.iter().map(|r| text(&r[0])).collect();
    assert_eq!(
        keys,
        vec![Some("李勇".into()), Some("张三".into()), Some("李四".into()), Some("胡五".into())]
    );

    assert_eq!(long_res.names, vec!["Name", "_source", "Score", "No", "_summary"]);
    let order: Vec<(Option<String>, Option<String>)> =
        long_res.rows.iter().map(|r| (text(&r[0]), text(&r[1]))).collect();
    assert_eq!(
        order,
        vec![
            (Some("张三".into()), Some("A".into())),
            (Some("张三".into()), Some("B".into())),
            (Some("李勇".into()), Some("A".into())),
            (Some("李勇".into()), Some("B".into())),
            (Some("李四".into()), Some("A".into())),
            (Some("胡五".into()), Some("B".into())),
        ]
    );
    assert_eq!(text(&long_res.rows[4][4]), Some("A only".to_string()));
}

#[test]
fn reconcile_identical_tables_have_no_differences() {
    let (df1, _) = frames();
    let (df2, _) = frames();
    let r = ReconcileOption::new_with_columns(columns())
        .left(df1, "A".to_string())
        .right(df2, "B".to_string())
        .try_into_reconciler()
        .unwrap()
        .reconcile()
        .unwrap();
    let w = r.get_width_result().unwrap();
    assert_eq!(w.rows.len(), 3);
    for row in &w.rows {
        assert!(row[8].is_null());
        assert_eq!(text(&row[5]), Some("both".to_string()));
    }
}

#[test]
fn reconcile_errors() {
    let (df1, df2) = frames();
    let none = ReconcileOption::new_with_columns(columns()).try_into_reconciler();
    assert!(matches!(none, Err(ReconcileError::NotSet(_))));
    let two_pk = ReconcileOption::new_with_columns(vec![
        ("Score".to_string(), ReconcileColumn::PK),
        ("Name".to_string(), ReconcileColumn::PK),
        ("No".to_string(), ReconcileColumn::Exact),
    ])
    .left(df1, "A".to_string())
    .right(df2, "B".to_string())
    .try_into_reconciler();
    assert!(matches!(two_pk, Err(ReconcileError::PK(2))));
    let (df1, df2) = frames();
    let other = ReconcileOption::new_with_columns(vec![
        ("Score".to_string(), ReconcileColumn::Numeric(1)),
        ("Name".to_string(), ReconcileColumn::PK),
    ])
    .left(df1, "A".to_string())
    .right(df2, "B".to_string())
    .try_into_reconciler();
    assert!(matches!(other, Err(ReconcileError::NotMatch(_))));
}

#[test]
fn reconcile_not_ready_and_name_clash() {
    let (df1, df2) = frames();
    let r = ReconcileOption::new_with_columns(columns())
        .left(df1, "A".to_string())
        .right(df2, "A".to_string())
        .try_into_reconciler()
        .unwrap();
    match r.get_width_result() {
        Err(ReconcileError::NotReady(t)) => assert_eq!(t, "需要先运行 build_result 方法"),
        _ => panic!("expected a not-ready error"),
    }
    match r.get_long_result() {
        Err(ReconcileError::NotReady(t)) => assert_eq!(t, "实现错误，需要先运行 build_result 方法"),
        _ => panic!("expected a not-ready error"),
    }
    assert!(matches!(r.reconcile(), Err(ReconcileError::Process(_))));
}

#[test]
fn reconcile_numeric_column_with_text_fails() {
    let df1 = table(&["k", "v"], vec![vec![s("a"), s("x")]]);
    let df2 = table(&["k", "v"], vec![vec![s("a"), num("1")]]);
    let r = ReconcileOption::new_with_columns(vec![
        ("k".to_string(), ReconcileColumn::PK),
        ("v".to_string(), ReconcileColumn::Numeric(0)),
    ])
    .left(df1, "L".to_string())
    .right(df2, "R".to_string())
    .try_into_reconciler()
    .unwrap();
    assert!(matches!(r.reconcile(), Err(ReconcileError::Process(_))));
}

#[test]
fn new_with_columns_last_method_wins() {
    let o = ReconcileOption::new_with_columns(vec![
        ("a".to_string(), ReconcileColumn::Exact),
        ("b".to_string(), ReconcileColumn::PK),
        ("a".to_string(), ReconcileColumn::Info),
    ]);
    assert_eq!(o.columns.len(), 2);
    assert_eq!(o.columns[0].0, "a");
    assert_eq!(o.columns[0].1, ReconcileColumn::Info);
}

#[test]
fn freight_and_customs_schemes() {
    let f = ReconcileOption::freight();
    assert_eq!(f.columns.len(), 8);
    assert_eq!(f.columns[0], ("运单号".to_string(), ReconcileColumn::PK));
    assert_eq!(f.columns[5], ("件数".to_string(), ReconcileColumn::Numeric(1000)));
    let c = ReconcileOption::customs();
    assert_eq!(c.columns.len(), 4);
    assert_eq!(c.columns[3], ("金额".to_string(), ReconcileColumn::Numeric(1000)));
}

#[test]
fn tolerance_boundary_is_a_match() {
    let df1 = table(&["k", "v"], vec![vec![s("a"), num("1.000")]]);
    let df2 = table(&["k", "v"], vec![vec![s("a"), num("1.001")]]);
    let r = ReconcileOption::new_with_columns(vec![
        ("k".to_string(), ReconcileColumn::PK),
        ("v".to_string(), ReconcileColumn::Numeric(1000)),
    ])
    .left(df1, "L".to_string())
    .right(df2, "R".to_string())
    .try_into_reconciler()
    .unwrap()
    .reconcile()
    .unwrap();
    let w = r.get_width_result().unwrap();
    assert!(w.rows[0][w.names.len() - 1].is_null());
}
