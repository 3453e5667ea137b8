use logirecon::headers::{AsHeaders, DDDHeaders, WbHeaders};

fn pair(a: &str, b: &str) -> (String, String) {
    (a.to_string(), b.to_string())
}

#[test]
fn test_macro() {
    let mut headers = DDDHeaders::default();
    println!("{:?}", headers);
    println!("{:?}", headers.as_headers());
    headers.update_headers([("运单号", "FBA单号")].map(|(a, b)| (a.to_string(), b.to_string())).to_vec());
    println!("{:?}", headers);
}

#[test]
fn headers_default_pairs() {
    let headers = DDDHeaders::default();
    let pairs = headers.as_headers();
    assert_eq!(
        pairs,
        vec![
            pair("签入日期", "签入日期"),
            pair("运单号", "运单号"),
            pair("FBA单号", "FBA单号"),
            pair("目的仓", "目的仓"),
            pair("件数", "件数"),
            pair("收费重", "收费重"),
            pair("计算公式", "计算公式"),
        ]
    );
}

#[test]
fn headers_update_renames_one_label() {
    let mut headers = DDDHeaders::default();
    headers.update_headers(vec![pair("运单号", "FBA单号")]);
    assert_eq!(headers.waybill_no, "FBA单号");
    assert_eq!(headers.shipment_no, "FBA单号");
    assert_eq!(headers.date, "签入日期");
}

#[test]
fn headers_update_last_pair_wins_and_unknown_ignored() {
    let mut headers = WbHeaders::default();
    headers.update_headers(vec![pair("日期", "发货日期"), pair("不存在", "x"), pair("日期", "签收日期")]);
    assert_eq!(headers.date, "签收日期");
    assert_eq!(headers.waybill_no, "运单号");
}

#[test]
fn headers_update_with_own_pairs_changes_nothing() {
    let mut headers = WbHeaders::default();
    headers.shipment_no = "扩展单号".to_string();
    let own = headers.as_headers();
    headers.update_headers(own.clone());
    assert_eq!(headers.as_headers(), own);
}
