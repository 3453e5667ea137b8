//! Column names of the source sheets.
//!
//! Every parser works with fixed column labels; a header struct maps each
//! label to the name the column has in a given sheet, so that sheets whose
//! columns are named differently can be read by the same parser.
use crate::text::owned;
use crate::value::strs;
use vstd::prelude::*;

verus! {

/// The contents of `(label, name)` pairs.
pub open spec fn pairs_view(p: Seq<(String, String)>) -> Seq<(Seq<char>, Seq<char>)> {
    p.map_values(|x: (String, String)| (x.0@, x.1@))
}

/// The name in the last pair labelled `l`, if any.
pub open spec fn last_value(pairs: Seq<(Seq<char>, Seq<char>)>, l: Seq<char>) -> Option<Seq<char>>
    decreases pairs.len(),
{
    if pairs.len() == 0 {
        None
    } else if pairs.last().0 == l {
        Some(pairs.last().1)
    } else {
        last_value(pairs.drop_last(), l)
    }
}

/// Names `vals` of the columns labelled `labels`, after the pairs `pairs`
/// are applied: a label given in the pairs takes the name of its last pair;
/// the others keep theirs.
pub open spec fn updated(
    vals: Seq<Seq<char>>,
    labels: Seq<Seq<char>>,
    pairs: Seq<(Seq<char>, Seq<char>)>,
) -> Seq<Seq<char>> {
    Seq::new(
        vals.len(),
        |i: int|
            match last_value(pairs, labels[i]) {
                Some(v) => v,
                None => vals[i],
            },
    )
}

/// Types that map column labels to column names.
pub trait AsHeaders {
    /// The labels, in a fixed order.
    spec fn header_labels() -> Seq<Seq<char>>;

    /// The names, in the order of the labels.
    spec fn header_values(&self) -> Seq<Seq<char>>;

    /// The `(label, name)` pairs.
    fn as_headers(&self) -> (r: Vec<(String, String)>)
        ensures
            pairs_view(r@) == Self::header_labels().zip_with(self.header_values()),
    ;

    /// Renames columns: each label given in `headers` takes the name of its
    /// last pair there; labels not given, and pairs of unknown labels, change
    /// nothing.
    fn update_headers(&mut self, headers: Vec<(String, String)>)
        ensures
            final(self).header_values() == updated(
                old(self).header_values(),
                Self::header_labels(),
                pairs_view(headers@),
            ),
    ;
}

/// The name in the last pair labelled `l`.
pub fn lookup_last(pairs: &Vec<(String, String)>, l: &str) -> (r: Option<String>)
    ensures
        match r {
            Some(v) => last_value(pairs_view(pairs@), l@) == Some(v@),
            None => last_value(pairs_view(pairs@), l@) is None,
        },
{
    let mut i = pairs.len();
    assert(pairs@.take(i as int) =~= pairs@);
    while i > 0
        invariant
            i <= pairs@.len(),
            last_value(pairs_view(pairs@), l@) == last_value(pairs_view(pairs@.take(i as int)), l@),
        decreases i,
    {
        assert(pairs_view(pairs@.take(i as int)).drop_last() =~= pairs_view(pairs@.take(i - 1)));
        assert(pairs_view(pairs@.take(i as int)).last() == pairs_view(pairs@)[i - 1]);
        if crate::text::str_eq(pairs[i - 1].0.as_str(), l) {
            return Some(pairs[i - 1].1.clone());
        }
        i = i - 1;
    }
    None
}

// ---------------------------------------------------------------------------
// Laws
// ---------------------------------------------------------------------------

proof fn lemma_last_value_zip(labels: Seq<Seq<char>>, vals: Seq<Seq<char>>, i: int)
    requires
        labels.no_duplicates(),
        labels.len() == vals.len(),
        0 <= i < labels.len(),
    ensures
        last_value(labels.zip_with(vals), labels[i]) == Some(vals[i]),
    decreases labels.len(),
{
    let z = labels.zip_with(vals);
    let n = labels.len();
    if i == n - 1 {
        assert(z.last() == (labels[i], vals[i]));
    } else {
        assert(z.last().0 == labels[n - 1]);
        assert(labels[n - 1] != labels[i]);
        assert(z.drop_last() =~= labels.drop_last().zip_with(vals.drop_last()));
        lemma_last_value_zip(labels.drop_last(), vals.drop_last(), i);
    }
}

/// Renaming by a header's own pairs leaves its names as they are.
pub proof fn law_update_with_own_pairs(labels: Seq<Seq<char>>, vals: Seq<Seq<char>>)
    requires
        labels.no_duplicates(),
        labels.len() == vals.len(),
    ensures
        updated(vals, labels, labels.zip_with(vals)) == vals,
{
    assert forall|i: int| 0 <= i < vals.len() implies #[trigger] updated(vals, labels, labels.zip_with(vals))[i] == vals[i] by {
        lemma_last_value_zip(labels, vals, i);
    }
    assert(updated(vals, labels, labels.zip_with(vals)) =~= vals);
}

/// Renaming by the pairs of another header with the same labels gives its
/// names.
pub proof fn law_update_with_other_pairs(labels: Seq<Seq<char>>, vals: Seq<Seq<char>>, other: Seq<Seq<char>>)
    requires
        labels.no_duplicates(),
        labels.len() == vals.len(),
        labels.len() == other.len(),
    ensures
        updated(vals, labels, labels.zip_with(other)) == other,
{
    assert forall|i: int| 0 <= i < vals.len() implies #[trigger] updated(vals, labels, labels.zip_with(other))[i] == other[i] by {
        lemma_last_value_zip(labels, other, i);
    }
    assert(updated(vals, labels, labels.zip_with(other)) =~= other);
}

proof fn lemma_last_value_concat(p: Seq<(Seq<char>, Seq<char>)>, q: Seq<(Seq<char>, Seq<char>)>, l: Seq<char>)
    ensures
        last_value(p + q, l) == (match last_value(q, l) {
            Some(v) => Some(v),
            None => last_value(p, l),
        }),
    decreases q.len(),
{
    if q.len() > 0 {
        assert((p + q).drop_last() =~= p + q.drop_last());
        assert((p + q).last() == q.last());
        lemma_last_value_concat(p, q.drop_last(), l);
    } else {
        assert(p + q =~= p);
    }
}

/// Renaming twice is renaming once by both lists of pairs, the later
/// pairs winning.
pub proof fn law_update_twice(
    vals: Seq<Seq<char>>,
    labels: Seq<Seq<char>>,
    p: Seq<(Seq<char>, Seq<char>)>,
    q: Seq<(Seq<char>, Seq<char>)>,
)
    ensures
        updated(updated(vals, labels, p), labels, q) == updated(vals, labels, p + q),
{
    assert forall|i: int| 0 <= i < vals.len() implies #[trigger] updated(updated(vals, labels, p), labels, q)[i] == updated(vals, labels, p + q)[i] by {
        lemma_last_value_concat(p, q, labels[i]);
    }
    assert(updated(updated(vals, labels, p), labels, q) =~= updated(vals, labels, p + q));
}

/// Renaming by no pairs changes nothing.
pub proof fn law_update_with_nothing(vals: Seq<Seq<char>>, labels: Seq<Seq<char>>)
    ensures
        updated(vals, labels, Seq::empty()) == vals,
{
    assert(updated(vals, labels, Seq::empty()) =~= vals);
}

/// Column names of a Wanbang bill.
///
/// Each field holds the name of a column in the source sheet; its label
/// (see [`AsHeaders`]) is the name the parser works with.
#[derive(Debug)]
pub struct WbHeaders {
    /// 日期
    pub date: String,
    /// 运单号
    pub waybill_no: String,
    /// 订单号
    pub shipment_no: String,
    /// 仓库编码
    pub warehouse_code: String,
    /// 件数
    pub n_pieces: String,
    /// 收费重
    pub chargeable_weight: String,
    /// 单价
    pub unit_price: String,
}

impl WbHeaders {
    /// The labels of the columns, in field order.
    pub open spec fn labels() -> Seq<Seq<char>> {
        seq!["日期"@, "运单号"@, "订单号"@, "仓库编码"@, "件数"@, "收费重"@, "单价"@]
    }

    /// The column names, in field order.
    pub open spec fn values(&self) -> Seq<Seq<char>> {
        seq![self.date@, self.waybill_no@, self.shipment_no@, self.warehouse_code@, self.n_pieces@, self.chargeable_weight@, self.unit_price@]
    }

    /// A copy of the names.
    pub fn copy(&self) -> (r: Self)
        ensures
            r == *self,
    {
        WbHeaders {
            date: self.date.clone(),
            waybill_no: self.waybill_no.clone(),
            shipment_no: self.shipment_no.clone(),
            warehouse_code: self.warehouse_code.clone(),
            n_pieces: self.n_pieces.clone(),
            chargeable_weight: self.chargeable_weight.clone(),
            unit_price: self.unit_price.clone(),
        }
    }

    /// The column names, in field order.
    pub fn name_list(&self) -> (r: Vec<String>)
        ensures
            strs(r@) == self.values(),
    {
        let mut r: Vec<String> = Vec::new();
        r.push(self.date.clone());
        r.push(self.waybill_no.clone());
        r.push(self.shipment_no.clone());
        r.push(self.warehouse_code.clone());
        r.push(self.n_pieces.clone());
        r.push(self.chargeable_weight.clone());
        r.push(self.unit_price.clone());
        assert(strs(r@) =~= self.values());
        r
    }

    /// The default names: each column is named by its label.
    pub fn default() -> (r: Self)
        ensures
            r.values() == Self::labels(),
    {
        WbHeaders {
            date: owned("日期"),
            waybill_no: owned("运单号"),
            shipment_no: owned("订单号"),
            warehouse_code: owned("仓库编码"),
            n_pieces: owned("件数"),
            chargeable_weight: owned("收费重"),
            unit_price: owned("单价"),
        }
    }
}

impl AsHeaders for WbHeaders {
    open spec fn header_labels() -> Seq<Seq<char>> {
        Self::labels()
    }

    open spec fn header_values(&self) -> Seq<Seq<char>> {
        self.values()
    }

    fn as_headers(&self) -> (r: Vec<(String, String)>) {
        let mut r: Vec<(String, String)> = Vec::new();
        r.push((owned("日期"), self.date.clone()));
        r.push((owned("运单号"), self.waybill_no.clone()));
        r.push((owned("订单号"), self.shipment_no.clone()));
        r.push((owned("仓库编码"), self.warehouse_code.clone()));
        r.push((owned("件数"), self.n_pieces.clone()));
        r.push((owned("收费重"), self.chargeable_weight.clone()));
        r.push((owned("单价"), self.unit_price.clone()));
        assert(pairs_view(r@) =~= Self::labels().zip_with(self.values()));
        r
    }

    fn update_headers(&mut self, headers: Vec<(String, String)>) {
        let ghost old_vals = self.values();
        if let Some(v) = lookup_last(&headers, "日期") {
            self.date = v;
        }
        if let Some(v) = lookup_last(&headers, "运单号") {
            self.waybill_no = v;
        }
        if let Some(v) = lookup_last(&headers, "订单号") {
            self.shipment_no = v;
        }
        if let Some(v) = lookup_last(&headers, "仓库编码") {
            self.warehouse_code = v;
        }
        if let Some(v) = lookup_last(&headers, "件数") {
            self.n_pieces = v;
        }
        if let Some(v) = lookup_last(&headers, "收费重") {
            self.chargeable_weight = v;
        }
        if let Some(v) = lookup_last(&headers, "单价") {
            self.unit_price = v;
        }
        assert(self.values() =~= updated(old_vals, Self::labels(), pairs_view(headers@)));
    }
}

/// The labels of [`WbHeaders`] are distinct.
pub proof fn lemma_wbheaders_labels_distinct()
    ensures
        WbHeaders::labels().no_duplicates(),
{
    reveal_strlit("日期");
    reveal_strlit("运单号");
    reveal_strlit("订单号");
    reveal_strlit("仓库编码");
    reveal_strlit("件数");
    reveal_strlit("收费重");
    reveal_strlit("单价");
    assert("日期"@.len() != "运单号"@.len());
    assert("日期"@.len() != "订单号"@.len());
    assert("日期"@.len() != "仓库编码"@.len());
    assert("日期"@[0] != "件数"@[0]);
    assert("日期"@.len() != "收费重"@.len());
    assert("日期"@[0] != "单价"@[0]);
    assert("运单号"@[0] != "订单号"@[0]);
    assert("运单号"@.len() != "仓库编码"@.len());
    assert("运单号"@.len() != "件数"@.len());
    assert("运单号"@[0] != "收费重"@[0]);
    assert("运单号"@.len() != "单价"@.len());
    assert("订单号"@.len() != "仓库编码"@.len());
    assert("订单号"@.len() != "件数"@.len());
    assert("订单号"@[0] != "收费重"@[0]);
    assert("订单号"@.len() != "单价"@.len());
    assert("仓库编码"@.len() != "件数"@.len());
    assert("仓库编码"@.len() != "收费重"@.len());
    assert("仓库编码"@.len() != "单价"@.len());
    assert("件数"@.len() != "收费重"@.len());
    assert("件数"@[0] != "单价"@[0]);
    assert("收费重"@.len() != "单价"@.len());
    let s = WbHeaders::labels();
    assert forall|i: int, j: int| 0 <= i < s.len() && 0 <= j < s.len() && i != j implies s[i] != s[j] by {
    }
}

/// Column names of a Tiansheng bill.
///
/// Each field holds the name of a column in the source sheet; its label
/// (see [`AsHeaders`]) is the name the parser works with.
#[derive(Debug)]
pub struct TSHeaders {
    /// 日期
    pub date: String,
    /// 运单号
    pub waybill_no: String,
    /// 客户运单号
    pub shipment_no: String,
    /// 地址编码
    pub warehouse_code: String,
    /// 件数
    pub n_pieces: String,
    /// 收费重
    pub chargeable_weight: String,
    /// 单价
    pub unit_price: String,
    /// 单位
    pub unit: String,
}

impl TSHeaders {
    /// The labels of the columns, in field order.
    pub open spec fn labels() -> Seq<Seq<char>> {
        seq!["日期"@, "运单号"@, "客户运单号"@, "地址编码"@, "件数"@, "收费重"@, "单价"@, "单位"@]
    }

    /// The column names, in field order.
    pub open spec fn values(&self) -> Seq<Seq<char>> {
        seq![self.date@, self.waybill_no@, self.shipment_no@, self.warehouse_code@, self.n_pieces@, self.chargeable_weight@, self.unit_price@, self.unit@]
    }

    /// A copy of the names.
    pub fn copy(&self) -> (r: Self)
        ensures
            r == *self,
    {
        TSHeaders {
            date: self.date.clone(),
            waybill_no: self.waybill_no.clone(),
            shipment_no: self.shipment_no.clone(),
            warehouse_code: self.warehouse_code.clone(),
            n_pieces: self.n_pieces.clone(),
            chargeable_weight: self.chargeable_weight.clone(),
            unit_price: self.unit_price.clone(),
            unit: self.unit.clone(),
        }
    }

    /// The column names, in field order.
    pub fn name_list(&self) -> (r: Vec<String>)
        ensures
            strs(r@) == self.values(),
    {
        let mut r: Vec<String> = Vec::new();
        r.push(self.date.clone());
        r.push(self.waybill_no.clone());
        r.push(self.shipment_no.clone());
        r.push(self.warehouse_code.clone());
        r.push(self.n_pieces.clone());
        r.push(self.chargeable_weight.clone());
        r.push(self.unit_price.clone());
        r.push(self.unit.clone());
        assert(strs(r@) =~= self.values());
        r
    }

    /// The default names: each column is named by its label.
    pub fn default() -> (r: Self)
        ensures
            r.values() == Self::labels(),
    {
        TSHeaders {
            date: owned("日期"),
            waybill_no: owned("运单号"),
            shipment_no: owned("客户运单号"),
            warehouse_code: owned("地址编码"),
            n_pieces: owned("件数"),
            chargeable_weight: owned("收费重"),
            unit_price: owned("单价"),
            unit: owned("单位"),
        }
    }
}

impl AsHeaders for TSHeaders {
    open spec fn header_labels() -> Seq<Seq<char>> {
        Self::labels()
    }

    open spec fn header_values(&self) -> Seq<Seq<char>> {
        self.values()
    }

    fn as_headers(&self) -> (r: Vec<(String, String)>) {
        let mut r: Vec<(String, String)> = Vec::new();
        r.push((owned("日期"), self.date.clone()));
        r.push((owned("运单号"), self.waybill_no.clone()));
        r.push((owned("客户运单号"), self.shipment_no.clone()));
        r.push((owned("地址编码"), self.warehouse_code.clone()));
        r.push((owned("件数"), self.n_pieces.clone()));
        r.push((owned("收费重"), self.chargeable_weight.clone()));
        r.push((owned("单价"), self.unit_price.clone()));
        r.push((owned("单位"), self.unit.clone()));
        assert(pairs_view(r@) =~= Self::labels().zip_with(self.values()));
        r
    }

    fn update_headers(&mut self, headers: Vec<(String, String)>) {
        let ghost old_vals = self.values();
        if let Some(v) = lookup_last(&headers, "日期") {
            self.date = v;
        }
        if let Some(v) = lookup_last(&headers, "运单号") {
            self.waybill_no = v;
        }
        if let Some(v) = lookup_last(&headers, "客户运单号") {
            self.shipment_no = v;
        }
        if let Some(v) = lookup_last(&headers, "地址编码") {
            self.warehouse_code = v;
        }
        if let Some(v) = lookup_last(&headers, "件数") {
            self.n_pieces = v;
        }
        if let Some(v) = lookup_last(&headers, "收费重") {
            self.chargeable_weight = v;
        }
        if let Some(v) = lookup_last(&headers, "单价") {
            self.unit_price = v;
        }
        if let Some(v) = lookup_last(&headers, "单位") {
            self.unit = v;
        }
        assert(self.values() =~= updated(old_vals, Self::labels(), pairs_view(headers@)));
    }
}

/// The labels of [`TSHeaders`] are distinct.
pub proof fn lemma_tsheaders_labels_distinct()
    ensures
        TSHeaders::labels().no_duplicates(),
{
    reveal_strlit("日期");
    reveal_strlit("运单号");
    reveal_strlit("客户运单号");
    reveal_strlit("地址编码");
    reveal_strlit("件数");
    reveal_strlit("收费重");
    reveal_strlit("单价");
    reveal_strlit("单位");
    assert("日期"@.len() != "运单号"@.len());
    assert("日期"@.len() != "客户运单号"@.len());
    assert("日期"@.len() != "地址编码"@.len());
    assert("日期"@[0] != "件数"@[0]);
    assert("日期"@.len() != "收费重"@.len());
    assert("日期"@[0] != "单价"@[0]);
    assert("日期"@[0] != "单位"@[0]);
    assert("运单号"@.len() != "客户运单号"@.len());
    assert("运单号"@.len() != "地址编码"@.len());
    assert("运单号"@.len() != "件数"@.len());
    assert("运单号"@[0] != "收费重"@[0]);
    assert("运单号"@.len() != "单价"@.len());
    assert("运单号"@.len() != "单位"@.len());
    assert("客户运单号"@.len() != "地址编码"@.len());
    assert("客户运单号"@.len() != "件数"@.len());
    assert("客户运单号"@.len() != "收费重"@.len());
    assert("客户运单号"@.len() != "单价"@.len());
    assert("客户运单号"@.len() != "单位"@.len());
    assert("地址编码"@.len() != "件数"@.len());
    assert("地址编码"@.len() != "收费重"@.len());
    assert("地址编码"@.len() != "单价"@.len());
    assert("地址编码"@.len() != "单位"@.len());
    assert("件数"@.len() != "收费重"@.len());
    assert("件数"@[0] != "单价"@[0]);
    assert("件数"@[0] != "单位"@[0]);
    assert("收费重"@.len() != "单价"@.len());
    assert("收费重"@.len() != "单位"@.len());
    assert("单价"@[1] != "单位"@[1]);
    let s = TSHeaders::labels();
    assert forall|i: int, j: int| 0 <= i < s.len() && 0 <= j < s.len() && i != j implies s[i] != s[j] by {
    }
}

/// Column names of a Didadi bill.
///
/// Each field holds the name of a column in the source sheet; its label
/// (see [`AsHeaders`]) is the name the parser works with.
#[derive(Debug)]
pub struct DDDHeaders {
    /// 日期
    pub date: String,
    /// 运单号
    pub waybill_no: String,
    /// 订单号
    pub shipment_no: String,
    /// 仓库编码
    pub warehouse_code: String,
    /// 件数
    pub n_pieces: String,
    /// 收费重
    pub chargeable_weight: String,
    /// 计算公式
    pub formula: String,
}

impl DDDHeaders {
    /// The labels of the columns, in field order.
    pub open spec fn labels() -> Seq<Seq<char>> {
        seq!["签入日期"@, "运单号"@, "FBA单号"@, "目的仓"@, "件数"@, "收费重"@, "计算公式"@]
    }

    /// The column names, in field order.
    pub open spec fn values(&self) -> Seq<Seq<char>> {
        seq![self.date@, self.waybill_no@, self.shipment_no@, self.warehouse_code@, self.n_pieces@, self.chargeable_weight@, self.formula@]
    }

    /// A copy of the names.
    pub fn copy(&self) -> (r: Self)
        ensures
            r == *self,
    {
        DDDHeaders {
            date: self.date.clone(),
            waybill_no: self.waybill_no.clone(),
            shipment_no: self.shipment_no.clone(),
            warehouse_code: self.warehouse_code.clone(),
            n_pieces: self.n_pieces.clone(),
            chargeable_weight: self.chargeable_weight.clone(),
            formula: self.formula.clone(),
        }
    }

    /// The column names, in field order.
    pub fn name_list(&self) -> (r: Vec<String>)
        ensures
            strs(r@) == self.values(),
    {
        let mut r: Vec<String> = Vec::new();
        r.push(self.date.clone());
        r.push(self.waybill_no.clone());
        r.push(self.shipment_no.clone());
        r.push(self.warehouse_code.clone());
        r.push(self.n_pieces.clone());
        r.push(self.chargeable_weight.clone());
        r.push(self.formula.clone());
        assert(strs(r@) =~= self.values());
        r
    }

    /// The default names: each column is named by its label.
    pub fn default() -> (r: Self)
        ensures
            r.values() == Self::labels(),
    {
        DDDHeaders {
            date: owned("签入日期"),
            waybill_no: owned("运单号"),
            shipment_no: owned("FBA单号"),
            warehouse_code: owned("目的仓"),
            n_pieces: owned("件数"),
            chargeable_weight: owned("收费重"),
            formula: owned("计算公式"),
        }
    }
}

impl AsHeaders for DDDHeaders {
    open spec fn header_labels() -> Seq<Seq<char>> {
        Self::labels()
    }

    open spec fn header_values(&self) -> Seq<Seq<char>> {
        self.values()
    }

    fn as_headers(&self) -> (r: Vec<(String, String)>) {
        let mut r: Vec<(String, String)> = Vec::new();
        r.push((owned("签入日期"), self.date.clone()));
        r.push((owned("运单号"), self.waybill_no.clone()));
        r.push((owned("FBA单号"), self.shipment_no.clone()));
        r.push((owned("目的仓"), self.warehouse_code.clone()));
        r.push((owned("件数"), self.n_pieces.clone()));
        r.push((owned("收费重"), self.chargeable_weight.clone()));
        r.push((owned("计算公式"), self.formula.clone()));
        assert(pairs_view(r@) =~= Self::labels().zip_with(self.values()));
        r
    }

    fn update_headers(&mut self, headers: Vec<(String, String)>) {
        let ghost old_vals = self.values();
        if let Some(v) = lookup_last(&headers, "签入日期") {
            self.date = v;
        }
        if let Some(v) = lookup_last(&headers, "运单号") {
            self.waybill_no = v;
        }
        if let Some(v) = lookup_last(&headers, "FBA单号") {
            self.shipment_no = v;
        }
        if let Some(v) = lookup_last(&headers, "目的仓") {
            self.warehouse_code = v;
        }
        if let Some(v) = lookup_last(&headers, "件数") {
            self.n_pieces = v;
        }
        if let Some(v) = lookup_last(&headers, "收费重") {
            self.chargeable_weight = v;
        }
        if let Some(v) = lookup_last(&headers, "计算公式") {
            self.formula = v;
        }
        assert(self.values() =~= updated(old_vals, Self::labels(), pairs_view(headers@)));
    }
}

/// The labels of [`DDDHeaders`] are distinct.
pub proof fn lemma_dddheaders_labels_distinct()
    ensures
        DDDHeaders::labels().no_duplicates(),
{
    reveal_strlit("签入日期");
    reveal_strlit("运单号");
    reveal_strlit("FBA单号");
    reveal_strlit("目的仓");
    reveal_strlit("件数");
    reveal_strlit("收费重");
    reveal_strlit("计算公式");
    assert("签入日期"@.len() != "运单号"@.len());
    assert("签入日期"@.len() != "FBA单号"@.len());
    assert("签入日期"@.len() != "目的仓"@.len());
    assert("签入日期"@.len() != "件数"@.len());
    assert("签入日期"@.len() != "收费重"@.len());
    assert("签入日期"@[0] != "计算公式"@[0]);
    assert("运单号"@.len() != "FBA单号"@.len());
    assert("运单号"@[0] != "目的仓"@[0]);
    assert("运单号"@.len() != "件数"@.len());
    assert("运单号"@[0] != "收费重"@[0]);
    assert("运单号"@.len() != "计算公式"@.len());
    assert("FBA单号"@.len() != "目的仓"@.len());
    assert("FBA单号"@.len() != "件数"@.len());
    assert("FBA单号"@.len() != "收费重"@.len());
    assert("FBA单号"@.len() != "计算公式"@.len());
    assert("目的仓"@.len() != "件数"@.len());
    assert("目的仓"@[0] != "收费重"@[0]);
    assert("目的仓"@.len() != "计算公式"@.len());
    assert("件数"@.len() != "收费重"@.len());
    assert("件数"@.len() != "计算公式"@.len());
    assert("收费重"@.len() != "计算公式"@.len());
    let s = DDDHeaders::labels();
    assert forall|i: int, j: int| 0 <= i < s.len() && 0 <= j < s.len() && i != j implies s[i] != s[j] by {
    }
}

/// Column names of a Jingyida bill.
///
/// Each field holds the name of a column in the source sheet; its label
/// (see [`AsHeaders`]) is the name the parser works with.
#[derive(Debug)]
pub struct JydHeaders {
    /// 日期
    pub date: String,
    /// 运单号
    pub waybill_no: String,
    /// 客户运单号
    pub shipment_no: String,
    /// 地址编码
    pub warehouse_code: String,
    /// 件数
    pub n_pieces: String,
    /// 收费重
    pub chargeable_weight: String,
    /// 单价
    pub unit_price: String,
    /// 其他费用
    pub customs_fee: String,
}

impl JydHeaders {
    /// The labels of the columns, in field order.
    pub open spec fn labels() -> Seq<Seq<char>> {
        seq!["签入日期"@, "运单号"@, "FBA单号"@, "目的仓"@, "件数"@, "收费重"@, "运费"@, "其他费用"@]
    }

    /// The column names, in field order.
    pub open spec fn values(&self) -> Seq<Seq<char>> {
        seq![self.date@, self.waybill_no@, self.shipment_no@, self.warehouse_code@, self.n_pieces@, self.chargeable_weight@, self.unit_price@, self.customs_fee@]
    }

    /// A copy of the names.
    pub fn copy(&self) -> (r: Self)
        ensures
            r == *self,
    {
        JydHeaders {
            date: self.date.clone(),
            waybill_no: self.waybill_no.clone(),
            shipment_no: self.shipment_no.clone(),
            warehouse_code: self.warehouse_code.clone(),
            n_pieces: self.n_pieces.clone(),
            chargeable_weight: self.chargeable_weight.clone(),
            unit_price: self.unit_price.clone(),
            customs_fee: self.customs_fee.clone(),
        }
    }

    /// The column names, in field order.
    pub fn name_list(&self) -> (r: Vec<String>)
        ensures
            strs(r@) == self.values(),
    {
        let mut r: Vec<String> = Vec::new();
        r.push(self.date.clone());
        r.push(self.waybill_no.clone());
        r.push(self.shipment_no.clone());
        r.push(self.warehouse_code.clone());
        r.push(self.n_pieces.clone());
        r.push(self.chargeable_weight.clone());
        r.push(self.unit_price.clone());
        r.push(self.customs_fee.clone());
        assert(strs(r@) =~= self.values());
        r
    }

    /// The default names: each column is named by its label.
    pub fn default() -> (r: Self)
        ensures
            r.values() == Self::labels(),
    {
        JydHeaders {
            date: owned("签入日期"),
            waybill_no: owned("运单号"),
            shipment_no: owned("FBA单号"),
            warehouse_code: owned("目的仓"),
            n_pieces: owned("件数"),
            chargeable_weight: owned("收费重"),
            unit_price: owned("运费"),
            customs_fee: owned("其他费用"),
        }
    }
}

impl AsHeaders for JydHeaders {
    open spec fn header_labels() -> Seq<Seq<char>> {
        Self::labels()
    }

    open spec fn header_values(&self) -> Seq<Seq<char>> {
        self.values()
    }

    fn as_headers(&self) -> (r: Vec<(String, String)>) {
        let mut r: Vec<(String, String)> = Vec::new();
        r.push((owned("签入日期"), self.date.clone()));
        r.push((owned("运单号"), self.waybill_no.clone()));
        r.push((owned("FBA单号"), self.shipment_no.clone()));
        r.push((owned("目的仓"), self.warehouse_code.clone()));
        r.push((owned("件数"), self.n_pieces.clone()));
        r.push((owned("收费重"), self.chargeable_weight.clone()));
        r.push((owned("运费"), self.unit_price.clone()));
        r.push((owned("其他费用"), self.customs_fee.clone()));
        assert(pairs_view(r@) =~= Self::labels().zip_with(self.values()));
        r
    }

    fn update_headers(&mut self, headers: Vec<(String, String)>) {
        let ghost old_vals = self.values();
        if let Some(v) = lookup_last(&headers, "签入日期") {
            self.date = v;
        }
        if let Some(v) = lookup_last(&headers, "运单号") {
            self.waybill_no = v;
        }
        if let Some(v) = lookup_last(&headers, "FBA单号") {
            self.shipment_no = v;
        }
        if let Some(v) = lookup_last(&headers, "目的仓") {
            self.warehouse_code = v;
        }
        if let Some(v) = lookup_last(&headers, "件数") {
            self.n_pieces = v;
        }
        if let Some(v) = lookup_last(&headers, "收费重") {
            self.chargeable_weight = v;
        }
        if let Some(v) = lookup_last(&headers, "运费") {
            self.unit_price = v;
        }
        if let Some(v) = lookup_last(&headers, "其他费用") {
            self.customs_fee = v;
        }
        assert(self.values() =~= updated(old_vals, Self::labels(), pairs_view(headers@)));
    }
}

/// The labels of [`JydHeaders`] are distinct.
pub proof fn lemma_jydheaders_labels_distinct()
    ensures
        JydHeaders::labels().no_duplicates(),
{
    reveal_strlit("签入日期");
    reveal_strlit("运单号");
    reveal_strlit("FBA单号");
    reveal_strlit("目的仓");
    reveal_strlit("件数");
    reveal_strlit("收费重");
    reveal_strlit("运费");
    reveal_strlit("其他费用");
    assert("签入日期"@.len() != "运单号"@.len());
    assert("签入日期"@.len() != "FBA单号"@.len());
    assert("签入日期"@.len() != "目的仓"@.len());
    assert("签入日期"@.len() != "件数"@.len());
    assert("签入日期"@.len() != "收费重"@.len());
    assert("签入日期"@.len() != "运费"@.len());
    assert("签入日期"@[0] != "其他费用"@[0]);
    assert("运单号"@.len() != "FBA单号"@.len());
    assert("运单号"@[0] != "目的仓"@[0]);
    assert("运单号"@.len() != "件数"@.len());
    assert("运单号"@[0] != "收费重"@[0]);
    assert("运单号"@.len() != "运费"@.len());
    assert("运单号"@.len() != "其他费用"@.len());
    assert("FBA单号"@.len() != "目的仓"@.len());
    assert("FBA单号"@.len() != "件数"@.len());
    assert("FBA单号"@.len() != "收费重"@.len());
    assert("FBA单号"@.len() != "运费"@.len());
    assert("FBA单号"@.len() != "其他费用"@.len());
    assert("目的仓"@.len() != "件数"@.len());
    assert("目的仓"@[0] != "收费重"@[0]);
    assert("目的仓"@.len() != "运费"@.len());
    assert("目的仓"@.len() != "其他费用"@.len());
    assert("件数"@.len() != "收费重"@.len());
    assert("件数"@[0] != "运费"@[0]);
    assert("件数"@.len() != "其他费用"@.len());
    assert("收费重"@.len() != "运费"@.len());
    assert("收费重"@.len() != "其他费用"@.len());
    assert("运费"@.len() != "其他费用"@.len());
    let s = JydHeaders::labels();
    assert forall|i: int, j: int| 0 <= i < s.len() && 0 <= j < s.len() && i != j implies s[i] != s[j] by {
    }
}

/// Column names of our own shipment details.
///
/// Each field holds the name of a column in the source sheet; its label
/// (see [`AsHeaders`]) is the name the parser works with.
#[derive(Debug)]
pub struct HeadwayHeaders {
    /// 提货时间
    pub date: String,
    /// 货件单号
    pub shipment_no: String,
    /// 物流中心编码
    pub warehouse_code: String,
    /// 箱数
    pub n_pieces: String,
    /// 货件计费重
    pub chargeable_weight: String,
    /// 物流单价
    pub unit_price: String,
    /// 报关费
    pub customs_fee: String,
    /// 报关周次
    pub customs_no: String,
}

impl HeadwayHeaders {
    /// The labels of the columns, in field order.
    pub open spec fn labels() -> Seq<Seq<char>> {
        seq!["提货时间"@, "货件单号"@, "物流中心编码"@, "箱数"@, "货件计费重"@, "物流单价"@, "报关费"@, "报关周次"@]
    }

    /// The column names, in field order.
    pub open spec fn values(&self) -> Seq<Seq<char>> {
        seq![self.date@, self.shipment_no@, self.warehouse_code@, self.n_pieces@, self.chargeable_weight@, self.unit_price@, self.customs_fee@, self.customs_no@]
    }

    /// A copy of the names.
    pub fn copy(&self) -> (r: Self)
        ensures
            r == *self,
    {
        HeadwayHeaders {
            date: self.date.clone(),
            shipment_no: self.shipment_no.clone(),
            warehouse_code: self.warehouse_code.clone(),
            n_pieces: self.n_pieces.clone(),
            chargeable_weight: self.chargeable_weight.clone(),
            unit_price: self.unit_price.clone(),
            customs_fee: self.customs_fee.clone(),
            customs_no: self.customs_no.clone(),
        }
    }

    /// The column names, in field order.
    pub fn name_list(&self) -> (r: Vec<String>)
        ensures
            strs(r@) == self.values(),
    {
        let mut r: Vec<String> = Vec::new();
        r.push(self.date.clone());
        r.push(self.shipment_no.clone());
        r.push(self.warehouse_code.clone());
        r.push(self.n_pieces.clone());
        r.push(self.chargeable_weight.clone());
        r.push(self.unit_price.clone());
        r.push(self.customs_fee.clone());
        r.push(self.customs_no.clone());
        assert(strs(r@) =~= self.values());
        r
    }

    /// The default names: each column is named by its label.
    pub fn default() -> (r: Self)
        ensures
            r.values() == Self::labels(),
    {
        HeadwayHeaders {
            date: owned("提货时间"),
            shipment_no: owned("货件单号"),
            warehouse_code: owned("物流中心编码"),
            n_pieces: owned("箱数"),
            chargeable_weight: owned("货件计费重"),
            unit_price: owned("物流单价"),
            customs_fee: owned("报关费"),
            customs_no: owned("报关周次"),
        }
    }
}

impl AsHeaders for HeadwayHeaders {
    open spec fn header_labels() -> Seq<Seq<char>> {
        Self::labels()
    }

    open spec fn header_values(&self) -> Seq<Seq<char>> {
        self.values()
    }

    fn as_headers(&self) -> (r: Vec<(String, String)>) {
        let mut r: Vec<(String, String)> = Vec::new();
        r.push((owned("提货时间"), self.date.clone()));
        r.push((owned("货件单号"), self.shipment_no.clone()));
        r.push((owned("物流中心编码"), self.warehouse_code.clone()));
        r.push((owned("箱数"), self.n_pieces.clone()));
        r.push((owned("货件计费重"), self.chargeable_weight.clone()));
        r.push((owned("物流单价"), self.unit_price.clone()));
        r.push((owned("报关费"), self.customs_fee.clone()));
        r.push((owned("报关周次"), self.customs_no.clone()));
        assert(pairs_view(r@) =~= Self::labels().zip_with(self.values()));
        r
    }

    fn update_headers(&mut self, headers: Vec<(String, String)>) {
        let ghost old_vals = self.values();
        if let Some(v) = lookup_last(&headers, "提货时间") {
            self.date = v;
        }
        if let Some(v) = lookup_last(&headers, "货件单号") {
            self.shipment_no = v;
        }
        if let Some(v) = lookup_last(&headers, "物流中心编码") {
            self.warehouse_code = v;
        }
        if let Some(v) = lookup_last(&headers, "箱数") {
            self.n_pieces = v;
        }
        if let Some(v) = lookup_last(&headers, "货件计费重") {
            self.chargeable_weight = v;
        }
        if let Some(v) = lookup_last(&headers, "物流单价") {
            self.unit_price = v;
        }
        if let Some(v) = lookup_last(&headers, "报关费") {
            self.customs_fee = v;
        }
        if let Some(v) = lookup_last(&headers, "报关周次") {
            self.customs_no = v;
        }
        assert(self.values() =~= updated(old_vals, Self::labels(), pairs_view(headers@)));
    }
}

/// The labels of [`HeadwayHeaders`] are distinct.
pub proof fn lemma_headwayheaders_labels_distinct()
    ensures
        HeadwayHeaders::labels().no_duplicates(),
{
    reveal_strlit("提货时间");
    reveal_strlit("货件单号");
    reveal_strlit("物流中心编码");
    reveal_strlit("箱数");
    reveal_strlit("货件计费重");
    reveal_strlit("物流单价");
    reveal_strlit("报关费");
    reveal_strlit("报关周次");
    assert("提货时间"@[0] != "货件单号"@[0]);
    assert("提货时间"@.len() != "物流中心编码"@.len());
    assert("提货时间"@.len() != "箱数"@.len());
    assert("提货时间"@.len() != "货件计费重"@.len());
    assert("提货时间"@[0] != "物流单价"@[0]);
    assert("提货时间"@.len() != "报关费"@.len());
    assert("提货时间"@[0] != "报关周次"@[0]);
    assert("货件单号"@.len() != "物流中心编码"@.len());
    assert("货件单号"@.len() != "箱数"@.len());
    assert("货件单号"@.len() != "货件计费重"@.len());
    assert("货件单号"@[0] != "物流单价"@[0]);
    assert("货件单号"@.len() != "报关费"@.len());
    assert("货件单号"@[0] != "报关周次"@[0]);
    assert("物流中心编码"@.len() != "箱数"@.len());
    assert("物流中心编码"@.len() != "货件计费重"@.len());
    assert("物流中心编码"@.len() != "物流单价"@.len());
    assert("物流中心编码"@.len() != "报关费"@.len());
    assert("物流中心编码"@.len() != "报关周次"@.len());
    assert("箱数"@.len() != "货件计费重"@.len());
    assert("箱数"@.len() != "物流单价"@.len());
    assert("箱数"@.len() != "报关费"@.len());
    assert("箱数"@.len() != "报关周次"@.len());
    assert("货件计费重"@.len() != "物流单价"@.len());
    assert("货件计费重"@.len() != "报关费"@.len());
    assert("货件计费重"@.len() != "报关周次"@.len());
    assert("物流单价"@.len() != "报关费"@.len());
    assert("物流单价"@[0] != "报关周次"@[0]);
    assert("报关费"@.len() != "报关周次"@.len());
    let s = HeadwayHeaders::labels();
    assert forall|i: int, j: int| 0 <= i < s.len() && 0 <= j < s.len() && i != j implies s[i] != s[j] by {
    }
}

} // verus!
