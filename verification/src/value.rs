//! Cell values and their data types.
use crate::dates::{date_text, iso_date_text, parse_date_exact, strptime_days, unix_epoch_days};
use crate::text::{
    chars_of, concat, dec_text, int_text, owned, parse_dec, push_char, push_dec, push_int, scale,
    spec_parse_dec,
};
use vstd::prelude::*;

verus! {

/// One cell of a table.
///
/// Decimal numbers are held in millionths (`Num(3_600_000)` is 3.6); dates
/// as days from the Common Era (see [`crate::dates`]).
#[derive(Debug)]
pub enum Value {
    Null,
    Bool(bool),
    Int(i64),
    Num(i128),
    Str(String),
    Date(i32),
}

/// The mathematical content of a [`Value`].
pub enum VVal {
    Null,
    Bool(bool),
    Int(i64),
    Num(i128),
    Str(Seq<char>),
    Date(i32),
}

impl View for Value {
    type V = VVal;

    open spec fn view(&self) -> VVal {
        match self {
            Value::Null => VVal::Null,
            Value::Bool(b) => VVal::Bool(*b),
            Value::Int(i) => VVal::Int(*i),
            Value::Num(m) => VVal::Num(*m),
            Value::Str(s) => VVal::Str(s@),
            Value::Date(d) => VVal::Date(*d),
        }
    }
}

/// The content of a sequence of values.
pub open spec fn vals(r: Seq<Value>) -> Seq<VVal> {
    r.map_values(|v: Value| v@)
}

/// The contents of a sequence of strings.
pub open spec fn strs(v: Seq<String>) -> Seq<Seq<char>> {
    v.map_values(|s: String| s@)
}

/// A string value.
pub open spec fn vstr(s: Seq<char>) -> VVal {
    VVal::Str(s)
}

impl Value {
    /// A copy of the value.
    pub fn copy(&self) -> (r: Value)
        ensures
            r@ == self@,
    {
        match self {
            Value::Null => Value::Null,
            Value::Bool(b) => Value::Bool(*b),
            Value::Int(i) => Value::Int(*i),
            Value::Num(m) => Value::Num(*m),
            Value::Str(s) => Value::Str(s.clone()),
            Value::Date(d) => Value::Date(*d),
        }
    }

    /// A string value holding a copy of `s`.
    pub fn text(s: &str) -> (r: Value)
        ensures
            r@ == VVal::Str(s@),
    {
        Value::Str(owned(s))
    }

    pub fn is_null(&self) -> (r: bool)
        ensures
            r == (self@ is Null),
    {
        match self {
            Value::Null => true,
            _ => false,
        }
    }
}

/// A copy of a row of values.
pub fn copy_row(r: &Vec<Value>) -> (c: Vec<Value>)
    ensures
        vals(c@) == vals(r@),
{
    let mut c: Vec<Value> = Vec::new();
    let mut i: usize = 0;
    while i < r.len()
        invariant
            i <= r@.len(),
            c@.len() == i,
            vals(c@) == vals(r@.take(i as int)),
        decreases r@.len() - i,
    {
        let ghost old_c = c@;
        let v = r[i].copy();
        c.push(v);
        i = i + 1;
        assert forall|j: int| 0 <= j < i implies #[trigger] vals(c@)[j] == vals(r@.take(i as int))[j] by {
            if j < i - 1 {
                assert(c@[j] == old_c[j]);
                assert(vals(old_c)[j] == vals(r@.take(i - 1))[j]);
            }
        }
        assert(vals(c@) =~= vals(r@.take(i as int)));
    }
    assert(r@.take(r@.len() as int) =~= r@);
    c
}

// ---------------------------------------------------------------------------
// Text of values
// ---------------------------------------------------------------------------

pub open spec fn bool_text(b: bool) -> Seq<char> {
    if b {
        seq!['t', 'r', 'u', 'e']
    } else {
        seq!['f', 'a', 'l', 's', 'e']
    }
}

/// The text of a value, as a cast to text writes it, or
/// `None` for a null.
pub open spec fn value_text(v: VVal) -> Option<Seq<char>> {
    match v {
        VVal::Null => None,
        VVal::Bool(b) => Some(bool_text(b)),
        VVal::Int(i) => Some(int_text(i as int)),
        VVal::Num(m) => Some(dec_text(m as int)),
        VVal::Str(s) => Some(s),
        VVal::Date(d) => Some(iso_date_text(d)),
    }
}

/// Appends the text of a non-null value to `out`.
pub fn push_value(out: &mut String, v: &Value)
    requires
        !(v@ is Null),
    ensures
        value_text(v@) == Some(final(out)@.skip(old(out)@.len() as int)),
        final(out)@.len() >= old(out)@.len(),
        final(out)@.take(old(out)@.len() as int) == old(out)@,
{
    let ghost o = out@;
    match v {
        Value::Null => {},
        Value::Bool(b) => {
            if *b {
                push_char(out, 't');
                push_char(out, 'r');
                push_char(out, 'u');
                push_char(out, 'e');
            } else {
                push_char(out, 'f');
                push_char(out, 'a');
                push_char(out, 'l');
                push_char(out, 's');
                push_char(out, 'e');
            }
        },
        Value::Int(i) => {
            push_int(out, *i as i128);
        },
        Value::Num(m) => {
            push_dec(out, *m);
        },
        Value::Str(s) => {
            let t = concat(out.as_str(), s.as_str());
            *out = t;
        },
        Value::Date(d) => {
            let t = date_text(*d);
            let u = concat(out.as_str(), t.as_str());
            *out = u;
        },
    }
    assert(out@.skip(o.len() as int) =~= value_text(v@).unwrap());
    assert(out@.take(o.len() as int) =~= o);
}

/// The text of a value, or `None` for a null.
pub fn to_text(v: &Value) -> (r: Option<String>)
    ensures
        match r {
            Some(s) => value_text(v@) == Some(s@),
            None => value_text(v@) is None,
        },
{
    if v.is_null() {
        None
    } else {
        let mut s = String::new();
        push_value(&mut s, v);
        assert(s@.skip(0) =~= s@);
        Some(s)
    }
}

// ---------------------------------------------------------------------------
// Numbers
// ---------------------------------------------------------------------------

/// The millionths of a numeric value; `None` for any other.
pub open spec fn num_of(v: VVal) -> Option<int> {
    match v {
        VVal::Int(i) => Some(i * scale()),
        VVal::Num(m) => Some(m as int),
        _ => None,
    }
}

/// The millionths of a numeric value.
pub fn numeric(v: &Value) -> (r: Option<i128>)
    ensures
        match r {
            Some(m) => num_of(v@) == Some(m as int),
            None => num_of(v@) is None,
        },
{
    match v {
        Value::Int(i) => Some(*i as i128 * 1_000_000),
        Value::Num(m) => Some(*m),
        _ => None,
    }
}

// ---------------------------------------------------------------------------
// Data types and casts
// ---------------------------------------------------------------------------

/// The data types a column can be cast to.
pub enum DType {
    /// Text.
    Str,
    /// Decimal numbers.
    Float,
    /// Calendar dates.
    Date,
    /// Text restricted to a fixed list of categories.
    Category(Vec<String>),
}

/// The content of a [`DType`].
pub enum DTypeV {
    Str,
    Float,
    Date,
    Category(Seq<Seq<char>>),
}

impl View for DType {
    type V = DTypeV;

    open spec fn view(&self) -> DTypeV {
        match self {
            DType::Str => DTypeV::Str,
            DType::Float => DTypeV::Float,
            DType::Date => DTypeV::Date,
            DType::Category(c) => DTypeV::Category(strs(c@)),
        }
    }
}

impl DType {
    pub fn copy(&self) -> (r: DType)
        ensures
            r@ == self@,
    {
        match self {
            DType::Str => DType::Str,
            DType::Float => DType::Float,
            DType::Date => DType::Date,
            DType::Category(c) => {
                let mut d: Vec<String> = Vec::new();
                let mut i: usize = 0;
                while i < c.len()
                    invariant
                        i <= c@.len(),
                        d@.len() == i,
                        strs(d@) == strs(c@.take(i as int)),
                    decreases c@.len() - i,
                {
                    let ghost old_d = d@;
                    d.push(c[i].clone());
                    i = i + 1;
                    assert forall|j: int| 0 <= j < i implies #[trigger] strs(d@)[j] == strs(c@.take(i as int))[j] by {
                        if j < i - 1 {
                            assert(d@[j] == old_d[j]);
                            assert(strs(old_d)[j] == strs(c@.take(i - 1))[j]);
                        }
                    }
                    assert(strs(d@) =~= strs(c@.take(i as int)));
                }
                assert(c@.take(c@.len() as int) =~= c@);
                DType::Category(d)
            },
        }
    }
}

/// The ISO date format read when text is cast to a date.
pub open spec fn iso_format() -> Seq<char> {
    seq!['%', 'Y', '-', '%', 'm', '-', '%', 'd']
}

/// A value cast to a data type, leniently:
/// a value that cannot be converted becomes null.
pub open spec fn cast_spec(v: VVal, t: DTypeV) -> VVal {
    match t {
        DTypeV::Str => match value_text(v) {
            Some(s) => VVal::Str(s),
            None => VVal::Null,
        },
        DTypeV::Float => match v {
            VVal::Int(i) => VVal::Num((i * scale()) as i128),
            VVal::Num(m) => VVal::Num(m),
            VVal::Bool(b) => VVal::Num(if b { scale() as i128 } else { 0 }),
            VVal::Str(s) => match spec_parse_dec(s) {
                Some(m) => VVal::Num(m as i128),
                None => VVal::Null,
            },
            _ => VVal::Null,
        },
        DTypeV::Date => match v {
            VVal::Date(d) => VVal::Date(d),
            VVal::Int(i) => if i32::MIN <= i + unix_epoch_days() <= i32::MAX {
                VVal::Date((i + unix_epoch_days()) as i32)
            } else {
                VVal::Null
            },
            VVal::Str(s) => match strptime_days(s, iso_format()) {
                Some(d) => VVal::Date(d),
                None => VVal::Null,
            },
            _ => VVal::Null,
        },
        DTypeV::Category(cats) => match v {
            VVal::Str(s) => if cats.contains(s) {
                VVal::Str(s)
            } else {
                VVal::Null
            },
            _ => VVal::Null,
        },
    }
}

fn iso_fmt() -> (r: String)
    ensures
        r@ == iso_format(),
{
    let mut r = String::new();
    push_char(&mut r, '%');
    push_char(&mut r, 'Y');
    push_char(&mut r, '-');
    push_char(&mut r, '%');
    push_char(&mut r, 'm');
    push_char(&mut r, '-');
    push_char(&mut r, '%');
    push_char(&mut r, 'd');
    assert(r@ =~= iso_format());
    r
}

/// Whether `s` is one of `cats`.
pub fn in_list(cats: &Vec<String>, s: &String) -> (r: bool)
    ensures
        r == strs(cats@).contains(s@),
{
    let ghost cv = strs(cats@);
    let mut i: usize = 0;
    while i < cats.len()
        invariant
            i <= cats@.len(),
            cv == strs(cats@),
            forall|j: int| 0 <= j < i ==> cv[j] != s@,
        decreases cats@.len() - i,
    {
        if cats[i] == *s {
            assert(cv[i as int] == s@);
            return true;
        }
        i = i + 1;
    }
    false
}

/// Casts a value (see [`cast_spec`]).
pub fn cast(v: &Value, t: &DType) -> (r: Value)
    ensures
        r@ == cast_spec(v@, t@),
{
    match t {
        DType::Str => match to_text(v) {
            Some(s) => Value::Str(s),
            None => Value::Null,
        },
        DType::Float => match v {
            Value::Int(i) => Value::Num(*i as i128 * 1_000_000),
            Value::Num(m) => Value::Num(*m),
            Value::Bool(b) => Value::Num(if *b { 1_000_000 } else { 0 }),
            Value::Str(s) => match parse_dec(s.as_str()) {
                Some(m) => Value::Num(m),
                None => Value::Null,
            },
            _ => Value::Null,
        },
        DType::Date => match v {
            Value::Date(d) => Value::Date(*d),
            Value::Int(i) => {
                let d = *i as i128 + 719163;
                if -2147483648 <= d && d <= 2147483647 {
                    Value::Date(d as i32)
                } else {
                    Value::Null
                }
            },
            Value::Str(s) => {
                let f = iso_fmt();
                match parse_date_exact(s.as_str(), f.as_str()) {
                    Some(d) => Value::Date(d),
                    None => Value::Null,
                }
            },
            _ => Value::Null,
        },
        DType::Category(cats) => match v {
            Value::Str(s) => if in_list(cats, s) {
                Value::Str(s.clone())
            } else {
                Value::Null
            },
            _ => Value::Null,
        },
    }
}

// ---------------------------------------------------------------------------
// Order
// ---------------------------------------------------------------------------

/// Lexicographic order of texts by character code, which is also the order
/// of their UTF-8 bytes.
pub open spec fn seq_lt(a: Seq<char>, b: Seq<char>) -> bool
    decreases a.len(),
{
    if a.len() == 0 {
        b.len() > 0
    } else if b.len() == 0 {
        false
    } else if a[0] != b[0] {
        (a[0] as int) < (b[0] as int)
    } else {
        seq_lt(a.drop_first(), b.drop_first())
    }
}

pub open spec fn kind_rank(v: VVal) -> int {
    match v {
        VVal::Null => 0,
        VVal::Bool(_) => 1,
        VVal::Int(_) => 2,
        VVal::Num(_) => 2,
        VVal::Str(_) => 3,
        VVal::Date(_) => 4,
    }
}

/// The order used to sort: nulls first, then by kind, then by content.
pub open spec fn val_lt(a: VVal, b: VVal) -> bool {
    if kind_rank(a) != kind_rank(b) {
        kind_rank(a) < kind_rank(b)
    } else {
        match (a, b) {
            (VVal::Bool(x), VVal::Bool(y)) => !x && y,
            (VVal::Str(x), VVal::Str(y)) => seq_lt(x, y),
            (VVal::Date(x), VVal::Date(y)) => x < y,
            _ => match (num_of(a), num_of(b)) {
                (Some(x), Some(y)) => x < y,
                _ => false,
            },
        }
    }
}

pub proof fn lemma_seq_lt_irrefl_total(a: Seq<char>, b: Seq<char>)
    ensures
        !(seq_lt(a, b) && seq_lt(b, a)),
        !seq_lt(a, b) && !seq_lt(b, a) ==> a == b,
    decreases a.len(),
{
    if a.len() > 0 && b.len() > 0 && a[0] == b[0] {
        lemma_seq_lt_irrefl_total(a.drop_first(), b.drop_first());
        if !seq_lt(a, b) && !seq_lt(b, a) {
            assert(a =~= seq![a[0]] + a.drop_first());
            assert(b =~= seq![b[0]] + b.drop_first());
        }
    } else if a.len() > 0 && b.len() > 0 {
        assert((a[0] as int) != (b[0] as int));
    } else if a.len() == 0 && b.len() == 0 {
        assert(a =~= b);
    }
}

pub proof fn lemma_seq_lt_trans(a: Seq<char>, b: Seq<char>, c: Seq<char>)
    requires
        seq_lt(a, b),
        seq_lt(b, c),
    ensures
        seq_lt(a, c),
    decreases a.len(),
{
    if a.len() > 0 && b.len() > 0 && c.len() > 0 && a[0] == b[0] && b[0] == c[0] {
        lemma_seq_lt_trans(a.drop_first(), b.drop_first(), c.drop_first());
    }
}

pub proof fn lemma_val_lt_order(a: VVal, b: VVal, c: VVal)
    ensures
        !(val_lt(a, b) && val_lt(b, a)),
        val_lt(a, b) && val_lt(b, c) ==> val_lt(a, c),
        !val_lt(a, a),
{
    match (a, b) {
        (VVal::Str(x), VVal::Str(y)) => {
            lemma_seq_lt_irrefl_total(x, y);
        },
        _ => {},
    }
    match a {
        VVal::Str(x) => {
            lemma_seq_lt_irrefl_total(x, x);
        },
        _ => {},
    }
    if val_lt(a, b) && val_lt(b, c) {
        match (a, b, c) {
            (VVal::Str(x), VVal::Str(y), VVal::Str(z)) => {
                lemma_seq_lt_trans(x, y, z);
            },
            _ => {},
        }
    }
}

/// Whether `a` comes before `b` in lexicographic character order.
pub fn chars_lt(a: &Vec<char>, b: &Vec<char>) -> (r: bool)
    ensures
        r == seq_lt(a@, b@),
{
    let mut i: usize = 0;
    assert(a@.skip(0) =~= a@);
    assert(b@.skip(0) =~= b@);
    while i < a.len() && i < b.len() && a[i] == b[i]
        invariant
            i <= a@.len(),
            i <= b@.len(),
            forall|j: int| 0 <= j < i ==> a@[j] == b@[j],
            seq_lt(a@, b@) == seq_lt(a@.skip(i as int), b@.skip(i as int)),
        decreases a@.len() - i,
    {
        assert(a@.skip(i as int).drop_first() =~= a@.skip(i + 1));
        assert(b@.skip(i as int).drop_first() =~= b@.skip(i + 1));
        i = i + 1;
    }
    if i == a.len() {
        i < b.len()
    } else if i == b.len() {
        false
    } else {
        assert(a@.skip(i as int)[0] == a@[i as int]);
        assert(b@.skip(i as int)[0] == b@[i as int]);
        a[i] < b[i]
    }
}

/// Whether `a` comes before `b` (see [`val_lt`]).
pub fn value_lt(a: &Value, b: &Value) -> (r: bool)
    ensures
        r == val_lt(a@, b@),
{
    let ra = rank(a);
    let rb = rank(b);
    if ra != rb {
        return ra < rb;
    }
    match (a, b) {
        (Value::Bool(x), Value::Bool(y)) => !*x && *y,
        (Value::Str(x), Value::Str(y)) => {
            let cx = chars_of(x.as_str());
            let cy = chars_of(y.as_str());
            chars_lt(&cx, &cy)
        },
        (Value::Date(x), Value::Date(y)) => *x < *y,
        _ => match (numeric(a), numeric(b)) {
            (Some(x), Some(y)) => x < y,
            _ => false,
        },
    }
}

fn rank(v: &Value) -> (r: u8)
    ensures
        r as int == kind_rank(v@),
{
    match v {
        Value::Null => 0,
        Value::Bool(_) => 1,
        Value::Int(_) => 2,
        Value::Num(_) => 2,
        Value::Str(_) => 3,
        Value::Date(_) => 4,
    }
}

// ---------------------------------------------------------------------------
// Equality
// ---------------------------------------------------------------------------

/// Whether two values have the same kind and content.
pub fn value_same(a: &Value, b: &Value) -> (r: bool)
    ensures
        r == (a@ == b@),
{
    match (a, b) {
        (Value::Null, Value::Null) => true,
        (Value::Bool(x), Value::Bool(y)) => *x == *y,
        (Value::Int(x), Value::Int(y)) => *x == *y,
        (Value::Num(x), Value::Num(y)) => *x == *y,
        (Value::Str(x), Value::Str(y)) => *x == *y,
        (Value::Date(x), Value::Date(y)) => *x == *y,
        _ => false,
    }
}

/// Whether two rows have the same values.
pub fn row_same(a: &Vec<Value>, b: &Vec<Value>) -> (r: bool)
    ensures
        r == (vals(a@) == vals(b@)),
{
    if a.len() != b.len() {
        assert(vals(a@).len() != vals(b@).len());
        return false;
    }
    let mut i: usize = 0;
    while i < a.len()
        invariant
            a@.len() == b@.len(),
            i <= a@.len(),
            forall|j: int| 0 <= j < i ==> vals(a@)[j] == vals(b@)[j],
        decreases a@.len() - i,
    {
        if !value_same(&a[i], &b[i]) {
            assert(vals(a@)[i as int] != vals(b@)[i as int]);
            return false;
        }
        i = i + 1;
    }
    assert(vals(a@) =~= vals(b@));
    true
}

/// Equality of two non-null values: numbers by
/// value, other values when of the same kind and content.
pub open spec fn val_eq(a: VVal, b: VVal) -> bool {
    match (num_of(a), num_of(b)) {
        (Some(x), Some(y)) => x == y,
        _ => a == b,
    }
}

/// Whether two values are equal (see [`val_eq`]).
pub fn value_eq(a: &Value, b: &Value) -> (r: bool)
    ensures
        r == val_eq(a@, b@),
{
    match (numeric(a), numeric(b)) {
        (Some(x), Some(y)) => x == y,
        _ => match (a, b) {
            (Value::Null, Value::Null) => true,
            (Value::Bool(x), Value::Bool(y)) => *x == *y,
            (Value::Str(x), Value::Str(y)) => *x == *y,
            (Value::Date(x), Value::Date(y)) => *x == *y,
            (Value::Int(x), Value::Int(y)) => *x == *y,
            (Value::Num(x), Value::Num(y)) => *x == *y,
            _ => false,
        },
    }
}

/// Casting to the number type keeps the number a value stands for: an
/// integer `i` becomes the number `i` (`i` times a million millionths), a
/// number stays as it is; and an integer casts as the number of its value
/// does.
pub proof fn law_cast_float_keeps_numbers(v: VVal)
    requires
        v is Int || v is Num,
    ensures
        cast_spec(v, DTypeV::Float) is Num,
        num_of(cast_spec(v, DTypeV::Float)) == num_of(v),
        v matches VVal::Int(i) ==> cast_spec(v, DTypeV::Float) == VVal::Num((i as int * 1_000_000) as i128)
            && cast_spec(v, DTypeV::Float) == cast_spec(VVal::Num((i as int * 1_000_000) as i128), DTypeV::Float),
        v matches VVal::Num(m) ==> cast_spec(v, DTypeV::Float) == v,
{
    match v {
        VVal::Int(i) => {
            assert(i64::MIN <= i <= i64::MAX);
            assert(-0x7fff_ffff_ffff_ffff_ffff_ffff_ffff_ffff <= i as int * 1_000_000 <= 0x7fff_ffff_ffff_ffff_ffff_ffff_ffff_ffff);
        },
        _ => {},
    }
}

} // verus!
