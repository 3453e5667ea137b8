//! The price formulas of Didadi bills.
//!
//! A formula such as `<2.5*3.60>+<150>` holds the freight price after the
//! `*` of its first `<weight*price` term, and customs fees in its `<fee>`
//! terms.  A digit of a formula is a decimal digit of any script (see
//! [`is_nd`]); a number that is not written in ASCII digits does not read.
use crate::text::{
    all_digits, char_is_nd, digits_value, find_char, frac_micros, is_digit, is_nd, lemma_digits_value_bound,
    lemma_pow10_mono, parse_dec, pow10, spec_parse_dec, string_of_range,
};
use vstd::prelude::*;

verus! {

/// The number of digits in the run that starts at `i`.
pub open spec fn digit_run(s: Seq<char>, i: int) -> int
    decreases s.len() - i,
{
    if 0 <= i < s.len() && is_nd(s[i]) {
        1 + digit_run(s, i + 1)
    } else {
        0
    }
}

pub proof fn lemma_digit_run(s: Seq<char>, i: int)
    requires
        0 <= i <= s.len(),
    ensures
        0 <= digit_run(s, i) <= s.len() - i,
        forall|k: int| i <= k < i + digit_run(s, i) ==> is_nd(#[trigger] s[k]),
        i + digit_run(s, i) < s.len() ==> !is_nd(s[i + digit_run(s, i)]),
    decreases s.len() - i,
{
    if i < s.len() && is_nd(s[i]) {
        lemma_digit_run(s, i + 1);
    }
}

/// The end of the number `digits[.digits]` that starts at `j`: the digits,
/// then a point and the digits after it if a point follows.
pub open spec fn num_end(s: Seq<char>, j: int) -> int {
    let e = j + digit_run(s, j);
    if e < s.len() && s[e] == '.' {
        e + 1 + digit_run(s, e + 1)
    } else {
        e
    }
}

/// Where the freight price of a `<d[.]d*\*price` term at `i` lies: the
/// price is `digits[.digits]` right after the `*`.
pub open spec fn price_at(s: Seq<char>, i: int) -> Option<(int, int)> {
    if 0 <= i && i + 1 < s.len() && s[i] == '<' && is_nd(s[i + 1]) {
        let k0 = i + 2;
        let k1 = if k0 < s.len() && s[k0] == '.' { k0 + 1 } else { k0 };
        let k = k1 + digit_run(s, k1);
        if k + 1 < s.len() && s[k] == '*' && is_nd(s[k + 1]) {
            Some((k + 1, num_end(s, k + 1)))
        } else {
            None
        }
    } else {
        None
    }
}

/// The text of the price of the first freight term at or after `i`.
pub open spec fn first_price(s: Seq<char>, i: int) -> Option<Seq<char>>
    decreases s.len() - i,
{
    if i < 0 || i >= s.len() {
        None
    } else {
        match price_at(s, i) {
            Some((a, b)) => Some(s.subrange(a, b)),
            None => first_price(s, i + 1),
        }
    }
}

/// The end (after the `>`) of a `<digits[.digits]>` term at `i`.
pub open spec fn fee_at(s: Seq<char>, i: int) -> Option<int> {
    if 0 <= i && i + 1 < s.len() && s[i] == '<' && is_nd(s[i + 1]) {
        let e = num_end(s, i + 1);
        if e < s.len() && s[e] == '>' {
            Some(e + 1)
        } else {
            None
        }
    } else {
        None
    }
}

/// The numbers of the fee terms at or after `i`, left to right, each term
/// searched for after the end of the one before.
pub open spec fn fees(s: Seq<char>, i: int) -> Seq<Seq<char>>
    decreases s.len() - i,
{
    if i < 0 || i >= s.len() {
        seq![]
    } else {
        match fee_at(s, i) {
            Some(e) => if e > i {
                seq![s.subrange(i + 1, e - 1)] + fees(s, e)
            } else {
                seq![]
            },
            None => fees(s, i + 1),
        }
    }
}

/// The sum of the numbers in millionths; a number that does not read counts
/// as nothing.
pub open spec fn fee_sum(f: Seq<Seq<char>>) -> int
    decreases f.len(),
{
    if f.len() == 0 {
        0
    } else {
        fee_sum(f.drop_last()) + match spec_parse_dec(f.last()) {
            Some(m) => m,
            None => 0,
        }
    }
}

pub proof fn lemma_num_end(s: Seq<char>, j: int)
    requires
        0 <= j <= s.len(),
    ensures
        j + digit_run(s, j) <= num_end(s, j) <= s.len(),
        j <= j + digit_run(s, j),
{
    lemma_digit_run(s, j);
    let e = j + digit_run(s, j);
    if e < s.len() && s[e] == '.' {
        lemma_digit_run(s, e + 1);
    }
}

/// The end of the digit run that starts at `i`.
pub fn run_end(cs: &Vec<char>, i: usize) -> (r: usize)
    requires
        i <= cs@.len(),
    ensures
        r == i + digit_run(cs@, i as int),
        r <= cs@.len(),
{
    proof {
        lemma_digit_run(cs@, i as int);
    }
    let mut j = i;
    while j < cs.len() && char_is_nd(cs[j])
        invariant
            i <= j <= cs@.len(),
            digit_run(cs@, i as int) == (j - i) + digit_run(cs@, j as int),
        decreases cs@.len() - j,
    {
        j = j + 1;
    }
    j
}

/// The end of the number that starts at `j` (see [`num_end`]).
pub fn number_end(cs: &Vec<char>, j: usize) -> (r: usize)
    requires
        j <= cs@.len(),
    ensures
        r == num_end(cs@, j as int),
        r <= cs@.len(),
{
    let e = run_end(cs, j);
    if e < cs.len() && cs[e] == '.' {
        run_end(cs, e + 1)
    } else {
        e
    }
}

fn price_span(cs: &Vec<char>, i: usize) -> (r: Option<(usize, usize)>)
    requires
        i < cs@.len(),
    ensures
        match r {
            Some((a, b)) => price_at(cs@, i as int) == Some((a as int, b as int)) && a <= b <= cs@.len(),
            None => price_at(cs@, i as int) is None,
        },
{
    let n = cs.len();
    if i + 1 < n && cs[i] == '<' && char_is_nd(cs[i + 1]) {
        let k0 = i + 2;
        let k1 = if k0 < n && cs[k0] == '.' { k0 + 1 } else { k0 };
        let k = run_end(cs, k1);
        if k < n && k + 1 < n && cs[k] == '*' && char_is_nd(cs[k + 1]) {
            proof {
                lemma_num_end(cs@, k + 1);
            }
            let b = number_end(cs, k + 1);
            return Some((k + 1, b));
        }
    }
    None
}

/// The price of the first freight term of a formula, as text.
pub fn first_price_of(cs: &Vec<char>) -> (r: Option<String>)
    ensures
        match r {
            Some(p) => first_price(cs@, 0) == Some(p@),
            None => first_price(cs@, 0) is None,
        },
{
    let mut i: usize = 0;
    while i < cs.len()
        invariant
            i <= cs@.len(),
            first_price(cs@, 0) == first_price(cs@, i as int),
        decreases cs@.len() - i,
    {
        match price_span(cs, i) {
            Some((a, b)) => {
                return Some(string_of_range(cs, a, b));
            },
            None => {},
        }
        i = i + 1;
    }
    None
}

fn fee_end(cs: &Vec<char>, i: usize) -> (r: Option<usize>)
    requires
        i < cs@.len(),
    ensures
        match r {
            Some(e) => fee_at(cs@, i as int) == Some(e as int) && i + 2 < e <= cs@.len(),
            None => fee_at(cs@, i as int) is None,
        },
{
    let n = cs.len();
    if i + 1 < n && cs[i] == '<' && char_is_nd(cs[i + 1]) {
        let e = number_end(cs, i + 1);
        proof {
            lemma_num_end(cs@, i + 1);
            lemma_digit_run(cs@, i + 1);
        }
        if e < n && cs[e] == '>' {
            return Some(e + 1);
        }
    }
    None
}

/// The numbers of the fee terms of a formula, as texts.
pub fn fee_texts(cs: &Vec<char>) -> (r: Vec<String>)
    ensures
        r@.map_values(|x: String| x@) == fees(cs@, 0),
{
    let mut r: Vec<String> = Vec::new();
    let mut i: usize = 0;
    while i < cs.len()
        invariant
            i <= cs@.len(),
            fees(cs@, 0) == r@.map_values(|x: String| x@) + fees(cs@, i as int),
        decreases cs@.len() - i,
    {
        match fee_end(cs, i) {
            Some(e) => {
                let t = string_of_range(cs, i + 1, e - 1);
                let ghost old_r = r@;
                r.push(t);
                assert(r@.map_values(|x: String| x@) =~= old_r.map_values(|x: String| x@).push(t@));
                assert(fees(cs@, i as int) == seq![t@] + fees(cs@, e as int));
                assert(fees(cs@, 0) =~= r@.map_values(|x: String| x@) + fees(cs@, e as int));
                i = e;
            },
            None => {
                i = i + 1;
            },
        }
    }
    assert(fees(cs@, 0) =~= r@.map_values(|x: String| x@));
    r
}

/// Whether a sum of millionths fits in an `i128`.
pub open spec fn fits(x: int) -> bool {
    i128::MIN <= x <= i128::MAX
}

/// Texts that begin with a digit, as fee numbers do.
pub open spec fn unsigned_texts(f: Seq<Seq<char>>) -> bool {
    forall|k: int| 0 <= k < f.len() ==> (#[trigger] f[k]).len() > 0 && is_nd(f[k][0])
}

proof fn lemma_parse_unsigned(t: Seq<char>)
    requires
        t.len() > 0,
        is_nd(t[0]),
    ensures
        spec_parse_dec(t) matches Some(m) ==> m >= 0,
{
    let k = find_char(t, '.');
    let ip = t.take(k);
    let fp = if k < t.len() { t.skip(k + 1) } else { Seq::<char>::empty() };
    if all_digits(ip) && all_digits(fp) {
        lemma_digits_value_bound(ip);
        let n = if fp.len() < 6 { fp.len() } else { 6 };
        assert(all_digits(fp.take(n as int))) by {
            assert forall|j: int| 0 <= j < fp.take(n as int).len() implies is_digit(#[trigger] fp.take(n as int)[j]) by {
                assert(fp.take(n as int)[j] == fp[j]);
            }
        }
        lemma_digits_value_bound(fp.take(n as int));
        lemma_pow10_mono(0, (6 - n) as nat);
        assert(frac_micros(fp) >= 0) by (nonlinear_arith)
            requires
                frac_micros(fp) == digits_value(fp.take(n as int)) * pow10((6 - n) as nat),
                digits_value(fp.take(n as int)) >= 0,
                pow10((6 - n) as nat) >= 1,
        ;
    }
}

proof fn lemma_fee_sum_prefix(f: Seq<Seq<char>>, i: int)
    requires
        unsigned_texts(f),
        0 <= i <= f.len(),
    ensures
        0 <= fee_sum(f.take(i)) <= fee_sum(f),
    decreases f.len(),
{
    if f.len() > 0 {
        let d = f.drop_last();
        assert(unsigned_texts(d)) by {
            assert forall|k: int| 0 <= k < d.len() implies (#[trigger] d[k]).len() > 0 && is_nd(d[k][0]) by {
                assert(d[k] == f[k]);
            }
        }
        assert(f[f.len() - 1] == f.last());
        lemma_parse_unsigned(f.last());
        if i == f.len() {
            assert(f.take(i) =~= f);
            lemma_fee_sum_prefix(d, d.len() as int);
            assert(d.take(d.len() as int) =~= d);
        } else {
            assert(f.take(i) =~= d.take(i));
            lemma_fee_sum_prefix(d, i);
        }
    } else {
        assert(f.take(i) =~= f);
    }
}

/// The sum of the fee numbers, or `None` when it does not fit in an `i128`.
pub fn sum_fees(f: &Vec<String>) -> (r: Option<i128>)
    requires
        unsigned_texts(f@.map_values(|x: String| x@)),
    ensures
        match r {
            Some(v) => v as int == fee_sum(f@.map_values(|x: String| x@)),
            None => !fits(fee_sum(f@.map_values(|x: String| x@))),
        },
{
    let ghost fv = f@.map_values(|x: String| x@);
    let mut acc: i128 = 0;
    let mut i: usize = 0;
    while i < f.len()
        invariant
            fv == f@.map_values(|x: String| x@),
            unsigned_texts(fv),
            i <= f@.len(),
            acc as int == fee_sum(fv.take(i as int)),
        decreases f@.len() - i,
    {
        assert(fv.take(i + 1).drop_last() =~= fv.take(i as int));
        assert(fv.take(i + 1).last() == fv[i as int]);
        let m = match parse_dec(f[i].as_str()) {
            Some(m) => m,
            None => 0,
        };
        match acc.checked_add(m) {
            Some(s) => {
                acc = s;
            },
            None => {
                proof {
                    lemma_fee_sum_prefix(fv, i + 1);
                }
                return None;
            },
        }
        i = i + 1;
    }
    assert(fv.take(f@.len() as int) =~= fv);
    Some(acc)
}

/// The numbers of fee terms begin with a digit.
pub proof fn lemma_fees_unsigned(s: Seq<char>, i: int)
    ensures
        unsigned_texts(fees(s, i)),
    decreases s.len() - i,
{
    if 0 <= i < s.len() {
        match fee_at(s, i) {
            Some(e) => {
                if e > i {
                    lemma_fees_unsigned(s, e);
                    let f = seq![s.subrange(i + 1, e - 1)] + fees(s, e);
                    lemma_num_end(s, i + 1);
                    lemma_digit_run(s, i + 1);
                    assert forall|k: int| 0 <= k < f.len() implies (#[trigger] f[k]).len() > 0 && is_nd(f[k][0]) by {
                        if k > 0 {
                            assert(f[k] == fees(s, e)[k - 1]);
                        } else {
                            assert(f[0][0] == s[i + 1]);
                        }
                    }
                }
            },
            None => {
                lemma_fees_unsigned(s, i + 1);
            },
        }
    }
}

} // verus!
