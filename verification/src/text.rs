//! Character-level text operations used by the parsers and the reconciler.
use vstd::prelude::*;

verus! {

// ---------------------------------------------------------------------------
// Conversions between `str`/`String` and sequences of characters
// ---------------------------------------------------------------------------

/// The characters of `s`, in order.
pub fn chars_of(s: &str) -> (r: Vec<char>)
    ensures
        r@ == s@,
{
    let n = s.unicode_len();
    let mut r: Vec<char> = Vec::new();
    let mut i: usize = 0;
    while i < n
        invariant
            n == s@.len(),
            i <= n,
            r@ == s@.take(i as int),
        decreases n - i,
    {
        let c = s.get_char(i);
        r.push(c);
        i = i + 1;
        assert(r@ =~= s@.take(i as int));
    }
    assert(r@ =~= s@);
    r
}

/// Appends one character to a string (`String::push`).
#[verifier::external_body]
pub(crate) fn push_char(s: &mut String, c: char)
    ensures
        final(s)@ == old(s)@.push(c),
{
    s.push(c);
}

/// The string made of the characters `cs[from..to]`.
pub fn string_of_range(cs: &Vec<char>, from: usize, to: usize) -> (r: String)
    requires
        from <= to <= cs@.len(),
    ensures
        r@ == cs@.subrange(from as int, to as int),
{
    let mut r = String::new();
    let mut i = from;
    while i < to
        invariant
            from <= i <= to <= cs@.len(),
            r@ == cs@.subrange(from as int, i as int),
        decreases to - i,
    {
        push_char(&mut r, cs[i]);
        i = i + 1;
        assert(r@ =~= cs@.subrange(from as int, i as int));
    }
    r
}

/// The string made of all of `cs`.
pub fn string_of(cs: &Vec<char>) -> (r: String)
    ensures
        r@ == cs@,
{
    let r = string_of_range(cs, 0, cs.len());
    assert(cs@.subrange(0, cs@.len() as int) =~= cs@);
    r
}

/// A fresh copy of a string literal or slice.
pub fn owned(s: &str) -> (r: String)
    ensures
        r@ == s@,
{
    let cs = chars_of(s);
    string_of(&cs)
}

/// Concatenation of two strings.
pub fn concat(a: &str, b: &str) -> (r: String)
    ensures
        r@ == a@ + b@,
{
    let mut cs = chars_of(a);
    let bs = chars_of(b);
    let mut i: usize = 0;
    while i < bs.len()
        invariant
            i <= bs@.len(),
            cs@ == a@ + bs@.take(i as int),
        decreases bs@.len() - i,
    {
        cs.push(bs[i]);
        i = i + 1;
        assert(cs@ =~= a@ + bs@.take(i as int));
    }
    assert(bs@.take(bs@.len() as int) =~= bs@);
    string_of(&cs)
}

/// Whether two strings hold the same characters.
pub fn str_eq(a: &str, b: &str) -> (r: bool)
    ensures
        r == (a@ == b@),
{
    let x = chars_of(a);
    let y = chars_of(b);
    if x.len() != y.len() {
        assert(x@.len() != y@.len());
        assert(a@ != b@);
        return false;
    }
    let mut i: usize = 0;
    while i < x.len()
        invariant
            x@ == a@,
            y@ == b@,
            x@.len() == y@.len(),
            i <= x@.len(),
            forall|j: int| 0 <= j < i ==> x@[j] == y@[j],
        decreases x@.len() - i,
    {
        if x[i] != y[i] {
            assert(x@[i as int] != y@[i as int]);
            return false;
        }
        i = i + 1;
    }
    assert(x@ =~= y@);
    true
}

// ---------------------------------------------------------------------------
// Trimming, replacing, searching
// ---------------------------------------------------------------------------

/// `s` without its leading characters equal to `c`.
pub open spec fn trim_start(s: Seq<char>, c: char) -> Seq<char>
    decreases s.len(),
{
    if s.len() > 0 && s[0] == c {
        trim_start(s.drop_first(), c)
    } else {
        s
    }
}

/// `s` without its trailing characters equal to `c`.
pub open spec fn trim_end(s: Seq<char>, c: char) -> Seq<char>
    decreases s.len(),
{
    if s.len() > 0 && s.last() == c {
        trim_end(s.drop_last(), c)
    } else {
        s
    }
}

/// `s` with the character `c` removed from both ends.
pub open spec fn strip(s: Seq<char>, c: char) -> Seq<char> {
    trim_end(trim_start(s, c), c)
}

proof fn lemma_trim_start_skip(s: Seq<char>, c: char, i: int)
    requires
        0 <= i <= s.len(),
        forall|j: int| 0 <= j < i ==> s[j] == c,
    ensures
        trim_start(s, c) == trim_start(s.skip(i), c),
    decreases i,
{
    if i > 0 {
        assert(s.len() > 0 && s[0] == c);
        lemma_trim_start_skip(s.drop_first(), c, i - 1);
        assert(s.drop_first().skip(i - 1) =~= s.skip(i));
    } else {
        assert(s.skip(0) =~= s);
    }
}

proof fn lemma_trim_end_take(s: Seq<char>, c: char, k: int)
    requires
        0 <= k <= s.len(),
        forall|j: int| k <= j < s.len() ==> s[j] == c,
    ensures
        trim_end(s, c) == trim_end(s.take(k), c),
    decreases s.len() - k,
{
    if k < s.len() {
        assert(s.last() == c);
        lemma_trim_end_take(s.drop_last(), c, k);
        assert(s.drop_last().take(k) =~= s.take(k));
    } else {
        assert(s.take(k) =~= s);
    }
}

/// `s` with the character `c` removed from both ends
/// (every leading and trailing `c` removed).
pub fn strip_char(s: &str, c: char) -> (r: String)
    ensures
        r@ == strip(s@, c),
{
    let cs = chars_of(s);
    let n = cs.len();
    let mut i: usize = 0;
    while i < n && cs[i] == c
        invariant
            n == cs@.len(),
            i <= n,
            forall|j: int| 0 <= j < i ==> cs@[j] == c,
        decreases n - i,
    {
        i = i + 1;
    }
    proof {
        lemma_trim_start_skip(cs@, c, i as int);
    }
    let mut k: usize = n;
    while k > i && cs[k - 1] == c
        invariant
            n == cs@.len(),
            i <= k <= n,
            forall|j: int| k <= j < n ==> cs@[j] == c,
        decreases k,
    {
        k = k - 1;
    }
    let ghost t = cs@.skip(i as int);
    proof {
        assert forall|j: int| (k - i) <= j < t.len() implies t[j] == c by {}
        lemma_trim_end_take(t, c, k - i);
        assert(t.take(k - i) =~= cs@.subrange(i as int, k as int));
        if i < n && k == i {
            assert(cs@[i as int] != c);
        }
        if k > i {
            assert(cs@[k - 1] != c);
            assert(t.take(k - i).last() != c);
        }
        if i < n {
            assert(t[0] == cs@[i as int]);
            assert(trim_start(t, c) == t);
        } else {
            assert(t.len() == 0);
        }
    }
    string_of_range(&cs, i, k)
}

/// Every `from` in `s` replaced by `to`.
pub open spec fn replace_char(s: Seq<char>, from: char, to: char) -> Seq<char> {
    s.map_values(|x: char| if x == from { to } else { x })
}

/// `s` with every `from` replaced by `to` (a literal replacement
/// with one-character patterns).
pub fn replace_all_char(s: &str, from: char, to: char) -> (r: String)
    ensures
        r@ == replace_char(s@, from, to),
{
    let cs = chars_of(s);
    let mut r = String::new();
    let mut i: usize = 0;
    while i < cs.len()
        invariant
            i <= cs@.len(),
            r@ == replace_char(cs@.take(i as int), from, to),
        decreases cs@.len() - i,
    {
        let c = cs[i];
        push_char(&mut r, if c == from { to } else { c });
        i = i + 1;
        assert(r@ =~= replace_char(cs@.take(i as int), from, to));
    }
    assert(cs@.take(cs@.len() as int) =~= cs@);
    r
}

/// Whether `pat` occurs in `s` at position `i`.
pub open spec fn occurs_at(s: Seq<char>, pat: Seq<char>, i: int) -> bool {
    0 <= i && i + pat.len() <= s.len() && s.subrange(i, i + pat.len()) == pat
}

/// Whether `pat` occurs anywhere in `s`.
pub open spec fn contains_seq(s: Seq<char>, pat: Seq<char>) -> bool {
    exists|i: int| occurs_at(s, pat, i)
}

/// Whether `pat` occurs in `s` at position `i`.
pub fn matches_at(s: &Vec<char>, pat: &Vec<char>, i: usize) -> (r: bool)
    ensures
        r == occurs_at(s@, pat@, i as int),
{
    if pat.len() > s.len() || i > s.len() - pat.len() {
        return false;
    }
    let mut j: usize = 0;
    while j < pat.len()
        invariant
            i + pat@.len() <= s@.len(),
            s@.len() == s.len(),
            j <= pat@.len(),
            forall|k: int| 0 <= k < j ==> s@[i + k] == pat@[k],
        decreases pat@.len() - j,
    {
        if s[i + j] != pat[j] {
            assert(s@.subrange(i as int, i + pat@.len())[j as int] != pat@[j as int]);
            return false;
        }
        j = j + 1;
    }
    assert(s@.subrange(i as int, i + pat@.len()) =~= pat@);
    true
}

/// Whether `pat` occurs anywhere in `s`.
pub fn contains_chars(s: &Vec<char>, pat: &Vec<char>) -> (r: bool)
    ensures
        r == contains_seq(s@, pat@),
{
    if pat.len() > s.len() {
        return false;
    }
    let last = s.len() - pat.len();
    let mut i: usize = 0;
    while i < last
        invariant
            last == s@.len() - pat@.len(),
            i <= last,
            forall|k: int| 0 <= k < i ==> !occurs_at(s@, pat@, k),
        decreases last - i,
    {
        if matches_at(s, pat, i) {
            return true;
        }
        i = i + 1;
    }
    if matches_at(s, pat, last) {
        return true;
    }
    assert forall|k: int| !occurs_at(s@, pat@, k) by {
        if 0 <= k <= last {
        }
    }
    false
}

/// Index of the first `c` in `s`, or `s.len()` when there is none.
pub open spec fn find_char(s: Seq<char>, c: char) -> int
    decreases s.len(),
{
    if s.len() == 0 {
        0
    } else if s[0] == c {
        0
    } else {
        1 + find_char(s.drop_first(), c)
    }
}

pub proof fn lemma_find_char(s: Seq<char>, c: char)
    ensures
        0 <= find_char(s, c) <= s.len(),
        forall|j: int| 0 <= j < find_char(s, c) ==> s[j] != c,
        find_char(s, c) < s.len() ==> s[find_char(s, c)] == c,
    decreases s.len(),
{
    if s.len() > 0 && s[0] != c {
        lemma_find_char(s.drop_first(), c);
        assert forall|j: int| 0 <= j < find_char(s, c) implies s[j] != c by {
            if j > 0 {
                assert(s[j] == s.drop_first()[j - 1]);
            }
        }
    }
}

/// Position of the first `c` in `cs` at or after `from`, or `cs.len()`.
pub fn find_char_from(cs: &Vec<char>, c: char, from: usize) -> (r: usize)
    requires
        from <= cs@.len(),
    ensures
        r as int == from + find_char(cs@.skip(from as int), c),
        from <= r <= cs@.len(),
{
    let mut i = from;
    while i < cs.len() && cs[i] != c
        invariant
            from <= i <= cs@.len(),
            forall|j: int| from <= j < i ==> cs@[j] != c,
        decreases cs@.len() - i,
    {
        i = i + 1;
    }
    proof {
        let t = cs@.skip(from as int);
        lemma_find_char(t, c);
        let f = find_char(t, c);
        if f < i - from {
            assert(t[f] == cs@[from + f]);
        }
        if f > i - from {
            assert(t[i - from] == cs@[i as int]);
        }
    }
    i
}

/// `s` split on every `c`; empty pieces are kept.
pub open spec fn split_on(s: Seq<char>, c: char) -> Seq<Seq<char>>
    decreases s.len(),
{
    let k = find_char(s, c);
    proof {
        lemma_find_char(s, c);
    }
    if k >= s.len() {
        seq![s]
    } else {
        seq![s.take(k)] + split_on(s.skip(k + 1), c)
    }
}

/// The pieces of `s` between the separators `c`.
pub fn split_char(s: &str, c: char) -> (r: Vec<String>)
    ensures
        r@.len() == split_on(s@, c).len(),
        forall|i: int| 0 <= i < r@.len() ==> #[trigger] r@[i]@ == split_on(s@, c)[i],
{
    let cs = chars_of(s);
    let mut r: Vec<String> = Vec::new();
    let mut start: usize = 0;
    let ghost done: Seq<Seq<char>> = Seq::empty();
    assert(cs@.skip(0) =~= cs@);
    assert(done + split_on(cs@, c) =~= split_on(cs@, c));
    loop
        invariant
            cs@ == s@,
            start <= cs@.len(),
            split_on(cs@, c) == done + split_on(cs@.skip(start as int), c),
            r@.len() == done.len(),
            forall|i: int| 0 <= i < r@.len() ==> #[trigger] r@[i]@ == done[i],
        decreases cs@.len() - start,
    {
        let k = find_char_from(&cs, c, start);
        let piece = string_of_range(&cs, start, k);
        proof {
            lemma_find_char(cs@.skip(start as int), c);
        }
        let ghost rest = cs@.skip(start as int);
        assert(piece@ =~= rest.take(k - start));
        let ghost old_r = r@;
        if k >= cs.len() {
            r.push(piece);
            proof {
                assert(split_on(rest, c) == seq![rest]);
                assert(rest.take(k - start) =~= rest);
                let old_done = done;
                done = done.push(rest);
                assert(old_done + seq![rest] =~= done);
                assert(split_on(cs@, c) == done);
                assert(r@.len() == done.len());
                assert forall|i: int| 0 <= i < r@.len() implies #[trigger] r@[i]@ == split_on(s@, c)[i] by {
                    if i < old_r.len() {
                        assert(r@[i] == old_r[i]);
                    }
                }
            }
            return r;
        }
        r.push(piece);
        proof {
            assert forall|i: int| 0 <= i < r@.len() implies #[trigger] r@[i]@ == done.push(rest.take(k - start))[i] by {
                if i < old_r.len() {
                    assert(r@[i] == old_r[i]);
                }
            }
            assert(split_on(rest, c) == seq![rest.take(k - start)] + split_on(rest.skip(k - start + 1), c));
            assert(rest.skip(k - start + 1) =~= cs@.skip(k + 1));
            done = done.push(rest.take(k - start));
            assert(split_on(cs@, c) =~= done + split_on(cs@.skip(k + 1), c));
        }
        start = k + 1;
    }
}

// ---------------------------------------------------------------------------
// Decimal numbers
// ---------------------------------------------------------------------------

/// Number of fractional decimal digits kept by [`parse_dec`].
pub open spec fn scale() -> int {
    1_000_000
}

pub open spec fn is_digit(c: char) -> bool {
    '0' <= c && c <= '9'
}

/// Whether `c` is a decimal digit in any script: Unicode general category
/// `Nd`, as of Unicode 16.0 (the ASCII digits among them).
pub open spec fn is_nd(c: char) -> bool {
    let x = c as u32;
        (0x30 <= x && x <= 0x39)
        || (0x660 <= x && x <= 0x669)
        || (0x6f0 <= x && x <= 0x6f9)
        || (0x7c0 <= x && x <= 0x7c9)
        || (0x966 <= x && x <= 0x96f)
        || (0x9e6 <= x && x <= 0x9ef)
        || (0xa66 <= x && x <= 0xa6f)
        || (0xae6 <= x && x <= 0xaef)
        || (0xb66 <= x && x <= 0xb6f)
        || (0xbe6 <= x && x <= 0xbef)
        || (0xc66 <= x && x <= 0xc6f)
        || (0xce6 <= x && x <= 0xcef)
        || (0xd66 <= x && x <= 0xd6f)
        || (0xde6 <= x && x <= 0xdef)
        || (0xe50 <= x && x <= 0xe59)
        || (0xed0 <= x && x <= 0xed9)
        || (0xf20 <= x && x <= 0xf29)
        || (0x1040 <= x && x <= 0x1049)
        || (0x1090 <= x && x <= 0x1099)
        || (0x17e0 <= x && x <= 0x17e9)
        || (0x1810 <= x && x <= 0x1819)
        || (0x1946 <= x && x <= 0x194f)
        || (0x19d0 <= x && x <= 0x19d9)
        || (0x1a80 <= x && x <= 0x1a89)
        || (0x1a90 <= x && x <= 0x1a99)
        || (0x1b50 <= x && x <= 0x1b59)
        || (0x1bb0 <= x && x <= 0x1bb9)
        || (0x1c40 <= x && x <= 0x1c49)
        || (0x1c50 <= x && x <= 0x1c59)
        || (0xa620 <= x && x <= 0xa629)
        || (0xa8d0 <= x && x <= 0xa8d9)
        || (0xa900 <= x && x <= 0xa909)
        || (0xa9d0 <= x && x <= 0xa9d9)
        || (0xa9f0 <= x && x <= 0xa9f9)
        || (0xaa50 <= x && x <= 0xaa59)
        || (0xabf0 <= x && x <= 0xabf9)
        || (0xff10 <= x && x <= 0xff19)
        || (0x104a0 <= x && x <= 0x104a9)
        || (0x10d30 <= x && x <= 0x10d39)
        || (0x10d40 <= x && x <= 0x10d49)
        || (0x11066 <= x && x <= 0x1106f)
        || (0x110f0 <= x && x <= 0x110f9)
        || (0x11136 <= x && x <= 0x1113f)
        || (0x111d0 <= x && x <= 0x111d9)
        || (0x112f0 <= x && x <= 0x112f9)
        || (0x11450 <= x && x <= 0x11459)
        || (0x114d0 <= x && x <= 0x114d9)
        || (0x11650 <= x && x <= 0x11659)
        || (0x116c0 <= x && x <= 0x116c9)
        || (0x116d0 <= x && x <= 0x116e3)
        || (0x11730 <= x && x <= 0x11739)
        || (0x118e0 <= x && x <= 0x118e9)
        || (0x11950 <= x && x <= 0x11959)
        || (0x11bf0 <= x && x <= 0x11bf9)
        || (0x11c50 <= x && x <= 0x11c59)
        || (0x11d50 <= x && x <= 0x11d59)
        || (0x11da0 <= x && x <= 0x11da9)
        || (0x11f50 <= x && x <= 0x11f59)
        || (0x16130 <= x && x <= 0x16139)
        || (0x16a60 <= x && x <= 0x16a69)
        || (0x16ac0 <= x && x <= 0x16ac9)
        || (0x16b50 <= x && x <= 0x16b59)
        || (0x16d70 <= x && x <= 0x16d79)
        || (0x1ccf0 <= x && x <= 0x1ccf9)
        || (0x1d7ce <= x && x <= 0x1d7ff)
        || (0x1e140 <= x && x <= 0x1e149)
        || (0x1e2f0 <= x && x <= 0x1e2f9)
        || (0x1e4f0 <= x && x <= 0x1e4f9)
        || (0x1e5f1 <= x && x <= 0x1e5fa)
        || (0x1e950 <= x && x <= 0x1e959)
        || (0x1fbf0 <= x && x <= 0x1fbf9)
}

/// Whether `c` is a decimal digit in any script (see [`is_nd`]).
pub fn char_is_nd(c: char) -> (r: bool)
    ensures
        r == is_nd(c),
{
    let x = c as u32;
        (0x30 <= x && x <= 0x39)
        || (0x660 <= x && x <= 0x669)
        || (0x6f0 <= x && x <= 0x6f9)
        || (0x7c0 <= x && x <= 0x7c9)
        || (0x966 <= x && x <= 0x96f)
        || (0x9e6 <= x && x <= 0x9ef)
        || (0xa66 <= x && x <= 0xa6f)
        || (0xae6 <= x && x <= 0xaef)
        || (0xb66 <= x && x <= 0xb6f)
        || (0xbe6 <= x && x <= 0xbef)
        || (0xc66 <= x && x <= 0xc6f)
        || (0xce6 <= x && x <= 0xcef)
        || (0xd66 <= x && x <= 0xd6f)
        || (0xde6 <= x && x <= 0xdef)
        || (0xe50 <= x && x <= 0xe59)
        || (0xed0 <= x && x <= 0xed9)
        || (0xf20 <= x && x <= 0xf29)
        || (0x1040 <= x && x <= 0x1049)
        || (0x1090 <= x && x <= 0x1099)
        || (0x17e0 <= x && x <= 0x17e9)
        || (0x1810 <= x && x <= 0x1819)
        || (0x1946 <= x && x <= 0x194f)
        || (0x19d0 <= x && x <= 0x19d9)
        || (0x1a80 <= x && x <= 0x1a89)
        || (0x1a90 <= x && x <= 0x1a99)
        || (0x1b50 <= x && x <= 0x1b59)
        || (0x1bb0 <= x && x <= 0x1bb9)
        || (0x1c40 <= x && x <= 0x1c49)
        || (0x1c50 <= x && x <= 0x1c59)
        || (0xa620 <= x && x <= 0xa629)
        || (0xa8d0 <= x && x <= 0xa8d9)
        || (0xa900 <= x && x <= 0xa909)
        || (0xa9d0 <= x && x <= 0xa9d9)
        || (0xa9f0 <= x && x <= 0xa9f9)
        || (0xaa50 <= x && x <= 0xaa59)
        || (0xabf0 <= x && x <= 0xabf9)
        || (0xff10 <= x && x <= 0xff19)
        || (0x104a0 <= x && x <= 0x104a9)
        || (0x10d30 <= x && x <= 0x10d39)
        || (0x10d40 <= x && x <= 0x10d49)
        || (0x11066 <= x && x <= 0x1106f)
        || (0x110f0 <= x && x <= 0x110f9)
        || (0x11136 <= x && x <= 0x1113f)
        || (0x111d0 <= x && x <= 0x111d9)
        || (0x112f0 <= x && x <= 0x112f9)
        || (0x11450 <= x && x <= 0x11459)
        || (0x114d0 <= x && x <= 0x114d9)
        || (0x11650 <= x && x <= 0x11659)
        || (0x116c0 <= x && x <= 0x116c9)
        || (0x116d0 <= x && x <= 0x116e3)
        || (0x11730 <= x && x <= 0x11739)
        || (0x118e0 <= x && x <= 0x118e9)
        || (0x11950 <= x && x <= 0x11959)
        || (0x11bf0 <= x && x <= 0x11bf9)
        || (0x11c50 <= x && x <= 0x11c59)
        || (0x11d50 <= x && x <= 0x11d59)
        || (0x11da0 <= x && x <= 0x11da9)
        || (0x11f50 <= x && x <= 0x11f59)
        || (0x16130 <= x && x <= 0x16139)
        || (0x16a60 <= x && x <= 0x16a69)
        || (0x16ac0 <= x && x <= 0x16ac9)
        || (0x16b50 <= x && x <= 0x16b59)
        || (0x16d70 <= x && x <= 0x16d79)
        || (0x1ccf0 <= x && x <= 0x1ccf9)
        || (0x1d7ce <= x && x <= 0x1d7ff)
        || (0x1e140 <= x && x <= 0x1e149)
        || (0x1e2f0 <= x && x <= 0x1e2f9)
        || (0x1e4f0 <= x && x <= 0x1e4f9)
        || (0x1e5f1 <= x && x <= 0x1e5fa)
        || (0x1e950 <= x && x <= 0x1e959)
        || (0x1fbf0 <= x && x <= 0x1fbf9)
}

pub open spec fn digit_val(c: char) -> int {
    c as int - '0' as int
}

pub open spec fn all_digits(s: Seq<char>) -> bool {
    forall|i: int| 0 <= i < s.len() ==> is_digit(#[trigger] s[i])
}

/// The natural number written by the decimal digits `s`.
pub open spec fn digits_value(s: Seq<char>) -> int
    decreases s.len(),
{
    if s.len() == 0 {
        0
    } else {
        digits_value(s.drop_last()) * 10 + digit_val(s.last())
    }
}

pub open spec fn pow10(n: nat) -> int
    decreases n,
{
    if n == 0 {
        1
    } else {
        10 * pow10((n - 1) as nat)
    }
}

pub proof fn lemma_digits_value_bound(s: Seq<char>)
    requires
        all_digits(s),
    ensures
        0 <= digits_value(s) < pow10(s.len()),
    decreases s.len(),
{
    if s.len() > 0 {
        assert(all_digits(s.drop_last())) by {
            assert forall|i: int| 0 <= i < s.drop_last().len() implies is_digit(#[trigger] s.drop_last()[i]) by {
                assert(s.drop_last()[i] == s[i]);
            }
        }
        assert(is_digit(s[s.len() - 1]));
        lemma_digits_value_bound(s.drop_last());
    }
}

pub proof fn lemma_pow10_mono(a: nat, b: nat)
    requires
        a <= b,
    ensures
        1 <= pow10(a) <= pow10(b),
    decreases b,
{
    if b == 0 {
    } else if a == b {
        lemma_pow10_mono((b - 1) as nat, (b - 1) as nat);
    } else {
        lemma_pow10_mono(a, (b - 1) as nat);
    }
}

proof fn lemma_pow10_values()
    ensures
        pow10(6) == 1_000_000,
        pow10(30) == 1_000_000_000_000_000_000_000_000_000_000int,
{
    reveal_with_fuel(pow10, 31);
}

/// The millionths written by a fractional part: its first six digits,
/// padded with zeros; further digits are dropped.
pub open spec fn frac_micros(f: Seq<char>) -> int {
    let k = if f.len() < 6 { f.len() } else { 6 };
    digits_value(f.take(k as int)) * pow10((6 - k) as nat)
}

/// An unsigned decimal number `digits[.digits]` in millionths.  At least
/// one digit must be present and at most thirty before the point.
pub open spec fn spec_parse_udec(body: Seq<char>) -> Option<int> {
    let k = find_char(body, '.');
    let ip = body.take(k);
    let fp = if k < body.len() { body.skip(k + 1) } else { Seq::<char>::empty() };
    if all_digits(ip) && all_digits(fp) && ip.len() + fp.len() > 0 && ip.len() <= 30 {
        Some(digits_value(ip) * scale() + frac_micros(fp))
    } else {
        None
    }
}

/// A decimal number `[+-]digits[.digits]` in millionths (see
/// [`spec_parse_udec`]); any other text gives `None`.
pub open spec fn spec_parse_dec(s: Seq<char>) -> Option<int> {
    let signed = s.len() > 0 && (s[0] == '-' || s[0] == '+');
    let neg = s.len() > 0 && s[0] == '-';
    let body = if signed { s.drop_first() } else { s };
    match spec_parse_udec(body) {
        Some(m) => Some(if neg { -m } else { m }),
        None => None,
    }
}

/// The value of the digits `cs[from..to]`, or `None` when one is not a digit.
fn digits_in(cs: &Vec<char>, from: usize, to: usize) -> (r: Option<u128>)
    requires
        from <= to <= cs@.len(),
        to - from <= 30,
    ensures
        r is Some <==> all_digits(cs@.subrange(from as int, to as int)),
        r matches Some(v) ==> v as int == digits_value(cs@.subrange(from as int, to as int)),
        r matches Some(v) ==> v < pow10((to - from) as nat),
{
    let mut acc: u128 = 0;
    let mut i = from;
    while i < to
        invariant
            from <= i <= to <= cs@.len(),
            to - from <= 30,
            all_digits(cs@.subrange(from as int, i as int)),
            acc as int == digits_value(cs@.subrange(from as int, i as int)),
            acc < pow10((i - from) as nat),
        decreases to - i,
    {
        let c = cs[i];
        if !('0' <= c && c <= '9') {
            assert(!is_digit(cs@.subrange(from as int, to as int)[i - from]));
            return None;
        }
        proof {
            lemma_pow10_mono((i - from + 1) as nat, 30);
            lemma_pow10_values();
        }
        let d = (c as u32 - '0' as u32) as u128;
        acc = acc * 10 + d;
        i = i + 1;
        proof {
            let t = cs@.subrange(from as int, i as int);
            assert(t.drop_last() =~= cs@.subrange(from as int, i - 1));
            assert(all_digits(t)) by {
                assert forall|j: int| 0 <= j < t.len() implies is_digit(#[trigger] t[j]) by {
                    if j < t.len() - 1 {
                        assert(t[j] == t.drop_last()[j]);
                    }
                }
            }
        }
    }
    Some(acc)
}

/// Whether every one of `cs[from..to]` is a digit.
fn all_digits_in(cs: &Vec<char>, from: usize, to: usize) -> (r: bool)
    requires
        from <= to <= cs@.len(),
    ensures
        r == all_digits(cs@.subrange(from as int, to as int)),
{
    let mut j = from;
    while j < to
        invariant
            from <= j <= to <= cs@.len(),
            forall|t: int| from <= t < j ==> is_digit(cs@[t]),
        decreases to - j,
    {
        if !('0' <= cs[j] && cs[j] <= '9') {
            assert(!is_digit(cs@.subrange(from as int, to as int)[j - from]));
            return false;
        }
        j = j + 1;
    }
    assert forall|t: int| 0 <= t < to - from implies is_digit(#[trigger] cs@.subrange(from as int, to as int)[t]) by {
        assert(cs@.subrange(from as int, to as int)[t] == cs@[from + t]);
    }
    true
}

/// The millionths written by the fractional digits `cs[from..to]`.
fn frac_in(cs: &Vec<char>, from: usize, to: usize) -> (r: Option<u128>)
    requires
        from <= to <= cs@.len(),
    ensures
        r is Some <==> all_digits(cs@.subrange(from as int, to as int)),
        r matches Some(v) ==> v as int == frac_micros(cs@.subrange(from as int, to as int)),
        r matches Some(v) ==> v < 1_000_000,
{
    let flen = to - from;
    let keep: usize = if flen < 6 { flen } else { 6 };
    let ghost fp = cs@.subrange(from as int, to as int);
    if !all_digits_in(cs, from, to) {
        return None;
    }
    assert(fp.take(keep as int) =~= cs@.subrange(from as int, from + keep));
    let fv = match digits_in(cs, from, from + keep) {
        Some(v) => v,
        None => {
            assert(is_digit(fp[0]) && false) by {
                assert forall|t: int| 0 <= t < keep implies is_digit(#[trigger] fp.take(keep as int)[t]) by {
                    assert(fp.take(keep as int)[t] == fp[t]);
                }
            }
            return None;
        },
    };
    proof {
        lemma_pow10_mono(keep as nat, 6);
        lemma_pow10_values();
        reveal_with_fuel(pow10, 7);
    }
    let pad = pad_for(keep);
    assert(fv * pad < 1_000_000) by (nonlinear_arith)
        requires
            fv < pow10(keep as nat),
            pad * pow10(keep as nat) == 1_000_000,
            pad > 0,
    ;
    Some(fv * pad)
}

/// The factor that scales `keep` fractional digits to millionths.
fn pad_for(keep: usize) -> (p: u128)
    requires
        keep <= 6,
    ensures
        p * pow10(keep as nat) == 1_000_000,
        p == pow10((6 - keep) as nat),
        p > 0,
{
    proof {
        reveal_with_fuel(pow10, 7);
    }
    if keep == 0 {
        1_000_000
    } else if keep == 1 {
        100_000
    } else if keep == 2 {
        10_000
    } else if keep == 3 {
        1_000
    } else if keep == 4 {
        100
    } else if keep == 5 {
        10
    } else {
        1
    }
}

/// Parses an unsigned decimal `cs[start..]` into millionths.
fn parse_udec_from(cs: &Vec<char>, start: usize) -> (r: Option<u128>)
    requires
        start <= cs@.len(),
    ensures
        r matches Some(v) ==> spec_parse_udec(cs@.skip(start as int)) == Some(v as int),
        r is None ==> spec_parse_udec(cs@.skip(start as int)) is None,
        r matches Some(v) ==> v < 1_000_000_000_000_000_000_000_000_000_000_000_000,
{
    let n = cs.len();
    let ghost body = cs@.skip(start as int);
    let k = find_char_from(cs, '.', start);
    proof {
        lemma_find_char(body, '.');
    }
    let fstart: usize = if k < n { k + 1 } else { n };
    assert(body.take(k - start) =~= cs@.subrange(start as int, k as int));
    if k < n {
        assert(body.skip(k - start + 1) =~= cs@.subrange(fstart as int, n as int));
    } else {
        assert(cs@.subrange(fstart as int, n as int) =~= Seq::<char>::empty());
    }
    if k - start > 30 || (k - start) + (n - fstart) == 0 {
        return None;
    }
    let ip = match digits_in(cs, start, k) {
        Some(v) => v,
        None => { return None; },
    };
    let fv = match frac_in(cs, fstart, n) {
        Some(v) => v,
        None => { return None; },
    };
    proof {
        lemma_pow10_mono((k - start) as nat, 30);
        lemma_pow10_values();
    }
    Some(ip * 1_000_000 + fv)
}

/// Parses a decimal number into millionths (see [`spec_parse_dec`]).
pub fn parse_dec(s: &str) -> (r: Option<i128>)
    ensures
        r matches Some(v) ==> spec_parse_dec(s@) == Some(v as int),
        r is None ==> spec_parse_dec(s@) is None,
{
    let cs = chars_of(s);
    let n = cs.len();
    let signed = n > 0 && (cs[0] == '-' || cs[0] == '+');
    let neg = n > 0 && cs[0] == '-';
    let start: usize = if signed { 1 } else { 0 };
    assert((if signed { cs@.drop_first() } else { cs@ }) =~= cs@.skip(start as int));
    match parse_udec_from(&cs, start) {
        Some(m) => {
            let mi = m as i128;
            if neg { Some(-mi) } else { Some(mi) }
        },
        None => None,
    }
}

/// The decimal digits of a natural number.
pub open spec fn nat_text(n: nat) -> Seq<char>
    decreases n,
{
    if n < 10 {
        seq![digit_char(n)]
    } else {
        nat_text(n / 10).push(digit_char(n % 10))
    }
}

pub open spec fn digit_char(d: nat) -> char {
    ((d + '0' as nat) as u32) as char
}

fn digit_to_char(d: u128) -> (c: char)
    requires
        d < 10,
    ensures
        c == digit_char(d as nat),
{
    if d == 0 { '0' } else if d == 1 { '1' } else if d == 2 { '2' } else if d == 3 { '3' }
    else if d == 4 { '4' } else if d == 5 { '5' } else if d == 6 { '6' } else if d == 7 { '7' }
    else if d == 8 { '8' } else { '9' }
}

/// Appends the decimal digits of `n` to `out`.
pub fn push_nat(out: &mut String, n: u128)
    ensures
        final(out)@ == old(out)@ + nat_text(n as nat),
    decreases n,
{
    if n >= 10 {
        push_nat(out, n / 10);
    }
    push_char(out, digit_to_char(n % 10));
    proof {
        if n >= 10 {
            assert(nat_text(n as nat) == nat_text((n / 10) as nat).push(digit_char((n % 10) as nat)));
        }
    }
}

/// An integer in decimal, with a leading `-` when negative.
pub open spec fn int_text(i: int) -> Seq<char> {
    if i < 0 {
        seq!['-'] + nat_text((-i) as nat)
    } else {
        nat_text(i as nat)
    }
}

/// Appends an integer in decimal to `out`.
pub fn push_int(out: &mut String, i: i128)
    ensures
        final(out)@ == old(out)@ + int_text(i as int),
{
    if i < 0 {
        push_char(out, '-');
        push_nat(out, ((-(i + 1)) as u128) + 1);
        assert(final(out)@ =~= old(out)@ + int_text(i as int));
    } else {
        push_nat(out, i as u128);
    }
}

/// The six fractional digits of millionths `r < 10^6`, most significant first.
pub open spec fn six_digits(r: nat) -> Seq<char> {
    seq![
        digit_char(r / 100000),
        digit_char((r / 10000) % 10),
        digit_char((r / 1000) % 10),
        digit_char((r / 100) % 10),
        digit_char((r / 10) % 10),
        digit_char(r % 10),
    ]
}

/// `s` without trailing zeros, but keeping its first character.
pub open spec fn trim_zeros(s: Seq<char>) -> Seq<char>
    decreases s.len(),
{
    if s.len() > 1 && s.last() == '0' {
        trim_zeros(s.drop_last())
    } else {
        s
    }
}

/// A number of millionths written as a decimal with at least one fractional
/// digit and no trailing zeros after the first one, such as `99.0` or `3.605`.
pub open spec fn dec_text(m: int) -> Seq<char> {
    let a = if m < 0 { -m } else { m };
    let sign = if m < 0 { seq!['-'] } else { Seq::<char>::empty() };
    sign + nat_text((a / scale()) as nat) + seq!['.'] + trim_zeros(six_digits((a % scale()) as nat))
}

/// Appends `dec_text(m)` to `out`.
pub fn push_dec(out: &mut String, m: i128)
    ensures
        final(out)@ == old(out)@ + dec_text(m as int),
{
    let a: u128 = if m < 0 { ((-(m + 1)) as u128) + 1 } else { m as u128 };
    if m < 0 {
        push_char(out, '-');
    }
    let ghost after_sign = out@;
    push_nat(out, a / 1_000_000);
    push_char(out, '.');
    let r = a % 1_000_000;
    let mut ds: Vec<char> = Vec::new();
    ds.push(digit_to_char(r / 100000));
    ds.push(digit_to_char((r / 10000) % 10));
    ds.push(digit_to_char((r / 1000) % 10));
    ds.push(digit_to_char((r / 100) % 10));
    ds.push(digit_to_char((r / 10) % 10));
    ds.push(digit_to_char(r % 10));
    assert(ds@ =~= six_digits(r as nat));
    assert(ds@.take(6) =~= ds@);
    let mut k: usize = 6;
    while k > 1 && ds[k - 1] == '0'
        invariant
            1 <= k <= 6,
            ds@.len() == 6,
            trim_zeros(ds@) == trim_zeros(ds@.take(k as int)),
        decreases k,
    {
        assert(ds@.take(k as int).drop_last() =~= ds@.take(k - 1));
        k = k - 1;
    }
    assert(trim_zeros(ds@.take(k as int)) == ds@.take(k as int));
    let mut i: usize = 0;
    let ghost before = out@;
    while i < k
        invariant
            i <= k <= 6,
            ds@.len() == 6,
            out@ == before + ds@.take(i as int),
        decreases k - i,
    {
        push_char(out, ds[i]);
        i = i + 1;
        assert(out@ =~= before + ds@.take(i as int));
    }
    assert(final(out)@ =~= old(out)@ + dec_text(m as int));
}

} // verus!
