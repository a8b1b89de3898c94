//! Character-level helpers shared by the path and name logic.
//!
//! Strings are reasoned about through their view, a `Seq<char>`. The
//! search functions here have a recursive specification (`find_char`,
//! `rfind_char`) together with lemmas that characterise the index they
//! return, so that callers can state their own contracts functionally.

use vstd::prelude::*;
use vstd::string::*;

verus! {

broadcast use vstd::string::group_string_axioms;

/// Index of the first occurrence of `c` in `s`.
pub open spec fn find_char(s: Seq<char>, c: char) -> Option<int>
    decreases s.len(),
{
    if s.len() == 0 {
        None
    } else if s[0] == c {
        Some(0)
    } else {
        match find_char(s.drop_first(), c) {
            Some(i) => Some(i + 1),
            None => None,
        }
    }
}

/// Index of the last occurrence of `c` in `s`.
pub open spec fn rfind_char(s: Seq<char>, c: char) -> Option<int>
    decreases s.len(),
{
    if s.len() == 0 {
        None
    } else if s.last() == c {
        Some(s.len() - 1)
    } else {
        rfind_char(s.drop_last(), c)
    }
}

/// `c` occurs somewhere in `s`.
pub open spec fn has_char(s: Seq<char>, c: char) -> bool {
    exists|k: int| 0 <= k < s.len() && s[k] == c
}

/// What `find_char` returns, described by the positions of `c`.
pub proof fn lemma_find_char(s: Seq<char>, c: char)
    ensures
        match find_char(s, c) {
            Some(i) => 0 <= i < s.len() && s[i] == c && forall|k: int| 0 <= k < i ==> s[k] != c,
            None => forall|k: int| 0 <= k < s.len() ==> s[k] != c,
        },
    decreases s.len(),
{
    if s.len() > 0 && s[0] != c {
        lemma_find_char(s.drop_first(), c);
        assert forall|k: int| 0 < k < s.len() implies s[k] == s.drop_first()[k - 1] by {}
    }
}

/// What `rfind_char` returns, described by the positions of `c`.
pub proof fn lemma_rfind_char(s: Seq<char>, c: char)
    ensures
        match rfind_char(s, c) {
            Some(i) => 0 <= i < s.len() && s[i] == c && forall|k: int| i < k < s.len() ==> s[k] != c,
            None => forall|k: int| 0 <= k < s.len() ==> s[k] != c,
        },
    decreases s.len(),
{
    if s.len() > 0 && s.last() != c {
        lemma_rfind_char(s.drop_last(), c);
        assert forall|k: int| 0 <= k < s.len() - 1 implies s[k] == s.drop_last()[k] by {}
    }
}

/// The index described by `lemma_find_char` is the one `find_char` returns.
pub proof fn lemma_find_char_at(s: Seq<char>, c: char, i: int)
    requires
        0 <= i <= s.len(),
        i < s.len() ==> s[i] == c,
        forall|k: int| 0 <= k < i ==> s[k] != c,
    ensures
        find_char(s, c) == (if i < s.len() { Some(i) } else { None::<int> }),
{
    lemma_find_char(s, c);
}

/// The index described by `lemma_rfind_char` is the one `rfind_char` returns.
pub proof fn lemma_rfind_char_at(s: Seq<char>, c: char, i: int)
    requires
        -1 <= i < s.len(),
        i >= 0 ==> s[i] == c,
        forall|k: int| i < k < s.len() ==> s[k] != c,
    ensures
        rfind_char(s, c) == (if i >= 0 { Some(i) } else { None::<int> }),
{
    lemma_rfind_char(s, c);
}

/// The characters of `s`, in order.
pub fn chars_of(s: &str) -> (v: Vec<char>)
    ensures
        v@ == s@,
{
    let mut v: Vec<char> = Vec::new();
    for c in it: s.chars()
        invariant
            it.seq() == s@,
            v@ == s@.take(it.index() as int),
    {
        v.push(c);
    }
    v
}

/// First position of `c` in `v`.
pub fn find_char_in(v: &Vec<char>, c: char) -> (r: Option<usize>)
    ensures
        r matches Some(i) ==> find_char(v@, c) == Some(i as int),
        r is None ==> find_char(v@, c) is None,
{
    let mut i: usize = 0;
    while i < v.len()
        invariant
            i <= v.len(),
            forall|k: int| 0 <= k < i ==> v@[k] != c,
        decreases v.len() - i,
    {
        if v[i] == c {
            proof {
                lemma_find_char_at(v@, c, i as int);
            }
            return Some(i);
        }
        i += 1;
    }
    proof {
        lemma_find_char_at(v@, c, v@.len() as int);
    }
    None
}

/// Last position of `c` in `v`.
pub fn rfind_char_in(v: &Vec<char>, c: char) -> (r: Option<usize>)
    ensures
        r matches Some(i) ==> rfind_char(v@, c) == Some(i as int),
        r is None ==> rfind_char(v@, c) is None,
{
    let mut i: usize = v.len();
    while i > 0
        invariant
            i <= v.len(),
            forall|k: int| i <= k < v.len() ==> v@[k] != c,
        decreases i,
    {
        if v[i - 1] == c {
            proof {
                lemma_rfind_char_at(v@, c, i - 1);
            }
            return Some(i - 1);
        }
        i -= 1;
    }
    proof {
        lemma_rfind_char_at(v@, c, -1);
    }
    None
}

/// `c` occurs in `v`.
pub fn contains_char(v: &Vec<char>, c: char) -> (r: bool)
    ensures
        r == has_char(v@, c),
{
    let mut i: usize = 0;
    while i < v.len()
        invariant
            i <= v.len(),
            forall|k: int| 0 <= k < i ==> v@[k] != c,
        decreases v.len() - i,
    {
        if v[i] == c {
            return true;
        }
        i += 1;
    }
    false
}

/// `a` and `b` hold the same characters.
pub fn chars_eq(a: &Vec<char>, b: &Vec<char>) -> (r: bool)
    ensures
        r == (a@ == b@),
{
    if a.len() != b.len() {
        return false;
    }
    let mut i: usize = 0;
    while i < a.len()
        invariant
            a.len() == b.len(),
            i <= a.len(),
            forall|k: int| 0 <= k < i ==> a@[k] == b@[k],
        decreases a.len() - i,
    {
        if a[i] != b[i] {
            return false;
        }
        i += 1;
    }
    assert(a@ =~= b@);
    true
}

/// `a` and `b` are the same string.
pub fn str_eq(a: &str, b: &str) -> (r: bool)
    ensures
        r == (a@ == b@),
{
    let va = chars_of(a);
    let vb = chars_of(b);
    chars_eq(&va, &vb)
}

/// `a@.subrange(from, from + b.len())` is `b`.
pub fn chars_match_at(a: &Vec<char>, from: usize, b: &Vec<char>) -> (r: bool)
    ensures
        r == (from + b@.len() <= a@.len() && a@.subrange(from as int, from + b@.len()) == b@),
{
    if from > a.len() || b.len() > a.len() - from {
        return false;
    }
    let mut i: usize = 0;
    while i < b.len()
        invariant
            from + b.len() <= a.len(),
            i <= b.len(),
            forall|k: int| 0 <= k < i ==> a@[from + k] == b@[k],
        decreases b.len() - i,
    {
        if a[from + i] != b[i] {
            assert(a@.subrange(from as int, from + b@.len())[i as int] != b@[i as int]);
            return false;
        }
        i += 1;
    }
    assert(a@.subrange(from as int, from + b@.len()) =~= b@);
    true
}

/// `s` begins with `prefix`.
pub fn starts_with(s: &str, prefix: &str) -> (r: bool)
    ensures
        r == (prefix@.len() <= s@.len() && s@.subrange(0, prefix@.len() as int) == prefix@),
{
    let vs = chars_of(s);
    let vp = chars_of(prefix);
    chars_match_at(&vs, 0, &vp)
}

/// A fresh string holding `s`.
pub fn owned(s: &str) -> (r: String)
    ensures
        r@ == s@,
{
    String::from_str(s)
}

/// `a` followed by `b`.
pub fn concat2(a: &str, b: &str) -> (r: String)
    ensures
        r@ == a@ + b@,
{
    let mut r = String::from_str(a);
    r.append(b);
    r
}

/// `a`, `b` and `c` one after the other.
pub fn concat3(a: &str, b: &str, c: &str) -> (r: String)
    ensures
        r@ == a@ + b@ + c@,
{
    let mut r = String::from_str(a);
    r.append(b);
    r.append(c);
    r
}

/// The characters of `s` from position `from` up to (not including) `to`.
pub fn slice_chars(s: &str, from: usize, to: usize) -> (r: &str)
    requires
        from <= to <= s@.len(),
    ensures
        r@ == s@.subrange(from as int, to as int),
{
    s.substring_char(from, to)
}

/// The decimal digit character for `d < 10`.
pub open spec fn digit_char(d: nat) -> char {
    if d == 0 { '0' } else if d == 1 { '1' } else if d == 2 { '2' } else if d == 3 { '3' }
    else if d == 4 { '4' } else if d == 5 { '5' } else if d == 6 { '6' } else if d == 7 { '7' }
    else if d == 8 { '8' } else { '9' }
}

/// Decimal notation of `n`, without leading zeros.
pub open spec fn decimal(n: nat) -> Seq<char>
    decreases n,
{
    if n < 10 {
        seq![digit_char(n)]
    } else {
        decimal(n / 10) + seq![digit_char(n % 10)]
    }
}

/// The one-character string for digit `d`.
fn digit_str(d: u64) -> (r: &'static str)
    requires
        d < 10,
    ensures
        r@ == seq![digit_char(d as nat)],
{
    proof {
        reveal_strlit("0123456789");
    }
    let digits = "0123456789";
    let r = digits.substring_char(d as usize, d as usize + 1);
    assert(r@ =~= seq![digit_char(d as nat)]);
    r
}

/// Decimal notation of `n`.
pub fn decimal_string(n: u64) -> (r: String)
    ensures
        r@ == decimal(n as nat),
    decreases n,
{
    if n < 10 {
        owned(digit_str(n))
    } else {
        let mut r = decimal_string(n / 10);
        r.append(digit_str(n % 10));
        r
    }
}

/// `a` sorts strictly before `b` in lexicographic character order (the
/// order of `str`'s `Ord`, since UTF-8 preserves code point order).
pub open spec fn seq_lt(a: Seq<char>, b: Seq<char>) -> bool
    decreases a.len(),
{
    if b.len() == 0 {
        false
    } else if a.len() == 0 {
        true
    } else if a[0] != b[0] {
        a[0] < b[0]
    } else {
        seq_lt(a.drop_first(), b.drop_first())
    }
}

proof fn lemma_seq_lt_skip(a: Seq<char>, b: Seq<char>, i: int)
    requires
        0 <= i <= a.len(),
        i <= b.len(),
        forall|k: int| 0 <= k < i ==> a[k] == b[k],
    ensures
        seq_lt(a, b) == seq_lt(a.skip(i), b.skip(i)),
    decreases i,
{
    if i > 0 {
        assert(a.drop_first().skip(i - 1) =~= a.skip(i));
        assert(b.drop_first().skip(i - 1) =~= b.skip(i));
        assert forall|k: int| 0 <= k < i - 1 implies a.drop_first()[k] == b.drop_first()[k] by {
            assert(a[k + 1] == b[k + 1]);
        }
        lemma_seq_lt_skip(a.drop_first(), b.drop_first(), i - 1);
        assert(a.skip(0) =~= a);
    } else {
        assert(a.skip(0) =~= a);
        assert(b.skip(0) =~= b);
    }
}

/// `a` sorts strictly before `b`.
pub fn chars_lt(a: &Vec<char>, b: &Vec<char>) -> (r: bool)
    ensures
        r == seq_lt(a@, b@),
{
    let mut i: usize = 0;
    while i < a.len() && i < b.len()
        invariant
            i <= a.len(),
            i <= b.len(),
            forall|k: int| 0 <= k < i ==> a@[k] == b@[k],
        decreases a.len() - i,
    {
        if a[i] != b[i] {
            proof {
                lemma_seq_lt_skip(a@, b@, i as int);
                assert(a@.skip(i as int)[0] == a@[i as int]);
                assert(b@.skip(i as int)[0] == b@[i as int]);
            }
            return a[i] < b[i];
        }
        i += 1;
    }
    proof {
        lemma_seq_lt_skip(a@, b@, i as int);
    }
    i < b.len()
}

/// `a` sorts strictly before `b`.
pub fn str_lt(a: &str, b: &str) -> (r: bool)
    ensures
        r == seq_lt(a@, b@),
{
    let va = chars_of(a);
    let vb = chars_of(b);
    chars_lt(&va, &vb)
}

/// `s` with every `from` replaced by `to`.
pub open spec fn replace_char(s: Seq<char>, from: char, to: char) -> Seq<char> {
    s.map_values(|c: char| if c == from { to } else { c })
}

/// `s` with every `from` replaced by `to` (both given as one-character
/// strings).
pub fn replace_char_str(s: &str, from: char, to: &str) -> (r: String)
    requires
        to@.len() == 1,
    ensures
        r@ == replace_char(s@, from, to@[0]),
{
    let v = chars_of(s);
    let mut r = String::from_str("");
    proof {
        reveal_strlit("");
    }
    let mut i: usize = 0;
    while i < v.len()
        invariant
            i <= v.len(),
            v@ == s@,
            to@.len() == 1,
            r@ == replace_char(s@.take(i as int), from, to@[0]),
        decreases v.len() - i,
    {
        let piece = if v[i] == from {
            assert(to@ =~= seq![to@[0]]);
            to
        } else {
            let p = slice_chars(s, i, i + 1);
            assert(p@ =~= seq![s@[i as int]]);
            p
        };
        r.append(piece);
        proof {
            assert(replace_char(s@.take(i + 1), from, to@[0]) =~= replace_char(
                s@.take(i as int),
                from,
                to@[0],
            ).push(if s@[i as int] == from { to@[0] } else { s@[i as int] }));
        }
        i += 1;
    }
    assert(s@.take(i as int) =~= s@);
    r
}

/// `seq_lt` never relates a string to itself.
pub proof fn lemma_seq_lt_irreflexive(a: Seq<char>)
    ensures
        !seq_lt(a, a),
    decreases a.len(),
{
    if a.len() > 0 {
        lemma_seq_lt_irreflexive(a.drop_first());
    }
}

/// `seq_lt` is asymmetric.
pub proof fn lemma_seq_lt_asymmetric(a: Seq<char>, b: Seq<char>)
    ensures
        seq_lt(a, b) ==> !seq_lt(b, a),
    decreases a.len(),
{
    if a.len() > 0 && b.len() > 0 && a[0] == b[0] {
        lemma_seq_lt_asymmetric(a.drop_first(), b.drop_first());
    }
}

/// `seq_lt` is transitive.
pub proof fn lemma_seq_lt_transitive(a: Seq<char>, b: Seq<char>, c: Seq<char>)
    requires
        seq_lt(a, b),
        seq_lt(b, c),
    ensures
        seq_lt(a, c),
    decreases a.len(),
{
    if a.len() > 0 && b.len() > 0 && c.len() > 0 && a[0] == b[0] && b[0] == c[0] {
        lemma_seq_lt_transitive(a.drop_first(), b.drop_first(), c.drop_first());
    }
}

/// Of two different strings, one sorts before the other; when neither
/// does, they are equal.
pub proof fn lemma_seq_lt_total(a: Seq<char>, b: Seq<char>)
    ensures
        seq_lt(a, b) || seq_lt(b, a) || a == b,
    decreases a.len(),
{
    if a.len() > 0 && b.len() > 0 && a[0] == b[0] {
        lemma_seq_lt_total(a.drop_first(), b.drop_first());
        if a.drop_first() == b.drop_first() {
            assert(a =~= seq![a[0]] + a.drop_first());
            assert(b =~= seq![b[0]] + b.drop_first());
        }
    } else if a.len() == 0 && b.len() == 0 {
        assert(a =~= b);
    }
}

/// `c` is white space in the Unicode sense (`char::is_whitespace`).
pub open spec fn is_white_space(c: char) -> bool {
    c == ' ' || ('\t' <= c && c <= '\r') || c == '\u{85}' || c == '\u{a0}' || c == '\u{1680}' || (
    '\u{2000}' <= c && c <= '\u{200a}') || c == '\u{2028}' || c == '\u{2029}' || c == '\u{202f}'
        || c == '\u{205f}' || c == '\u{3000}'
}

/// `s` without its trailing white space.
pub open spec fn trim_end(s: Seq<char>) -> Seq<char>
    decreases s.len(),
{
    if s.len() > 0 && is_white_space(s.last()) {
        trim_end(s.drop_last())
    } else {
        s
    }
}

pub fn is_white_space_char(c: char) -> (b: bool)
    ensures
        b == is_white_space(c),
{
    c == ' ' || ('\t' <= c && c <= '\r') || c == '\u{85}' || c == '\u{a0}' || c == '\u{1680}' || (
    '\u{2000}' <= c && c <= '\u{200a}') || c == '\u{2028}' || c == '\u{2029}' || c == '\u{202f}'
        || c == '\u{205f}' || c == '\u{3000}'
}

/// `s` without its leading white space.
pub open spec fn trim_start(s: Seq<char>) -> Seq<char>
    decreases s.len(),
{
    if s.len() > 0 && is_white_space(s[0]) {
        trim_start(s.drop_first())
    } else {
        s
    }
}

/// `s` without leading and trailing white space.
pub open spec fn trim(s: Seq<char>) -> Seq<char> {
    trim_end(trim_start(s))
}

proof fn lemma_trim_start_shape(s: Seq<char>)
    ensures
        trim_start(s).len() == 0 || !is_white_space(trim_start(s)[0]),
    decreases s.len(),
{
    if s.len() > 0 && is_white_space(s[0]) {
        lemma_trim_start_shape(s.drop_first());
    }
}

proof fn lemma_trim_end_shape(s: Seq<char>)
    ensures
        trim_end(s).len() <= s.len(),
        trim_end(s) == s.take(trim_end(s).len() as int),
        trim_end(s).len() == 0 || !is_white_space(trim_end(s).last()),
    decreases s.len(),
{
    if s.len() > 0 && is_white_space(s.last()) {
        lemma_trim_end_shape(s.drop_last());
        assert(s.drop_last().take(trim_end(s).len() as int) =~= s.take(trim_end(s).len() as int));
    } else {
        assert(s.take(s.len() as int) =~= s);
    }
}

/// Trimming a trimmed string changes nothing.
pub proof fn lemma_trim_idempotent(s: Seq<char>)
    ensures
        trim(trim(s)) == trim(s),
{
    let a = trim_start(s);
    let b = trim_end(a);
    lemma_trim_start_shape(s);
    lemma_trim_end_shape(a);
    if b.len() > 0 {
        assert(b[0] == a[0]);
        assert(trim_start(b) == b);
    } else {
        assert(trim_start(b) == b);
    }
}

/// `s` without leading and trailing white space (`str::trim`).
pub fn trim_str<'a>(s: &'a str) -> (r: &'a str)
    ensures
        r@ == trim(s@),
{
    let v = chars_of(s);
    let mut start: usize = 0;
    assert(v@.subrange(0, v@.len() as int) =~= s@);
    while start < v.len() && is_white_space_char(v[start])
        invariant
            start <= v@.len(),
            v@ == s@,
            trim_start(v@.subrange(start as int, v@.len() as int)) == trim_start(s@),
        decreases v.len() - start,
    {
        assert(v@.subrange(start as int, v@.len() as int).drop_first() =~= v@.subrange(start + 1, v@.len() as int));
        start += 1;
    }
    let ghost ts = v@.subrange(start as int, v@.len() as int);
    assert(trim_start(ts) == ts);
    let mut end: usize = v.len();
    assert(v@.subrange(start as int, end as int) == ts);
    while end > start && is_white_space_char(v[end - 1])
        invariant
            start <= end <= v@.len(),
            v@ == s@,
            trim_end(v@.subrange(start as int, end as int)) == trim_end(ts),
        decreases end,
    {
        assert(v@.subrange(start as int, end as int).drop_last() =~= v@.subrange(start as int, end - 1));
        end -= 1;
    }
    assert(trim_end(v@.subrange(start as int, end as int)) == v@.subrange(start as int, end as int));
    slice_chars(s, start, end)
}

/// `pat` occurs in `s` at position `i`.
pub open spec fn occurs_at(s: Seq<char>, pat: Seq<char>, i: int) -> bool {
    0 <= i && i + pat.len() <= s.len() && s.subrange(i, i + pat.len()) == pat
}

/// First position where `pat` occurs in `s`.
pub open spec fn find_sub(s: Seq<char>, pat: Seq<char>) -> Option<int>
    decreases s.len(),
{
    if s.len() < pat.len() {
        None
    } else if occurs_at(s, pat, 0) {
        Some(0)
    } else if s.len() == 0 {
        None
    } else {
        match find_sub(s.drop_first(), pat) {
            Some(i) => Some(i + 1),
            None => None,
        }
    }
}

/// What `find_sub` returns.
pub proof fn lemma_find_sub(s: Seq<char>, pat: Seq<char>)
    ensures
        match find_sub(s, pat) {
            Some(i) => occurs_at(s, pat, i) && forall|k: int| 0 <= k < i ==> !occurs_at(s, pat, k),
            None => forall|k: int| 0 <= k ==> !occurs_at(s, pat, k),
        },
    decreases s.len(),
{
    if s.len() >= pat.len() && !occurs_at(s, pat, 0) && s.len() > 0 {
        lemma_find_sub(s.drop_first(), pat);
        assert forall|k: int| 1 <= k implies occurs_at(s, pat, k) == occurs_at(s.drop_first(), pat, k - 1) by {
            if k + pat.len() <= s.len() {
                assert(s.subrange(k, k + pat.len()) =~= s.drop_first().subrange(k - 1, k - 1 + pat.len()));
            }
        }
    }
}

/// `find_sub` returns the first occurrence.
pub proof fn lemma_find_sub_at(s: Seq<char>, pat: Seq<char>, i: int)
    requires
        0 <= i,
        occurs_at(s, pat, i) || i + pat.len() > s.len(),
        forall|k: int| 0 <= k < i ==> !occurs_at(s, pat, k),
    ensures
        find_sub(s, pat) == (if occurs_at(s, pat, i) { Some(i) } else { None::<int> }),
{
    lemma_find_sub(s, pat);
    if !occurs_at(s, pat, i) {
        match find_sub(s, pat) {
            Some(j) => {
                if j >= i {
                    assert(j + pat.len() > s.len());
                }
            },
            None => {},
        }
    }
}

/// First position at or after `from` where `pat` occurs in `v`.
pub fn find_sub_from(v: &Vec<char>, pat: &Vec<char>, from: usize) -> (r: Option<usize>)
    requires
        from <= v@.len(),
    ensures
        match r {
            Some(i) => {
                &&& from <= i
                &&& i + pat@.len() <= v@.len()
                &&& find_sub(v@.subrange(from as int, v@.len() as int), pat@) == Some(i - from)
            },
            None => find_sub(v@.subrange(from as int, v@.len() as int), pat@) is None,
        },
{
    let ghost t = v@.subrange(from as int, v@.len() as int);
    let mut i: usize = from;
    while pat.len() <= v.len() - i
        invariant
            from <= i <= v@.len(),
            t == v@.subrange(from as int, v@.len() as int),
            forall|k: int| 0 <= k < i - from ==> !occurs_at(t, pat@, k),
        decreases v.len() - i,
    {
        let found = chars_match_at(v, i, pat);
        proof {
            assert(t.subrange(i - from, i - from + pat@.len()) =~= v@.subrange(i as int, i + pat@.len()));
        }
        if found {
            proof {
                lemma_find_sub_at(t, pat@, i - from);
            }
            return Some(i);
        }
        proof {
            if pat@.len() == 0 {
                assert(v@.subrange(i as int, i as int) =~= pat@);
            }
        }
        i += 1;
    }
    proof {
        lemma_find_sub_at(t, pat@, i - from);
    }
    None
}

/// `pat` occurs somewhere in `s`.
pub fn contains_str(s: &str, pat: &str) -> (b: bool)
    ensures
        b == (find_sub(s@, pat@) is Some),
{
    let v = chars_of(s);
    let p = chars_of(pat);
    assert(v@.subrange(0, v@.len() as int) =~= s@);
    find_sub_from(&v, &p, 0).is_some()
}

/// `s` with every occurrence of `pat` (scanning left to right, without
/// overlap) replaced by `rep`.
pub open spec fn replace_all(s: Seq<char>, pat: Seq<char>, rep: Seq<char>) -> Seq<char>
    decreases s.len(),
{
    if pat.len() == 0 {
        s
    } else {
        match find_sub(s, pat) {
            Some(i) => {
                proof {
                    lemma_find_sub(s, pat);
                }
                s.subrange(0, i) + rep + replace_all(s.subrange(i + pat.len(), s.len() as int), pat, rep)
            },
            None => s,
        }
    }
}

/// `s` with every occurrence of `pat` replaced by `rep` (`str::replace`
/// for a non-empty pattern).
pub fn replace_str(s: &str, pat: &str, rep: &str) -> (r: String)
    requires
        pat@.len() > 0,
    ensures
        r@ == replace_all(s@, pat@, rep@),
{
    let v = chars_of(s);
    let p = chars_of(pat);
    let mut out = String::from_str("");
    proof {
        reveal_strlit("");
    }
    let mut start: usize = 0;
    assert(v@.subrange(0, v@.len() as int) =~= s@);
    loop
        invariant
            start <= v@.len(),
            v@ == s@,
            p@ == pat@,
            pat@.len() > 0,
            replace_all(s@, pat@, rep@) == out@ + replace_all(v@.subrange(start as int, v@.len() as int), pat@, rep@),
        decreases v@.len() - start,
    {
        let ghost t = v@.subrange(start as int, v@.len() as int);
        match find_sub_from(&v, &p, start) {
            Some(i) => {
                proof {
                    lemma_find_sub(t, pat@);
                    assert(t.subrange(0, i - start) =~= v@.subrange(start as int, i as int));
                    assert(t.subrange(i - start + pat@.len(), t.len() as int) =~= v@.subrange(i + pat@.len(), v@.len() as int));
                }
                let n: usize = v.len();
                assert(i + p@.len() <= n);
                out.append(slice_chars(s, start, i));
                out.append(rep);
                start = i + p.len();
            },
            None => {
                out.append(slice_chars(s, start, v.len()));
                return out;
            },
        }
    }
}

/// The character sequences of a list of strings.
pub open spec fn views(v: Seq<String>) -> Seq<Seq<char>> {
    v.map_values(|s: String| s@)
}

/// Appends a fresh copy of `s` to `v`.
pub fn push_owned(v: &mut Vec<String>, s: &str)
    ensures
        views(final(v)@) == views(old(v)@).push(s@),
{
    v.push(String::from_str(s));
    assert(views(v@) =~= views(old(v)@).push(s@));
}

/// Fresh copies of the strings in `v`.
pub fn copy_strings(v: &Vec<String>) -> (r: Vec<String>)
    ensures
        views(r@) == views(v@),
{
    let mut r: Vec<String> = Vec::new();
    let mut i: usize = 0;
    while i < v.len()
        invariant
            i <= v@.len(),
            views(r@) == views(v@).take(i as int),
        decreases v.len() - i,
    {
        push_owned(&mut r, v[i].as_str());
        assert(views(v@).take(i + 1) =~= views(v@).take(i as int).push(v@[i as int]@));
        i += 1;
    }
    assert(views(v@).take(v@.len() as int) =~= views(v@));
    r
}

/// First position of `c` in `v` at or after `from`.
pub fn find_char_from(v: &Vec<char>, c: char, from: usize) -> (r: Option<usize>)
    requires
        from <= v@.len(),
    ensures
        r matches Some(i) ==> from <= i < v@.len() && find_char(v@.subrange(from as int, v@.len() as int), c) == Some(i - from),
        r is None ==> find_char(v@.subrange(from as int, v@.len() as int), c) is None,
{
    let ghost t = v@.subrange(from as int, v@.len() as int);
    let mut i: usize = from;
    while i < v.len()
        invariant
            from <= i <= v@.len(),
            t == v@.subrange(from as int, v@.len() as int),
            forall|k: int| 0 <= k < i - from ==> t[k] != c,
        decreases v.len() - i,
    {
        if v[i] == c {
            proof {
                lemma_find_char_at(t, c, i - from);
            }
            return Some(i);
        }
        i += 1;
    }
    proof {
        lemma_find_char_at(t, c, t.len() as int);
    }
    None
}

/// The lines of `s`: the pieces between `'\n'` characters.
pub open spec fn lines_of(s: Seq<char>) -> Seq<Seq<char>>
    decreases s.len(),
{
    match find_char(s, '\n') {
        None => seq![s],
        Some(i) => {
            proof {
                lemma_find_char(s, '\n');
            }
            seq![s.subrange(0, i)] + lines_of(s.subrange(i + 1, s.len() as int))
        },
    }
}

/// The lines of `s` (see `lines_of`).
pub fn split_lines(s: &str) -> (r: Vec<String>)
    ensures
        views(r@) == lines_of(s@),
{
    let v = chars_of(s);
    let mut out: Vec<String> = Vec::new();
    let mut start: usize = 0;
    assert(v@.subrange(0, v@.len() as int) =~= s@);
    loop
        invariant
            start <= v@.len(),
            v@ == s@,
            lines_of(s@) == views(out@) + lines_of(v@.subrange(start as int, v@.len() as int)),
        decreases v@.len() - start,
    {
        let ghost t = v@.subrange(start as int, v@.len() as int);
        match find_char_from(&v, '\n', start) {
            Some(i) => {
                proof {
                    lemma_find_char(t, '\n');
                    assert(t.subrange(0, i - start) =~= v@.subrange(start as int, i as int));
                    assert(t.subrange(i - start + 1, t.len() as int) =~= v@.subrange(i + 1, v@.len() as int));
                }
                let n: usize = v.len();
                assert(i < n);
                let piece = slice_chars(s, start, i);
                let ghost prev = views(out@);
                push_owned(&mut out, piece);
                proof {
                    let rest = lines_of(v@.subrange(i + 1, v@.len() as int));
                    assert(lines_of(t) == seq![piece@] + rest);
                    assert(prev + (seq![piece@] + rest) =~= views(out@) + rest);
                }
                start = i + 1;
            },
            None => {
                let piece = slice_chars(s, start, v.len());
                let ghost prev = views(out@);
                push_owned(&mut out, piece);
                proof {
                    assert(lines_of(t) == seq![piece@]);
                    assert(prev + seq![piece@] =~= views(out@));
                }
                return out;
            },
        }
    }
}

} // verus!
