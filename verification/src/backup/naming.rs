//! Names of archived versions in the mirror's `.versions/` tree.
//!
//! A file `famille.jpg` replaced at `2026-05-14-153022` is archived as
//! `famille-2026-05-14-153022.jpg`; an extension-less `README` becomes
//! `README-2026-05-14-153022`. `parse_versioned_name` recovers the
//! canonical name and the timestamp from such a name.

use vstd::prelude::*;
use crate::text::{chars_of, rfind_char_in, rfind_char, lemma_rfind_char, lemma_rfind_char_at, concat3, slice_chars, owned};

verus! {

broadcast use vstd::string::group_string_axioms;

/// `c` is one of `0`..`9`.
pub open spec fn is_digit(c: char) -> bool {
    '0' <= c && c <= '9'
}

/// `s` has the shape `YYYY-MM-DD-HHMMSS` (17 characters; the numbers are
/// not range-checked).
pub open spec fn is_timestamp(s: Seq<char>) -> bool {
    &&& s.len() == 17
    &&& is_digit(s[0]) && is_digit(s[1]) && is_digit(s[2]) && is_digit(s[3])
    &&& s[4] == '-'
    &&& is_digit(s[5]) && is_digit(s[6])
    &&& s[7] == '-'
    &&& is_digit(s[8]) && is_digit(s[9])
    &&& s[10] == '-'
    &&& is_digit(s[11]) && is_digit(s[12]) && is_digit(s[13]) && is_digit(s[14])
    &&& is_digit(s[15]) && is_digit(s[16])
}

/// The archived name of `name` at `ts`: `-<ts>` goes before the last
/// extension, or at the end when the name has no extension (a leading
/// dot, as in `.gitkeep`, does not start an extension).
pub open spec fn versioned_name(name: Seq<char>, ts: Seq<char>) -> Seq<char> {
    match rfind_char(name, '.') {
        Some(i) => if i > 0 {
            name.subrange(0, i) + seq!['-'] + ts + seq!['.'] + name.subrange(i + 1, name.len() as int)
        } else {
            name + seq!['-'] + ts
        },
        None => name + seq!['-'] + ts,
    }
}

/// The canonical name and timestamp encoded in an archived name, when it
/// has the `<stem>-<ts>[.<ext>]` shape.
pub open spec fn parsed_versioned_name(name: Seq<char>) -> Option<(Seq<char>, Seq<char>)> {
    let dot = rfind_char(name, '.');
    let head = match dot {
        Some(i) => name.subrange(0, i),
        None => name,
    };
    if head.len() < 18 {
        None
    } else {
        let ts = head.subrange(head.len() - 17, head.len() as int);
        if !is_timestamp(ts) || head[head.len() - 18] != '-' {
            None
        } else {
            let stem = head.subrange(0, head.len() - 18);
            let canonical = match dot {
                Some(i) => stem + seq!['.'] + name.subrange(i + 1, name.len() as int),
                None => stem,
            };
            Some((canonical, ts))
        }
    }
}

fn is_digit_char(c: char) -> (b: bool)
    ensures
        b == is_digit(c),
{
    '0' <= c && c <= '9'
}

/// `s` has the shape `YYYY-MM-DD-HHMMSS`.
pub fn looks_like_timestamp(s: &str) -> (b: bool)
    ensures
        b == is_timestamp(s@),
{
    let v = chars_of(s);
    if v.len() != 17 {
        return false;
    }
    is_digit_char(v[0]) && is_digit_char(v[1]) && is_digit_char(v[2]) && is_digit_char(v[3])
        && v[4] == '-' && is_digit_char(v[5]) && is_digit_char(v[6]) && v[7] == '-'
        && is_digit_char(v[8]) && is_digit_char(v[9]) && v[10] == '-' && is_digit_char(v[11])
        && is_digit_char(v[12]) && is_digit_char(v[13]) && is_digit_char(v[14])
        && is_digit_char(v[15]) && is_digit_char(v[16])
}

/// Insert `-<timestamp>` between the stem and the extension of `name`.
pub fn versioned_basename(name: &str, timestamp: &str) -> (r: String)
    ensures
        r@ == versioned_name(name@, timestamp@),
{
    proof {
        reveal_strlit("-");
        reveal_strlit(".");
    }
    let v = chars_of(name);
    proof {
        lemma_rfind_char(v@, '.');
    }
    match rfind_char_in(&v, '.') {
        Some(i) => {
            assert(i < v.len());
            if i > 0 {
                let mut r = concat3(slice_chars(name, 0, i), "-", timestamp);
                r.append(".");
                r.append(slice_chars(name, i + 1, v.len()));
                r
            } else {
                concat3(name, "-", timestamp)
            }
        },
        None => concat3(name, "-", timestamp),
    }
}

/// Recover `(canonical_name, timestamp)` from an archived name, or `None`
/// when the name does not end in `-YYYY-MM-DD-HHMMSS` (before its
/// extension).
pub fn parse_versioned_name(name: &str) -> (r: Option<(String, String)>)
    ensures
        match r {
            Some((c, t)) => parsed_versioned_name(name@) == Some((c@, t@)),
            None => parsed_versioned_name(name@) is None,
        },
{
    proof {
        reveal_strlit(".");
    }
    let v = chars_of(name);
    let dot = rfind_char_in(&v, '.');
    proof {
        lemma_rfind_char(v@, '.');
    }
    let head: &str = match dot {
        Some(i) => slice_chars(name, 0, i),
        None => name,
    };
    let hv = chars_of(head);
    let hl = hv.len();
    if hl < 18 {
        return None;
    }
    let ts = slice_chars(head, hl - 17, hl);
    if !looks_like_timestamp(ts) || hv[hl - 18] != '-' {
        return None;
    }
    let stem = slice_chars(head, 0, hl - 18);
    let canonical = match dot {
        Some(i) => {
            assert(i < v.len());
            concat3(stem, ".", slice_chars(name, i + 1, v.len()))
        },
        None => owned(stem),
    };
    Some((canonical, owned(ts)))
}

/// `rfind_char` of a concatenation whose second part holds no `c`.
pub proof fn lemma_rfind_concat_without(a: Seq<char>, b: Seq<char>, c: char)
    requires
        forall|k: int| 0 <= k < b.len() ==> b[k] != c,
    ensures
        rfind_char(a + b, c) == rfind_char(a, c),
{
    lemma_rfind_char(a, c);
    let ab = a + b;
    match rfind_char(a, c) {
        Some(i) => {
            assert forall|k: int| i < k < ab.len() implies ab[k] != c by {
                if k >= a.len() {
                    assert(ab[k] == b[k - a.len()]);
                }
            }
            lemma_rfind_char_at(ab, c, i);
        },
        None => {
            assert forall|k: int| -1 < k < ab.len() implies ab[k] != c by {
                if k >= a.len() {
                    assert(ab[k] == b[k - a.len()]);
                }
            }
            lemma_rfind_char_at(ab, c, -1);
        },
    }
}

/// A timestamp holds no dot.
pub proof fn lemma_timestamp_has_no_dot(ts: Seq<char>)
    requires
        is_timestamp(ts),
    ensures
        forall|k: int| 0 <= k < ts.len() ==> ts[k] != '.',
{
}

/// Archiving then parsing gives back the canonical name and the
/// timestamp, for every name whose last dot is not its first character
/// (`.gitkeep` archives as `.gitkeep-<ts>`, which no longer has the
/// `<stem>-<ts>.<ext>` shape).
pub proof fn lemma_versioned_name_round_trip(name: Seq<char>, ts: Seq<char>)
    requires
        is_timestamp(ts),
        rfind_char(name, '.') != Some(0int),
    ensures
        parsed_versioned_name(versioned_name(name, ts)) == Some((name, ts)),
{
    lemma_rfind_char(name, '.');
    lemma_timestamp_has_no_dot(ts);
    let dash_ts = seq!['-'] + ts;
    assert forall|k: int| 0 <= k < dash_ts.len() implies dash_ts[k] != '.' by {
        if k > 0 {
            assert(dash_ts[k] == ts[k - 1]);
        }
    }
    match rfind_char(name, '.') {
        Some(i) => {
            let stem = name.subrange(0, i);
            let ext = name.subrange(i + 1, name.len() as int);
            let v = stem + seq!['-'] + ts + seq!['.'] + ext;
            assert forall|k: int| 0 <= k < ext.len() implies ext[k] != '.' by {
                assert(ext[k] == name[i + 1 + k]);
            }
            let front = stem + seq!['-'] + ts + seq!['.'];
            assert(v =~= front + ext);
            lemma_rfind_concat_without(front, ext, '.');
            lemma_rfind_char_at(front, '.', front.len() - 1);
            let head = v.subrange(0, front.len() - 1);
            assert(head =~= stem + seq!['-'] + ts);
            assert(head.subrange(head.len() - 17, head.len() as int) =~= ts);
            assert(head[head.len() - 18] == '-');
            assert(head.subrange(0, head.len() - 18) =~= stem);
            assert(v.subrange(front.len() as int, v.len() as int) =~= ext);
            assert(stem + seq!['.'] + ext =~= name) by {
                assert forall|k: int| 0 <= k < name.len() implies (stem + seq!['.'] + ext)[k] == name[k] by {
                    if k < i {
                    } else if k == i {
                    } else {
                    }
                }
            }
        },
        None => {
            let v = name + seq!['-'] + ts;
            assert(v =~= name + dash_ts);
            lemma_rfind_concat_without(name, dash_ts, '.');
            lemma_rfind_char_at(name, '.', -1);
            assert(v.subrange(v.len() - 17, v.len() as int) =~= ts);
            assert(v[v.len() - 18] == '-');
            assert(v.subrange(0, v.len() - 18) =~= name);
        },
    }
}

} // verus!
