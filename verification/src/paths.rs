//! Windows path arithmetic on strings: separators are `\` and `/`;
//! joining follows `Path::join` (see `crate::win_path::pushed`), and the
//! helpers here split paths at separators.

use vstd::prelude::*;
use crate::text::{chars_of, owned, concat2, concat3, slice_chars, chars_match_at};
use crate::win_path::{pushed, push_path};

verus! {

broadcast use vstd::string::group_string_axioms;

/// `c` separates path components.
pub open spec fn is_sep(c: char) -> bool {
    c == '/' || c == '\\'
}

/// `p` starts with a separator (`\dir`, `\\host\share`) or has `:` as its
/// second character (`C:...`).
pub open spec fn is_absolute(p: Seq<char>) -> bool {
    (p.len() > 0 && is_sep(p[0])) || (p.len() > 1 && p[1] == ':')
}

/// `base` joined with `name`, as `Path::join` does on Windows (see
/// `pushed`).
pub open spec fn join(base: Seq<char>, name: Seq<char>) -> Seq<char> {
    pushed(base, name)
}

/// `c` is a path separator.
pub fn is_sep_char(c: char) -> (b: bool)
    ensures
        b == is_sep(c),
{
    c == '/' || c == '\\'
}

/// `base` joined with `name` (see `join`).
pub fn join_path(base: &str, name: &str) -> (r: String)
    ensures
        r@ == join(base@, name@),
{
    let mut r = owned(base);
    push_path(&mut r, name);
    r
}

/// The components of `p` between separators, empty ones included.
pub open spec fn segments(p: Seq<char>) -> Seq<Seq<char>>
    decreases p.len(),
{
    match find_sep(p) {
        Some(i) => {
            proof {
                lemma_find_sep(p);
            }
            seq![p.subrange(0, i)] + segments(p.subrange(i + 1, p.len() as int))
        },
        None => seq![p],
    }
}

/// Index of the first separator of `p`.
pub open spec fn find_sep(p: Seq<char>) -> Option<int>
    decreases p.len(),
{
    if p.len() == 0 {
        None
    } else if is_sep(p[0]) {
        Some(0)
    } else {
        match find_sep(p.drop_first()) {
            Some(i) => Some(i + 1),
            None => None,
        }
    }
}

/// What `find_sep` returns.
pub proof fn lemma_find_sep(p: Seq<char>)
    ensures
        match find_sep(p) {
            Some(i) => 0 <= i < p.len() && is_sep(p[i]) && forall|k: int| 0 <= k < i ==> !is_sep(p[k]),
            None => forall|k: int| 0 <= k < p.len() ==> !is_sep(p[k]),
        },
    decreases p.len(),
{
    if p.len() > 0 && !is_sep(p[0]) {
        lemma_find_sep(p.drop_first());
        assert forall|k: int| 0 < k < p.len() implies p[k] == p.drop_first()[k - 1] by {}
    }
}

/// `find_sep` returns the first separator position.
pub proof fn lemma_find_sep_at(p: Seq<char>, i: int)
    requires
        0 <= i <= p.len(),
        i < p.len() ==> is_sep(p[i]),
        forall|k: int| 0 <= k < i ==> !is_sep(p[k]),
    ensures
        find_sep(p) == (if i < p.len() { Some(i) } else { None::<int> }),
{
    lemma_find_sep(p);
}

/// First separator at or after `from` in `v`.
pub fn find_sep_from(v: &Vec<char>, from: usize) -> (r: Option<usize>)
    requires
        from <= v@.len(),
    ensures
        match r {
            Some(i) => from <= i < v@.len() && find_sep(v@.subrange(from as int, v@.len() as int)) == Some(
                i - from,
            ),
            None => find_sep(v@.subrange(from as int, v@.len() as int)) is None,
        },
{
    let ghost tail = v@.subrange(from as int, v@.len() as int);
    let mut i: usize = from;
    while i < v.len()
        invariant
            from <= i <= v@.len(),
            tail == v@.subrange(from as int, v@.len() as int),
            forall|k: int| from <= k < i ==> !is_sep(v@[k]),
        decreases v.len() - i,
    {
        if is_sep_char(v[i]) {
            proof {
                assert forall|k: int| 0 <= k < i - from implies !is_sep(tail[k]) by {
                    assert(tail[k] == v@[from + k]);
                }
                lemma_find_sep_at(tail, i - from);
            }
            return Some(i);
        }
        i += 1;
    }
    proof {
        assert forall|k: int| 0 <= k < tail.len() implies !is_sep(tail[k]) by {
            assert(tail[k] == v@[from + k]);
        }
        lemma_find_sep_at(tail, tail.len() as int);
    }
    None
}

/// Some component of `p` is exactly `name`.
pub open spec fn has_segment(p: Seq<char>, name: Seq<char>) -> bool {
    segments(p).contains(name)
}

/// The first component of `p`.
pub open spec fn first_segment(p: Seq<char>) -> Seq<char> {
    segments(p)[0]
}

/// The first component of `p` (the whole of `p` when it has no
/// separator).
pub fn first_segment_of<'a>(p: &'a str) -> (r: &'a str)
    ensures
        r@ == first_segment(p@),
{
    let v = chars_of(p);
    match find_sep_from(&v, 0) {
        Some(i) => {
            assert(v@.subrange(0, v@.len() as int) =~= p@);
            slice_chars(p, 0, i)
        },
        None => {
            assert(v@.subrange(0, v@.len() as int) =~= p@);
            p
        },
    }
}

/// Some component of `p` is exactly `name`.
pub fn contains_segment(p: &str, name: &str) -> (b: bool)
    ensures
        b == has_segment(p@, name@),
{
    let v = chars_of(p);
    let n = chars_of(name);
    let mut start: usize = 0;
    let ghost mut seen: Seq<Seq<char>> = Seq::empty();
    assert(v@.subrange(0, v@.len() as int) =~= p@);
    loop
        invariant
            start <= v@.len(),
            n@ == name@,
            v@ == p@,
            segments(p@) == seen + segments(v@.subrange(start as int, v@.len() as int)),
            !seen.contains(name@),
        decreases v@.len() - start,
    {
        let ghost rest = v@.subrange(start as int, v@.len() as int);
        match find_sep_from(&v, start) {
            Some(i) => {
                let ghost seg = v@.subrange(start as int, i as int);
                let is_it = chars_match_at(&v, start, &n) && n.len() == i - start;
                proof {
                    assert(rest.subrange(0, i - start) =~= seg);
                    assert(rest.subrange(i - start + 1, rest.len() as int) =~= v@.subrange(
                        i + 1,
                        v@.len() as int,
                    ));
                    assert(segments(rest) == seq![seg] + segments(v@.subrange(i + 1, v@.len() as int)));
                }
                if is_it {
                    proof {
                        assert(seg =~= n@);
                        assert(segments(p@)[seen.len() as int] == seg);
                    }
                    return true;
                }
                proof {
                    if seg == name@ {
                        assert(seg.len() == n@.len());
                        assert(v@.subrange(start as int, start + n@.len()) =~= seg);
                    }
                    assert(seen + segments(rest) =~= seen.push(seg) + segments(
                        v@.subrange(i + 1, v@.len() as int),
                    ));
                    seen = seen.push(seg);
                }
                assert(i < v.len());
                start = i + 1;
            },
            None => {
                let is_it = chars_match_at(&v, start, &n) && n.len() == v.len() - start;
                proof {
                    assert(segments(rest) == seq![rest]);
                    if is_it {
                        assert(rest =~= n@);
                    }
                    if rest == name@ {
                        assert(v@.subrange(start as int, start + n@.len()) =~= rest);
                    }
                    assert(segments(p@) =~= seen.push(rest));
                    if !is_it {
                        assert forall|k: int| 0 <= k < seen.len() + 1 implies seen.push(rest)[k] != name@ by {
                            if k < seen.len() {
                                assert(seen.push(rest)[k] == seen[k]);
                            }
                        }
                    } else {
                        assert(seen.push(rest)[seen.len() as int] == name@);
                    }
                }
                return is_it;
            },
        }
    }
}

} // verus!
