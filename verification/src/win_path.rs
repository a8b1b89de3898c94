//! Windows paths read as components, the way `std::path::Path` reads them
//! on Windows: an optional prefix (`C:`, `\\server\share`, `\\.\device`,
//! and the verbatim forms `\\?\...`), a root, then the names between
//! separators. Both `\` and `/` separate, except in verbatim paths where
//! only `\` does; empty names and `.` after the start are dropped.
//!
//! Paths compare component by component: a prefix before a root before
//! `.` before `..` before a name, names by their characters, prefixes by
//! kind and then by their fields, a drive letter without regard to case.
//! Two paths are the same when their components are.

use vstd::prelude::*;
use crate::paths::is_sep;
use crate::text::{
    views, seq_lt, str_lt, str_eq, owned, slice_chars, chars_of, lemma_seq_lt_asymmetric, lemma_seq_lt_irreflexive,
    lemma_seq_lt_transitive, lemma_seq_lt_total,
};

verus! {

broadcast use vstd::string::group_string_axioms;

/// A path prefix, as parsed.
pub enum PrefixView {
    /// `\\?\name`
    Verbatim(Seq<char>),
    /// `\\?\UNC\server\share`
    VerbatimUnc(Seq<char>, Seq<char>),
    /// `\\?\C:`, with the drive letter's upper-case code
    VerbatimDisk(u32),
    /// `\\.\device`
    DeviceNs(Seq<char>),
    /// `\\server\share`
    Unc(Seq<char>, Seq<char>),
    /// `C:`, with the drive letter's upper-case code
    Disk(u32),
}

/// A path component, as parsed.
pub enum PartView {
    Prefix(PrefixView),
    RootDir,
    CurDir,
    ParentDir,
    Normal(Seq<char>),
}

/// `c` separates components: `\` only in a verbatim path, else `\` or `/`.
pub open spec fn is_part_sep(c: char, verbatim: bool) -> bool {
    if verbatim {
        c == '\\'
    } else {
        is_sep(c)
    }
}

/// Index of the first separator of `s`.
pub open spec fn first_sep(s: Seq<char>, verbatim: bool) -> Option<int>
    decreases s.len(),
{
    if s.len() == 0 {
        None
    } else if is_part_sep(s[0], verbatim) {
        Some(0)
    } else {
        match first_sep(s.drop_first(), verbatim) {
            Some(i) => Some(i + 1),
            None => None,
        }
    }
}

/// `s` split at its first separator: what comes before it, and what
/// comes after it (nothing when there is no separator).
pub open spec fn next_piece(s: Seq<char>, verbatim: bool) -> (Seq<char>, Seq<char>) {
    match first_sep(s, verbatim) {
        Some(i) => (s.take(i), s.skip(i + 1)),
        None => (s, Seq::empty()),
    }
}

/// `c` is an ASCII letter.
pub open spec fn is_drive_letter(c: char) -> bool {
    ('a' <= c && c <= 'z') || ('A' <= c && c <= 'Z')
}

/// The code of the upper-case form of the drive letter `c`.
pub open spec fn drive_code(c: char) -> u32 {
    if 'a' <= c && c <= 'z' {
        (c as u32 - 32) as u32
    } else {
        c as u32
    }
}

/// `s` starts with a drive: a letter and `:`.
pub open spec fn drive_at(s: Seq<char>) -> bool {
    s.len() >= 2 && is_drive_letter(s[0]) && s[1] == ':'
}

/// The prefix of `s` and its length in characters, if it has one.
pub open spec fn prefix_of(s: Seq<char>) -> Option<(PrefixView, int)> {
    if s.len() >= 2 && is_sep(s[0]) && is_sep(s[1]) {
        if s.len() >= 4 && s[0] == '\\' && s[1] == '\\' && s[2] == '?' && s[3] == '\\' {
            let t = s.skip(4);
            if t.len() >= 4 && t[0] == 'U' && t[1] == 'N' && t[2] == 'C' && is_sep(t[3]) {
                let server = next_piece(t.skip(4), true).0;
                let share = next_piece(next_piece(t.skip(4), true).1, true).0;
                Some(
                    (
                        PrefixView::VerbatimUnc(server, share),
                        8 + server.len() + if share.len() > 0 {
                            1 + share.len() as int
                        } else {
                            0
                        } as int,
                    ),
                )
            } else if drive_at(t) && (t.len() == 2 || is_sep(t[2])) {
                Some((PrefixView::VerbatimDisk(drive_code(t[0])), 6))
            } else {
                let x = next_piece(t, true).0;
                Some((PrefixView::Verbatim(x), (4 + x.len()) as int))
            }
        } else if s.len() >= 4 && s[2] == '.' && is_sep(s[3]) {
            let x = next_piece(s.skip(4), false).0;
            Some((PrefixView::DeviceNs(x), (4 + x.len()) as int))
        } else {
            let server = next_piece(s.skip(2), false).0;
            let share = next_piece(next_piece(s.skip(2), false).1, false).0;
            if server.len() > 0 && share.len() > 0 {
                Some((PrefixView::Unc(server, share), (3 + server.len() + share.len()) as int))
            } else {
                None
            }
        }
    } else if drive_at(s) {
        Some((PrefixView::Disk(drive_code(s[0])), 2))
    } else {
        None
    }
}

/// The length of the prefix of `s` (0 without one).
pub open spec fn prefix_len(s: Seq<char>) -> int {
    match prefix_of(s) {
        Some((_, n)) => n,
        None => 0,
    }
}

/// A verbatim prefix (`\\?\...`).
pub open spec fn is_verbatim(k: PrefixView) -> bool {
    k is Verbatim || k is VerbatimUnc || k is VerbatimDisk
}

/// The component that the text between two separators gives: none for
/// an empty text or, outside verbatim paths, for `.`.
pub open spec fn piece_parts(c: Seq<char>, verbatim: bool) -> Seq<PartView> {
    if c.len() == 0 {
        Seq::empty()
    } else if c == seq!['.'] {
        if verbatim {
            seq![PartView::CurDir]
        } else {
            Seq::empty()
        }
    } else if c == seq!['.', '.'] {
        seq![PartView::ParentDir]
    } else {
        seq![PartView::Normal(c)]
    }
}

/// The components of `b`, where `cur` is the text read since the last
/// separator.
pub open spec fn body_parts_from(b: Seq<char>, cur: Seq<char>, verbatim: bool) -> Seq<PartView>
    decreases b.len(),
{
    if b.len() == 0 {
        piece_parts(cur, verbatim)
    } else if is_part_sep(b[0], verbatim) {
        piece_parts(cur, verbatim) + body_parts_from(b.drop_first(), Seq::empty(), verbatim)
    } else {
        body_parts_from(b.drop_first(), cur.push(b[0]), verbatim)
    }
}

/// The components of the part of a path after its prefix and root.
pub open spec fn body_parts(b: Seq<char>, verbatim: bool) -> Seq<PartView> {
    body_parts_from(b, Seq::empty(), verbatim)
}

/// The components of the path `s`. A root comes from a separator right
/// after the prefix, and is implied by a UNC or device prefix; a leading
/// `.` is kept only in a path with neither prefix nor root.
#[verifier::opaque]
pub open spec fn parts(s: Seq<char>) -> Seq<PartView> {
    match prefix_of(s) {
        Some((k, n)) => {
            let rest = s.skip(n);
            if rest.len() > 0 && is_sep(rest[0]) {
                seq![PartView::Prefix(k), PartView::RootDir] + body_parts(rest.drop_first(), is_verbatim(k))
            } else if !is_verbatim(k) && !(k is Disk) {
                seq![PartView::Prefix(k), PartView::RootDir] + body_parts(rest, false)
            } else {
                seq![PartView::Prefix(k)] + body_parts(rest, is_verbatim(k))
            }
        },
        None => {
            if s.len() > 0 && is_sep(s[0]) {
                seq![PartView::RootDir] + body_parts(s.drop_first(), false)
            } else if s.len() > 0 && s[0] == '.' && (s.len() == 1 || is_sep(s[1])) {
                seq![PartView::CurDir] + body_parts(s.drop_first(), false)
            } else {
                body_parts(s, false)
            }
        },
    }
}

// ---------------------------------------------------------------------
// Order and sameness

/// The place of a prefix kind in the order of prefixes.
pub open spec fn prefix_rank(k: PrefixView) -> int {
    match k {
        PrefixView::Verbatim(_) => 0,
        PrefixView::VerbatimUnc(_, _) => 1,
        PrefixView::VerbatimDisk(_) => 2,
        PrefixView::DeviceNs(_) => 3,
        PrefixView::Unc(_, _) => 4,
        PrefixView::Disk(_) => 5,
    }
}

/// Two names, then two more, in lexicographic order.
pub open spec fn pair_lt(x1: Seq<char>, y1: Seq<char>, x2: Seq<char>, y2: Seq<char>) -> bool {
    seq_lt(x1, x2) || (x1 == x2 && seq_lt(y1, y2))
}

/// `a` sorts strictly before `b`: by kind, then by fields.
pub open spec fn prefix_lt(a: PrefixView, b: PrefixView) -> bool {
    if prefix_rank(a) != prefix_rank(b) {
        prefix_rank(a) < prefix_rank(b)
    } else {
        match (a, b) {
            (PrefixView::Verbatim(x), PrefixView::Verbatim(y)) => seq_lt(x, y),
            (PrefixView::VerbatimUnc(x1, y1), PrefixView::VerbatimUnc(x2, y2)) => pair_lt(x1, y1, x2, y2),
            (PrefixView::VerbatimDisk(c), PrefixView::VerbatimDisk(d)) => c < d,
            (PrefixView::DeviceNs(x), PrefixView::DeviceNs(y)) => seq_lt(x, y),
            (PrefixView::Unc(x1, y1), PrefixView::Unc(x2, y2)) => pair_lt(x1, y1, x2, y2),
            (PrefixView::Disk(c), PrefixView::Disk(d)) => c < d,
            _ => false,
        }
    }
}

/// The place of a component kind in the order of components.
pub open spec fn part_rank(p: PartView) -> int {
    match p {
        PartView::Prefix(_) => 0,
        PartView::RootDir => 1,
        PartView::CurDir => 2,
        PartView::ParentDir => 3,
        PartView::Normal(_) => 4,
    }
}

/// `p` sorts strictly before `q`.
pub open spec fn part_lt(p: PartView, q: PartView) -> bool {
    if part_rank(p) != part_rank(q) {
        part_rank(p) < part_rank(q)
    } else {
        match (p, q) {
            (PartView::Prefix(a), PartView::Prefix(b)) => prefix_lt(a, b),
            (PartView::Normal(x), PartView::Normal(y)) => seq_lt(x, y),
            _ => false,
        }
    }
}

/// Component lists in lexicographic order.
pub open spec fn parts_lt(a: Seq<PartView>, b: Seq<PartView>) -> bool
    decreases a.len(),
{
    if b.len() == 0 {
        false
    } else if a.len() == 0 {
        true
    } else if a[0] != b[0] {
        part_lt(a[0], b[0])
    } else {
        parts_lt(a.drop_first(), b.drop_first())
    }
}

/// The path `a` sorts strictly before the path `b`.
#[verifier::opaque]
pub open spec fn path_lt(a: Seq<char>, b: Seq<char>) -> bool {
    parts_lt(parts(a), parts(b))
}

/// `a` and `b` name the same path: their components are equal.
#[verifier::opaque]
pub open spec fn same_path(a: Seq<char>, b: Seq<char>) -> bool {
    parts(a) == parts(b)
}

proof fn lemma_pair_lt_order(
    x1: Seq<char>,
    y1: Seq<char>,
    x2: Seq<char>,
    y2: Seq<char>,
    x3: Seq<char>,
    y3: Seq<char>,
)
    ensures
        !pair_lt(x1, y1, x1, y1),
        (x1 != x2 || y1 != y2) ==> pair_lt(x1, y1, x2, y2) || pair_lt(x2, y2, x1, y1),
        pair_lt(x1, y1, x2, y2) && pair_lt(x2, y2, x3, y3) ==> pair_lt(x1, y1, x3, y3),
{
    lemma_seq_lt_irreflexive(x1);
    lemma_seq_lt_irreflexive(y1);
    lemma_seq_lt_total(x1, x2);
    lemma_seq_lt_total(y1, y2);
    if pair_lt(x1, y1, x2, y2) && pair_lt(x2, y2, x3, y3) {
        if seq_lt(x1, x2) && seq_lt(x2, x3) {
            lemma_seq_lt_transitive(x1, x2, x3);
        } else if seq_lt(y1, y2) && seq_lt(y2, y3) {
            lemma_seq_lt_transitive(y1, y2, y3);
        }
    }
}

proof fn lemma_prefix_lt_total(a: PrefixView, b: PrefixView)
    ensures
        !prefix_lt(a, a),
        a != b ==> prefix_lt(a, b) || prefix_lt(b, a),
{
    match (a, b) {
        (PrefixView::Verbatim(x), PrefixView::Verbatim(y)) => {
            lemma_seq_lt_irreflexive(x);
            lemma_seq_lt_total(x, y);
        },
        (PrefixView::VerbatimUnc(x1, y1), PrefixView::VerbatimUnc(x2, y2)) => {
            lemma_pair_lt_order(x1, y1, x2, y2, x2, y2);
        },
        (PrefixView::DeviceNs(x), PrefixView::DeviceNs(y)) => {
            lemma_seq_lt_irreflexive(x);
            lemma_seq_lt_total(x, y);
        },
        (PrefixView::Unc(x1, y1), PrefixView::Unc(x2, y2)) => {
            lemma_pair_lt_order(x1, y1, x2, y2, x2, y2);
        },
        _ => {
            match a {
                PrefixView::Verbatim(x) => lemma_seq_lt_irreflexive(x),
                PrefixView::VerbatimUnc(x, y) => lemma_pair_lt_order(x, y, x, y, x, y),
                PrefixView::DeviceNs(x) => lemma_seq_lt_irreflexive(x),
                PrefixView::Unc(x, y) => lemma_pair_lt_order(x, y, x, y, x, y),
                _ => {},
            }
        },
    }
}

proof fn lemma_prefix_lt_transitive(a: PrefixView, b: PrefixView, c: PrefixView)
    requires
        prefix_lt(a, b),
        prefix_lt(b, c),
    ensures
        prefix_lt(a, c),
{
    match (a, b, c) {
        (PrefixView::Verbatim(x), PrefixView::Verbatim(y), PrefixView::Verbatim(z)) => {
            lemma_seq_lt_transitive(x, y, z);
        },
        (PrefixView::VerbatimUnc(x1, y1), PrefixView::VerbatimUnc(x2, y2), PrefixView::VerbatimUnc(x3, y3)) => {
            lemma_pair_lt_order(x1, y1, x2, y2, x3, y3);
        },
        (PrefixView::DeviceNs(x), PrefixView::DeviceNs(y), PrefixView::DeviceNs(z)) => {
            lemma_seq_lt_transitive(x, y, z);
        },
        (PrefixView::Unc(x1, y1), PrefixView::Unc(x2, y2), PrefixView::Unc(x3, y3)) => {
            lemma_pair_lt_order(x1, y1, x2, y2, x3, y3);
        },
        _ => {},
    }
}

proof fn lemma_part_lt_total(p: PartView, q: PartView)
    ensures
        !part_lt(p, p),
        p != q ==> part_lt(p, q) || part_lt(q, p),
{
    match (p, q) {
        (PartView::Prefix(a), PartView::Prefix(b)) => lemma_prefix_lt_total(a, b),
        (PartView::Normal(x), PartView::Normal(y)) => {
            lemma_seq_lt_irreflexive(x);
            lemma_seq_lt_total(x, y);
        },
        _ => {
            match p {
                PartView::Prefix(a) => lemma_prefix_lt_total(a, a),
                PartView::Normal(x) => lemma_seq_lt_irreflexive(x),
                _ => {},
            }
        },
    }
}

proof fn lemma_part_lt_transitive(p: PartView, q: PartView, r: PartView)
    requires
        part_lt(p, q),
        part_lt(q, r),
    ensures
        part_lt(p, r),
{
    match (p, q, r) {
        (PartView::Prefix(a), PartView::Prefix(b), PartView::Prefix(c)) => lemma_prefix_lt_transitive(a, b, c),
        (PartView::Normal(x), PartView::Normal(y), PartView::Normal(z)) => lemma_seq_lt_transitive(x, y, z),
        _ => {},
    }
}

/// `parts_lt` never relates a list to itself.
proof fn lemma_parts_lt_irreflexive(a: Seq<PartView>)
    ensures
        !parts_lt(a, a),
    decreases a.len(),
{
    if a.len() > 0 {
        lemma_parts_lt_irreflexive(a.drop_first());
    }
}

/// Of two different lists, one sorts before the other.
proof fn lemma_parts_lt_total(a: Seq<PartView>, b: Seq<PartView>)
    ensures
        a != b ==> parts_lt(a, b) || parts_lt(b, a),
    decreases a.len(),
{
    if a.len() > 0 && b.len() > 0 {
        if a[0] == b[0] {
            lemma_parts_lt_total(a.drop_first(), b.drop_first());
            if a.drop_first() == b.drop_first() {
                assert(a =~= seq![a[0]] + a.drop_first());
                assert(b =~= seq![b[0]] + b.drop_first());
            }
        } else {
            lemma_part_lt_total(a[0], b[0]);
        }
    } else if a.len() == 0 && b.len() == 0 {
        assert(a =~= b);
    }
}

/// `parts_lt` is transitive.
proof fn lemma_parts_lt_transitive(a: Seq<PartView>, b: Seq<PartView>, c: Seq<PartView>)
    requires
        parts_lt(a, b),
        parts_lt(b, c),
    ensures
        parts_lt(a, c),
    decreases a.len(),
{
    if a.len() > 0 {
        if a[0] == b[0] && b[0] == c[0] {
            lemma_parts_lt_transitive(a.drop_first(), b.drop_first(), c.drop_first());
        } else if a[0] != b[0] && b[0] != c[0] {
            lemma_part_lt_transitive(a[0], b[0], c[0]);
            if a[0] == c[0] {
                lemma_part_lt_total(a[0], a[0]);
            }
        } else if a[0] == b[0] {
        } else {
        }
    }
}

/// Path order is a strict total order up to sameness.
pub proof fn lemma_path_lt_order(a: Seq<char>, b: Seq<char>, c: Seq<char>)
    ensures
        !path_lt(a, a),
        !same_path(a, b) ==> path_lt(a, b) || path_lt(b, a),
        path_lt(a, b) && path_lt(b, c) ==> path_lt(a, c),
        same_path(a, b) ==> !path_lt(a, b),
        same_path(a, a),
        same_path(a, b) ==> same_path(b, a),
        same_path(a, b) && same_path(b, c) ==> same_path(a, c),
{
    reveal(path_lt);
    reveal(same_path);
    lemma_parts_lt_irreflexive(parts(a));
    lemma_parts_lt_total(parts(a), parts(b));
    if path_lt(a, b) && path_lt(b, c) {
        lemma_parts_lt_transitive(parts(a), parts(b), parts(c));
    }
}

// ---------------------------------------------------------------------
// Lemmas on the parse

proof fn lemma_first_sep(s: Seq<char>, verbatim: bool)
    ensures
        match first_sep(s, verbatim) {
            Some(i) => 0 <= i < s.len() && is_part_sep(s[i], verbatim) && forall|k: int|
                0 <= k < i ==> !is_part_sep(s[k], verbatim),
            None => forall|k: int| 0 <= k < s.len() ==> !is_part_sep(s[k], verbatim),
        },
    decreases s.len(),
{
    if s.len() > 0 && !is_part_sep(s[0], verbatim) {
        lemma_first_sep(s.drop_first(), verbatim);
        assert forall|k: int| 0 < k < s.len() implies s[k] == s.drop_first()[k - 1] by {}
    }
}

proof fn lemma_first_sep_at(s: Seq<char>, verbatim: bool, i: int)
    requires
        0 <= i <= s.len(),
        i < s.len() ==> is_part_sep(s[i], verbatim),
        forall|k: int| 0 <= k < i ==> !is_part_sep(s[k], verbatim),
    ensures
        first_sep(s, verbatim) == (if i < s.len() { Some(i) } else { None::<int> }),
{
    lemma_first_sep(s, verbatim);
}

proof fn lemma_next_piece(s: Seq<char>, verbatim: bool)
    ensures
        next_piece(s, verbatim).0.len() <= s.len(),
        next_piece(s, verbatim).0 == s.take(next_piece(s, verbatim).0.len() as int),
        next_piece(s, verbatim).1.len() > 0 ==> next_piece(s, verbatim).0.len() + 1
            + next_piece(s, verbatim).1.len() == s.len(),
{
    lemma_first_sep(s, verbatim);
    if first_sep(s, verbatim) is None {
        assert(s.take(s.len() as int) =~= s);
    }
}

/// A prefix lies within its path.
pub proof fn lemma_prefix_len(s: Seq<char>)
    ensures
        0 <= prefix_len(s) <= s.len(),
{
    lemma_next_piece(s.skip(4), true);
    lemma_next_piece(s.skip(4), false);
    lemma_next_piece(s.skip(2), false);
    lemma_next_piece(next_piece(s.skip(2), false).1, false);
    if s.len() >= 8 {
        lemma_next_piece(s.skip(4).skip(4), true);
        lemma_next_piece(next_piece(s.skip(4).skip(4), true).1, true);
    }
}

// ---------------------------------------------------------------------
// Executable components

/// A path prefix.
#[derive(Debug)]
pub enum PathPrefix {
    Verbatim(String),
    VerbatimUnc(String, String),
    VerbatimDisk(u32),
    DeviceNs(String),
    Unc(String, String),
    Disk(u32),
}

impl View for PathPrefix {
    type V = PrefixView;

    open spec fn view(&self) -> PrefixView {
        match self {
            PathPrefix::Verbatim(x) => PrefixView::Verbatim(x@),
            PathPrefix::VerbatimUnc(x, y) => PrefixView::VerbatimUnc(x@, y@),
            PathPrefix::VerbatimDisk(c) => PrefixView::VerbatimDisk(*c),
            PathPrefix::DeviceNs(x) => PrefixView::DeviceNs(x@),
            PathPrefix::Unc(x, y) => PrefixView::Unc(x@, y@),
            PathPrefix::Disk(c) => PrefixView::Disk(*c),
        }
    }
}

/// A path component.
#[derive(Debug)]
pub enum PathPart {
    Prefix(PathPrefix),
    RootDir,
    CurDir,
    ParentDir,
    Normal(String),
}

impl View for PathPart {
    type V = PartView;

    open spec fn view(&self) -> PartView {
        match self {
            PathPart::Prefix(k) => PartView::Prefix(k@),
            PathPart::RootDir => PartView::RootDir,
            PathPart::CurDir => PartView::CurDir,
            PathPart::ParentDir => PartView::ParentDir,
            PathPart::Normal(x) => PartView::Normal(x@),
        }
    }
}

/// The views of a list of components.
pub open spec fn part_views(v: Seq<PathPart>) -> Seq<PartView> {
    v.map_values(|p: PathPart| p@)
}

fn is_sep_at(v: &Vec<char>, i: usize) -> (b: bool)
    requires
        i < v@.len(),
    ensures
        b == is_sep(v@[i as int]),
{
    v[i] == '\\' || v[i] == '/'
}

fn is_letter(c: char) -> (b: bool)
    ensures
        b == is_drive_letter(c),
{
    ('a' <= c && c <= 'z') || ('A' <= c && c <= 'Z')
}

fn letter_code(c: char) -> (r: u32)
    requires
        is_drive_letter(c),
    ensures
        r == drive_code(c),
{
    if 'a' <= c && c <= 'z' {
        (c as u32) - 32
    } else {
        c as u32
    }
}

fn is_sep_char_in(c: char, verbatim: bool) -> (b: bool)
    ensures
        b == is_part_sep(c, verbatim),
{
    c == '\\' || (!verbatim && c == '/')
}

/// Index of the first separator at or after `from`, or the length.
fn sep_from(v: &Vec<char>, from: usize, verbatim: bool) -> (r: usize)
    requires
        from <= v@.len(),
    ensures
        from <= r <= v@.len(),
        first_sep(v@.skip(from as int), verbatim) == (if r < v@.len() {
            Some(r - from)
        } else {
            None::<int>
        }),
{
    let mut i: usize = from;
    while i < v.len() && !is_sep_char_in(v[i], verbatim)
        invariant
            from <= i <= v@.len(),
            forall|k: int| from <= k < i ==> !is_part_sep(#[trigger] v@[k], verbatim),
        decreases v.len() - i,
    {
        i += 1;
    }
    proof {
        let t = v@.skip(from as int);
        assert forall|k: int| 0 <= k < i - from implies !is_part_sep(t[k], verbatim) by {
            assert(t[k] == v@[from + k]);
        }
        if i < v.len() {
            assert(t[i - from] == v@[i as int]);
        }
        lemma_first_sep_at(t, verbatim, i - from);
    }
    i
}

/// The text from `from` up to the next separator, where it ends, and
/// where the text after that separator starts.
fn piece_from(s: &str, v: &Vec<char>, from: usize, verbatim: bool) -> (r: (String, usize, usize))
    requires
        v@ == s@,
        from <= v@.len(),
    ensures
        from <= r.1 <= r.2 <= v@.len(),
        r.0@ == v@.subrange(from as int, r.1 as int),
        r.0@ == next_piece(v@.skip(from as int), verbatim).0,
        v@.skip(r.2 as int) == next_piece(v@.skip(from as int), verbatim).1,
        r.2 < v@.len() ==> r.2 == r.1 + 1,
        r.2 == v@.len() ==> (r.1 == v@.len() || r.2 == r.1 + 1),
{
    let e = sep_from(v, from, verbatim);
    let c = owned(slice_chars(s, from, e));
    proof {
        let t = v@.skip(from as int);
        if e < v.len() {
            assert(t.take(e - from) =~= v@.subrange(from as int, e as int));
            assert(t.skip(e - from + 1) =~= v@.skip(e + 1));
        } else {
            assert(t =~= v@.subrange(from as int, e as int));
            assert(v@.skip(e as int) =~= Seq::<char>::empty());
        }
    }
    if e < v.len() {
        (c, e, e + 1)
    } else {
        (c, e, e)
    }
}

/// The prefix of `s` and its length (see `prefix_of`).
fn parse_prefix(s: &str, v: &Vec<char>) -> (r: Option<(PathPrefix, usize)>)
    requires
        v@ == s@,
    ensures
        match r {
            Some((k, n)) => prefix_of(s@) == Some((k@, n as int)),
            None => prefix_of(s@) is None,
        },
{
    let len = v.len();
    if len >= 2 && is_sep_at(v, 0) && is_sep_at(v, 1) {
        if len >= 4 && v[0] == '\\' && v[1] == '\\' && v[2] == '?' && v[3] == '\\' {
            let ghost t = v@.skip(4);
            assert(forall|i: int| 0 <= i < t.len() ==> t[i] == v@[4 + i]);
            if len >= 8 && v[4] == 'U' && v[5] == 'N' && v[6] == 'C' && is_sep_at(v, 7) {
                assert(t.skip(4) =~= v@.skip(8));
                let (server, e1, n1) = piece_from(s, v, 8, true);
                let (share, e2, _n2) = piece_from(s, v, n1, true);
                if e2 > n1 {
                    Some((PathPrefix::VerbatimUnc(server, share), e2))
                } else {
                    Some((PathPrefix::VerbatimUnc(server, share), e1))
                }
            } else if len >= 6 && is_letter(v[4]) && v[5] == ':' && (len == 6 || is_sep_at(v, 6)) {
                let c = letter_code(v[4]);
                Some((PathPrefix::VerbatimDisk(c), 6))
            } else {
                assert(len >= 8 ==> !(t.len() >= 4 && t[0] == 'U' && t[1] == 'N' && t[2] == 'C' && is_sep(t[3])));
                let (x, e, _n) = piece_from(s, v, 4, true);
                Some((PathPrefix::Verbatim(x), e))
            }
        } else if len >= 4 && v[2] == '.' && is_sep_at(v, 3) {
            let (x, e, _n) = piece_from(s, v, 4, false);
            Some((PathPrefix::DeviceNs(x), e))
        } else {
            let (server, e1, n1) = piece_from(s, v, 2, false);
            let (share, e2, _n2) = piece_from(s, v, n1, false);
            if e1 > 2 && e2 > n1 {
                Some((PathPrefix::Unc(server, share), e2))
            } else {
                None
            }
        }
    } else if len >= 2 && is_letter(v[0]) && v[1] == ':' {
        let c = letter_code(v[0]);
        Some((PathPrefix::Disk(c), 2))
    } else {
        None
    }
}

fn is_verbatim_prefix(k: &PathPrefix) -> (b: bool)
    ensures
        b == is_verbatim(k@),
{
    match k {
        PathPrefix::Verbatim(_) => true,
        PathPrefix::VerbatimUnc(_, _) => true,
        PathPrefix::VerbatimDisk(_) => true,
        _ => false,
    }
}

/// Appends the component that the text from `st` to `en` gives.
fn push_piece(s: &str, v: &Vec<char>, st: usize, en: usize, verbatim: bool, out: &mut Vec<PathPart>)
    requires
        v@ == s@,
        st <= en <= v@.len(),
    ensures
        part_views(final(out)@) == part_views(old(out)@) + piece_parts(
            v@.subrange(st as int, en as int),
            verbatim,
        ),
{
    let ghost c = v@.subrange(st as int, en as int);
    let ghost before = part_views(out@);
    if en == st {
        assert(c.len() == 0);
        assert(before + piece_parts(c, verbatim) =~= before);
    } else if en - st == 1 && v[st] == '.' {
        assert(c =~= seq!['.']);
        if verbatim {
            out.push(PathPart::CurDir);
            assert(part_views(out@) =~= before + piece_parts(c, verbatim));
        } else {
            assert(before + piece_parts(c, verbatim) =~= before);
        }
    } else if en - st == 2 && v[st] == '.' && v[st + 1] == '.' {
        assert(c =~= seq!['.', '.']);
        assert(c != seq!['.']);
        out.push(PathPart::ParentDir);
        assert(part_views(out@) =~= before + piece_parts(c, verbatim));
    } else {
        assert(c != seq!['.']) by {
            if c.len() == 1 {
                assert(c[0] == v@[st as int]);
            }
        }
        assert(c != seq!['.', '.']) by {
            if c.len() == 2 {
                assert(c[0] == v@[st as int]);
                assert(c[1] == v@[st + 1]);
            }
        }
        let t = owned(slice_chars(s, st, en));
        out.push(PathPart::Normal(t));
        assert(part_views(out@) =~= before + piece_parts(c, verbatim));
    }
}

/// Appends the components of the text from `from` on (see `body_parts`).
fn push_body(s: &str, v: &Vec<char>, from: usize, verbatim: bool, out: &mut Vec<PathPart>)
    requires
        v@ == s@,
        from <= v@.len(),
    ensures
        part_views(final(out)@) == part_views(old(out)@) + body_parts(v@.skip(from as int), verbatim),
{
    let mut st: usize = from;
    let mut i: usize = from;
    assert(v@.subrange(from as int, from as int) =~= Seq::<char>::empty());
    while i < v.len()
        invariant
            from <= st <= i <= v@.len(),
            v@ == s@,
            part_views(out@) + body_parts_from(
                v@.skip(i as int),
                v@.subrange(st as int, i as int),
                verbatim,
            ) == part_views(old(out)@) + body_parts(v@.skip(from as int), verbatim),
        decreases v.len() - i,
    {
        let ghost b = v@.skip(i as int);
        let ghost cur = v@.subrange(st as int, i as int);
        let ghost pre = part_views(out@);
        assert(b[0] == v@[i as int]);
        assert(b.drop_first() =~= v@.skip(i + 1));
        if is_sep_char_in(v[i], verbatim) {
            push_piece(s, v, st, i, verbatim, out);
            assert(v@.subrange(i + 1, i + 1) =~= Seq::<char>::empty());
            assert(pre + (piece_parts(cur, verbatim) + body_parts_from(
                v@.skip(i + 1),
                Seq::empty(),
                verbatim,
            )) =~= (pre + piece_parts(cur, verbatim)) + body_parts_from(
                v@.skip(i + 1),
                Seq::empty(),
                verbatim,
            ));
            st = i + 1;
        } else {
            assert(cur.push(v@[i as int]) =~= v@.subrange(st as int, i + 1));
        }
        i += 1;
    }
    assert(v@.skip(i as int).len() == 0);
    let ghost pre = part_views(out@);
    push_piece(s, v, st, i, verbatim, out);
}

/// The length of the prefix of `s` (see `prefix_len`).
pub(crate) fn prefix_length(s: &str) -> (r: usize)
    ensures
        r == prefix_len(s@),
        r <= s@.len(),
{
    let v = chars_of(s);
    proof {
        lemma_prefix_len(s@);
    }
    match parse_prefix(s, &v) {
        Some((_, n)) => n,
        None => 0,
    }
}

/// The components of `s` (see `parts`).
pub(crate) fn parts_of(s: &str) -> (r: Vec<PathPart>)
    ensures
        part_views(r@) == parts(s@),
{
    let v = chars_of(s);
    let mut out: Vec<PathPart> = Vec::new();
    reveal(parts);
    assert(part_views(out@) =~= Seq::<PartView>::empty());
    match parse_prefix(s, &v) {
        Some((k, n)) => {
            proof {
                lemma_prefix_len(s@);
            }
            let verb = is_verbatim_prefix(&k);
            let disk = match k {
                PathPrefix::Disk(_) => true,
                _ => false,
            };
            let ghost kv = k@;
            out.push(PathPart::Prefix(k));
            if n < v.len() && is_sep_at(&v, n) {
                out.push(PathPart::RootDir);
                assert(v@.skip(n as int).drop_first() =~= v@.skip(n + 1));
                push_body(s, &v, n + 1, verb, &mut out);
                assert(part_views(out@) =~= seq![PartView::Prefix(kv), PartView::RootDir] + body_parts(
                    v@.skip(n + 1),
                    verb,
                ));
            } else if !verb && !disk {
                out.push(PathPart::RootDir);
                push_body(s, &v, n, false, &mut out);
                assert(part_views(out@) =~= seq![PartView::Prefix(kv), PartView::RootDir] + body_parts(
                    v@.skip(n as int),
                    false,
                ));
            } else {
                push_body(s, &v, n, verb, &mut out);
                assert(part_views(out@) =~= seq![PartView::Prefix(kv)] + body_parts(
                    v@.skip(n as int),
                    verb,
                ));
            }
        },
        None => {
            assert(v@.skip(0) =~= v@);
            if v.len() > 0 && is_sep_at(&v, 0) {
                out.push(PathPart::RootDir);
                assert(v@.skip(1) =~= v@.drop_first());
                push_body(s, &v, 1, false, &mut out);
                assert(part_views(out@) =~= seq![PartView::RootDir] + body_parts(v@.drop_first(), false));
            } else if v.len() > 0 && v[0] == '.' && (v.len() == 1 || is_sep_at(&v, 1)) {
                out.push(PathPart::CurDir);
                assert(v@.skip(1) =~= v@.drop_first());
                push_body(s, &v, 1, false, &mut out);
                assert(part_views(out@) =~= seq![PartView::CurDir] + body_parts(v@.drop_first(), false));
            } else {
                push_body(s, &v, 0, false, &mut out);
                assert(part_views(out@) =~= body_parts(v@, false));
            }
        },
    }
    out
}

fn prefix_rank_of(k: &PathPrefix) -> (r: u8)
    ensures
        r as int == prefix_rank(k@),
{
    match k {
        PathPrefix::Verbatim(_) => 0,
        PathPrefix::VerbatimUnc(_, _) => 1,
        PathPrefix::VerbatimDisk(_) => 2,
        PathPrefix::DeviceNs(_) => 3,
        PathPrefix::Unc(_, _) => 4,
        PathPrefix::Disk(_) => 5,
    }
}

fn prefix_less(a: &PathPrefix, b: &PathPrefix) -> (r: bool)
    ensures
        r == prefix_lt(a@, b@),
{
    let ra = prefix_rank_of(a);
    let rb = prefix_rank_of(b);
    if ra != rb {
        return ra < rb;
    }
    match (a, b) {
        (PathPrefix::Verbatim(x), PathPrefix::Verbatim(y)) => str_lt(x.as_str(), y.as_str()),
        (PathPrefix::VerbatimUnc(x1, y1), PathPrefix::VerbatimUnc(x2, y2)) => str_lt(x1.as_str(), x2.as_str())
            || (str_eq(x1.as_str(), x2.as_str()) && str_lt(y1.as_str(), y2.as_str())),
        (PathPrefix::VerbatimDisk(c), PathPrefix::VerbatimDisk(d)) => *c < *d,
        (PathPrefix::DeviceNs(x), PathPrefix::DeviceNs(y)) => str_lt(x.as_str(), y.as_str()),
        (PathPrefix::Unc(x1, y1), PathPrefix::Unc(x2, y2)) => str_lt(x1.as_str(), x2.as_str()) || (str_eq(
            x1.as_str(),
            x2.as_str(),
        ) && str_lt(y1.as_str(), y2.as_str())),
        (PathPrefix::Disk(c), PathPrefix::Disk(d)) => *c < *d,
        _ => false,
    }
}

fn prefix_same(a: &PathPrefix, b: &PathPrefix) -> (r: bool)
    ensures
        r == (a@ == b@),
{
    match (a, b) {
        (PathPrefix::Verbatim(x), PathPrefix::Verbatim(y)) => str_eq(x.as_str(), y.as_str()),
        (PathPrefix::VerbatimUnc(x1, y1), PathPrefix::VerbatimUnc(x2, y2)) => str_eq(x1.as_str(), x2.as_str())
            && str_eq(y1.as_str(), y2.as_str()),
        (PathPrefix::VerbatimDisk(c), PathPrefix::VerbatimDisk(d)) => *c == *d,
        (PathPrefix::DeviceNs(x), PathPrefix::DeviceNs(y)) => str_eq(x.as_str(), y.as_str()),
        (PathPrefix::Unc(x1, y1), PathPrefix::Unc(x2, y2)) => str_eq(x1.as_str(), x2.as_str()) && str_eq(
            y1.as_str(),
            y2.as_str(),
        ),
        (PathPrefix::Disk(c), PathPrefix::Disk(d)) => *c == *d,
        _ => false,
    }
}

fn part_rank_of(p: &PathPart) -> (r: u8)
    ensures
        r as int == part_rank(p@),
{
    match p {
        PathPart::Prefix(_) => 0,
        PathPart::RootDir => 1,
        PathPart::CurDir => 2,
        PathPart::ParentDir => 3,
        PathPart::Normal(_) => 4,
    }
}

fn part_less(p: &PathPart, q: &PathPart) -> (r: bool)
    ensures
        r == part_lt(p@, q@),
{
    let rp = part_rank_of(p);
    let rq = part_rank_of(q);
    if rp != rq {
        return rp < rq;
    }
    match (p, q) {
        (PathPart::Prefix(a), PathPart::Prefix(b)) => prefix_less(a, b),
        (PathPart::Normal(x), PathPart::Normal(y)) => str_lt(x.as_str(), y.as_str()),
        _ => false,
    }
}

fn part_same(p: &PathPart, q: &PathPart) -> (r: bool)
    ensures
        r == (p@ == q@),
{
    match (p, q) {
        (PathPart::Prefix(a), PathPart::Prefix(b)) => prefix_same(a, b),
        (PathPart::RootDir, PathPart::RootDir) => true,
        (PathPart::CurDir, PathPart::CurDir) => true,
        (PathPart::ParentDir, PathPart::ParentDir) => true,
        (PathPart::Normal(x), PathPart::Normal(y)) => str_eq(x.as_str(), y.as_str()),
        _ => false,
    }
}

proof fn lemma_parts_lt_skip(a: Seq<PartView>, b: Seq<PartView>, i: int)
    requires
        0 <= i <= a.len(),
        i <= b.len(),
        forall|k: int| 0 <= k < i ==> a[k] == b[k],
    ensures
        parts_lt(a, b) == parts_lt(a.skip(i), b.skip(i)),
    decreases i,
{
    if i > 0 {
        assert(a.drop_first().skip(i - 1) =~= a.skip(i));
        assert(b.drop_first().skip(i - 1) =~= b.skip(i));
        assert forall|k: int| 0 <= k < i - 1 implies a.drop_first()[k] == b.drop_first()[k] by {
            assert(a[k + 1] == b[k + 1]);
        }
        lemma_parts_lt_skip(a.drop_first(), b.drop_first(), i - 1);
    } else {
        assert(a.skip(0) =~= a);
        assert(b.skip(0) =~= b);
    }
}

fn parts_less(a: &Vec<PathPart>, b: &Vec<PathPart>) -> (r: bool)
    ensures
        r == parts_lt(part_views(a@), part_views(b@)),
{
    let ghost av = part_views(a@);
    let ghost bv = part_views(b@);
    let mut i: usize = 0;
    while i < a.len() && i < b.len()
        invariant
            i <= a@.len(),
            i <= b@.len(),
            av == part_views(a@),
            bv == part_views(b@),
            forall|k: int| 0 <= k < i ==> av[k] == bv[k],
        decreases a.len() - i,
    {
        if !part_same(&a[i], &b[i]) {
            proof {
                lemma_parts_lt_skip(av, bv, i as int);
                assert(av.skip(i as int)[0] == a@[i as int]@);
                assert(bv.skip(i as int)[0] == b@[i as int]@);
            }
            return part_less(&a[i], &b[i]);
        }
        i += 1;
    }
    proof {
        lemma_parts_lt_skip(av, bv, i as int);
    }
    i < b.len()
}

fn parts_same(a: &Vec<PathPart>, b: &Vec<PathPart>) -> (r: bool)
    ensures
        r == (part_views(a@) == part_views(b@)),
{
    let ghost av = part_views(a@);
    let ghost bv = part_views(b@);
    if a.len() != b.len() {
        assert(av.len() != bv.len());
        return false;
    }
    let mut i: usize = 0;
    while i < a.len()
        invariant
            i <= a@.len(),
            a@.len() == b@.len(),
            av == part_views(a@),
            bv == part_views(b@),
            forall|k: int| 0 <= k < i ==> av[k] == bv[k],
        decreases a.len() - i,
    {
        if !part_same(&a[i], &b[i]) {
            assert(av[i as int] != bv[i as int]);
            return false;
        }
        i += 1;
    }
    assert(av =~= bv);
    true
}

/// The path `a` sorts strictly before the path `b` (see `path_lt`).
pub fn path_less(a: &str, b: &str) -> (r: bool)
    ensures
        r == path_lt(a@, b@),
{
    let pa = parts_of(a);
    let pb = parts_of(b);
    reveal(path_lt);
    parts_less(&pa, &pb)
}

/// `a` and `b` name the same path (see `same_path`).
pub fn paths_equal(a: &str, b: &str) -> (r: bool)
    ensures
        r == same_path(a@, b@),
{
    let pa = parts_of(a);
    let pb = parts_of(b);
    reveal(same_path);
    parts_same(&pa, &pb)
}

/// `s` is in strictly increasing path order: sorted, no path twice.
pub open spec fn paths_strictly_sorted(s: Seq<Seq<char>>) -> bool {
    forall|i: int, j: int| 0 <= i < j < s.len() ==> path_lt(#[trigger] s[i], #[trigger] s[j])
}

/// No path before position `k` of `s` names the same path as `s[k]`.
pub open spec fn first_of_its_path(s: Seq<Seq<char>>, k: int) -> bool {
    forall|m: int| 0 <= m < k ==> !same_path(#[trigger] s[m], s[k])
}

/// Inserting `x` where it belongs into strictly sorted paths, none of
/// which names the same path as `x`.
proof fn lemma_insert_path(before: Seq<Seq<char>>, p: int, x: Seq<char>)
    requires
        paths_strictly_sorted(before),
        0 <= p <= before.len(),
        forall|k: int| 0 <= k < p ==> path_lt(#[trigger] before[k], x),
        p < before.len() ==> !same_path(before[p], x) && !path_lt(before[p], x),
    ensures
        paths_strictly_sorted(before.insert(p, x)),
        forall|j: int| 0 <= j < before.len() ==> !same_path(#[trigger] before[j], x),
{
    if p < before.len() {
        lemma_path_lt_order(before[p], x, x);
    }
    assert forall|k: int| p < k < before.len() implies path_lt(x, #[trigger] before[k]) by {
        lemma_path_lt_order(x, before[p], before[k]);
    }
    assert forall|j: int| 0 <= j < before.len() implies !same_path(#[trigger] before[j], x) by {
        lemma_path_lt_order(before[j], x, x);
        lemma_path_lt_order(x, before[j], x);
    }
    let after = before.insert(p, x);
    assert forall|a: int, b: int| 0 <= a < b < after.len() implies path_lt(
        #[trigger] after[a],
        #[trigger] after[b],
    ) by {
        if b < p {
        } else if b == p {
        } else if a < p {
            lemma_path_lt_order(after[a], x, after[b]);
        } else if a == p {
        } else {
        }
    }
}

/// `x` is one of the first `n` paths of `vv`, at a position where no
/// earlier path names the same path.
pub open spec fn first_entry_in(vv: Seq<Seq<char>>, n: int, x: Seq<char>) -> bool {
    exists|k: int| 0 <= k < n && vv[k] == x && first_of_its_path(vv, k)
}

/// Some path of `out` names the same path as `x`.
pub open spec fn has_same_path(out: Seq<Seq<char>>, x: Seq<char>) -> bool {
    exists|j: int| 0 <= j < out.len() && same_path(out[j], x)
}

/// Adds the path `x` to the strictly sorted `out`, where it belongs,
/// unless `out` already holds a path that names the same path.
fn insert_path(out: &mut Vec<String>, x: &str)
    requires
        paths_strictly_sorted(views(old(out)@)),
    ensures
        paths_strictly_sorted(views(final(out)@)),
        has_same_path(views(old(out)@), x@) ==> final(out)@ == old(out)@,
        !has_same_path(views(old(out)@), x@) ==> exists|p: int|
            0 <= p <= old(out)@.len() && views(final(out)@) == views(old(out)@).insert(p, x@),
{
    let ghost before = views(out@);
    let mut p: usize = 0;
    while p < out.len() && path_less(out[p].as_str(), x)
        invariant
            p <= out@.len(),
            before == views(out@),
            forall|k: int| 0 <= k < p ==> path_lt(#[trigger] before[k], x@),
        decreases out.len() - p,
    {
        p += 1;
    }
    if p < out.len() && paths_equal(out[p].as_str(), x) {
        assert(before[p as int] == out@[p as int]@);
        assert(same_path(before[p as int], x@));
    } else {
        proof {
            if p < out@.len() {
                assert(before[p as int] == out@[p as int]@);
            }
            lemma_insert_path(before, p as int, x@);
        }
        out.insert(p, owned(x));
        assert(views(out@) =~= before.insert(p as int, x@));
    }
}

/// `out` holds, in strictly increasing path order, of the first `i`
/// paths of `vv` the first of each path, and one for each of them.
pub open spec fn unique_prefix_of(out: Seq<Seq<char>>, vv: Seq<Seq<char>>, i: int) -> bool {
    &&& paths_strictly_sorted(out)
    &&& forall|j: int| 0 <= j < out.len() ==> #[trigger] first_entry_in(vv, i, out[j])
    &&& forall|k: int| 0 <= k < i ==> #[trigger] has_same_path(out, vv[k])
}

proof fn lemma_unique_step(vv: Seq<Seq<char>>, i: int, before: Seq<Seq<char>>, after: Seq<Seq<char>>)
    requires
        0 <= i < vv.len(),
        unique_prefix_of(before, vv, i),
        paths_strictly_sorted(after),
        has_same_path(before, vv[i]) ==> after == before,
        !has_same_path(before, vv[i]) ==> exists|p: int|
            0 <= p <= before.len() && after == before.insert(p, vv[i]),
    ensures
        unique_prefix_of(after, vv, i + 1),
{
    let x = vv[i];
    lemma_path_lt_order(x, x, x);
    assert forall|j: int| 0 <= j < after.len() && #[trigger] first_entry_in(vv, i, after[j]) implies first_entry_in(vv, i + 1, after[j]) by {
        let k = choose|k: int| 0 <= k < i && vv[k] == after[j] && first_of_its_path(vv, k);
        assert(0 <= k < i + 1 && vv[k] == after[j] && first_of_its_path(vv, k));
    }
    if has_same_path(before, x) {
        assert(has_same_path(after, vv[i]));
        assert forall|j: int| 0 <= j < after.len() implies #[trigger] first_entry_in(vv, i + 1, after[j]) by {
            assert(first_entry_in(vv, i, before[j]));
        }
    } else {
        let p = choose|p: int| 0 <= p <= before.len() && after == before.insert(p, x);
        assert forall|m: int| 0 <= m < i implies !same_path(#[trigger] vv[m], vv[i]) by {
            if same_path(vv[m], vv[i]) {
                assert(has_same_path(before, vv[m]));
                let j = choose|j: int| 0 <= j < before.len() && same_path(before[j], vv[m]);
                lemma_path_lt_order(before[j], vv[m], x);
                assert(has_same_path(before, x));
            }
        }
        assert(first_of_its_path(vv, i));
        assert forall|j: int| 0 <= j < after.len() implies #[trigger] first_entry_in(vv, i + 1, after[j]) by {
            if j < p {
                assert(after[j] == before[j]);
                assert(first_entry_in(vv, i, before[j]));
            } else if j == p {
                assert(after[j] == vv[i]);
                assert(0 <= i < i + 1 && vv[i] == after[j] && first_of_its_path(vv, i));
            } else {
                assert(after[j] == before[j - 1]);
                assert(first_entry_in(vv, i, before[j - 1]));
            }
        }
        assert forall|k: int| 0 <= k < i + 1 implies #[trigger] has_same_path(after, vv[k]) by {
            if k == i {
                assert(same_path(after[p], vv[k]));
            } else {
                assert(has_same_path(before, vv[k]));
                let j = choose|j: int| 0 <= j < before.len() && same_path(before[j], vv[k]);
                if j < p {
                    assert(after[j] == before[j]);
                } else {
                    assert(after[j + 1] == before[j]);
                }
            }
        }
    }
}

/// The paths of `v` sorted by path order, keeping of paths that name the
/// same path only the first (a stable sort followed by a dedup).
pub fn sorted_unique_paths(v: &Vec<String>) -> (r: Vec<String>)
    ensures
        paths_strictly_sorted(views(r@)),
        forall|i: int|
            0 <= i < r@.len() ==> #[trigger] first_entry_in(views(v@), v@.len() as int, views(r@)[i]),
        forall|k: int| 0 <= k < v@.len() ==> #[trigger] has_same_path(views(r@), views(v@)[k]),
{
    let mut out: Vec<String> = Vec::new();
    let mut i: usize = 0;
    while i < v.len()
        invariant
            i <= v@.len(),
            unique_prefix_of(views(out@), views(v@), i as int),
        decreases v.len() - i,
    {
        let ghost before = views(out@);
        assert(views(v@)[i as int] == v@[i as int]@);
        insert_path(&mut out, v[i].as_str());
        proof {
            lemma_unique_step(views(v@), i as int, before, views(out@));
        }
        i += 1;
    }
    out
}

// ---------------------------------------------------------------------
// Pushing onto a path

/// The text of a component as it stands in its path: the prefix as
/// written (`raw`), `\` for the root, `.`, `..`, or the name.
pub open spec fn part_text(p: PartView, raw: Seq<char>) -> Seq<char> {
    match p {
        PartView::Prefix(_) => raw,
        PartView::RootDir => seq!['\\'],
        PartView::CurDir => seq!['.'],
        PartView::ParentDir => seq!['.', '.'],
        PartView::Normal(x) => x,
    }
}

/// The components kept when `c` is pushed onto a verbatim path of
/// components `buf`: a root keeps only the prefix, `.` is dropped, `..`
/// removes a preceding name (and nothing else), anything else is added.
pub open spec fn verbatim_step(buf: Seq<PartView>, c: PartView) -> Seq<PartView> {
    match c {
        PartView::RootDir => (if buf.len() > 0 {
            buf.take(1)
        } else {
            buf
        }).push(PartView::RootDir),
        PartView::CurDir => buf,
        PartView::ParentDir => if buf.len() > 0 && buf.last() is Normal {
            buf.drop_last()
        } else {
            buf
        },
        _ => buf.push(c),
    }
}

/// `verbatim_step` for each of `ts` in turn.
pub open spec fn verbatim_steps(buf: Seq<PartView>, ts: Seq<PartView>) -> Seq<PartView>
    decreases ts.len(),
{
    if ts.len() == 0 {
        buf
    } else {
        verbatim_steps(verbatim_step(buf, ts[0]), ts.drop_first())
    }
}

/// A separator is written after `c` (before a following component other
/// than a root): not after a root, nor after a drive prefix.
pub open spec fn sep_after(c: PartView, raw: Seq<char>) -> bool {
    match c {
        PartView::RootDir => false,
        PartView::Prefix(k) => !(k is Disk) && raw.len() > 0,
        _ => true,
    }
}

/// The components `ps` written out, `raw` being the prefix's text and
/// `need_sep` whether a separator is due before the first.
pub open spec fn written(ps: Seq<PartView>, raw: Seq<char>, need_sep: bool) -> Seq<char>
    decreases ps.len(),
{
    if ps.len() == 0 {
        Seq::empty()
    } else {
        (if need_sep && ps[0] != PartView::RootDir {
            seq!['\\']
        } else {
            Seq::empty()
        }) + part_text(ps[0], raw) + written(ps.drop_first(), raw, sep_after(ps[0], raw))
    }
}

/// `t` pushed onto the verbatim path `out`: the components of `out`, then
/// those of `t` as `verbatim_step` takes them, written out anew.
pub open spec fn verbatim_pushed(out: Seq<char>, t: Seq<char>) -> Seq<char> {
    written(verbatim_steps(parts(out), parts(t)), out.take(prefix_len(out)), false)
}

/// `out` with `t` pushed onto it, as `PathBuf::push` does on Windows: a
/// `t` with a prefix replaces `out`; a non-empty `t` pushed onto a
/// verbatim path is merged component by component (see
/// `verbatim_pushed`); otherwise a `t` with a root replaces all of `out`
/// but its prefix, and any other `t` is appended, after a `\` unless
/// `out` is empty, ends with a separator, or is a bare drive (`C:`).
pub open spec fn pushed(out: Seq<char>, t: Seq<char>) -> Seq<char> {
    if prefix_of(t) is Some {
        t
    } else if (prefix_of(out) matches Some((k, _)) && is_verbatim(k)) && t.len() > 0 {
        verbatim_pushed(out, t)
    } else if t.len() > 0 && is_sep(t[0]) {
        out.take(prefix_len(out)) + t
    } else if out.len() == 0 || is_sep(out.last()) || (prefix_of(out) matches Some(
        (PrefixView::Disk(_), n),
    ) && n == out.len()) {
        out + t
    } else {
        out + seq!['\\'] + t
    }
}

/// The text of a component (see `part_text`).
pub(crate) fn part_text_of(p: &PathPart, raw: &str) -> (r: String)
    ensures
        r@ == part_text(p@, raw@),
{
    match p {
        PathPart::Prefix(_) => owned(raw),
        PathPart::RootDir => {
            let r = owned("\\");
            proof {
                reveal_strlit("\\");
            }
            assert(r@ =~= seq!['\\']);
            r
        },
        PathPart::CurDir => {
            let r = owned(".");
            proof {
                reveal_strlit(".");
            }
            assert(r@ =~= seq!['.']);
            r
        },
        PathPart::ParentDir => {
            let r = owned("..");
            proof {
                reveal_strlit("..");
            }
            assert(r@ =~= seq!['.', '.']);
            r
        },
        PathPart::Normal(x) => owned(x.as_str()),
    }
}

fn clone_prefix(k: &PathPrefix) -> (r: PathPrefix)
    ensures
        r@ == k@,
{
    match k {
        PathPrefix::Verbatim(x) => PathPrefix::Verbatim(owned(x.as_str())),
        PathPrefix::VerbatimUnc(x, y) => PathPrefix::VerbatimUnc(owned(x.as_str()), owned(y.as_str())),
        PathPrefix::VerbatimDisk(c) => PathPrefix::VerbatimDisk(*c),
        PathPrefix::DeviceNs(x) => PathPrefix::DeviceNs(owned(x.as_str())),
        PathPrefix::Unc(x, y) => PathPrefix::Unc(owned(x.as_str()), owned(y.as_str())),
        PathPrefix::Disk(c) => PathPrefix::Disk(*c),
    }
}

fn clone_part(p: &PathPart) -> (r: PathPart)
    ensures
        r@ == p@,
{
    match p {
        PathPart::Prefix(k) => PathPart::Prefix(clone_prefix(k)),
        PathPart::RootDir => PathPart::RootDir,
        PathPart::CurDir => PathPart::CurDir,
        PathPart::ParentDir => PathPart::ParentDir,
        PathPart::Normal(x) => PathPart::Normal(owned(x.as_str())),
    }
}

/// Applies `verbatim_step` for `c` to `buf`.
fn verbatim_step_exec(buf: &mut Vec<PathPart>, c: &PathPart)
    ensures
        part_views(final(buf)@) == verbatim_step(part_views(old(buf)@), c@),
{
    let ghost b = part_views(buf@);
    match c {
        PathPart::RootDir => {
            buf.truncate(1);
            buf.push(PathPart::RootDir);
            assert(part_views(buf@) =~= (if b.len() > 0 {
                b.take(1)
            } else {
                b
            }).push(PartView::RootDir));
        },
        PathPart::CurDir => {},
        PathPart::ParentDir => {
            let n = buf.len();
            if n > 0 {
                let last_normal = match &buf[n - 1] {
                    PathPart::Normal(_) => true,
                    _ => false,
                };
                if last_normal {
                    buf.pop();
                    assert(part_views(buf@) =~= b.drop_last());
                }
            }
        },
        _ => {
            buf.push(clone_part(c));
            assert(part_views(buf@) =~= b.push(c@));
        },
    }
}

fn sep_after_exec(c: &PathPart, raw: &str) -> (b: bool)
    ensures
        b == sep_after(c@, raw@),
{
    match c {
        PathPart::RootDir => false,
        PathPart::Prefix(k) => {
            let disk = match k {
                PathPrefix::Disk(_) => true,
                _ => false,
            };
            !disk && raw.unicode_len() > 0
        },
        _ => true,
    }
}

/// The components `ps` written out (see `written`).
fn write_parts(ps: &Vec<PathPart>, raw: &str) -> (r: String)
    ensures
        r@ == written(part_views(ps@), raw@, false),
{
    let ghost pv = part_views(ps@);
    let mut out = String::new();
    let mut need_sep = false;
    let mut i: usize = 0;
    assert(pv.skip(0) =~= pv);
    assert(out@ =~= Seq::<char>::empty());
    while i < ps.len()
        invariant
            i <= ps@.len(),
            pv == part_views(ps@),
            out@ + written(pv.skip(i as int), raw@, need_sep) == written(pv, raw@, false),
        decreases ps.len() - i,
    {
        let ghost rest = pv.skip(i as int);
        let ghost before = out@;
        assert(rest[0] == ps@[i as int]@);
        assert(rest.drop_first() =~= pv.skip(i + 1));
        let is_root = match &ps[i] {
            PathPart::RootDir => true,
            _ => false,
        };
        assert(is_root == (rest[0] == PartView::RootDir));
        let ghost lead: Seq<char> = if need_sep && !is_root {
            seq!['\\']
        } else {
            Seq::empty()
        };
        if need_sep && !is_root {
            out.append("\\");
            proof {
                reveal_strlit("\\");
            }
        }
        assert(out@ =~= before + lead);
        let t = part_text_of(&ps[i], raw);
        out.append(t.as_str());
        need_sep = sep_after_exec(&ps[i], raw);
        assert(before + (lead + part_text(rest[0], raw@) + written(rest.drop_first(), raw@, need_sep)) =~= out@
            + written(pv.skip(i + 1), raw@, need_sep));
        i += 1;
    }
    assert(pv.skip(i as int) =~= Seq::<PartView>::empty());
    assert(out@ + Seq::<char>::empty() =~= out@);
    out
}

/// `t` pushed onto the verbatim path `out` (see `verbatim_pushed`).
fn push_verbatim(out: &str, t: &str) -> (r: String)
    ensures
        r@ == verbatim_pushed(out@, t@),
{
    let mut buf = parts_of(out);
    let ts = parts_of(t);
    let ghost tv = part_views(ts@);
    let ghost b0 = part_views(buf@);
    let mut i: usize = 0;
    assert(tv.skip(0) =~= tv);
    while i < ts.len()
        invariant
            i <= ts@.len(),
            tv == part_views(ts@),
            verbatim_steps(part_views(buf@), tv.skip(i as int)) == verbatim_steps(b0, tv),
        decreases ts.len() - i,
    {
        assert(tv.skip(i as int)[0] == ts@[i as int]@);
        assert(tv.skip(i as int).drop_first() =~= tv.skip(i + 1));
        verbatim_step_exec(&mut buf, &ts[i]);
        i += 1;
    }
    assert(tv.skip(i as int) =~= Seq::<PartView>::empty());
    let n = prefix_length(out);
    let raw = slice_chars(out, 0, n);
    assert(raw@ =~= out@.take(n as int));
    write_parts(&buf, raw)
}

/// Pushes `t` onto `out` (see `pushed`).
pub(crate) fn push_path(out: &mut String, t: &str)
    ensures
        final(out)@ == pushed(old(out)@, t@),
{
    let vt = chars_of(t);
    if parse_prefix(t, &vt).is_some() {
        *out = owned(t);
        return;
    }
    let vo = chars_of(out.as_str());
    let ghost o = out@;
    let verbatim_out = match parse_prefix(out.as_str(), &vo) {
        Some((k, _)) => is_verbatim_prefix(&k),
        None => false,
    };
    if verbatim_out && vt.len() > 0 {
        *out = push_verbatim(out.as_str(), t);
        return;
    }
    if vt.len() > 0 && is_sep_at(&vt, 0) {
        let n: usize = match parse_prefix(out.as_str(), &vo) {
            Some((_, n)) => n,
            None => 0,
        };
        proof {
            lemma_prefix_len(o);
        }
        let kept = owned(slice_chars(out.as_str(), 0, n));
        assert(kept@ =~= o.take(n as int));
        let mut r = kept;
        r.append(t);
        *out = r;
        return;
    }
    let bare_drive = match parse_prefix(out.as_str(), &vo) {
        Some((PathPrefix::Disk(_), n)) => n == vo.len(),
        _ => false,
    };
    if vo.len() == 0 || is_sep_at(&vo, vo.len() - 1) || bare_drive {
        out.append(t);
    } else {
        out.append("\\");
        proof {
            reveal_strlit("\\");
        }
        out.append(t);
        assert(out@ =~= o + seq!['\\'] + t@);
    }
}

/// `p` lies under `base` or is `base`: the components of `base` are the
/// first components of `p` (`Path::starts_with`).
pub open spec fn components_start_with(p: Seq<char>, base: Seq<char>) -> bool {
    parts(base).len() <= parts(p).len() && parts(p).take(parts(base).len() as int) == parts(base)
}

/// `p` lies under `base` (see `components_start_with`).
pub fn path_starts_with(p: &str, base: &str) -> (b: bool)
    ensures
        b == components_start_with(p@, base@),
{
    let pp = parts_of(p);
    let pb = parts_of(base);
    let ghost pv = part_views(pp@);
    let ghost bv = part_views(pb@);
    if pb.len() > pp.len() {
        return false;
    }
    let mut i: usize = 0;
    while i < pb.len()
        invariant
            i <= pb@.len(),
            pb@.len() <= pp@.len(),
            pv == part_views(pp@),
            bv == part_views(pb@),
            pv == parts(p@),
            bv == parts(base@),
            forall|k: int| 0 <= k < i ==> pv[k] == bv[k],
        decreases pb.len() - i,
    {
        assert(pv[i as int] == pp@[i as int]@);
        assert(bv[i as int] == pb@[i as int]@);
        if !part_same(&pp[i], &pb[i]) {
            assert(pv.take(bv.len() as int)[i as int] != bv[i as int]);
            assert(pv.take(bv.len() as int) != bv);
            return false;
        }
        i += 1;
    }
    assert(pv.take(bv.len() as int) =~= bv);
    assert(bv.len() <= pv.len());
    true
}

/// The last component of `p` when it is a name (`Path::file_name`):
/// nothing for an empty path or one ending in a prefix, a root or `..`.
pub open spec fn last_name(p: Seq<char>) -> Option<Seq<char>> {
    if parts(p).len() > 0 && parts(p).last() is Normal {
        Some(parts(p).last()->Normal_0)
    } else {
        None
    }
}

/// The last component of `p` when it is a name (see `last_name`).
pub fn file_name(p: &str) -> (r: Option<String>)
    ensures
        match r {
            Some(n) => last_name(p@) == Some(n@),
            None => last_name(p@) is None,
        },
{
    let ps = parts_of(p);
    let n = ps.len();
    if n == 0 {
        return None;
    }
    assert(part_views(ps@).last() == ps@[n - 1]@);
    match &ps[n - 1] {
        PathPart::Normal(x) => Some(owned(x.as_str())),
        _ => None,
    }
}

/// Some component of `p` is the name `name` (a name holds no separator,
/// so only a `Normal` component can equal it).
pub open spec fn has_component(p: Seq<char>, name: Seq<char>) -> bool {
    parts(p).contains(PartView::Normal(name))
}

/// Whether some component of `p` is the name `name`.
pub fn path_has_component(p: &str, name: &str) -> (b: bool)
    ensures
        b == has_component(p@, name@),
{
    let ps = parts_of(p);
    let ghost pv = part_views(ps@);
    let mut i: usize = 0;
    while i < ps.len()
        invariant
            i <= ps@.len(),
            pv == part_views(ps@),
            pv == parts(p@),
            forall|k: int| 0 <= k < i ==> pv[k] != PartView::Normal(name@),
        decreases ps.len() - i,
    {
        assert(pv[i as int] == ps@[i as int]@);
        let hit = match &ps[i] {
            PathPart::Normal(x) => str_eq(x.as_str(), name),
            _ => false,
        };
        if hit {
            assert(pv[i as int] == PartView::Normal(name@));
            return true;
        }
        i += 1;
    }
    false
}

} // verus!
