//! `steam-saves`: the save-game folders of the Steam games installed on
//! the machine, found through the Ludusavi manifest.
//!
//! The Steam libraries are the install directory, the libraries listed in
//! `steamapps/libraryfolders.vdf` and any configured extra ones. A game is
//! installed when one of its manifest install folders appears under
//! `steamapps/common/` of a library. Of each installed game, the file
//! patterns tagged `save` that apply to Windows are taken, with their
//! placeholders filled in; a pattern with a placeholder that cannot be
//! filled is dropped, and a pattern ending in a glob is cut back to the
//! directory above the first globbed component.

use vstd::prelude::*;
use crate::ludusavi::{FileSpec, GameSpec, WhenSpec};
use crate::paths::{join, join_path, is_sep};
use crate::win_path::{
    PrefixView, piece_parts, body_parts, body_parts_from, prefix_of, drive_at, drive_code,
    PartView, same_path, paths_equal, paths_strictly_sorted, first_entry_in, has_same_path,
    sorted_unique_paths, parts, part_views, part_text, pushed, prefix_len, parts_of, prefix_length, part_text_of,
    push_path,
};
use crate::text::{
    views, push_owned, str_eq, owned, trim, trim_str, chars_of, find_char, find_char_in,
    find_char_from, lemma_find_char, has_char, contains_char, find_sub, contains_str, replace_all,
    replace_str, slice_chars, starts_with, lines_of, split_lines,
};
use super::{ResolvedTemplate, opt_view};

verus! {

broadcast use vstd::string::group_string_axioms;

/// The `steam-saves` template.
#[derive(Debug, Clone, Copy)]
pub struct SteamSavesTemplate;

/// The directories that manifest placeholders stand for. `public` always
/// has a value (see `public_dir`).
#[derive(Debug)]
pub struct KnownDirs {
    pub home: Option<String>,
    pub documents: Option<String>,
    /// The roaming AppData directory.
    pub appdata: Option<String>,
    pub local_appdata: Option<String>,
    pub public: String,
}

/// The public profile directory: `%PUBLIC%` when set, else
/// `C:\Users\Public`.
pub fn public_dir(env_public: Option<String>) -> (r: String)
    ensures
        r@ == (match env_public {
            Some(p) => p@,
            None => "C:\\Users\\Public"@,
        }),
{
    match env_public {
        Some(p) => p,
        None => owned("C:\\Users\\Public"),
    }
}

// ---------------------------------------------------------------------
// libraryfolders.vdf

/// The value between the first two double quotes of `s` (after trimming).
pub open spec fn quoted_value(s: Seq<char>) -> Option<Seq<char>> {
    let t = trim(s);
    match find_char(t, '"') {
        None => None,
        Some(a) => {
            let after = t.subrange(a + 1, t.len() as int);
            match find_char(after, '"') {
                None => None,
                Some(b) => Some(after.subrange(0, b)),
            }
        },
    }
}

/// The value between the first two double quotes of `s` (after trimming).
pub fn extract_quoted_value(s: &str) -> (r: Option<String>)
    ensures
        opt_view(r) == quoted_value(s@),
{
    let t = trim_str(s);
    let v = chars_of(t);
    match find_char_in(&v, '"') {
        None => None,
        Some(a) => {
            proof {
                lemma_find_char(v@, '"');
            }
            match find_char_from(&v, '"', a + 1) {
                None => None,
                Some(e) => {
                    let piece = slice_chars(t, a + 1, e);
                    proof {
                        let after = v@.subrange(a + 1, v@.len() as int);
                        assert(after.subrange(0, e - (a + 1)) =~= v@.subrange(a + 1, e as int));
                    }
                    Some(owned(piece))
                },
            }
        },
    }
}

/// The library path a line of `libraryfolders.vdf` declares, if it is a
/// `"path"` line: its quoted value with `\\` unescaped to `\`.
pub open spec fn vdf_line_path(line: Seq<char>) -> Option<Seq<char>> {
    let t = trim(line);
    if t.len() >= 6 && t.subrange(0, 6) == "\"path\""@ {
        match quoted_value(t.subrange(6, t.len() as int)) {
            Some(raw) => Some(replace_all(raw, "\\\\"@, "\\"@)),
            None => None,
        }
    } else {
        None
    }
}

/// The library paths declared by `lines`, other than those naming the
/// same path as `steam`.
pub open spec fn vdf_paths(lines: Seq<Seq<char>>, steam: Seq<char>) -> Seq<Seq<char>>
    decreases lines.len(),
{
    if lines.len() == 0 {
        Seq::empty()
    } else {
        let rest = vdf_paths(lines.drop_last(), steam);
        match vdf_line_path(lines.last()) {
            Some(p) => if !same_path(p, steam) {
                rest.push(p)
            } else {
                rest
            },
            None => rest,
        }
    }
}

/// The library path a line declares (see `vdf_line_path`).
fn line_library_path(line: &str) -> (r: Option<String>)
    ensures
        opt_view(r) == vdf_line_path(line@),
{
    let t = trim_str(line);
    proof {
        reveal_strlit("\"path\"");
        reveal_strlit("\\\\");
    }
    if starts_with(t, "\"path\"") {
        let n: usize = chars_of(t).len();
        let rest = slice_chars(t, 6, n);
        match extract_quoted_value(rest) {
            Some(raw) => Some(replace_str(raw.as_str(), "\\\\", "\\")),
            None => None,
        }
    } else {
        None
    }
}

/// The extra libraries declared in `libraryfolders.vdf` (its text
/// `content`), other than those naming the Steam install directory
/// `steam_path`.
pub fn vdf_libraries(content: &str, steam_path: &str) -> (r: Vec<String>)
    ensures
        views(r@) == vdf_paths(lines_of(content@), steam_path@),
{
    let lines = split_lines(content);
    let mut r: Vec<String> = Vec::new();
    let mut i: usize = 0;
    while i < lines.len()
        invariant
            i <= lines@.len(),
            views(lines@) == lines_of(content@),
            views(r@) == vdf_paths(views(lines@).take(i as int), steam_path@),
        decreases lines.len() - i,
    {
        proof {
            let tk = views(lines@).take(i + 1);
            assert(tk.drop_last() =~= views(lines@).take(i as int));
            assert(tk.last() == lines@[i as int]@);
        }
        match line_library_path(lines[i].as_str()) {
            Some(p) => {
                if !paths_equal(p.as_str(), steam_path) {
                    let ghost prev = views(r@);
                    r.push(p);
                    assert(views(r@) =~= prev.push(p@));
                }
            },
            None => {},
        }
        i += 1;
    }
    assert(views(lines@).take(lines@.len() as int) =~= views(lines@));
    r
}

/// Where `libraryfolders.vdf` lies in a Steam install.
pub fn vdf_file(steam_path: &str) -> (r: String)
    ensures
        r@ == join(join(steam_path@, "steamapps"@), "libraryfolders.vdf"@),
{
    let a = join_path(steam_path, "steamapps");
    join_path(a.as_str(), "libraryfolders.vdf")
}

/// Where a library keeps its installed games.
pub fn common_dir(library: &str) -> (r: String)
    ensures
        r@ == join(join(library@, "steamapps"@), "common"@),
{
    let a = join_path(library, "steamapps");
    join_path(a.as_str(), "common")
}

/// The libraries before sorting: the install directory, those declared
/// in the library file, then the extra ones.
pub open spec fn all_libraries(steam: Seq<char>, declared: Seq<Seq<char>>, extra: Seq<Seq<char>>) -> Seq<
    Seq<char>,
> {
    seq![steam] + declared + extra
}

/// All libraries (see `all_libraries`) in path order, keeping of paths
/// that name the same path only the first.
pub fn library_list(steam_path: &str, declared: &Vec<String>, extra: &Vec<String>) -> (r: Vec<
    String,
>)
    ensures
        paths_strictly_sorted(views(r@)),
        forall|i: int|
            0 <= i < r@.len() ==> #[trigger] first_entry_in(
                all_libraries(steam_path@, views(declared@), views(extra@)),
                (1 + declared@.len() + extra@.len()) as int,
                views(r@)[i],
            ),
        forall|k: int|
            0 <= k < 1 + declared@.len() + extra@.len() ==> #[trigger] has_same_path(
                views(r@),
                all_libraries(steam_path@, views(declared@), views(extra@))[k],
            ),
{
    let mut all: Vec<String> = Vec::new();
    push_owned(&mut all, steam_path);
    let mut i: usize = 0;
    while i < declared.len()
        invariant
            i <= declared@.len(),
            views(all@) == seq![steam_path@] + views(declared@).take(i as int),
        decreases declared.len() - i,
    {
        push_owned(&mut all, declared[i].as_str());
        assert(views(declared@).take(i + 1) =~= views(declared@).take(i as int).push(declared@[i as int]@));
        i += 1;
    }
    let mut j: usize = 0;
    while j < extra.len()
        invariant
            j <= extra@.len(),
            views(all@) == seq![steam_path@] + views(declared@) + views(extra@).take(j as int),
        decreases extra.len() - j,
    {
        push_owned(&mut all, extra[j].as_str());
        assert(views(extra@).take(j + 1) =~= views(extra@).take(j as int).push(extra@[j as int]@));
        j += 1;
    }
    assert(views(declared@).take(declared@.len() as int) =~= views(declared@));
    assert(views(extra@).take(extra@.len() as int) =~= views(extra@));
    assert(views(all@) == all_libraries(steam_path@, views(declared@), views(extra@)));
    sorted_unique_paths(&all)
}

// ---------------------------------------------------------------------
// Manifest file patterns

/// A `when` clause that holds on Windows: no OS given, or `windows`.
pub open spec fn when_on_windows(w: WhenSpec) -> bool {
    match w.os {
        None => true,
        Some(o) => o@ == "windows"@,
    }
}

/// A file pattern applies to Windows: it has no `when` clause, or one of
/// its clauses holds on Windows.
pub open spec fn applies_on_windows(f: FileSpec) -> bool {
    f.when@.len() == 0 || exists|i: int| 0 <= i < f.when@.len() && when_on_windows(f.when@[i])
}

/// Whether a file pattern applies to Windows (see `applies_on_windows`).
pub fn applies_to_windows(spec: &FileSpec) -> (b: bool)
    ensures
        b == applies_on_windows(*spec),
{
    if spec.when.len() == 0 {
        return true;
    }
    let mut i: usize = 0;
    while i < spec.when.len()
        invariant
            i <= spec.when@.len(),
            forall|k: int| 0 <= k < i ==> !when_on_windows(spec.when@[k]),
        decreases spec.when.len() - i,
    {
        let hit = match &spec.when[i].os {
            None => true,
            Some(o) => str_eq(o.as_str(), "windows"),
        };
        if hit {
            assert(when_on_windows(spec.when@[i as int]));
            return true;
        }
        i += 1;
    }
    false
}

/// The pattern is tagged `save`.
pub open spec fn tagged_save(f: FileSpec) -> bool {
    exists|i: int| 0 <= i < f.tags@.len() && f.tags@[i]@ == "save"@
}

fn has_save_tag(f: &FileSpec) -> (b: bool)
    ensures
        b == tagged_save(*f),
{
    let mut i: usize = 0;
    while i < f.tags.len()
        invariant
            i <= f.tags@.len(),
            forall|k: int| 0 <= k < i ==> f.tags@[k]@ != "save"@,
        decreases f.tags.len() - i,
    {
        if str_eq(f.tags[i].as_str(), "save") {
            return true;
        }
        i += 1;
    }
    false
}

/// A glob metacharacter.
pub open spec fn is_glob_char(c: char) -> bool {
    c == '*' || c == '?' || c == '['
}

/// Index of the first glob metacharacter of `s`.
pub open spec fn first_glob(s: Seq<char>) -> Option<int>
    decreases s.len(),
{
    if s.len() == 0 {
        None
    } else if is_glob_char(s[0]) {
        Some(0)
    } else {
        match first_glob(s.drop_first()) {
            Some(i) => Some(i + 1),
            None => None,
        }
    }
}

proof fn lemma_first_glob(s: Seq<char>)
    ensures
        match first_glob(s) {
            Some(i) => 0 <= i < s.len() && is_glob_char(s[i]) && forall|k: int|
                0 <= k < i ==> !is_glob_char(s[k]),
            None => forall|k: int| 0 <= k < s.len() ==> !is_glob_char(s[k]),
        },
    decreases s.len(),
{
    if s.len() > 0 && !is_glob_char(s[0]) {
        lemma_first_glob(s.drop_first());
        assert forall|k: int| 0 < k < s.len() implies s[k] == s.drop_first()[k - 1] by {}
    }
}

proof fn lemma_first_glob_at(s: Seq<char>, i: int)
    requires
        0 <= i <= s.len(),
        i < s.len() ==> is_glob_char(s[i]),
        forall|k: int| 0 <= k < i ==> !is_glob_char(s[k]),
    ensures
        first_glob(s) == (if i < s.len() { Some(i) } else { None::<int> }),
{
    lemma_first_glob(s);
}

/// The path that the components `ps` give, pushed one by one onto `out`
/// (see `pushed`), up to the first whose text holds a glob
/// metacharacter; `raw` is the prefix as written.
pub open spec fn glob_free_join(ps: Seq<PartView>, raw: Seq<char>, out: Seq<char>) -> Seq<char>
    decreases ps.len(),
{
    if ps.len() == 0 {
        out
    } else if first_glob(part_text(ps[0], raw)) is Some {
        out
    } else {
        glob_free_join(ps.drop_first(), raw, pushed(out, part_text(ps[0], raw)))
    }
}

/// `path` rebuilt from its components before the first one that holds a
/// glob metacharacter (all of them when none does).
pub open spec fn glob_free_prefix(s: Seq<char>) -> Seq<char> {
    glob_free_join(parts(s), s.take(prefix_len(s)), Seq::empty())
}

/// `t` holds a glob metacharacter.
fn has_glob(t: &str) -> (b: bool)
    ensures
        b == first_glob(t@) is Some,
{
    let v = chars_of(t);
    let mut g: usize = 0;
    while g < v.len() && !(v[g] == '*' || v[g] == '?' || v[g] == '[')
        invariant
            g <= v@.len(),
            forall|k: int| 0 <= k < g ==> !is_glob_char(v@[k]),
        decreases v.len() - g,
    {
        g += 1;
    }
    proof {
        lemma_first_glob_at(v@, g as int);
    }
    g < v.len()
}

/// `path` without its globbed tail (see `glob_free_prefix`).
pub fn strip_glob_tail(path: &str) -> (r: String)
    ensures
        r@ == glob_free_prefix(path@),
{
    let ps = parts_of(path);
    let n = prefix_length(path);
    let raw = slice_chars(path, 0, n);
    assert(raw@ =~= path@.take(n as int));
    let ghost pv = part_views(ps@);
    let mut out = String::new();
    let mut i: usize = 0;
    let mut stop = false;
    assert(pv.skip(0) =~= pv);
    while i < ps.len() && !stop
        invariant
            i <= ps@.len(),
            pv == part_views(ps@),
            pv == parts(path@),
            raw@ == path@.take(prefix_len(path@)),
            stop ==> i < ps@.len() && first_glob(part_text(pv[i as int], raw@)) is Some,
            glob_free_join(pv.skip(i as int), raw@, out@) == glob_free_prefix(path@),
        decreases ps.len() - i + (if stop { 0int } else { 1int }),
    {
        let t = part_text_of(&ps[i], raw);
        assert(pv.skip(i as int)[0] == pv[i as int]);
        assert(pv.skip(i as int).drop_first() =~= pv.skip(i + 1));
        if has_glob(t.as_str()) {
            stop = true;
        } else {
            push_path(&mut out, t.as_str());
            i += 1;
        }
    }
    out
}

// ---------------------------------------------------------------------
// Cutting the globbed tail twice

/// A component that the body of a path gives outside verbatim paths and
/// whose text holds no `:`: `..`, or a non-empty name other than `.` and
/// `..` without separators.
pub open spec fn plain_part(p: PartView) -> bool {
    match p {
        PartView::ParentDir => true,
        PartView::Normal(n) => n.len() > 0 && n != seq!['.'] && n != seq!['.', '.'] && forall|k: int|
            0 <= k < n.len() ==> !is_sep(#[trigger] n[k]) && n[k] != ':',
        _ => false,
    }
}

/// The text that pushing the components `b` onto a path adds, up to the
/// first whose text holds a glob metacharacter: each text, after a `\`
/// except for the first when the path already ends with a separator
/// (`at_sep`).
pub open spec fn tail_text(b: Seq<PartView>, raw: Seq<char>, at_sep: bool) -> Seq<char>
    decreases b.len(),
{
    if b.len() == 0 || first_glob(part_text(b[0], raw)) is Some {
        Seq::empty()
    } else {
        (if at_sep {
            Seq::empty()
        } else {
            seq!['\\']
        }) + part_text(b[0], raw) + tail_text(b.drop_first(), raw, false)
    }
}

/// The components of `b` before the first whose text holds a glob
/// metacharacter.
pub open spec fn kept_names(b: Seq<PartView>, raw: Seq<char>) -> Seq<PartView>
    decreases b.len(),
{
    if b.len() == 0 || first_glob(part_text(b[0], raw)) is Some {
        Seq::empty()
    } else {
        seq![b[0]] + kept_names(b.drop_first(), raw)
    }
}

proof fn lemma_text_of_plain(p: PartView, raw: Seq<char>)
    requires
        plain_part(p),
    ensures
        part_text(p, raw).len() > 0,
        forall|k: int| 0 <= k < part_text(p, raw).len() ==> !is_sep(#[trigger] part_text(p, raw)[k])
            && part_text(p, raw)[k] != ':',
        piece_parts(part_text(p, raw), false) == seq![p],
{
    match p {
        PartView::ParentDir => {
            assert(seq!['.', '.'] != seq!['.']) by {
                assert(seq!['.', '.'].len() != seq!['.'].len());
            }
        },
        _ => {},
    }
}

proof fn lemma_body_skips_name(n: Seq<char>, y: Seq<char>, cur: Seq<char>)
    requires
        forall|k: int| 0 <= k < n.len() ==> !is_sep(#[trigger] n[k]),
    ensures
        body_parts_from(n + y, cur, false) == body_parts_from(y, cur + n, false),
    decreases n.len(),
{
    if n.len() == 0 {
        assert(n + y =~= y);
        assert(cur + n =~= cur);
    } else {
        assert((n + y)[0] == n[0]);
        assert((n + y).drop_first() =~= n.drop_first() + y);
        assert(cur.push(n[0]) + n.drop_first() =~= cur + n);
        lemma_body_skips_name(n.drop_first(), y, cur.push(n[0]));
    }
}

proof fn lemma_body_parts_plain(b: Seq<char>, cur: Seq<char>)
    requires
        forall|k: int| 0 <= k < b.len() ==> #[trigger] b[k] != ':',
        forall|k: int| 0 <= k < cur.len() ==> !is_sep(#[trigger] cur[k]) && cur[k] != ':',
    ensures
        forall|i: int| 0 <= i < body_parts_from(b, cur, false).len() ==> plain_part(
            #[trigger] body_parts_from(b, cur, false)[i],
        ),
    decreases b.len(),
{
    let pp = piece_parts(cur, false);
    assert(forall|i: int| 0 <= i < pp.len() ==> plain_part(#[trigger] pp[i]));
    if b.len() > 0 {
        assert forall|k: int| 0 <= k < b.drop_first().len() implies #[trigger] b.drop_first()[k] != ':' by {
            assert(b.drop_first()[k] == b[k + 1]);
        }
        if is_sep(b[0]) {
            lemma_body_parts_plain(b.drop_first(), Seq::empty());
            let r = body_parts_from(b.drop_first(), Seq::empty(), false);
            assert forall|i: int| 0 <= i < (pp + r).len() implies plain_part(#[trigger] (pp + r)[i]) by {
                if i >= pp.len() {
                    assert((pp + r)[i] == r[i - pp.len()]);
                }
            }
        } else {
            assert(b[0] != ':');
            let c2 = cur.push(b[0]);
            assert forall|k: int| 0 <= k < c2.len() implies !is_sep(#[trigger] c2[k]) && c2[k] != ':' by {
                if k < cur.len() {
                    assert(c2[k] == cur[k]);
                }
            }
            lemma_body_parts_plain(b.drop_first(), c2);
            assert(body_parts_from(b, cur, false) == body_parts_from(b.drop_first(), c2, false));
        }
    }
}

proof fn lemma_kept_names_plain(b: Seq<PartView>, raw: Seq<char>)
    requires
        forall|i: int| 0 <= i < b.len() ==> plain_part(#[trigger] b[i]),
    ensures
        forall|i: int| 0 <= i < kept_names(b, raw).len() ==> plain_part(#[trigger] kept_names(b, raw)[i]),
        tail_text(kept_names(b, raw), raw, true) == tail_text(b, raw, true),
        tail_text(kept_names(b, raw), raw, false) == tail_text(b, raw, false),
    decreases b.len(),
{
    if b.len() > 0 && first_glob(part_text(b[0], raw)) is None {
        assert forall|i: int| 0 <= i < b.drop_first().len() implies plain_part(#[trigger] b.drop_first()[i]) by {
            assert(b.drop_first()[i] == b[i + 1]);
        }
        lemma_kept_names_plain(b.drop_first(), raw);
        let k = kept_names(b, raw);
        let kr = kept_names(b.drop_first(), raw);
        assert(k =~= seq![b[0]] + kr);
        assert(k[0] == b[0]);
        assert(k.drop_first() =~= kr);
        assert forall|i: int| 0 <= i < k.len() implies plain_part(#[trigger] k[i]) by {
            if i > 0 {
                assert(k[i] == kr[i - 1]);
            }
        }
    }
}

/// Pushing components without `:` onto a drive path adds their texts
/// joined by `\`.
proof fn lemma_join_onto_drive(b: Seq<PartView>, raw: Seq<char>, out: Seq<char>)
    requires
        forall|i: int| 0 <= i < b.len() ==> plain_part(#[trigger] b[i]),
        drive_at(out),
        out.len() >= 3,
    ensures
        glob_free_join(b, raw, out) == out + tail_text(b, raw, is_sep(out.last())),
    decreases b.len(),
{
    if b.len() == 0 || first_glob(part_text(b[0], raw)) is Some {
        assert(out + Seq::<char>::empty() =~= out);
    } else {
        let t = part_text(b[0], raw);
        lemma_text_of_plain(b[0], raw);
        assert(prefix_of(t) is None) by {
            if t.len() >= 2 {
                assert(!is_sep(t[0]) && t[1] != ':');
            }
        }
        assert(prefix_of(out) == Some((PrefixView::Disk(drive_code(out[0])), 2int)));
        let pre: Seq<char> = if is_sep(out.last()) {
            Seq::empty()
        } else {
            seq!['\\']
        };
        let o2 = pushed(out, t);
        assert(o2 == out + pre + t) by {
            if !is_sep(out.last()) {
                assert(out + seq!['\\'] + t =~= out + pre + t);
            } else {
                assert(out + t =~= out + pre + t);
            }
        }
        assert(o2.last() == t.last());
        assert(o2[0] == out[0] && o2[1] == out[1]);
        assert forall|i: int| 0 <= i < b.drop_first().len() implies plain_part(#[trigger] b.drop_first()[i]) by {
            assert(b.drop_first()[i] == b[i + 1]);
        }
        lemma_join_onto_drive(b.drop_first(), raw, o2);
        assert(out + pre + t + tail_text(b.drop_first(), raw, false) =~= out + (pre + t + tail_text(
            b.drop_first(),
            raw,
            false,
        )));
    }
}

/// The components of the text that `lemma_join_onto_drive` adds (after
/// its first separator) are the components pushed.
proof fn lemma_body_of_tail(b: Seq<PartView>, raw: Seq<char>, at_sep: bool)
    requires
        forall|i: int| 0 <= i < b.len() ==> plain_part(#[trigger] b[i]),
    ensures
        body_parts(tail_text(b, raw, at_sep), false) == kept_names(b, raw),
    decreases b.len(),
{
    if b.len() == 0 || first_glob(part_text(b[0], raw)) is Some {
        assert(piece_parts(Seq::<char>::empty(), false) =~= Seq::<PartView>::empty());
    } else {
        let t = part_text(b[0], raw);
        lemma_text_of_plain(b[0], raw);
        let rest = b.drop_first();
        assert forall|i: int| 0 <= i < rest.len() implies plain_part(#[trigger] rest[i]) by {
            assert(rest[i] == b[i + 1]);
        }
        lemma_body_of_tail(rest, raw, false);
        let y = tail_text(rest, raw, false);
        let e = Seq::<char>::empty();
        assert(piece_parts(e, false) =~= Seq::<PartView>::empty());
        // body_parts(t + y) == [b[0]] + kept_names(rest)
        lemma_body_skips_name(t, y, e);
        assert(e + t =~= t);
        if y.len() == 0 {
            assert(t + y =~= t);
            assert(kept_names(rest, raw) =~= Seq::<PartView>::empty()) by {
                if rest.len() > 0 && first_glob(part_text(rest[0], raw)) is None {
                    assert(y.len() > 0);
                }
            }
            assert(body_parts_from(y, t, false) == piece_parts(t, false));
        } else {
            assert(y[0] == '\\');
            assert(body_parts_from(y, t, false) == piece_parts(t, false) + body_parts_from(
                y.drop_first(),
                e,
                false,
            ));
            assert(body_parts_from(y, e, false) == piece_parts(e, false) + body_parts_from(
                y.drop_first(),
                e,
                false,
            ));
            assert(body_parts_from(y, e, false) =~= body_parts_from(y.drop_first(), e, false));
        }
        assert(body_parts_from(t + y, e, false) =~= seq![b[0]] + kept_names(rest, raw));
        if !at_sep {
            let w = seq!['\\'] + t + y;
            assert(w[0] == '\\');
            assert(w.drop_first() =~= t + y);
            assert(body_parts_from(w, e, false) =~= piece_parts(e, false) + body_parts_from(t + y, e, false));
            assert(tail_text(b, raw, at_sep) == w);
        } else {
            assert(tail_text(b, raw, at_sep) =~= t + y);
        }
    }
}

/// The first two steps of rebuilding a drive path `X:\...`: the drive,
/// then the root.
proof fn lemma_drive_root_steps(b: Seq<PartView>, raw: Seq<char>, c: u32)
    requires
        raw.len() == 2,
        drive_at(raw),
    ensures
        glob_free_join(seq![PartView::Prefix(PrefixView::Disk(c)), PartView::RootDir] + b, raw, Seq::empty())
            == glob_free_join(b, raw, raw + seq!['\\']),
{
    let ps = seq![PartView::Prefix(PrefixView::Disk(c)), PartView::RootDir] + b;
    lemma_first_glob(raw);
    assert(!is_glob_char(raw[0]) && !is_glob_char(raw[1]));
    assert(first_glob(raw) is None);
    let root = seq!['\\'];
    lemma_first_glob(root);
    assert(!is_glob_char(root[0]));
    assert(ps[0] == PartView::Prefix(PrefixView::Disk(c)));
    assert(pushed(Seq::empty(), raw) == raw);
    assert(ps.drop_first()[0] == PartView::RootDir);
    assert(prefix_of(root) is None);
    assert(prefix_len(raw) == 2);
    assert(raw.take(2) =~= raw);
    assert(pushed(raw, root) == raw + root);
    assert(ps.drop_first().drop_first() =~= b);
    let e = Seq::<char>::empty();
    assert(part_text(ps[0], raw) == raw);
    assert(glob_free_join(ps, raw, e) == glob_free_join(ps.drop_first(), raw, pushed(e, raw)));
    assert(part_text(ps.drop_first()[0], raw) == root);
    assert(glob_free_join(ps.drop_first(), raw, raw) == glob_free_join(
        ps.drop_first().drop_first(),
        raw,
        pushed(raw, root),
    ));
}

/// Cutting the globbed tail of a drive path `X:\...` that holds no other
/// `:` a second time changes nothing.
pub proof fn lemma_strip_glob_tail_idempotent_on_drive_paths(s: Seq<char>)
    requires
        drive_at(s),
        s.len() >= 3,
        is_sep(s[2]),
        forall|k: int| 2 <= k < s.len() ==> s[k] != ':',
    ensures
        glob_free_prefix(glob_free_prefix(s)) == glob_free_prefix(s),
{
    reveal(parts);
    let c = drive_code(s[0]);
    let raw = s.take(2);
    assert(prefix_of(s) == Some((PrefixView::Disk(c), 2int)));
    let body = s.skip(2).drop_first();
    assert(s.skip(2)[0] == s[2]);
    let b = body_parts(body, false);
    assert(parts(s) == seq![PartView::Prefix(PrefixView::Disk(c)), PartView::RootDir] + b);
    assert forall|k: int| 0 <= k < body.len() implies #[trigger] body[k] != ':' by {
        assert(body[k] == s[k + 3]);
    }
    lemma_body_parts_plain(body, Seq::empty());
    assert(raw.len() == 2 && drive_at(raw));
    lemma_drive_root_steps(b, raw, c);
    let o = raw + seq!['\\'];
    lemma_join_onto_drive(b, raw, o);
    let t = tail_text(b, raw, true);
    let r = o + t;
    assert(glob_free_prefix(s) == r);
    // The components of the result.
    assert(r[0] == s[0] && r[1] == ':' && r[2] == '\\');
    assert(prefix_of(r) == Some((PrefixView::Disk(c), 2int)));
    assert(r.skip(2)[0] == '\\');
    assert(r.skip(2).drop_first() =~= t);
    lemma_body_of_tail(b, raw, true);
    let kn = kept_names(b, raw);
    assert(parts(r) == seq![PartView::Prefix(PrefixView::Disk(c)), PartView::RootDir] + kn);
    assert(r.take(prefix_len(r)) =~= raw);
    lemma_kept_names_plain(b, raw);
    lemma_drive_root_steps(kn, raw, c);
    lemma_join_onto_drive(kn, raw, o);
}

/// `s` with `ph` replaced by the directory it stands for; nothing when
/// `ph` occurs but the directory is unknown.
pub open spec fn substituted(s: Seq<char>, ph: Seq<char>, dir: Option<Seq<char>>) -> Option<
    Seq<char>,
> {
    if find_sub(s, ph) is Some {
        match dir {
            Some(d) => Some(replace_all(s, ph, d)),
            None => None,
        }
    } else {
        Some(s)
    }
}

/// `substituted` on a result that may already have failed.
pub open spec fn then_substituted(o: Option<Seq<char>>, ph: Seq<char>, dir: Option<Seq<char>>) -> Option<
    Seq<char>,
> {
    match o {
        None => None,
        Some(s) => substituted(s, ph, dir),
    }
}

/// `raw` with the supported placeholders filled in, in the order
/// `<home>`, `<winDocuments>`, `<winAppData>`, `<winLocalAppData>`,
/// `<winPublic>`.
pub open spec fn placeholders_filled(raw: Seq<char>, dirs: KnownDirs) -> Option<Seq<char>> {
    then_substituted(
        then_substituted(
            then_substituted(
                then_substituted(
                    substituted(raw, "<home>"@, opt_view(dirs.home)),
                    "<winDocuments>"@,
                    opt_view(dirs.documents),
                ),
                "<winAppData>"@,
                opt_view(dirs.appdata),
            ),
            "<winLocalAppData>"@,
            opt_view(dirs.local_appdata),
        ),
        "<winPublic>"@,
        Some(dirs.public@),
    )
}

/// The directory a manifest file pattern designates on this machine:
/// nothing when a placeholder cannot be filled or remains unsupported
/// (a `<` and a `>` are left), or when nothing is left once the globbed
/// tail is cut.
pub open spec fn save_path_of(raw: Seq<char>, dirs: KnownDirs) -> Option<Seq<char>> {
    match placeholders_filled(raw, dirs) {
        None => None,
        Some(s) => if has_char(s, '<') && has_char(s, '>') {
            None
        } else {
            let p = glob_free_prefix(s);
            if p.len() == 0 {
                None
            } else {
                Some(p)
            }
        },
    }
}

fn substitute(s: Option<String>, ph: &str, dir: &Option<String>) -> (r: Option<String>)
    requires
        ph@.len() > 0,
    ensures
        opt_view(r) == then_substituted(opt_view(s), ph@, opt_view(*dir)),
{
    match s {
        None => None,
        Some(s) => {
            if contains_str(s.as_str(), ph) {
                match dir {
                    Some(d) => Some(replace_str(s.as_str(), ph, d.as_str())),
                    None => None,
                }
            } else {
                Some(s)
            }
        },
    }
}

/// The directory a manifest file pattern designates (see `save_path_of`).
pub fn resolve_placeholders(raw: &str, dirs: &KnownDirs) -> (r: Option<String>)
    ensures
        opt_view(r) == save_path_of(raw@, *dirs),
{
    proof {
        reveal_strlit("<home>");
        reveal_strlit("<winDocuments>");
        reveal_strlit("<winAppData>");
        reveal_strlit("<winLocalAppData>");
        reveal_strlit("<winPublic>");
    }
    let s0 = Some(owned(raw));
    let s1 = substitute(s0, "<home>", &dirs.home);
    let s2 = substitute(s1, "<winDocuments>", &dirs.documents);
    let s3 = substitute(s2, "<winAppData>", &dirs.appdata);
    let s4 = substitute(s3, "<winLocalAppData>", &dirs.local_appdata);
    let public = Some(owned(dirs.public.as_str()));
    let s5 = substitute(s4, "<winPublic>", &public);
    match s5 {
        None => None,
        Some(s) => {
            let v = chars_of(s.as_str());
            if contains_char(&v, '<') && contains_char(&v, '>') {
                None
            } else {
                let p = strip_glob_tail(s.as_str());
                if p.as_str().unicode_len() == 0 {
                    None
                } else {
                    Some(p)
                }
            }
        },
    }
}

/// One of the game's install folders is among the installed ones.
pub open spec fn game_installed(g: GameSpec, installed: Seq<Seq<char>>) -> bool {
    exists|i: int| 0 <= i < g.install_dir@.len() && installed.contains(g.install_dir@[i]@)
}

/// The save directories of a game's file patterns, in pattern order.
pub open spec fn file_save_paths(files: Seq<(String, FileSpec)>, dirs: KnownDirs) -> Seq<Seq<char>>
    decreases files.len(),
{
    if files.len() == 0 {
        Seq::empty()
    } else {
        let rest = file_save_paths(files.drop_last(), dirs);
        let f = files.last();
        if tagged_save(f.1) && applies_on_windows(f.1) {
            match save_path_of(f.0@, dirs) {
                Some(p) => rest.push(p),
                None => rest,
            }
        } else {
            rest
        }
    }
}

/// The save directories of the installed games of a manifest, game by
/// game, in manifest order.
pub open spec fn manifest_save_paths(
    m: Seq<(String, GameSpec)>,
    installed: Seq<Seq<char>>,
    dirs: KnownDirs,
) -> Seq<Seq<char>>
    decreases m.len(),
{
    if m.len() == 0 {
        Seq::empty()
    } else {
        let rest = manifest_save_paths(m.drop_last(), installed, dirs);
        if game_installed(m.last().1, installed) {
            rest + file_save_paths(m.last().1.files@, dirs)
        } else {
            rest
        }
    }
}

proof fn lemma_file_save_paths_concat(
    a: Seq<(String, FileSpec)>,
    b: Seq<(String, FileSpec)>,
    dirs: KnownDirs,
)
    ensures
        file_save_paths(a + b, dirs) == file_save_paths(a, dirs) + file_save_paths(b, dirs),
    decreases b.len(),
{
    if b.len() == 0 {
        assert(a + b =~= a);
        assert(file_save_paths(a, dirs) + Seq::<Seq<char>>::empty() =~= file_save_paths(a, dirs));
    } else {
        lemma_file_save_paths_concat(a, b.drop_last(), dirs);
        assert((a + b).drop_last() =~= a + b.drop_last());
        assert((a + b).last() == b.last());
        let x = file_save_paths(a, dirs);
        let y = file_save_paths(b.drop_last(), dirs);
        match save_path_of(b.last().0@, dirs) {
            Some(p) => {
                assert(x + y.push(p) =~= (x + y).push(p));
            },
            None => {},
        }
    }
}

/// A file pattern of a game yields its save directory, in its place
/// among the game's patterns, exactly when one of its tags is `save`, it
/// applies to Windows (it has no `when` clause, or one naming no OS or
/// `windows`), and its placeholders can be filled in; otherwise it
/// yields nothing.
pub proof fn lemma_save_pattern_rules(files: Seq<(String, FileSpec)>, dirs: KnownDirs, i: int)
    requires
        0 <= i < files.len(),
    ensures
        file_save_paths(files, dirs) == file_save_paths(files.take(i), dirs) + (if (exists|t: int|
            0 <= t < files[i].1.tags@.len() && #[trigger] files[i].1.tags@[t]@ == "save"@) && (
        files[i].1.when@.len() == 0 || exists|w: int|
            0 <= w < files[i].1.when@.len() && match (#[trigger] files[i].1.when@[w]).os {
                None => true,
                Some(o) => o@ == "windows"@,
            }) && save_path_of(files[i].0@, dirs) is Some {
            seq![save_path_of(files[i].0@, dirs)->0]
        } else {
            Seq::empty()
        }) + file_save_paths(files.skip(i + 1), dirs),
{
    let one = seq![files[i]];
    assert(files =~= files.take(i) + one + files.skip(i + 1));
    lemma_file_save_paths_concat(files.take(i) + one, files.skip(i + 1), dirs);
    lemma_file_save_paths_concat(files.take(i), one, dirs);
    assert(one.drop_last() =~= Seq::<(String, FileSpec)>::empty());
    assert(one.last() == files[i]);
    let f = files[i].1;
    let cond = (exists|t: int| 0 <= t < f.tags@.len() && #[trigger] f.tags@[t]@ == "save"@) && (f.when@.len()
        == 0 || exists|w: int|
        0 <= w < f.when@.len() && match (#[trigger] f.when@[w]).os {
            None => true,
            Some(o) => o@ == "windows"@,
        }) && save_path_of(files[i].0@, dirs) is Some;
    assert(cond == (tagged_save(f) && applies_on_windows(f) && save_path_of(files[i].0@, dirs) is Some)) by {
        if applies_on_windows(f) && f.when@.len() > 0 {
            let w = choose|w: int| 0 <= w < f.when@.len() && when_on_windows(f.when@[w]);
            assert(match f.when@[w].os {
                None => true,
                Some(o) => o@ == "windows"@,
            });
        }
    }
    let e = Seq::<Seq<char>>::empty();
    assert(file_save_paths(one.drop_last(), dirs) == e);
    match save_path_of(files[i].0@, dirs) {
        Some(p) => {
            assert(e.push(p) =~= seq![p]);
        },
        None => {},
    }
    let mid: Seq<Seq<char>> = if cond {
        seq![save_path_of(files[i].0@, dirs)->0]
    } else {
        e
    };
    assert(file_save_paths(one, dirs) == mid);
    assert(file_save_paths(files, dirs) == file_save_paths(files.take(i) + one, dirs) + file_save_paths(
        files.skip(i + 1),
        dirs,
    ));
}

proof fn lemma_manifest_save_paths_concat(
    a: Seq<(String, GameSpec)>,
    b: Seq<(String, GameSpec)>,
    installed: Seq<Seq<char>>,
    dirs: KnownDirs,
)
    ensures
        manifest_save_paths(a + b, installed, dirs) == manifest_save_paths(a, installed, dirs)
            + manifest_save_paths(b, installed, dirs),
    decreases b.len(),
{
    if b.len() == 0 {
        assert(a + b =~= a);
        assert(manifest_save_paths(a, installed, dirs) + Seq::<Seq<char>>::empty() =~= manifest_save_paths(
            a,
            installed,
            dirs,
        ));
    } else {
        lemma_manifest_save_paths_concat(a, b.drop_last(), installed, dirs);
        assert((a + b).drop_last() =~= a + b.drop_last());
        assert((a + b).last() == b.last());
        let x = manifest_save_paths(a, installed, dirs);
        let y = manifest_save_paths(b.drop_last(), installed, dirs);
        let z = file_save_paths(b.last().1.files@, dirs);
        assert(x + y + z =~= x + (y + z));
    }
}

proof fn lemma_manifest_split_at(
    m: Seq<(String, GameSpec)>,
    installed: Seq<Seq<char>>,
    dirs: KnownDirs,
    i: int,
)
    requires
        0 <= i < m.len(),
    ensures
        manifest_save_paths(m, installed, dirs) == manifest_save_paths(m.take(i), installed, dirs) + (if game_installed(
            m[i].1,
            installed,
        ) {
            file_save_paths(m[i].1.files@, dirs)
        } else {
            Seq::empty()
        }) + manifest_save_paths(m.skip(i + 1), installed, dirs),
{
    let one = seq![m[i]];
    assert(m =~= m.take(i) + one + m.skip(i + 1));
    lemma_manifest_save_paths_concat(m.take(i) + one, m.skip(i + 1), installed, dirs);
    lemma_manifest_save_paths_concat(m.take(i), one, installed, dirs);
    assert(one.drop_last() =~= Seq::<(String, GameSpec)>::empty());
    assert(one.last() == m[i]);
    let e = Seq::<Seq<char>>::empty();
    assert(manifest_save_paths(one.drop_last(), installed, dirs) == e);
    assert(e + file_save_paths(m[i].1.files@, dirs) =~= file_save_paths(m[i].1.files@, dirs));
    let mid: Seq<Seq<char>> = if game_installed(m[i].1, installed) {
        file_save_paths(m[i].1.files@, dirs)
    } else {
        e
    };
    assert(manifest_save_paths(one, installed, dirs) == mid);
    assert(manifest_save_paths(m, installed, dirs) == manifest_save_paths(m.take(i) + one, installed, dirs)
        + manifest_save_paths(m.skip(i + 1), installed, dirs));
}

/// A game counts as installed when any one of its install folders is
/// among the installed ones: its save directories are then collected in
/// its place in the manifest, between those of the games before and
/// after it.
pub proof fn lemma_game_installed_by_any_folder(
    m: Seq<(String, GameSpec)>,
    installed: Seq<Seq<char>>,
    dirs: KnownDirs,
    i: int,
    j: int,
)
    requires
        0 <= i < m.len(),
        0 <= j < m[i].1.install_dir@.len(),
        installed.contains(m[i].1.install_dir@[j]@),
    ensures
        manifest_save_paths(m, installed, dirs) == manifest_save_paths(m.take(i), installed, dirs)
            + file_save_paths(m[i].1.files@, dirs) + manifest_save_paths(m.skip(i + 1), installed, dirs),
{
    lemma_manifest_split_at(m, installed, dirs, i);
}

/// A game none of whose install folders is among the installed ones
/// contributes nothing: the save directories are those of the other
/// games.
pub proof fn lemma_game_without_installed_folder_is_skipped(
    m: Seq<(String, GameSpec)>,
    installed: Seq<Seq<char>>,
    dirs: KnownDirs,
    i: int,
)
    requires
        0 <= i < m.len(),
        forall|j: int| 0 <= j < m[i].1.install_dir@.len() ==> !installed.contains(#[trigger] m[i].1.install_dir@[j]@),
    ensures
        manifest_save_paths(m, installed, dirs) == manifest_save_paths(m.take(i), installed, dirs)
            + manifest_save_paths(m.skip(i + 1), installed, dirs),
{
    lemma_manifest_split_at(m, installed, dirs, i);
    let x = manifest_save_paths(m.take(i), installed, dirs);
    assert(x + Seq::<Seq<char>>::empty() =~= x);
}

fn is_installed(g: &GameSpec, installed: &Vec<String>) -> (b: bool)
    ensures
        b == game_installed(*g, views(installed@)),
{
    let mut i: usize = 0;
    while i < g.install_dir.len()
        invariant
            i <= g.install_dir@.len(),
            forall|k: int| 0 <= k < i ==> !views(installed@).contains(#[trigger] g.install_dir@[k]@),
        decreases g.install_dir.len() - i,
    {
        let mut j: usize = 0;
        while j < installed.len()
            invariant
                j <= installed@.len(),
                i < g.install_dir@.len(),
                forall|k: int| 0 <= k < j ==> views(installed@)[k] != g.install_dir@[i as int]@,
            decreases installed.len() - j,
        {
            if str_eq(installed[j].as_str(), g.install_dir[i].as_str()) {
                assert(views(installed@)[j as int] == g.install_dir@[i as int]@);
                return true;
            }
            j += 1;
        }
        i += 1;
    }
    false
}

fn game_save_paths(files: &Vec<(String, FileSpec)>, dirs: &KnownDirs, out: &mut Vec<String>)
    ensures
        views(final(out)@) == views(old(out)@) + file_save_paths(files@, *dirs),
{
    let ghost start = views(out@);
    let mut i: usize = 0;
    while i < files.len()
        invariant
            i <= files@.len(),
            views(out@) == start + file_save_paths(files@.take(i as int), *dirs),
        decreases files.len() - i,
    {
        proof {
            assert(files@.take(i + 1).drop_last() =~= files@.take(i as int));
            assert(files@.take(i + 1).last() == files@[i as int]);
        }
        let entry = &files[i];
        if has_save_tag(&entry.1) && applies_to_windows(&entry.1) {
            match resolve_placeholders(entry.0.as_str(), dirs) {
                Some(p) => {
                    let ghost prev = views(out@);
                    out.push(p);
                    assert(views(out@) =~= prev.push(p@));
                },
                None => {},
            }
        }
        i += 1;
    }
    assert(files@.take(files@.len() as int) =~= files@);
}

/// The save directories of the installed games (see
/// `manifest_save_paths`), before sorting.
pub fn collect_save_paths(
    manifest: &Vec<(String, GameSpec)>,
    installed: &Vec<String>,
    dirs: &KnownDirs,
) -> (r: Vec<String>)
    ensures
        views(r@) == manifest_save_paths(manifest@, views(installed@), *dirs),
{
    let mut out: Vec<String> = Vec::new();
    let mut i: usize = 0;
    while i < manifest.len()
        invariant
            i <= manifest@.len(),
            views(out@) == manifest_save_paths(manifest@.take(i as int), views(installed@), *dirs),
        decreases manifest.len() - i,
    {
        proof {
            assert(manifest@.take(i + 1).drop_last() =~= manifest@.take(i as int));
            assert(manifest@.take(i + 1).last() == manifest@[i as int]);
        }
        if is_installed(&manifest[i].1, installed) {
            game_save_paths(&manifest[i].1.files, dirs, &mut out);
        }
        i += 1;
    }
    assert(manifest@.take(manifest@.len() as int) =~= manifest@);
    out
}

impl SteamSavesTemplate {
    pub const NAME: &'static str = "steam-saves";

    /// The template's name.
    pub fn name(&self) -> (r: &'static str)
        ensures
            r@ == "steam-saves"@,
    {
        Self::NAME
    }

    /// The resolution: the save directories of the installed games in
    /// path order, keeping of paths that name the same path only the
    /// first, with no excludes.
    pub fn resolve_from(
        manifest: &Vec<(String, GameSpec)>,
        installed: &Vec<String>,
        dirs: &KnownDirs,
    ) -> (r: ResolvedTemplate)
        ensures
            paths_strictly_sorted(views(r.paths@)),
            forall|i: int|
                0 <= i < r.paths@.len() ==> #[trigger] first_entry_in(
                    manifest_save_paths(manifest@, views(installed@), *dirs),
                    manifest_save_paths(manifest@, views(installed@), *dirs).len() as int,
                    views(r.paths@)[i],
                ),
            forall|k: int|
                0 <= k < manifest_save_paths(manifest@, views(installed@), *dirs).len() ==> #[trigger] has_same_path(
                    views(r.paths@),
                    manifest_save_paths(manifest@, views(installed@), *dirs)[k],
                ),
            r.excludes@.len() == 0,
            r.path_labels@.len() == 0,
    {
        let found = collect_save_paths(manifest, installed, dirs);
        ResolvedTemplate::new(sorted_unique_paths(&found), Vec::new())
    }
}

} // verus!
