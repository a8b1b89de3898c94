//! Parsing of the dashboard's routes and requests: the job or repository
//! named in an action path, the `path` query parameter of the file-system
//! routes, and the checks and text of a freshly generated repository
//! passphrase.

use vstd::prelude::*;
use crate::paths::{has_segment, contains_segment};
use crate::text::{
    chars_of, find_char, find_char_from, lemma_find_char, has_char, starts_with, slice_chars, str_eq,
    owned, find_sub, contains_str,
};
use crate::templates::opt_view;

verus! {

broadcast use vstd::string::group_string_axioms;

/// What `lithair_core::http::query::percent_decode` makes of `s`.
pub uninterp spec fn percent_decoded(s: Seq<char>) -> Seq<char>;

/// Calls `lithair_core::http::query::percent_decode`, which turns `%XX`
/// escapes into bytes and `+` into a space, keeping the input when the
/// bytes are not UTF-8. Claimed: the result is `percent_decoded` of the
/// input, and a string without `%` and `+` comes back unchanged (its bytes
/// are copied as they are).
#[verifier::external_body]
fn percent_decode(s: &str) -> (r: String)
    ensures
        r@ == percent_decoded(s@),
        !has_char(s@, '%') && !has_char(s@, '+') ==> r@ == s@,
{
    lithair_core::http::query::percent_decode(s)
}

/// The pieces of `s` between occurrences of `c`.
pub open spec fn pieces(s: Seq<char>, c: char) -> Seq<Seq<char>>
    decreases s.len(),
{
    match find_char(s, c) {
        None => seq![s],
        Some(i) => {
            proof {
                lemma_find_char(s, c);
            }
            seq![s.subrange(0, i)] + pieces(s.subrange(i + 1, s.len() as int), c)
        },
    }
}

/// The value of `key` among the `key=value` pairs: the first pair with an
/// `=` whose decoded key is `key` decides, its decoded value if that is
/// not empty.
pub open spec fn param_in(pairs: Seq<Seq<char>>, key: Seq<char>) -> Option<Seq<char>>
    decreases pairs.len(),
{
    if pairs.len() == 0 {
        None
    } else {
        let p = pairs[0];
        match find_char(p, '=') {
            None => param_in(pairs.drop_first(), key),
            Some(i) => if percent_decoded(p.subrange(0, i)) == key {
                let v = percent_decoded(p.subrange(i + 1, p.len() as int));
                if v.len() == 0 {
                    None
                } else {
                    Some(v)
                }
            } else {
                param_in(pairs.drop_first(), key)
            },
        }
    }
}

/// The value of `key` in the query string `q` (pairs separated by `&`).
pub open spec fn query_param_of(q: Seq<char>, key: Seq<char>) -> Option<Seq<char>> {
    if q.len() == 0 {
        None
    } else {
        param_in(pieces(q, '&'), key)
    }
}

proof fn lemma_param_not_empty(pairs: Seq<Seq<char>>, key: Seq<char>)
    ensures
        param_in(pairs, key) matches Some(v) ==> v.len() > 0,
    decreases pairs.len(),
{
    if pairs.len() > 0 {
        lemma_param_not_empty(pairs.drop_first(), key);
    }
}

/// Calls `lithair_core::http::query::param`. Claimed, as its source
/// reads: an empty query has no parameters; otherwise the pairs between
/// `&` are scanned in order, a pair without `=` is skipped, the first
/// pair whose percent-decoded key equals `key` decides, and its
/// percent-decoded value is returned unless it is empty.
#[verifier::external_body]
fn query_param(query: &str, key: &str) -> (r: Option<String>)
    ensures
        opt_view(r) == query_param_of(query@, key@),
{
    lithair_core::http::query::param(query, key)
}

/// The raw name in `path` = `<prefix><name>/<action>`, with a non-empty
/// name and nothing after the action.
pub open spec fn action_target(path: Seq<char>, prefix: Seq<char>, action: Seq<char>) -> Option<Seq<char>> {
    if path.len() >= prefix.len() && path.subrange(0, prefix.len() as int) == prefix {
        let stripped = path.subrange(prefix.len() as int, path.len() as int);
        match find_char(stripped, '/') {
            None => None,
            Some(i) => {
                let name = stripped.subrange(0, i);
                let rest = stripped.subrange(i + 1, stripped.len() as int);
                if rest == action && name.len() > 0 {
                    Some(name)
                } else {
                    None
                }
            },
        }
    } else {
        None
    }
}

/// The decoded name of `<prefix><name>/<action>`.
fn extract_target(path: &str, prefix: &str, action: &str) -> (r: Option<String>)
    ensures
        match action_target(path@, prefix@, action@) {
            Some(n) => r matches Some(s) && s@ == percent_decoded(n) && (!has_char(n, '%') && !has_char(
                n,
                '+',
            ) ==> s@ == n),
            None => r is None,
        },
{
    if !starts_with(path, prefix) {
        return None;
    }
    let v = chars_of(path);
    let p = chars_of(prefix);
    let ghost stripped = v@.subrange(p@.len() as int, v@.len() as int);
    match find_char_from(&v, '/', p.len()) {
        None => None,
        Some(i) => {
            proof {
                assert(stripped.subrange(0, i - p@.len()) =~= v@.subrange(p@.len() as int, i as int));
                assert(stripped.subrange(i - p@.len() + 1, stripped.len() as int) =~= v@.subrange(
                    i + 1,
                    v@.len() as int,
                ));
            }
            let n: usize = v.len();
            assert(i < n);
            let name = slice_chars(path, p.len(), i);
            let rest = slice_chars(path, i + 1, n);
            if str_eq(rest, action) && i > p.len() {
                Some(percent_decode(name))
            } else {
                None
            }
        },
    }
}

/// The job of `/api/jobs/<name>/run`, percent-decoded.
pub fn extract_job_name(path: &str) -> (r: Option<String>)
    ensures
        match action_target(path@, "/api/jobs/"@, "run"@) {
            Some(n) => r matches Some(s) && s@ == percent_decoded(n) && (!has_char(n, '%')
                && !has_char(n, '+') ==> s@ == n),
            None => r is None,
        },
{
    extract_target(path, "/api/jobs/", "run")
}

/// The repository of `/api/repositories/<name>/<action>`, percent-decoded.
pub fn extract_repo_name_for_action(path: &str, action: &str) -> (r: Option<String>)
    ensures
        match action_target(path@, "/api/repositories/"@, action@) {
            Some(n) => r matches Some(s) && s@ == percent_decoded(n) && (!has_char(n, '%')
                && !has_char(n, '+') ==> s@ == n),
            None => r is None,
        },
{
    extract_target(path, "/api/repositories/", action)
}

/// The repository of `/api/repositories/<name>/init`.
pub fn extract_repo_name_for_init(path: &str) -> (r: Option<String>)
    ensures
        match action_target(path@, "/api/repositories/"@, "init"@) {
            Some(n) => r matches Some(s) && s@ == percent_decoded(n) && (!has_char(n, '%')
                && !has_char(n, '+') ==> s@ == n),
            None => r is None,
        },
{
    extract_repo_name_for_action(path, "init")
}

/// The repository of `/api/repositories/<name>/verify`.
pub fn extract_repo_name_for_verify(path: &str) -> (r: Option<String>)
    ensures
        match action_target(path@, "/api/repositories/"@, "verify"@) {
            Some(n) => r matches Some(s) && s@ == percent_decoded(n) && (!has_char(n, '%')
                && !has_char(n, '+') ==> s@ == n),
            None => r is None,
        },
{
    extract_repo_name_for_action(path, "verify")
}

/// The target named in an action path built from a name is that name,
/// for any non-empty name without `/`.
pub proof fn lemma_action_path_names_its_target(prefix: Seq<char>, name: Seq<char>, action: Seq<char>)
    requires
        name.len() > 0,
        !has_char(name, '/'),
    ensures
        action_target(prefix + name + seq!['/'] + action, prefix, action) == Some(name),
{
    let path = prefix + name + seq!['/'] + action;
    assert(path.subrange(0, prefix.len() as int) =~= prefix);
    let stripped = path.subrange(prefix.len() as int, path.len() as int);
    assert(stripped =~= name + seq!['/'] + action);
    crate::text::lemma_find_char_at(stripped, '/', name.len() as int);
    assert(stripped.subrange(0, name.len() as int) =~= name);
    assert(stripped.subrange(name.len() as int + 1, stripped.len() as int) =~= action);
}

/// A request path that belongs to the API (or to the built-in health
/// routes): an unknown one is answered with a JSON 404 rather than the
/// dashboard page.
pub open spec fn is_api_path_spec(path: Seq<char>) -> bool {
    (path.len() >= 5 && path.subrange(0, 5) == "/api/"@) || path == "/health"@ || path == "/ready"@
        || path == "/info"@
}

/// Whether an unmatched request path gets the JSON 404.
pub fn is_api_path(path: &str) -> (b: bool)
    ensures
        b == is_api_path_spec(path@),
{
    proof {
        reveal_strlit("/api/");
    }
    starts_with(path, "/api/") || str_eq(path, "/health") || str_eq(path, "/ready") || str_eq(path, "/info")
}

/// The `Cache-Control` of an embedded dashboard asset: the hashed files
/// under `_app/immutable/` never change and are cached for a year, the
/// others for five minutes.
pub fn cache_control(asset_path: &str) -> (c: &'static str)
    ensures
        c@ == (if asset_path@.len() >= 15 && asset_path@.subrange(0, 15) == "_app/immutable/"@ {
            "public, max-age=31536000, immutable"@
        } else {
            "public, max-age=300"@
        }),
{
    proof {
        reveal_strlit("_app/immutable/");
    }
    if starts_with(asset_path, "_app/immutable/") {
        "public, max-age=31536000, immutable"
    } else {
        "public, max-age=300"
    }
}

/// Why a path given to a file-system route is refused.
#[derive(Debug)]
pub enum PathRequestError {
    /// No path, or an empty one.
    MissingPath,
    /// The path has a `..` component.
    PathTraversal { path: String },
}

impl PathRequestError {
    /// The machine-readable error code of the dashboard's answer.
    pub fn code(&self) -> (c: &'static str)
        ensures
            c@ == (match self {
                PathRequestError::MissingPath => "missing_path"@,
                PathRequestError::PathTraversal { .. } => "path_traversal"@,
            }),
    {
        match self {
            PathRequestError::MissingPath => "missing_path",
            PathRequestError::PathTraversal { .. } => "path_traversal",
        }
    }
}

/// The verdict on a requested path: refused when empty, then when it has
/// a `..` component.
pub open spec fn path_verdict(p: Option<Seq<char>>) -> Option<Seq<char>> {
    match p {
        None => None,
        Some(s) => if s.len() == 0 || has_segment(s, ".."@) {
            None
        } else {
            Some(s)
        },
    }
}

fn check_path(raw: Option<String>) -> (r: Result<String, PathRequestError>)
    ensures
        match r {
            Ok(p) => path_verdict(opt_view(raw)) == Some(p@),
            Err(PathRequestError::MissingPath) => raw is None || raw->0@.len() == 0,
            Err(PathRequestError::PathTraversal { path }) => raw is Some && raw->0@.len() > 0
                && has_segment(raw->0@, ".."@) && path@ == raw->0@,
        },
{
    match raw {
        None => Err(PathRequestError::MissingPath),
        Some(p) => {
            if p.as_str().unicode_len() == 0 {
                Err(PathRequestError::MissingPath)
            } else if contains_segment(p.as_str(), "..") {
                Err(PathRequestError::PathTraversal { path: p })
            } else {
                Ok(p)
            }
        },
    }
}

/// The `path` parameter of a file-system route's query string, checked:
/// missing or empty, then `..` components, are refused.
pub fn requested_fs_path(query: &str) -> (r: Result<String, PathRequestError>)
    ensures
        match r {
            Ok(p) => path_verdict(query_param_of(query@, "path"@)) == Some(p@),
            Err(PathRequestError::MissingPath) => query_param_of(query@, "path"@) is None,
            Err(PathRequestError::PathTraversal { path }) => query_param_of(query@, "path"@)
                == Some(path@) && has_segment(path@, ".."@),
        },
{
    let raw = query_param(query, "path");
    proof {
        if query@.len() > 0 {
            lemma_param_not_empty(pieces(query@, '&'), "path"@);
        }
    }
    check_path(raw)
}

/// A passphrase file path given in a request body, checked the same way.
pub fn requested_key_path(raw: &str) -> (r: Result<String, PathRequestError>)
    ensures
        match r {
            Ok(p) => path_verdict(Some(raw@)) == Some(p@),
            Err(PathRequestError::MissingPath) => raw@.len() == 0,
            Err(PathRequestError::PathTraversal { path }) => raw@.len() > 0 && has_segment(raw@, ".."@)
                && path@ == raw@,
        },
{
    check_path(Some(owned(raw)))
}

/// The lower-case ASCII letters.
pub open spec fn lower_letters() -> Seq<char> {
    "abcdefghijklmnopqrstuvwxyz"@
}

/// `c` in lower case, for ASCII letters.
pub open spec fn ascii_lower(c: char) -> char {
    if 'A' <= c && c <= 'Z' {
        lower_letters()[(c as u32 - 65) as int]
    } else {
        c
    }
}

/// The message of a failed repository initialization says the repository
/// already exists: it contains `already`, letter case aside.
pub open spec fn says_already(msg: Seq<char>) -> bool {
    find_sub(msg.map_values(|c: char| ascii_lower(c)), "already"@) is Some
}

/// Whether an initialization failure means "already initialized".
pub fn is_already_initialized(msg: &str) -> (b: bool)
    ensures
        b == says_already(msg@),
{
    let letters = "abcdefghijklmnopqrstuvwxyz";
    proof {
        reveal_strlit("abcdefghijklmnopqrstuvwxyz");
    }
    let v = chars_of(msg);
    let mut lower = String::new();
    let mut i: usize = 0;
    while i < v.len()
        invariant
            i <= v@.len(),
            v@ == msg@,
            letters@ == lower_letters(),
            letters@.len() == 26,
            lower@ == msg@.take(i as int).map_values(|c: char| ascii_lower(c)),
        decreases v.len() - i,
    {
        let c = v[i];
        let piece = if 'A' <= c && c <= 'Z' {
            let k: usize = (c as u32 - 65) as usize;
            let p = slice_chars(letters, k, k + 1);
            assert(p@ =~= seq![ascii_lower(c)]);
            p
        } else {
            let p = slice_chars(msg, i, i + 1);
            assert(p@ =~= seq![ascii_lower(c)]);
            p
        };
        lower.append(piece);
        assert(msg@.take(i + 1).map_values(|c: char| ascii_lower(c)) =~= msg@.take(i as int).map_values(
            |c: char| ascii_lower(c),
        ).push(ascii_lower(msg@[i as int])));
        i += 1;
    }
    assert(msg@.take(v@.len() as int) =~= msg@);
    contains_str(lower.as_str(), "already")
}

/// The hexadecimal digits, lower case.
pub open spec fn hex_digits() -> Seq<char> {
    "0123456789abcdef"@
}

/// Two lowercase hexadecimal digits per byte.
pub open spec fn hex_of(b: Seq<u8>) -> Seq<char>
    decreases b.len(),
{
    if b.len() == 0 {
        Seq::empty()
    } else {
        hex_of(b.drop_last()).push(hex_digits()[(b.last() / 16) as int]).push(
            hex_digits()[(b.last() % 16) as int],
        )
    }
}

proof fn lemma_hex_len(b: Seq<u8>)
    ensures
        hex_of(b).len() == 2 * b.len(),
    decreases b.len(),
{
    if b.len() > 0 {
        lemma_hex_len(b.drop_last());
    }
}

/// `bytes` in lowercase hexadecimal, two digits per byte.
pub fn hex_lower(bytes: &[u8]) -> (r: String)
    ensures
        r@ == hex_of(bytes@),
        r@.len() == 2 * bytes@.len(),
{
    let digits = "0123456789abcdef";
    proof {
        reveal_strlit("0123456789abcdef");
    }
    let mut r = String::new();
    let mut i: usize = 0;
    while i < bytes.len()
        invariant
            i <= bytes@.len(),
            digits@ == hex_digits(),
            digits@.len() == 16,
            r@ == hex_of(bytes@.take(i as int)),
        decreases bytes.len() - i,
    {
        let b = bytes[i];
        let hi: usize = (b / 16) as usize;
        let lo: usize = (b % 16) as usize;
        let h = slice_chars(digits, hi, hi + 1);
        let l = slice_chars(digits, lo, lo + 1);
        assert(h@ =~= seq![hex_digits()[(b / 16) as int]]);
        assert(l@ =~= seq![hex_digits()[(b % 16) as int]]);
        r.append(h);
        r.append(l);
        assert(bytes@.take(i + 1).drop_last() =~= bytes@.take(i as int));
        assert(bytes@.take(i + 1).last() == b);
        i += 1;
    }
    assert(bytes@.take(bytes@.len() as int) =~= bytes@);
    proof {
        lemma_hex_len(bytes@);
    }
    r
}

/// Calls `getrandom::getrandom` on `buf`, which fills it with random bytes
/// from the system source. Nothing is claimed of the bytes; an error
/// comes back as the text of the crate's error.
#[verifier::external_body]
fn fill_random(buf: &mut [u8; 32]) -> (r: Result<(), String>)
{
    match getrandom::getrandom(buf) {
        Ok(()) => Ok(()),
        Err(e) => Err(e.to_string()),
    }
}

/// A fresh repository passphrase: 32 random bytes written as 64
/// lowercase hexadecimal digits; the text of the error when the system
/// source of randomness fails.
pub fn new_passphrase() -> (r: Result<String, String>)
    ensures
        r matches Ok(p) ==> p@.len() == 64 && exists|b: Seq<u8>| b.len() == 32 && p@ == hex_of(b),
{
    let mut buf: [u8; 32] = [0u8; 32];
    match fill_random(&mut buf) {
        Ok(()) => {
            let p = hex_lower(&buf);
            assert(buf@.len() == 32);
            Ok(p)
        },
        Err(e) => Err(e),
    }
}

} // verus!
