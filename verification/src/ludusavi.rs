//! The parts of the Ludusavi community manifest that save-game discovery
//! reads: for each game, the folder names it installs under
//! `steamapps/common/` and the file patterns where it keeps its data.
//!
//! Downloading, caching and parsing the manifest happen outside the
//! library; the parsed entries are handed over in these plain types.

use vstd::prelude::*;
use crate::text::{owned, trim, trim_str};

verus! {

/// A condition under which a file pattern applies.
#[derive(Debug)]
pub struct WhenSpec {
    pub os: Option<String>,
    pub store: Option<String>,
}

impl Default for WhenSpec {
    fn default() -> (r: Self)
        ensures
            r.os is None,
            r.store is None,
    {
        WhenSpec { os: None, store: None }
    }
}

/// What a file pattern holds (`tags`, such as `save` or `config`) and the
/// conditions under which it applies (`when`; empty means always).
#[derive(Debug)]
pub struct FileSpec {
    pub tags: Vec<String>,
    pub when: Vec<WhenSpec>,
}

impl Default for FileSpec {
    fn default() -> (r: Self)
        ensures
            r.tags@.len() == 0,
            r.when@.len() == 0,
    {
        FileSpec { tags: Vec::new(), when: Vec::new() }
    }
}

/// One game of the manifest: the install folder names (the keys of its
/// `installDir` mapping, in ascending order) and its file patterns, each
/// with its spec, in ascending order of pattern.
#[derive(Debug)]
pub struct GameSpec {
    pub install_dir: Vec<String>,
    pub files: Vec<(String, FileSpec)>,
}

impl Default for GameSpec {
    fn default() -> (r: Self)
        ensures
            r.install_dir@.len() == 0,
            r.files@.len() == 0,
    {
        GameSpec { install_dir: Vec::new(), files: Vec::new() }
    }
}

/// What to do once the manifest server has answered with `status`.
#[derive(Debug, Clone, Copy, PartialEq, Eq, Structural)]
pub enum ManifestStep {
    /// 304 Not Modified: the cached copy is current.
    UseCache,
    /// A success status: store the body (and its ETag) and use it.
    SaveDownload,
    /// Any other status: fall back to the cached copy, if there is one.
    FallBackToCache,
}

/// The step after an answer with HTTP `status`.
pub fn after_response(status: u16) -> (s: ManifestStep)
    ensures
        s == (if status == 304 {
            ManifestStep::UseCache
        } else if 200 <= status <= 299 {
            ManifestStep::SaveDownload
        } else {
            ManifestStep::FallBackToCache
        }),
{
    if status == 304 {
        ManifestStep::UseCache
    } else if 200 <= status && status <= 299 {
        ManifestStep::SaveDownload
    } else {
        ManifestStep::FallBackToCache
    }
}

/// The ETag to send with the request: the cached one, trimmed, unless
/// nothing is left of it.
pub fn request_etag(cached: Option<String>) -> (r: Option<String>)
    ensures
        match cached {
            Some(c) => if trim(c@).len() > 0 {
                r matches Some(e) && e@ == trim(c@)
            } else {
                r is None
            },
            None => r is None,
        },
{
    match cached {
        Some(c) => {
            let t = trim_str(c.as_str());
            if t.unicode_len() == 0 {
                None
            } else {
                Some(owned(t))
            }
        },
        None => None,
    }
}

} // verus!
