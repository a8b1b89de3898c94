//! `user-files`: the personal known folders of a Windows user —
//! Documents, Desktop, Pictures, Music, Videos, Downloads — and
//! `Saved Games`. Folders the system cannot locate are skipped.

use vstd::prelude::*;
use crate::paths::{join, join_path};
use crate::text::{views, push_owned};
use super::{ResolvedTemplate, present, collect_present};

verus! {

broadcast use vstd::string::group_string_axioms;

/// The `user-files` template.
#[derive(Debug, Clone, Copy)]
pub struct UserFilesTemplate;

/// Files not worth keeping in a user's folders.
pub open spec fn user_file_excludes() -> Seq<Seq<char>> {
    seq!["**/Thumbs.db"@, "**/*.tmp"@, "**/desktop.ini"@]
}

impl UserFilesTemplate {
    pub const NAME: &'static str = "user-files";

    /// The template's name.
    pub fn name(&self) -> (r: &'static str)
        ensures
            r@ == "user-files"@,
    {
        Self::NAME
    }

    /// The exclude globs.
    pub fn excludes() -> (r: Vec<String>)
        ensures
            views(r@) == user_file_excludes(),
    {
        let mut r: Vec<String> = Vec::new();
        push_owned(&mut r, "**/Thumbs.db");
        push_owned(&mut r, "**/*.tmp");
        push_owned(&mut r, "**/desktop.ini");
        assert(views(r@) =~= user_file_excludes());
        r
    }

    /// `Saved Games` under the home directory.
    pub fn saved_games_dir(home: &str) -> (r: String)
        ensures
            r@ == join(home@, "Saved Games"@),
    {
        join_path(home, "Saved Games")
    }

    /// The resolution, given the known folders in the order Documents,
    /// Desktop, Pictures, Music, Videos, Downloads (`None` where the system
    /// could not locate one), and `Saved Games` when that directory exists.
    pub fn resolve_from(known: &Vec<Option<String>>, saved_games: Option<String>) -> (r:
        ResolvedTemplate)
        ensures
            views(r.paths@) == (match saved_games {
                Some(s) => present(known@).push(s@),
                None => present(known@),
            }),
            views(r.excludes@) == user_file_excludes(),
            r.path_labels@.len() == 0,
    {
        let mut paths = collect_present(known);
        match &saved_games {
            Some(s) => push_owned(&mut paths, s.as_str()),
            None => {},
        }
        ResolvedTemplate::new(paths, Self::excludes())
    }
}

} // verus!
