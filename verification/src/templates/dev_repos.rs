//! `dev-repos`: every git repository under a scan root (the home
//! directory by default), skipping build output and dependency trees both
//! while searching and in the backup.

use vstd::prelude::*;
use crate::text::{views, push_owned, concat2, str_eq};
use super::ResolvedTemplate;

verus! {

broadcast use vstd::string::group_string_axioms;

/// The `dev-repos` template.
#[derive(Debug, Clone, Copy)]
pub struct DevReposTemplate;

/// Directory names that are regenerable from source.
pub open spec fn skip_dir_names() -> Seq<Seq<char>> {
    seq!["node_modules"@, "target"@, ".venv"@, "dist"@, "build"@, ".next"@]
}

/// The exclude globs: `**/<name>` for each skipped directory name.
pub open spec fn dev_excludes() -> Seq<Seq<char>> {
    skip_dir_names().map_values(|n: Seq<char>| "**/"@ + n)
}

/// What the scan does with one entry of the walk.
#[derive(Debug, Clone, Copy, PartialEq, Eq, Structural)]
pub enum ScanStep {
    /// Not a directory: nothing to do.
    Ignore,
    /// A skipped directory: do not descend into it.
    Prune,
    /// A repository root: report it and do not descend into it.
    Found,
    /// An ordinary directory: keep walking inside it.
    Descend,
}

/// The decision for a walk entry named `name`: files are ignored,
/// skipped directory names pruned, directories holding a `.git` entry
/// reported, and other directories entered.
pub open spec fn scan_step_of(name: Seq<char>, is_dir: bool, has_git: bool) -> ScanStep {
    if !is_dir {
        ScanStep::Ignore
    } else if skip_dir_names().contains(name) {
        ScanStep::Prune
    } else if has_git {
        ScanStep::Found
    } else {
        ScanStep::Descend
    }
}

impl DevReposTemplate {
    pub const NAME: &'static str = "dev-repos";

    /// The template's name.
    pub fn name(&self) -> (r: &'static str)
        ensures
            r@ == "dev-repos"@,
    {
        Self::NAME
    }

    /// The skipped directory names, in order.
    pub fn skip_dir_names() -> (r: Vec<String>)
        ensures
            views(r@) == skip_dir_names(),
    {
        let mut r: Vec<String> = Vec::new();
        push_owned(&mut r, "node_modules");
        push_owned(&mut r, "target");
        push_owned(&mut r, ".venv");
        push_owned(&mut r, "dist");
        push_owned(&mut r, "build");
        push_owned(&mut r, ".next");
        assert(views(r@) =~= skip_dir_names());
        r
    }

    /// The exclude globs.
    pub fn excludes() -> (r: Vec<String>)
        ensures
            views(r@) == dev_excludes(),
    {
        let names = Self::skip_dir_names();
        let mut r: Vec<String> = Vec::new();
        let mut i: usize = 0;
        while i < names.len()
            invariant
                i <= names@.len(),
                views(names@) == skip_dir_names(),
                views(r@) == dev_excludes().take(i as int),
            decreases names.len() - i,
        {
            let g = concat2("**/", names[i].as_str());
            let ghost prev = views(r@);
            r.push(g);
            assert(views(r@) =~= prev.push(g@));
            assert(dev_excludes().take(i + 1) =~= dev_excludes().take(i as int).push(
                "**/"@ + skip_dir_names()[i as int],
            ));
            i += 1;
        }
        assert(dev_excludes().take(6) =~= dev_excludes());
        r
    }

    /// `name` is one of the skipped directory names.
    pub fn is_skipped_dir(name: &str) -> (b: bool)
        ensures
            b == skip_dir_names().contains(name@),
    {
        let names = Self::skip_dir_names();
        let mut i: usize = 0;
        while i < names.len()
            invariant
                i <= names@.len(),
                views(names@) == skip_dir_names(),
                forall|k: int| 0 <= k < i ==> skip_dir_names()[k] != name@,
            decreases names.len() - i,
        {
            if str_eq(names[i].as_str(), name) {
                assert(skip_dir_names()[i as int] == name@);
                return true;
            }
            i += 1;
        }
        false
    }

    /// The decision for one entry of the walk (see `scan_step_of`).
    pub fn scan_step(name: &str, is_dir: bool, has_git: bool) -> (s: ScanStep)
        ensures
            s == scan_step_of(name@, is_dir, has_git),
    {
        if !is_dir {
            ScanStep::Ignore
        } else if Self::is_skipped_dir(name) {
            ScanStep::Prune
        } else if has_git {
            ScanStep::Found
        } else {
            ScanStep::Descend
        }
    }

    /// The resolution, given the repository roots the walk reported.
    pub fn resolve_from(found: Vec<String>) -> (r: ResolvedTemplate)
        ensures
            r.paths@ == found@,
            views(r.excludes@) == dev_excludes(),
            r.path_labels@.len() == 0,
    {
        ResolvedTemplate::new(found, Self::excludes())
    }
}

} // verus!
