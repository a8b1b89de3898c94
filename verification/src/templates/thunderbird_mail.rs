//! `thunderbird-mail`: every Thunderbird profile under
//! `%APPDATA%\Thunderbird\Profiles`, minus caches and lock files. No
//! Thunderbird installed means no paths, not an error.

use vstd::prelude::*;
use crate::order::listed;
use crate::paths::{join, join_path};
use crate::text::{views, push_owned};
use super::{ResolvedTemplate, sort_paths};

verus! {

broadcast use vstd::string::group_string_axioms;

/// The `thunderbird-mail` template.
#[derive(Debug, Clone, Copy)]
pub struct ThunderbirdMailTemplate;

/// Regenerable caches and per-run lock files.
pub open spec fn thunderbird_excludes() -> Seq<Seq<char>> {
    seq![
        "**/cache2/**"@,
        "**/Cache/**"@,
        "**/startupCache/**"@,
        "**/lock"@,
        "**/parent.lock"@,
        "**/*.lock"@,
    ]
}

/// The directory holding the profiles, under the roaming AppData
/// directory.
pub open spec fn profiles_root_of(appdata: Seq<char>) -> Seq<char> {
    join(join(appdata, "Thunderbird"@), "Profiles"@)
}

impl ThunderbirdMailTemplate {
    pub const NAME: &'static str = "thunderbird-mail";

    /// The template's name.
    pub fn name(&self) -> (r: &'static str)
        ensures
            r@ == "thunderbird-mail"@,
    {
        Self::NAME
    }

    /// The exclude globs.
    pub fn excludes() -> (r: Vec<String>)
        ensures
            views(r@) == thunderbird_excludes(),
    {
        let mut r: Vec<String> = Vec::new();
        push_owned(&mut r, "**/cache2/**");
        push_owned(&mut r, "**/Cache/**");
        push_owned(&mut r, "**/startupCache/**");
        push_owned(&mut r, "**/lock");
        push_owned(&mut r, "**/parent.lock");
        push_owned(&mut r, "**/*.lock");
        assert(views(r@) =~= thunderbird_excludes());
        r
    }

    /// Where to look for profiles: nothing when the AppData directory is
    /// unknown.
    pub fn profiles_root(appdata: Option<String>) -> (r: Option<String>)
        ensures
            r is None <==> appdata is None,
            r is Some ==> r->0@ == profiles_root_of(appdata->0@),
    {
        match appdata {
            Some(a) => {
                let t = join_path(a.as_str(), "Thunderbird");
                Some(join_path(t.as_str(), "Profiles"))
            },
            None => None,
        }
    }

    /// The resolution, given the profile directories found under the
    /// profiles root: all of them, in ascending order.
    pub fn resolve_from(profile_dirs: Vec<String>) -> (r: ResolvedTemplate)
        ensures
            r.paths@ == listed(profile_dirs@),
            views(r.excludes@) == thunderbird_excludes(),
            r.path_labels@.len() == 0,
    {
        ResolvedTemplate::new(sort_paths(profile_dirs), Self::excludes())
    }
}

} // verus!
