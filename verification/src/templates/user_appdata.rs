//! `user-appdata`: a safety net over the roaming AppData directory, minus
//! caches, logs and temporary files, and minus what the Thunderbird and
//! browser templates already cover.

use vstd::prelude::*;
use crate::text::{views, push_owned};
use super::ResolvedTemplate;

verus! {

broadcast use vstd::string::group_string_axioms;

/// The `user-appdata` template.
#[derive(Debug, Clone, Copy)]
pub struct UserAppdataTemplate;

/// Noise under AppData, and what more specific templates back up.
pub open spec fn appdata_excludes() -> Seq<Seq<char>> {
    seq![
        "**/Cache/**"@,
        "**/Cache2/**"@,
        "**/cache/**"@,
        "**/cache2/**"@,
        "**/Caches/**"@,
        "**/Temp/**"@,
        "**/tmp/**"@,
        "**/Logs/**"@,
        "**/logs/**"@,
        "**/CrashDumps/**"@,
        "**/CrashReports/**"@,
        "**/Thunderbird/**"@,
        "**/Mozilla/Firefox/**"@,
        "**/Microsoft/Windows/WebCache/**"@,
        "**/Microsoft/Windows/INetCache/**"@,
        "**/Microsoft/Windows/Recent/**"@,
    ]
}

impl UserAppdataTemplate {
    pub const NAME: &'static str = "user-appdata";

    /// The template's name.
    pub fn name(&self) -> (r: &'static str)
        ensures
            r@ == "user-appdata"@,
    {
        Self::NAME
    }

    /// The exclude globs.
    pub fn excludes() -> (r: Vec<String>)
        ensures
            views(r@) == appdata_excludes(),
    {
        let mut r: Vec<String> = Vec::new();
        push_owned(&mut r, "**/Cache/**");
        push_owned(&mut r, "**/Cache2/**");
        push_owned(&mut r, "**/cache/**");
        push_owned(&mut r, "**/cache2/**");
        push_owned(&mut r, "**/Caches/**");
        push_owned(&mut r, "**/Temp/**");
        push_owned(&mut r, "**/tmp/**");
        push_owned(&mut r, "**/Logs/**");
        push_owned(&mut r, "**/logs/**");
        push_owned(&mut r, "**/CrashDumps/**");
        push_owned(&mut r, "**/CrashReports/**");
        push_owned(&mut r, "**/Thunderbird/**");
        push_owned(&mut r, "**/Mozilla/Firefox/**");
        push_owned(&mut r, "**/Microsoft/Windows/WebCache/**");
        push_owned(&mut r, "**/Microsoft/Windows/INetCache/**");
        push_owned(&mut r, "**/Microsoft/Windows/Recent/**");
        assert(views(r@) =~= appdata_excludes());
        r
    }

    /// The resolution, given the roaming AppData directory when it exists.
    pub fn resolve_from(appdata: Option<String>) -> (r: ResolvedTemplate)
        ensures
            views(r.paths@) == (match appdata {
                Some(a) => seq![a@],
                None => Seq::empty(),
            }),
            views(r.excludes@) == appdata_excludes(),
            r.path_labels@.len() == 0,
    {
        let mut paths: Vec<String> = Vec::new();
        match &appdata {
            Some(a) => push_owned(&mut paths, a.as_str()),
            None => {},
        }
        assert(views(paths@) =~= (match appdata {
            Some(a) => seq![a@],
            None => Seq::<Seq<char>>::empty(),
        }));
        ResolvedTemplate::new(paths, Self::excludes())
    }
}

} // verus!
