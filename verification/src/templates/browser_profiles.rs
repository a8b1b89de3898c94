//! `browser-profiles`: the state needed to restore a user's browsers.
//!
//! Firefox profiles (`%APPDATA%\Mozilla\Firefox\Profiles\*`) are backed up
//! whole, minus caches. Of each Chromium profile (`Default`, `Profile N`
//! under `User Data` of Chrome, Edge and Brave) only a short list of
//! files and directories is taken. Each browser can be switched off;
//! Brave is off unless asked for.

use vstd::prelude::*;
use crate::order::listed;
use crate::paths::{join, join_path};
use crate::text::{views, push_owned, str_eq, starts_with};
use super::{ResolvedTemplate, sort_paths};

verus! {

broadcast use vstd::string::group_string_axioms;

/// The `browser-profiles` template.
#[derive(Debug, Clone, Copy)]
pub struct BrowserProfilesTemplate;

/// Which browsers to back up.
#[derive(Debug, Clone, Copy, PartialEq, Eq, Structural)]
pub struct BrowserOptions {
    pub firefox: bool,
    pub chrome: bool,
    pub edge: bool,
    pub brave: bool,
}

/// The default of an option that is on unless switched off.
pub fn default_true() -> (b: bool)
    ensures
        b,
{
    true
}

impl Default for BrowserOptions {
    /// Firefox, Chrome and Edge on; Brave off.
    fn default() -> (r: Self)
        ensures
            r.firefox && r.chrome && r.edge && !r.brave,
    {
        BrowserOptions { firefox: default_true(), chrome: default_true(), edge: default_true(), brave: false }
    }
}

/// Firefox caches, per-origin storage and lock files.
pub open spec fn browser_excludes() -> Seq<Seq<char>> {
    seq![
        "**/cache2/**"@,
        "**/cache/**"@,
        "**/storage/**"@,
        "**/startupCache/**"@,
        "**/lock"@,
        "**/*.lock"@,
    ]
}

/// The files of a Chromium profile worth keeping.
pub open spec fn chromium_files() -> Seq<Seq<char>> {
    seq![
        "Bookmarks"@,
        "Bookmarks.bak"@,
        "History"@,
        "Preferences"@,
        "Login Data"@,
        "Login Data For Account"@,
        "Cookies"@,
        "Web Data"@,
        "Favicons"@,
        "Shortcuts"@,
        "Top Sites"@,
        "Reading List"@,
    ]
}

/// The directories of a Chromium profile worth keeping.
pub open spec fn chromium_dirs() -> Seq<Seq<char>> {
    seq!["Extensions"@, "Local Extension Settings"@]
}

/// A directory of `User Data` is a user profile: `Default` or
/// `Profile <something>`.
pub open spec fn is_profile_name(name: Seq<char>) -> bool {
    name == "Default"@ || (name.len() >= 8 && name.subrange(0, 8) == "Profile "@)
}

/// Where Firefox keeps its profiles, under the roaming AppData directory.
pub open spec fn firefox_root_of(appdata: Seq<char>) -> Seq<char> {
    join(join(join(appdata, "Mozilla"@), "Firefox"@), "Profiles"@)
}

/// The installation roots of the Chromium browsers that `opts` enables,
/// under the local AppData directory: Chrome, then Edge, then Brave.
pub open spec fn chromium_roots_of(opts: BrowserOptions, local: Seq<char>) -> Seq<Seq<char>> {
    (if opts.chrome {
        seq![join(join(local, "Google"@), "Chrome"@)]
    } else {
        Seq::empty()
    }) + (if opts.edge {
        seq![join(join(local, "Microsoft"@), "Edge"@)]
    } else {
        Seq::empty()
    }) + (if opts.brave {
        seq![join(join(local, "BraveSoftware"@), "Brave-Browser"@)]
    } else {
        Seq::empty()
    })
}

/// One whitelisted entry of a Chromium profile, and whether it must be a
/// directory (otherwise a file) to be taken.
#[derive(Debug)]
pub struct Candidate {
    pub path: String,
    pub is_dir: bool,
}

/// The whitelisted entries of the profile `profile`: the files, then the
/// directories, each in list order.
pub open spec fn candidates_of(profile: Seq<char>) -> Seq<(Seq<char>, bool)> {
    chromium_files().map_values(|f: Seq<char>| (join(profile, f), false)) + chromium_dirs().map_values(
        |d: Seq<char>| (join(profile, d), true),
    )
}

impl BrowserProfilesTemplate {
    pub const NAME: &'static str = "browser-profiles";

    /// The template's name.
    pub fn name(&self) -> (r: &'static str)
        ensures
            r@ == "browser-profiles"@,
    {
        Self::NAME
    }

    /// The exclude globs.
    pub fn excludes() -> (r: Vec<String>)
        ensures
            views(r@) == browser_excludes(),
    {
        let mut r: Vec<String> = Vec::new();
        push_owned(&mut r, "**/cache2/**");
        push_owned(&mut r, "**/cache/**");
        push_owned(&mut r, "**/storage/**");
        push_owned(&mut r, "**/startupCache/**");
        push_owned(&mut r, "**/lock");
        push_owned(&mut r, "**/*.lock");
        assert(views(r@) =~= browser_excludes());
        r
    }

    /// Where Firefox keeps its profiles.
    pub fn firefox_root(appdata: &str) -> (r: String)
        ensures
            r@ == firefox_root_of(appdata@),
    {
        let a = join_path(appdata, "Mozilla");
        let b = join_path(a.as_str(), "Firefox");
        join_path(b.as_str(), "Profiles")
    }

    /// The roots of the enabled Chromium browsers.
    pub fn chromium_roots(opts: BrowserOptions, local: &str) -> (r: Vec<String>)
        ensures
            views(r@) == chromium_roots_of(opts, local@),
    {
        let mut r: Vec<String> = Vec::new();
        if opts.chrome {
            let g = join_path(local, "Google");
            let c = join_path(g.as_str(), "Chrome");
            r.push(c);
        }
        let ghost after_chrome = views(r@);
        if opts.edge {
            let m = join_path(local, "Microsoft");
            let e = join_path(m.as_str(), "Edge");
            r.push(e);
        }
        let ghost after_edge = views(r@);
        if opts.brave {
            let s = join_path(local, "BraveSoftware");
            let b = join_path(s.as_str(), "Brave-Browser");
            r.push(b);
        }
        assert(views(r@) =~= chromium_roots_of(opts, local@));
        r
    }

    /// The `User Data` directory of a Chromium browser root.
    pub fn user_data_dir(root: &str) -> (r: String)
        ensures
            r@ == join(root@, "User Data"@),
    {
        join_path(root, "User Data")
    }

    /// `name` is a user profile directory of `User Data`.
    pub fn is_profile_name(name: &str) -> (b: bool)
        ensures
            b == is_profile_name(name@),
    {
        proof {
            reveal_strlit("Profile ");
        }
        str_eq(name, "Default") || starts_with(name, "Profile ")
    }

    /// The profile directories among the directories of `User Data`, in
    /// ascending order.
    pub fn select_profiles(dirs: Vec<(String, String)>) -> (r: Vec<String>)
        ensures
            r@ == listed(
                dirs@.filter(|e: (String, String)| is_profile_name(e.1@)).map_values(
                    |e: (String, String)| e.0,
                ),
            ),
    {
        let ghost keep = dirs@.filter(|e: (String, String)| is_profile_name(e.1@));
        let mut chosen: Vec<String> = Vec::new();
        let mut rest = dirs;
        let ghost whole = rest@;
        let n: usize = rest.len();
        let mut k: usize = 0;
        while rest.len() > 0
            invariant
                k + rest@.len() == whole.len(),
                whole.len() == n,
                rest@ == whole.skip(k as int),
                chosen@ == whole.take(k as int).filter(|e: (String, String)| is_profile_name(e.1@)).map_values(
                    |e: (String, String)| e.0,
                ),
            decreases rest.len(),
        {
            let (path, name) = rest.remove(0);
            proof {
                assert(whole.take(k + 1).drop_last() =~= whole.take(k as int));
                assert(whole.take(k + 1).last() == (path, name));
                reveal(Seq::filter);
            }
            if Self::is_profile_name(name.as_str()) {
                chosen.push(path);
                proof {
                    assert(chosen@ =~= whole.take(k + 1).filter(|e: (String, String)| is_profile_name(e.1@)).map_values(
                        |e: (String, String)| e.0,
                    ));
                }
            } else {
                proof {
                    assert(chosen@ =~= whole.take(k + 1).filter(|e: (String, String)| is_profile_name(e.1@)).map_values(
                        |e: (String, String)| e.0,
                    ));
                }
            }
            assert(rest@ =~= whole.skip(k + 1));
            k += 1;
        }
        assert(whole.take(k as int) =~= whole);
        sort_paths(chosen)
    }

    /// The whitelisted entries of a Chromium profile directory.
    pub fn profile_candidates(profile: &str) -> (r: Vec<Candidate>)
        ensures
            r@.map_values(|c: Candidate| (c.path@, c.is_dir)) == candidates_of(profile@),
    {
        let mut r: Vec<Candidate> = Vec::new();
        let files: [&str; 12] = [
            "Bookmarks",
            "Bookmarks.bak",
            "History",
            "Preferences",
            "Login Data",
            "Login Data For Account",
            "Cookies",
            "Web Data",
            "Favicons",
            "Shortcuts",
            "Top Sites",
            "Reading List",
        ];
        let dirs: [&str; 2] = ["Extensions", "Local Extension Settings"];
        let ghost want = candidates_of(profile@);
        assert(files@.map_values(|f: &str| f@) =~= chromium_files());
        assert(dirs@.map_values(|d: &str| d@) =~= chromium_dirs());
        let mut i: usize = 0;
        while i < 12
            invariant
                i <= 12,
                files@.map_values(|f: &str| f@) == chromium_files(),
                want == candidates_of(profile@),
                r@.map_values(|c: Candidate| (c.path@, c.is_dir)) == want.take(i as int),
            decreases 12 - i,
        {
            let p = join_path(profile, files[i]);
            let ghost prev = r@.map_values(|c: Candidate| (c.path@, c.is_dir));
            r.push(Candidate { path: p, is_dir: false });
            proof {
                assert(files@.map_values(|f: &str| f@)[i as int] == files@[i as int]@);
                assert(want[i as int] == (join(profile@, chromium_files()[i as int]), false));
                assert(r@.map_values(|c: Candidate| (c.path@, c.is_dir)) =~= prev.push(want[i as int]));
                assert(want.take(i + 1) =~= want.take(i as int).push(want[i as int]));
            }
            i += 1;
        }
        let mut j: usize = 0;
        while j < 2
            invariant
                j <= 2,
                dirs@.map_values(|d: &str| d@) == chromium_dirs(),
                want == candidates_of(profile@),
                r@.map_values(|c: Candidate| (c.path@, c.is_dir)) == want.take(12 + j),
            decreases 2 - j,
        {
            let p = join_path(profile, dirs[j]);
            let ghost prev = r@.map_values(|c: Candidate| (c.path@, c.is_dir));
            r.push(Candidate { path: p, is_dir: true });
            proof {
                assert(dirs@.map_values(|d: &str| d@)[j as int] == dirs@[j as int]@);
                assert(want[12 + j] == (join(profile@, chromium_dirs()[j as int]), true));
                assert(r@.map_values(|c: Candidate| (c.path@, c.is_dir)) =~= prev.push(want[12 + j]));
                assert(want.take(12 + j + 1) =~= want.take(12 + j).push(want[12 + j]));
            }
            j += 1;
        }
        assert(want.take(14) =~= want);
        r
    }

    /// The resolution, given the paths found: Firefox profiles (already in
    /// order) followed by the whitelisted Chromium entries that exist.
    pub fn resolve_from(found: Vec<String>) -> (r: ResolvedTemplate)
        ensures
            r.paths@ == found@,
            views(r.excludes@) == browser_excludes(),
            r.path_labels@.len() == 0,
    {
        ResolvedTemplate::new(found, Self::excludes())
    }
}

} // verus!
