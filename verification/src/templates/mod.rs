//! Backup templates: named recipes that expand into source paths and
//! exclude globs.
//!
//! Each template knows its name, its exclude list and how to turn what was
//! found on the machine (known folders, directory listings, the Steam
//! library file, the game manifest) into the list of paths to back up.
//! Looking things up on disk is left to the caller, which hands the
//! results to the functions here.

pub mod browser_profiles;
pub mod dev_repos;
pub mod documents;
pub mod steam_saves;
pub mod thunderbird_mail;
pub mod user_appdata;
pub mod user_files;

use vstd::prelude::*;
use crate::config::Job;
use crate::table::Table;
use crate::text::{views, copy_strings, str_eq, concat3, owned, seq_lt, str_lt};
use crate::order::{Listed, listed, sort_stable};

pub use browser_profiles::BrowserProfilesTemplate;
pub use dev_repos::DevReposTemplate;
pub use documents::DocumentsTemplate;
pub use steam_saves::SteamSavesTemplate;
pub use thunderbird_mail::ThunderbirdMailTemplate;
pub use user_appdata::UserAppdataTemplate;
pub use user_files::UserFilesTemplate;

verus! {

broadcast use vstd::string::group_string_axioms;

/// What a template (or a job's explicit lists) resolved to.
#[derive(Debug)]
pub struct ResolvedTemplate {
    pub paths: Vec<String>,
    pub excludes: Vec<String>,
    /// Optional label per source path, naming the directory the mirror
    /// engine stores that source under.
    pub path_labels: Table<String>,
}

impl ResolvedTemplate {
    /// Paths and excludes, with no labels.
    pub fn new(paths: Vec<String>, excludes: Vec<String>) -> (r: Self)
        ensures
            r.paths@ == paths@,
            r.excludes@ == excludes@,
            r.path_labels@.len() == 0,
    {
        ResolvedTemplate { paths, excludes, path_labels: Table::new() }
    }
}

impl Default for ResolvedTemplate {
    fn default() -> (r: Self)
        ensures
            r.paths@.len() == 0,
            r.excludes@.len() == 0,
            r.path_labels@.len() == 0,
    {
        ResolvedTemplate::new(Vec::new(), Vec::new())
    }
}

/// The templates known to the registry.
#[derive(Debug, Clone, Copy, PartialEq, Eq, Structural)]
pub enum TemplateKind {
    UserFiles,
    DevRepos,
    SteamSaves,
    ThunderbirdMail,
    BrowserProfiles,
    UserAppdata,
}

/// The template a name designates. `documents`, the name of the first
/// version of `user-files`, is still accepted for it.
pub open spec fn template_named(name: Seq<char>) -> Option<TemplateKind> {
    if name == "documents"@ || name == "user-files"@ {
        Some(TemplateKind::UserFiles)
    } else if name == "dev-repos"@ {
        Some(TemplateKind::DevRepos)
    } else if name == "steam-saves"@ {
        Some(TemplateKind::SteamSaves)
    } else if name == "thunderbird-mail"@ {
        Some(TemplateKind::ThunderbirdMail)
    } else if name == "browser-profiles"@ {
        Some(TemplateKind::BrowserProfiles)
    } else if name == "user-appdata"@ {
        Some(TemplateKind::UserAppdata)
    } else {
        None
    }
}

/// `documents` and `user-files` designate the same template, and every
/// template is found under its canonical name.
pub proof fn lemma_registry_names()
    ensures
        template_named("documents"@) == template_named("user-files"@),
        forall|k: TemplateKind| template_named(#[trigger] kind_name(k)) == Some(k),
{
    assert forall|k: TemplateKind| template_named(#[trigger] kind_name(k)) == Some(k) by {
        reveal_strlit("documents");
        reveal_strlit("user-files");
        reveal_strlit("dev-repos");
        reveal_strlit("steam-saves");
        reveal_strlit("thunderbird-mail");
        reveal_strlit("browser-profiles");
        reveal_strlit("user-appdata");
        assert("dev-repos"@[1] != "documents"@[1]);
        assert("dev-repos"@.len() != "user-files"@.len());
        assert("steam-saves"@.len() != "documents"@.len() && "steam-saves"@.len() != "user-files"@.len()
            && "steam-saves"@.len() != "dev-repos"@.len());
        assert("thunderbird-mail"@.len() != "documents"@.len() && "thunderbird-mail"@.len()
            != "user-files"@.len() && "thunderbird-mail"@.len() != "dev-repos"@.len()
            && "thunderbird-mail"@.len() != "steam-saves"@.len());
        assert("browser-profiles"@.len() != "documents"@.len() && "browser-profiles"@.len()
            != "user-files"@.len() && "browser-profiles"@.len() != "dev-repos"@.len()
            && "browser-profiles"@.len() != "steam-saves"@.len() && "browser-profiles"@[0]
            != "thunderbird-mail"@[0]);
        assert("user-appdata"@.len() != "documents"@.len() && "user-appdata"@.len() != "user-files"@.len()
            && "user-appdata"@.len() != "dev-repos"@.len() && "user-appdata"@.len()
            != "steam-saves"@.len() && "user-appdata"@.len() != "thunderbird-mail"@.len()
            && "user-appdata"@.len() != "browser-profiles"@.len());
    }
}

/// The canonical name of a template.
pub open spec fn kind_name(k: TemplateKind) -> Seq<char> {
    match k {
        TemplateKind::UserFiles => "user-files"@,
        TemplateKind::DevRepos => "dev-repos"@,
        TemplateKind::SteamSaves => "steam-saves"@,
        TemplateKind::ThunderbirdMail => "thunderbird-mail"@,
        TemplateKind::BrowserProfiles => "browser-profiles"@,
        TemplateKind::UserAppdata => "user-appdata"@,
    }
}

impl TemplateKind {
    /// The canonical name of this template.
    pub fn name(&self) -> (r: &'static str)
        ensures
            r@ == kind_name(*self),
    {
        match self {
            TemplateKind::UserFiles => UserFilesTemplate::NAME,
            TemplateKind::DevRepos => DevReposTemplate::NAME,
            TemplateKind::SteamSaves => SteamSavesTemplate::NAME,
            TemplateKind::ThunderbirdMail => ThunderbirdMailTemplate::NAME,
            TemplateKind::BrowserProfiles => BrowserProfilesTemplate::NAME,
            TemplateKind::UserAppdata => UserAppdataTemplate::NAME,
        }
    }
}

/// The registry lookup: which template `name` designates, if any.
pub fn template_for(name: &str) -> (r: Option<TemplateKind>)
    ensures
        r == template_named(name@),
{
    if str_eq(name, "documents") || str_eq(name, UserFilesTemplate::NAME) {
        Some(TemplateKind::UserFiles)
    } else if str_eq(name, DevReposTemplate::NAME) {
        Some(TemplateKind::DevRepos)
    } else if str_eq(name, SteamSavesTemplate::NAME) {
        Some(TemplateKind::SteamSaves)
    } else if str_eq(name, ThunderbirdMailTemplate::NAME) {
        Some(TemplateKind::ThunderbirdMail)
    } else if str_eq(name, BrowserProfilesTemplate::NAME) {
        Some(TemplateKind::BrowserProfiles)
    } else if str_eq(name, UserAppdataTemplate::NAME) {
        Some(TemplateKind::UserAppdata)
    } else {
        None
    }
}

/// A template name the registry does not know.
#[derive(Debug)]
pub struct UnknownTemplate {
    pub name: String,
}

impl UnknownTemplate {
    /// "unknown template `<name>`".
    pub fn message(&self) -> (m: String)
        ensures
            m@ == "unknown template `"@ + self.name@ + "`"@,
    {
        concat3("unknown template `", self.name.as_str(), "`")
    }
}

/// The registry lookup, failing on an unknown name.
pub fn lookup_template(name: &str) -> (r: Result<TemplateKind, UnknownTemplate>)
    ensures
        match r {
            Ok(k) => template_named(name@) == Some(k),
            Err(e) => template_named(name@) is None && e.name@ == name@,
        },
{
    match template_for(name) {
        Some(k) => Ok(k),
        None => Err(UnknownTemplate { name: owned(name) }),
    }
}

/// Where a job's sources come from: a template to resolve (with the
/// text of its options, if the job gives any), or the job's own lists.
#[derive(Debug)]
pub enum JobSource {
    Template { name: String, options: Option<String> },
    Explicit(ResolvedTemplate),
}

/// The view of an optional string.
pub open spec fn opt_view(o: Option<String>) -> Option<Seq<char>> {
    match o {
        Some(s) => Some(s@),
        None => None,
    }
}

/// The strings of an optional list, an absent list being empty.
pub open spec fn list_or_empty(o: Option<Vec<String>>) -> Seq<Seq<char>> {
    match o {
        Some(v) => views(v@),
        None => Seq::empty(),
    }
}

/// A job's sources: its template when it names one, otherwise its own
/// paths and excludes (each empty when absent), with no labels.
pub fn job_source(job: &Job) -> (r: JobSource)
    ensures
        match job.template {
            Some(t) => r matches JobSource::Template { name, options } && name@ == t@ && opt_view(
                options,
            ) == opt_view(job.template_options),
            None => r matches JobSource::Explicit(res) && views(res.paths@) == list_or_empty(
                job.paths,
            ) && views(res.excludes@) == list_or_empty(job.excludes) && res.path_labels@.len()
                == 0,
        },
{
    match &job.template {
        Some(t) => {
            let options = match &job.template_options {
                Some(o) => Some(owned(o.as_str())),
                None => None,
            };
            JobSource::Template { name: owned(t.as_str()), options }
        },
        None => {
            let paths = match &job.paths {
                Some(p) => copy_strings(p),
                None => Vec::new(),
            };
            let excludes = match &job.excludes {
                Some(e) => copy_strings(e),
                None => Vec::new(),
            };
            proof {
                assert(views(Seq::<String>::empty()) =~= Seq::<Seq<char>>::empty());
            }
            JobSource::Explicit(ResolvedTemplate::new(paths, excludes))
        },
    }
}

/// The strings present among `c`, in order.
pub open spec fn present(c: Seq<Option<String>>) -> Seq<Seq<char>>
    decreases c.len(),
{
    if c.len() == 0 {
        Seq::empty()
    } else {
        match c.last() {
            Some(p) => present(c.drop_last()).push(p@),
            None => present(c.drop_last()),
        }
    }
}

/// Copies of the strings present among `c`, in order.
pub fn collect_present(c: &Vec<Option<String>>) -> (r: Vec<String>)
    ensures
        views(r@) == present(c@),
{
    let mut r: Vec<String> = Vec::new();
    let mut i: usize = 0;
    while i < c.len()
        invariant
            i <= c@.len(),
            views(r@) == present(c@.take(i as int)),
        decreases c.len() - i,
    {
        assert(c@.take(i + 1).drop_last() =~= c@.take(i as int));
        match &c[i] {
            Some(p) => {
                crate::text::push_owned(&mut r, p.as_str());
            },
            None => {},
        }
        i += 1;
    }
    assert(c@.take(c@.len() as int) =~= c@);
    r
}

/// Paths listed in ascending order.
impl Listed for String {
    open spec fn goes_before(&self, other: &Self) -> bool {
        seq_lt(self@, other@)
    }

    proof fn lemma_goes_before_irreflexive(a: &Self) {
        crate::text::lemma_seq_lt_irreflexive(a@);
    }

    proof fn lemma_goes_before_transitive(a: &Self, b: &Self, c: &Self) {
        crate::text::lemma_seq_lt_transitive(a@, b@, c@);
    }

    fn goes_before_exec(&self, other: &Self) -> (b: bool) {
        str_lt(self.as_str(), other.as_str())
    }
}

/// `v` sorted in ascending order (stable, duplicates kept).
pub fn sort_paths(v: Vec<String>) -> (r: Vec<String>)
    ensures
        r@ == listed(v@),
{
    sort_stable(v)
}

} // verus!
