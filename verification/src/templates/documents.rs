//! `documents`: Documents, Desktop and Pictures, all three required.
//! The registry now resolves this name to `user-files`; the template
//! remains for callers that want the strict three-folder set.

use vstd::prelude::*;
use crate::text::{views, push_owned};
use super::ResolvedTemplate;
use super::user_files::{UserFilesTemplate, user_file_excludes};

verus! {

broadcast use vstd::string::group_string_axioms;

/// The `documents` template.
#[derive(Debug, Clone, Copy)]
pub struct DocumentsTemplate;

/// A known folder that could not be located.
#[derive(Debug, Clone, Copy, PartialEq, Eq, Structural)]
pub enum MissingFolder {
    Documents,
    Desktop,
    Pictures,
}

impl MissingFolder {
    /// Which folder is missing, as the error message names it.
    pub fn folder_name(&self) -> (r: &'static str)
        ensures
            r@ == (match *self {
                MissingFolder::Documents => "Documents"@,
                MissingFolder::Desktop => "Desktop"@,
                MissingFolder::Pictures => "Pictures"@,
            }),
    {
        match self {
            MissingFolder::Documents => "Documents",
            MissingFolder::Desktop => "Desktop",
            MissingFolder::Pictures => "Pictures",
        }
    }
}

impl DocumentsTemplate {
    pub const NAME: &'static str = "documents";

    /// The template's name.
    pub fn name(&self) -> (r: &'static str)
        ensures
            r@ == "documents"@,
    {
        Self::NAME
    }

    /// The resolution, given the three known folders; the first one that
    /// could not be located is the error.
    pub fn resolve_from(
        documents: Option<String>,
        desktop: Option<String>,
        pictures: Option<String>,
    ) -> (r: Result<ResolvedTemplate, MissingFolder>)
        ensures
            documents is None ==> r == Err::<ResolvedTemplate, MissingFolder>(MissingFolder::Documents),
            documents is Some && desktop is None ==> r == Err::<ResolvedTemplate, MissingFolder>(
                MissingFolder::Desktop,
            ),
            documents is Some && desktop is Some && pictures is None ==> r == Err::<
                ResolvedTemplate,
                MissingFolder,
            >(MissingFolder::Pictures),
            r matches Ok(res) ==> {
                &&& views(res.paths@) == seq![
                    documents->0@,
                    desktop->0@,
                    pictures->0@,
                ]
                &&& views(res.excludes@) == user_file_excludes()
                &&& res.path_labels@.len() == 0
            },
            (documents is Some && desktop is Some && pictures is Some) == (r is Ok),
    {
        let d = match documents {
            Some(d) => d,
            None => return Err(MissingFolder::Documents),
        };
        let k = match desktop {
            Some(k) => k,
            None => return Err(MissingFolder::Desktop),
        };
        let p = match pictures {
            Some(p) => p,
            None => return Err(MissingFolder::Pictures),
        };
        let mut paths: Vec<String> = Vec::new();
        push_owned(&mut paths, d.as_str());
        push_owned(&mut paths, k.as_str());
        push_owned(&mut paths, p.as_str());
        assert(views(paths@) =~= seq![d@, k@, p@]);
        Ok(ResolvedTemplate::new(paths, UserFilesTemplate::excludes()))
    }
}

} // verus!
