//! Exclude globs of a mirror backup, compiled with `globset` and matched
//! against entry paths relative to the source root (with `/` separators).

use vstd::prelude::*;
use crate::backup::mirror::{EntryAction, entry_action_of, forward_slashes, source_entry_action, to_forward_slashes};
use crate::text::{views, owned, push_owned};

verus! {

broadcast use vstd::string::group_string_axioms;

#[verifier::external_type_specification]
#[verifier::external_body]
pub struct ExGlob(globset::Glob);

#[verifier::external_type_specification]
#[verifier::external_body]
pub struct ExGlobSet(globset::GlobSet);

#[verifier::external_type_specification]
#[verifier::external_body]
pub struct ExGlobSetBuilder(globset::GlobSetBuilder);

#[verifier::external_type_specification]
#[verifier::external_body]
pub struct ExGlobError(globset::Error);

/// Whether `globset::Glob::new` accepts `pattern`.
pub uninterp spec fn glob_compiles(pattern: Seq<char>) -> bool;

/// Whether the glob `pattern` (compiled by `globset` with its default
/// options) matches `path`. Those defaults differ by target platform
/// (whether `\` escapes, and how paths are normalised before matching),
/// so the relation is fixed for one target, not across targets.
pub uninterp spec fn glob_matches(pattern: Seq<char>, path: Seq<char>) -> bool;

/// Calls `globset::Glob::new`. Claimed: it succeeds exactly on the
/// patterns of `glob_compiles`, a function of the pattern alone.
#[verifier::external_body]
fn compile_glob(pattern: &str) -> (r: Result<globset::Glob, globset::Error>)
    ensures
        r is Ok <==> glob_compiles(pattern@),
{
    globset::Glob::new(pattern)
}

/// Calls `globset::GlobSetBuilder::new`, an empty builder.
#[verifier::external_body]
fn new_builder() -> (b: globset::GlobSetBuilder)
{
    globset::GlobSetBuilder::new()
}

/// Calls `globset::GlobSetBuilder::add`, which appends `glob` to the
/// globs the builder will compile.
#[verifier::external_body]
fn builder_add(b: &mut globset::GlobSetBuilder, glob: globset::Glob)
{
    b.add(glob);
}

/// Calls `globset::GlobSetBuilder::build`, which compiles the added globs
/// into one set. When it fails is not stated (the source fails only when
/// the combined matcher cannot be built).
#[verifier::external_body]
fn builder_build(b: &globset::GlobSetBuilder) -> (r: Result<globset::GlobSet, globset::Error>)
{
    b.build()
}

/// Calls `ToString::to_string` on a `globset::Error`: its message. Nothing
/// is claimed of the text.
#[verifier::external_body]
fn glob_error_text(e: &globset::Error) -> (r: String)
{
    e.to_string()
}

/// A compiled set of exclude globs, with the patterns it was built from.
/// It is only built by `ExcludeSet::build`, from exactly those patterns.
#[derive(Debug)]
pub struct ExcludeSet {
    set: globset::GlobSet,
    patterns: Vec<String>,
}

/// Calls `globset::GlobSet::is_match`, which, as documented, is true when
/// any glob of the set matches the path. Claimed: the result is whether
/// one of the patterns the set was built from matches `path`.
#[verifier::external_body]
fn set_is_match(ex: &ExcludeSet, path: &str) -> (matched: bool)
    ensures
        matched == (exists|i: int| 0 <= i < ex.patterns@.len() && glob_matches(ex.patterns@[i]@, path@)),
{
    ex.set.is_match(path)
}

/// Why the exclude globs could not be compiled.
#[derive(Debug)]
pub enum ExcludeError {
    /// `pattern` is not a valid glob.
    BadPattern { pattern: String, reason: String },
    /// The set of globs could not be built.
    SetBuild { reason: String },
}

/// One of `patterns` matches `path`.
pub open spec fn excluded_by(patterns: Seq<Seq<char>>, path: Seq<char>) -> bool {
    exists|i: int| 0 <= i < patterns.len() && glob_matches(patterns[i], path)
}

impl ExcludeSet {
    /// The patterns the set was built from.
    pub closed spec fn pattern_list(&self) -> Seq<Seq<char>> {
        views(self.patterns@)
    }

    /// Compile `patterns`. The first pattern that is not a valid glob is
    /// the error.
    pub fn build(patterns: &Vec<String>) -> (r: Result<ExcludeSet, ExcludeError>)
        ensures
            match r {
                Ok(s) => s.pattern_list() == views(patterns@) && forall|k: int|
                    0 <= k < patterns@.len() ==> glob_compiles(#[trigger] patterns@[k]@),
                Err(ExcludeError::BadPattern { pattern, .. }) => exists|i: int|
                    0 <= i < patterns@.len() && !glob_compiles(patterns@[i]@) && pattern@ == patterns@[i]@
                        && forall|k: int| 0 <= k < i ==> glob_compiles(#[trigger] patterns@[k]@),
                Err(ExcludeError::SetBuild { .. }) => forall|k: int|
                    0 <= k < patterns@.len() ==> glob_compiles(#[trigger] patterns@[k]@),
            },
    {
        let mut builder = new_builder();
        let mut kept: Vec<String> = Vec::new();
        let mut i: usize = 0;
        while i < patterns.len()
            invariant
                i <= patterns@.len(),
                views(kept@) == views(patterns@).take(i as int),
                forall|k: int| 0 <= k < i ==> glob_compiles(#[trigger] patterns@[k]@),
            decreases patterns.len() - i,
        {
            match compile_glob(patterns[i].as_str()) {
                Ok(g) => {
                    builder_add(&mut builder, g);
                    push_owned(&mut kept, patterns[i].as_str());
                    assert(views(patterns@).take(i + 1) =~= views(patterns@).take(i as int).push(
                        patterns@[i as int]@,
                    ));
                },
                Err(e) => {
                    return Err(
                        ExcludeError::BadPattern {
                            pattern: owned(patterns[i].as_str()),
                            reason: glob_error_text(&e),
                        },
                    );
                },
            }
            i += 1;
        }
        assert(views(patterns@).take(patterns@.len() as int) =~= views(patterns@));
        match builder_build(&builder) {
            Ok(set) => Ok(ExcludeSet { set, patterns: kept }),
            Err(e) => Err(ExcludeError::SetBuild { reason: glob_error_text(&e) }),
        }
    }

    /// Whether the entry at `rel` (relative to the source root) is
    /// excluded: one of the globs matches it written with `/` separators.
    pub fn is_excluded(&self, rel: &str) -> (b: bool)
        ensures
            b == excluded_by(self.pattern_list(), forward_slashes(rel@)),
    {
        let fwd = to_forward_slashes(rel);
        let matched = set_is_match(self, fwd.as_str());
        proof {
            if matched {
                let i = choose|i: int|
                    0 <= i < self.patterns@.len() && glob_matches(self.patterns@[i]@, fwd@);
                assert(self.pattern_list()[i] == self.patterns@[i]@);
            } else {
                assert forall|i: int| 0 <= i < self.pattern_list().len() implies !glob_matches(
                    self.pattern_list()[i],
                    fwd@,
                ) by {
                    assert(self.pattern_list()[i] == self.patterns@[i]@);
                }
            }
        }
        matched
    }

    /// How to treat a walked source entry (see `entry_action_of`), the
    /// exclusion being decided by this set.
    pub fn entry_action(&self, rel: &str, is_dir: bool, is_file: bool) -> (a: EntryAction)
        ensures
            a == entry_action_of(
                rel@,
                excluded_by(self.pattern_list(), forward_slashes(rel@)),
                is_dir,
                is_file,
            ),
    {
        let excluded = self.is_excluded(rel);
        source_entry_action(rel, excluded, is_dir, is_file)
    }
}

} // verus!
