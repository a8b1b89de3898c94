//! Decisions of the versioned-mirror engine.
//!
//! Layout for a job `family-photos` with source `D:\Pictures`:
//!
//! ```text
//! <repo>\family-photos\Pictures\2024\famille.jpg          current version
//! <repo>\family-photos\.versions\Pictures\2024\famille-2026-04-12-153000.jpg
//! ```
//!
//! A file replaced or deleted at the source is moved under `.versions\`,
//! never deleted; only retention removes archived versions, keeping the
//! newest `keep_versions` of each file. Change detection compares size and
//! modification second; a new file of the same size and content as a file
//! that disappeared is recognised as a rename.

use vstd::prelude::*;
use crate::backup::{job_tag, job_tag_of, BrowseEntry, RetentionOutcome, SnapshotInfo, VerifyOutcome, VersionInfo};
use crate::backup::naming::{parse_versioned_name, parsed_versioned_name};
use crate::config::{Repository, Retention};
use crate::order::{listed, sort_stable, in_listing_order};
use crate::paths::{first_segment, first_segment_of, join, join_path};
use crate::win_path::{components_start_with, path_starts_with, has_component, path_has_component};
use crate::table::{Table, first_index_of};
use crate::text::{lemma_seq_lt_irreflexive, lemma_seq_lt_transitive, lemma_seq_lt_total, str_lt, replace_char, replace_char_str, seq_lt, concat2, concat3, owned, str_eq, decimal, decimal_string};

verus! {

broadcast use vstd::string::group_string_axioms;

/// Name of the archive directory inside a job root.
pub const VERSIONS_DIR: &'static str = ".versions";

/// Files larger than this are not hashed when looking for renames.
pub const MAX_HASH_BYTES: u64 = 536870912;

/// Versioned mirror backend.
#[derive(Debug)]
pub struct MirrorEngine {
    repo: Repository,
}

impl MirrorEngine {
    /// The repository served.
    pub closed spec fn repo(&self) -> Repository {
        self.repo
    }

    /// Directory holding the mirror of `job_name`.
    pub open spec fn job_root_of(&self, job_name: Seq<char>) -> Seq<char> {
        join(self.repo().path@, job_name)
    }

    /// Directory holding the archived versions of `job_name`.
    pub open spec fn versions_root_of(&self, job_name: Seq<char>) -> Seq<char> {
        join(self.job_root_of(job_name), ".versions"@)
    }

    /// An engine for `repo`; nothing is read or written.
    pub fn new(repo: Repository) -> (e: Self)
        ensures
            e.repo() == repo,
    {
        MirrorEngine { repo }
    }

    /// The repository served.
    pub fn repository(&self) -> (r: &Repository)
        ensures
            *r == self.repo(),
    {
        &self.repo
    }

    /// `<repo>\<job_name>`.
    pub fn job_root(&self, job_name: &str) -> (p: String)
        ensures
            p@ == self.job_root_of(job_name@),
    {
        join_path(self.repo.path.as_str(), job_name)
    }

    /// `<repo>\<job_name>\.versions`.
    pub fn versions_root(&self, job_name: &str) -> (p: String)
        ensures
            p@ == self.versions_root_of(job_name@),
    {
        let root = self.job_root(job_name);
        join_path(root.as_str(), VERSIONS_DIR)
    }

    /// The outcome of `verify`: a mirror stores plain files, so there is
    /// nothing to check beyond what the file system guarantees.
    pub fn verify(&self) -> (o: VerifyOutcome)
        ensures
            o.ok,
            o.messages.len() == 1,
            o.messages@[0]@ == "mirror backend: nothing to verify — files are stored natively on the destination filesystem"@,
    {
        let mut messages: Vec<String> = Vec::new();
        messages.push(String::from_str(
            "mirror backend: nothing to verify — files are stored natively on the destination filesystem",
        ));
        VerifyOutcome { ok: true, messages }
    }

    /// The snapshots of a job: a mirror has none, its history lives in
    /// `.versions`.
    pub fn list_snapshots(&self, _job_name: &str) -> (r: Vec<SnapshotInfo>)
        ensures
            r.len() == 0,
    {
        Vec::new()
    }
}

/// The archive count retention keeps per file: `keep_versions` when set
/// and positive; otherwise retention does nothing.
pub fn versions_to_keep(r: &Retention) -> (k: Option<usize>)
    ensures
        match r.keep_versions {
            Some(n) => if n > 0 { k == Some(n as usize) } else { k is None },
            None => k is None,
        },
{
    match r.keep_versions {
        Some(n) => if n > 0 {
            Some(n as usize)
        } else {
            None
        },
        None => None,
    }
}

/// The OS error codes of a sharing violation and a lock violation: the
/// file is held open exclusively by another process.
pub open spec fn is_lock_code(code: Option<i32>) -> bool {
    code == Some(32i32) || code == Some(33i32)
}

/// An error whose cause chain carries the OS codes `codes` means the file
/// was locked by another process (and is skipped rather than failing the
/// backup).
pub fn is_locked_file_error(codes: &Vec<Option<i32>>) -> (b: bool)
    ensures
        b == exists|k: int| 0 <= k < codes.len() && is_lock_code(#[trigger] codes@[k]),
{
    let mut i: usize = 0;
    while i < codes.len()
        invariant
            i <= codes.len(),
            forall|k: int| 0 <= k < i ==> !is_lock_code(#[trigger] codes@[k]),
        decreases codes.len() - i,
    {
        match codes[i] {
            Some(c) => if c == 32 || c == 33 {
                return true;
            },
            None => {},
        }
        i += 1;
    }
    false
}

/// Size and modification time (whole seconds since the Unix epoch, when
/// known) of a file.
#[derive(Debug, Clone, Copy, PartialEq, Eq, Structural)]
pub struct FileStamp {
    pub size: u64,
    pub mtime_secs: Option<u64>,
}

/// A source file and its mirrored copy are considered identical: same
/// size and same modification second (both known).
pub open spec fn same_stamp(src: FileStamp, dest: FileStamp) -> bool {
    src.size == dest.size && src.mtime_secs is Some && src.mtime_secs == dest.mtime_secs
}

/// Compare a source file with its mirrored copy by size and modification
/// second; an unknown time never matches.
pub fn files_match(src: FileStamp, dest: FileStamp) -> (b: bool)
    ensures
        b == same_stamp(src, dest),
{
    if src.size != dest.size {
        return false;
    }
    match (src.mtime_secs, dest.mtime_secs) {
        (Some(s), Some(d)) => s == d,
        _ => false,
    }
}

/// What to do with an entry met while walking a source tree, given its
/// path relative to the source root.
#[derive(Debug, Clone, Copy, PartialEq, Eq, Structural)]
pub enum EntryAction {
    /// Leave it out (excluded, inside a `.versions` directory, or neither
    /// a file nor a directory).
    Skip,
    /// Make sure the directory exists in the mirror.
    MakeDir,
    /// Bring the file into the mirror.
    SyncFile,
}

/// The action for an entry: excluded entries and anything below a
/// `.versions` component are skipped.
pub open spec fn entry_action_of(rel: Seq<char>, excluded: bool, is_dir: bool, is_file: bool) -> EntryAction {
    if excluded || has_component(rel, ".versions"@) {
        EntryAction::Skip
    } else if is_dir {
        EntryAction::MakeDir
    } else if is_file {
        EntryAction::SyncFile
    } else {
        EntryAction::Skip
    }
}

/// Decide how to treat a walked source entry.
pub fn source_entry_action(rel: &str, excluded: bool, is_dir: bool, is_file: bool) -> (a: EntryAction)
    ensures
        a == entry_action_of(rel@, excluded, is_dir, is_file),
{
    proof {
        reveal_strlit(".versions");
    }
    if excluded || path_has_component(rel, VERSIONS_DIR) {
        EntryAction::Skip
    } else if is_dir {
        EntryAction::MakeDir
    } else if is_file {
        EntryAction::SyncFile
    } else {
        EntryAction::Skip
    }
}

/// An entry of the job root is restored unless its first component is
/// `.versions` (the archive is not part of the current state).
pub fn is_restorable(rel: &str) -> (b: bool)
    ensures
        b == (first_segment(rel@) != ".versions"@),
{
    proof {
        reveal_strlit(".versions");
    }
    let first = first_segment_of(rel);
    !str_eq(first, VERSIONS_DIR)
}

/// What a backup mirrors is what a restore brings back: a file mirrored
/// under the directory `dir` of a source (a single component other than
/// `.versions`) at the relative path `rel` lies, relative to the job root,
/// at `dir\rel`, which the restore filter keeps.
pub proof fn lemma_mirrored_files_are_restored(dir: Seq<char>, rel: Seq<char>)
    requires
        dir.len() > 0,
        forall|k: int| 0 <= k < dir.len() ==> !crate::paths::is_sep(dir[k]),
        dir != ".versions"@,
        !(dir.len() == 2 && crate::win_path::drive_at(dir)),
        !crate::paths::is_absolute(rel),
    ensures
        first_segment(join(dir, rel)) == dir,
        first_segment(join(dir, rel)) != ".versions"@,
{
    let p = join(dir, rel);
    assert(crate::win_path::prefix_of(rel) is None);
    assert(!(dir.len() >= 2 && crate::paths::is_sep(dir[0]) && crate::paths::is_sep(dir[1])));
    if rel.len() > 0 {
        assert(!crate::paths::is_sep(rel[0]));
    }
    assert(!crate::paths::is_sep(dir.last()));
    assert(p == dir + seq!['\\'] + rel);
    crate::paths::lemma_find_sep_at(p, dir.len() as int);
    assert(p.subrange(0, dir.len() as int) =~= dir);
}

/// `rel` with every `\` turned into `/`, the form exclude globs are
/// matched against.
pub open spec fn forward_slashes(rel: Seq<char>) -> Seq<char> {
    replace_char(rel, '\\', '/')
}

/// `rel` with `/` separators.
pub fn to_forward_slashes(rel: &str) -> (r: String)
    ensures
        r@ == forward_slashes(rel@),
{
    proof {
        reveal_strlit("/");
    }
    replace_char_str(rel, '\\', "/")
}

/// Counters of one mirror backup run.
#[derive(Debug, Clone, Copy, PartialEq, Eq, Structural)]
pub struct MirrorStats {
    pub new_files: usize,
    pub updated_files: usize,
    pub renamed_files: usize,
    pub deleted_files: usize,
    pub unchanged_files: usize,
    pub skipped_files: usize,
    pub bytes_copied: u64,
    pub bytes_total: u64,
}

/// `a + b`, capped at `u64::MAX`.
pub open spec fn sat_add(a: u64, b: u64) -> u64 {
    if a + b > u64::MAX { u64::MAX } else { (a + b) as u64 }
}

/// Which counter an event increments.
#[derive(Debug, Clone, Copy, PartialEq, Eq, Structural)]
pub enum FileEvent {
    New,
    Updated,
    Renamed,
    Deleted,
    Unchanged,
    Skipped,
}

impl MirrorStats {
    /// All counters at zero.
    pub fn new() -> (s: Self)
        ensures
            s.new_files == 0 && s.updated_files == 0 && s.renamed_files == 0 && s.deleted_files == 0
                && s.unchanged_files == 0 && s.skipped_files == 0 && s.bytes_copied == 0
                && s.bytes_total == 0,
    {
        MirrorStats {
            new_files: 0,
            updated_files: 0,
            renamed_files: 0,
            deleted_files: 0,
            unchanged_files: 0,
            skipped_files: 0,
            bytes_copied: 0,
            bytes_total: 0,
        }
    }

    /// Account for a source file of `size` bytes met during the walk.
    pub fn add_scanned(&mut self, size: u64)
        ensures
            *final(self) == (MirrorStats { bytes_total: sat_add(old(self).bytes_total, size), ..*old(self) }),
    {
        self.bytes_total = self.bytes_total.saturating_add(size);
    }

    /// Account for `copied` bytes written to the mirror.
    pub fn add_copied(&mut self, copied: u64)
        ensures
            *final(self) == (MirrorStats { bytes_copied: sat_add(old(self).bytes_copied, copied), ..*old(self) }),
    {
        self.bytes_copied = self.bytes_copied.saturating_add(copied);
    }

    /// Count one file outcome.
    pub fn record(&mut self, event: FileEvent)
        requires
            match event {
                FileEvent::New => old(self).new_files < usize::MAX,
                FileEvent::Updated => old(self).updated_files < usize::MAX,
                FileEvent::Renamed => old(self).renamed_files < usize::MAX,
                FileEvent::Deleted => old(self).deleted_files < usize::MAX,
                FileEvent::Unchanged => old(self).unchanged_files < usize::MAX,
                FileEvent::Skipped => old(self).skipped_files < usize::MAX,
            },
        ensures
            *final(self) == match event {
                FileEvent::New => MirrorStats { new_files: (old(self).new_files + 1) as usize, ..*old(self) },
                FileEvent::Updated => MirrorStats { updated_files: (old(self).updated_files + 1) as usize, ..*old(self) },
                FileEvent::Renamed => MirrorStats { renamed_files: (old(self).renamed_files + 1) as usize, ..*old(self) },
                FileEvent::Deleted => MirrorStats { deleted_files: (old(self).deleted_files + 1) as usize, ..*old(self) },
                FileEvent::Unchanged => MirrorStats { unchanged_files: (old(self).unchanged_files + 1) as usize, ..*old(self) },
                FileEvent::Skipped => MirrorStats { skipped_files: (old(self).skipped_files + 1) as usize, ..*old(self) },
            },
    {
        match event {
            FileEvent::New => self.new_files = self.new_files + 1,
            FileEvent::Updated => self.updated_files = self.updated_files + 1,
            FileEvent::Renamed => self.renamed_files = self.renamed_files + 1,
            FileEvent::Deleted => self.deleted_files = self.deleted_files + 1,
            FileEvent::Unchanged => self.unchanged_files = self.unchanged_files + 1,
            FileEvent::Skipped => self.skipped_files = self.skipped_files + 1,
        }
    }
}

/// The mirrored files still unmatched by the walk, by path relative to
/// the mirror directory, with their stamps.
pub type Inventory = Table<FileStamp>;

/// Mirrored files that may be the source file under another name: those
/// of the same size, in inventory order; none for files too large to hash.
pub open spec fn rename_candidates(entries: Seq<(Seq<char>, FileStamp)>, size: u64) -> Seq<Seq<char>>
    decreases entries.len(),
{
    if size > MAX_HASH_BYTES || entries.len() == 0 {
        Seq::empty()
    } else {
        let rest = rename_candidates(entries.drop_last(), size);
        if entries.last().1.size == size {
            rest.push(entries.last().0)
        } else {
            rest
        }
    }
}

/// How a source file is brought into the mirror.
#[derive(Debug)]
pub enum FilePlan {
    /// The mirrored copy has the same size and modification second.
    Unchanged,
    /// The mirrored copy differs: archive it, then copy the source.
    Replace,
    /// No copy at this path: reuse one of `candidates` (after comparing
    /// content hashes) or copy the source.
    Fresh { candidates: Vec<String> },
}

/// One step of a walk as `plan_source_file` takes it: the inventory
/// after planning the source file `rel` of stamp `src`, and whether the
/// plan is `Unchanged`.
pub open spec fn plan_step(inv: Seq<(Seq<char>, FileStamp)>, rel: Seq<char>, src: FileStamp) -> (Seq<
    (Seq<char>, FileStamp),
>, bool) {
    match first_index_of(inv, rel) {
        Some(i) => (inv.remove(i), same_stamp(src, inv[i].1)),
        None => (inv, false),
    }
}

/// Planning the source files `srcs` in turn from the inventory `inv`:
/// what is left of the inventory (the mirrored files that the walk then
/// archives as orphans), and whether every plan was `Unchanged`.
pub open spec fn plan_walk(inv: Seq<(Seq<char>, FileStamp)>, srcs: Seq<(Seq<char>, FileStamp)>) -> (Seq<
    (Seq<char>, FileStamp),
>, bool)
    decreases srcs.len(),
{
    if srcs.len() == 0 {
        (inv, true)
    } else {
        let step = plan_step(inv, srcs[0].0, srcs[0].1);
        let rest = plan_walk(step.0, srcs.drop_first());
        (rest.0, step.1 && rest.1)
    }
}

/// No two entries of `s` share a path.
pub open spec fn distinct_paths(s: Seq<(Seq<char>, FileStamp)>) -> bool {
    forall|a: int, b: int| 0 <= a < b < s.len() ==> (#[trigger] s[a]).0 != (#[trigger] s[b]).0
}

/// Backing up an unchanged source tree again archives nothing: when the
/// mirror holds exactly the tree's files with their sizes and
/// modification seconds, as the previous backup left them, every file is
/// planned `Unchanged` and no mirrored file is left over as an orphan.
pub proof fn lemma_second_backup_archives_nothing(
    inv: Seq<(Seq<char>, FileStamp)>,
    srcs: Seq<(Seq<char>, FileStamp)>,
)
    requires
        distinct_paths(srcs),
        distinct_paths(inv),
        inv.len() == srcs.len(),
        forall|k: int| 0 <= k < srcs.len() ==> (#[trigger] srcs[k]).1.mtime_secs is Some && inv.contains(srcs[k]),
    ensures
        plan_walk(inv, srcs) == (Seq::<(Seq<char>, FileStamp)>::empty(), true),
    decreases srcs.len(),
{
    if srcs.len() == 0 {
        assert(inv =~= Seq::<(Seq<char>, FileStamp)>::empty());
    } else {
        let x = srcs[0];
        assert(inv.contains(x));
        let j = choose|j: int| 0 <= j < inv.len() && inv[j] == x;
        assert forall|k: int| 0 <= k < j implies inv[k].0 != x.0 by {
            assert(inv[k].0 != inv[j].0);
        }
        crate::table::lemma_first_index_at(inv, x.0, j);
        let inv2 = inv.remove(j);
        let rest = srcs.drop_first();
        assert forall|a: int, b: int| 0 <= a < b < inv2.len() implies (#[trigger] inv2[a]).0 != (#[trigger] inv2[b]).0 by {
            if a < j {
                if b < j {
                    assert(inv2[a] == inv[a] && inv2[b] == inv[b]);
                } else {
                    assert(inv2[a] == inv[a] && inv2[b] == inv[b + 1]);
                }
            } else {
                assert(inv2[a] == inv[a + 1] && inv2[b] == inv[b + 1]);
            }
        }
        assert forall|a: int, b: int| 0 <= a < b < rest.len() implies (#[trigger] rest[a]).0 != (#[trigger] rest[b]).0 by {
            assert(rest[a] == srcs[a + 1] && rest[b] == srcs[b + 1]);
        }
        assert forall|k: int| 0 <= k < rest.len() implies (#[trigger] rest[k]).1.mtime_secs is Some && inv2.contains(
            rest[k],
        ) by {
            assert(rest[k] == srcs[k + 1]);
            assert(srcs[0].0 != srcs[k + 1].0);
            assert(inv.contains(srcs[k + 1]));
            let m = choose|m: int| 0 <= m < inv.len() && inv[m] == srcs[k + 1];
            assert(m != j);
            if m < j {
                assert(inv2[m] == inv[m]);
            } else {
                assert(inv2[m - 1] == inv[m]);
            }
        }
        lemma_second_backup_archives_nothing(inv2, rest);
    }
}

/// Decide how to bring the source file at `rel` (stamp `src`) into the
/// mirror. A mirrored file at the same path is taken out of the inventory
/// and compared; otherwise the inventory is left as is and the files that
/// could be a renamed copy are listed.
pub fn plan_source_file(inventory: &mut Inventory, rel: &str, src: FileStamp) -> (p: FilePlan)
    ensures
        plan_step(old(inventory)@, rel@, src) == (final(inventory)@, p is Unchanged),
        match first_index_of(old(inventory)@, rel@) {
            Some(i) => final(inventory)@ == old(inventory)@.remove(i) && (if same_stamp(
                src,
                old(inventory)@[i].1,
            ) {
                p is Unchanged
            } else {
                p is Replace
            }),
            None => final(inventory)@ == old(inventory)@ && (p matches FilePlan::Fresh { candidates }
                && candidates@.map_values(|c: String| c@) == rename_candidates(old(inventory)@, src.size)),
        },
{
    match inventory.remove(rel) {
        Some(dest) => {
            if files_match(src, dest) {
                FilePlan::Unchanged
            } else {
                FilePlan::Replace
            }
        },
        None => {
            let mut candidates: Vec<String> = Vec::new();
            if src.size <= MAX_HASH_BYTES {
                let mut i: usize = 0;
                while i < inventory.len()
                    invariant
                        i <= inventory@.len(),
                        src.size <= MAX_HASH_BYTES,
                        candidates@.map_values(|c: String| c@) == rename_candidates(
                            inventory@.take(i as int),
                            src.size,
                        ),
                    decreases inventory@.len() - i,
                {
                    proof {
                        assert(inventory@.take(i + 1).drop_last() =~= inventory@.take(i as int));
                        assert(inventory@.take(i + 1).last() == inventory@[i as int]);
                    }
                    if inventory.value_at(i).size == src.size {
                        candidates.push(inventory.key_at(i).clone());
                        assert(candidates@.map_values(|c: String| c@) =~= rename_candidates(
                            inventory@.take(i as int),
                            src.size,
                        ).push(inventory@[i as int].0));
                    }
                    i += 1;
                }
                assert(inventory@.take(i as int) =~= inventory@);
            } else {
                assert(candidates@.map_values(|c: String| c@) =~= Seq::<Seq<char>>::empty());
            }
            FilePlan::Fresh { candidates }
        },
    }
}

/// The name under which an archived version is stored when `suffix`
/// earlier attempts collided with existing files: the versioned name
/// itself, then `<name>.1`, `<name>.2`, ...
pub open spec fn archive_name(versioned: Seq<char>, suffix: u64) -> Seq<char> {
    if suffix == 0 {
        versioned
    } else {
        versioned + seq!['.'] + decimal(suffix as nat)
    }
}

/// `archive_name` as a string.
pub fn archive_candidate(versioned: &str, suffix: u64) -> (r: String)
    ensures
        r@ == archive_name(versioned@, suffix),
{
    if suffix == 0 {
        owned(versioned)
    } else {
        proof {
            reveal_strlit(".");
        }
        let digits = decimal_string(suffix);
        concat3(versioned, ".", digits.as_str())
    }
}

/// Why a source cannot be mirrored.
#[derive(Debug, Clone, Copy, PartialEq, Eq, Structural)]
pub enum MirrorError {
    /// The source path has no last component to name its mirror directory.
    NoBasename,
    /// The source has a `.versions` directory at its root, which would
    /// collide with the archive.
    ReservedVersionsDir,
    /// A browse or restore path points outside the job's mirror.
    PathTraversal,
}

/// Directory name under the job root for the source `path`: its label
/// when one is given, else its last component.
pub open spec fn mirror_dir_name(path: Seq<char>, labels: Seq<(Seq<char>, String)>) -> Option<Seq<char>> {
    match first_index_of(labels, path) {
        Some(i) => Some(labels[i].1@),
        None => crate::win_path::last_name(path),
    }
}

/// Name of the directory a source is mirrored under.
pub fn dest_dir_name(path: &str, labels: &Table<String>) -> (r: Result<String, MirrorError>)
    ensures
        match r {
            Ok(n) => mirror_dir_name(path@, labels@) == Some(n@),
            Err(e) => mirror_dir_name(path@, labels@) is None && e == MirrorError::NoBasename,
        },
{
    match labels.get(path) {
        Some(l) => Ok(l.clone()),
        None => match crate::win_path::file_name(path) {
            Some(n) => Ok(n),
            None => Err(MirrorError::NoBasename),
        },
    }
}

/// Number of names in `names` that are archived versions of `canonical`.
pub open spec fn version_count(names: Seq<Seq<char>>, canonical: Seq<char>) -> nat
    decreases names.len(),
{
    if names.len() == 0 {
        0
    } else {
        version_count(names.drop_last(), canonical) + (match parsed_versioned_name(names.last()) {
            Some((c, _)) => if c == canonical { 1nat } else { 0nat },
            None => 0nat,
        })
    }
}

/// Count the archived versions of `canonical` among the file names of a
/// `.versions` directory.
pub fn count_versions_of(names: &Vec<String>, canonical: &str) -> (n: u32)
    requires
        names.len() <= u32::MAX,
    ensures
        n == version_count(names@.map_values(|s: String| s@), canonical@),
{
    let ghost all = names@.map_values(|s: String| s@);
    let mut n: u32 = 0;
    let mut i: usize = 0;
    while i < names.len()
        invariant
            i <= names.len(),
            names.len() <= u32::MAX,
            all == names@.map_values(|s: String| s@),
            n == version_count(all.take(i as int), canonical@),
            n <= i,
        decreases names.len() - i,
    {
        proof {
            assert(all.take(i + 1).drop_last() =~= all.take(i as int));
            assert(all.take(i + 1).last() == names@[i as int]@);
        }
        match parse_versioned_name(names[i].as_str()) {
            Some((c, _t)) => {
                if str_eq(c.as_str(), canonical) {
                    n = n + 1;
                }
            },
            None => {},
        }
        i += 1;
    }
    assert(all.take(i as int) =~= all);
    n
}

/// A file found in a directory of the archive.
#[derive(Debug)]
pub struct ArchivedFile {
    pub name: String,
    pub is_file: bool,
    pub size: u64,
}

/// The plain-value content of a version listing entry.
pub open spec fn version_view(v: VersionInfo) -> (Seq<char>, Seq<char>, u64) {
    (v.name@, v.timestamp@, v.size)
}

/// The archived versions of `file_name` among `entries` (name,
/// timestamp, size), in directory order.
pub open spec fn versions_in(entries: Seq<ArchivedFile>, file_name: Seq<char>) -> Seq<(Seq<char>, Seq<char>, u64)>
    decreases entries.len(),
{
    if entries.len() == 0 {
        Seq::empty()
    } else {
        let rest = versions_in(entries.drop_last(), file_name);
        let e = entries.last();
        match parsed_versioned_name(e.name@) {
            Some((c, ts)) => if e.is_file && c == file_name {
                rest.push((e.name@, ts, e.size))
            } else {
                rest
            },
            None => rest,
        }
    }
}

/// The versions listed for `file_name` are exactly the entries that are
/// files and whose name reads as an archived version of `file_name`, in
/// directory order, each with the timestamp its name carries and its
/// size: a version of another file, a directory, or a name that is not
/// an archived version is never listed.
pub proof fn lemma_versions_in_selects_versions_of(entries: Seq<ArchivedFile>, file_name: Seq<char>)
    ensures
        versions_in(entries, file_name) == entries.filter(
            |e: ArchivedFile|
                e.is_file && match parsed_versioned_name(e.name@) {
                    Some((c, _)) => c == file_name,
                    None => false,
                },
        ).map_values(|e: ArchivedFile|
            (e.name@, match parsed_versioned_name(e.name@) {
                Some((_, t)) => t,
                None => Seq::empty(),
            }, e.size)),
    decreases entries.len(),
{
    reveal(Seq::filter);
    if entries.len() > 0 {
        lemma_versions_in_selects_versions_of(entries.drop_last(), file_name);
        let pred = |e: ArchivedFile|
            e.is_file && match parsed_versioned_name(e.name@) {
                Some((c, _)) => c == file_name,
                None => false,
            };
        let g = |e: ArchivedFile|
            (e.name@, match parsed_versioned_name(e.name@) {
                Some((_, t)) => t,
                None => Seq::empty(),
            }, e.size);
        let sub = entries.drop_last().filter(pred);
        assert(sub.push(entries.last()).map_values(g) =~= sub.map_values(g).push(g(entries.last())));
    }
}

/// The archived versions of `file_name` found in its `.versions`
/// directory, newest first (ties keep directory order).
pub fn select_versions(entries: &Vec<ArchivedFile>, file_name: &str) -> (r: Vec<VersionInfo>)
    ensures
        exists|u: Seq<VersionInfo>|
            u.map_values(|v: VersionInfo| version_view(v)) == versions_in(entries@, file_name@) && r@
                == listed(u),
        forall|i: int|
            0 <= i < r@.len() ==> parsed_versioned_name(#[trigger] r@[i].name@) == Some(
                (file_name@, r@[i].timestamp@),
            ),
        r@.len() == entries@.filter(
            |e: ArchivedFile|
                e.is_file && match parsed_versioned_name(e.name@) {
                    Some((c, _)) => c == file_name@,
                    None => false,
                },
        ).len(),
{
    let mut found: Vec<VersionInfo> = Vec::new();
    let mut i: usize = 0;
    while i < entries.len()
        invariant
            i <= entries.len(),
            found@.map_values(|v: VersionInfo| version_view(v)) == versions_in(entries@.take(i as int), file_name@),
        decreases entries.len() - i,
    {
        proof {
            assert(entries@.take(i + 1).drop_last() =~= entries@.take(i as int));
            assert(entries@.take(i + 1).last() == entries@[i as int]);
        }
        let e = &entries[i];
        match parse_versioned_name(e.name.as_str()) {
            Some((c, ts)) => {
                if e.is_file && str_eq(c.as_str(), file_name) {
                    let v = VersionInfo { name: e.name.clone(), timestamp: ts, size: e.size };
                    found.push(v);
                    assert(found@.map_values(|v: VersionInfo| version_view(v)) =~= versions_in(
                        entries@.take(i as int),
                        file_name@,
                    ).push(version_view(v)));
                }
            },
            None => {},
        }
        i += 1;
    }
    assert(entries@.take(i as int) =~= entries@);
    let ghost u = found@;
    let r = sort_stable(found);
    assert(u.map_values(|v: VersionInfo| version_view(v)) == versions_in(entries@, file_name@));
    proof {
        let pred = |e: ArchivedFile|
            e.is_file && match parsed_versioned_name(e.name@) {
                Some((c, _)) => c == file_name@,
                None => false,
            };
        let f = entries@.filter(pred);
        lemma_versions_in_selects_versions_of(entries@, file_name@);
        crate::order::lemma_listed_is_sorted_permutation(u);
        r@.to_multiset_ensures();
        u.to_multiset_ensures();
        assert forall|i: int| 0 <= i < r@.len() implies parsed_versioned_name(#[trigger] r@[i].name@) == Some(
            (file_name@, r@[i].timestamp@),
        ) by {
            assert(r@.contains(r@[i]));
            assert(r@.to_multiset().count(r@[i]) > 0);
            assert(u.contains(r@[i]));
            let j = choose|j: int| 0 <= j < u.len() && u[j] == r@[i];
            assert(version_view(u[j]) == versions_in(entries@, file_name@)[j]);
            entries@.lemma_filter_pred(pred, j);
        }
        assert(r@.len() == u.len());
    }
    r
}

/// The directory a browse or selective restore of `sub` reads: the job
/// root itself for an empty `sub`, else `sub` (with `/` read as `\`)
/// joined to the job root (see `join`), provided the components of the
/// job root are the first components of the result. The check compares
/// components without resolving them: a `..` component is kept, so `sub`
/// = `..\x` passes.
pub open spec fn subpath_target(job_root: Seq<char>, sub: Seq<char>) -> Option<Seq<char>> {
    if sub.len() == 0 {
        Some(job_root)
    } else {
        let joined = join(job_root, replace_char(sub, '/', '\\'));
        if components_start_with(joined, job_root) {
            Some(joined)
        } else {
            None
        }
    }
}

/// Resolve a browse or restore path under the job root.
pub fn resolve_subpath(job_root: &str, sub: &str) -> (r: Result<String, MirrorError>)
    ensures
        match r {
            Ok(p) => subpath_target(job_root@, sub@) == Some(p@),
            Err(e) => subpath_target(job_root@, sub@) is None && e == MirrorError::PathTraversal,
        },
{
    if sub.is_empty() {
        return Ok(owned(job_root));
    }
    proof {
        reveal_strlit("\\");
    }
    let clean = replace_char_str(sub, '/', "\\");
    let joined = join_path(job_root, clean.as_str());
    if path_starts_with(joined.as_str(), job_root) {
        Ok(joined)
    } else {
        Err(MirrorError::PathTraversal)
    }
}

/// The entries of a browsed directory without the `.versions` archive.
pub open spec fn without_archive(entries: Seq<BrowseEntry>) -> Seq<BrowseEntry>
    decreases entries.len(),
{
    if entries.len() == 0 {
        entries
    } else {
        let rest = without_archive(entries.drop_last());
        if entries.last().name@ == ".versions"@ {
            rest
        } else {
            rest.push(entries.last())
        }
    }
}

/// A browsed directory as listed: `.versions` left out, directories
/// first, then by name.
pub fn browse_listing(entries: Vec<BrowseEntry>) -> (r: Vec<BrowseEntry>)
    ensures
        r@ == listed(without_archive(entries@)),
        in_listing_order(r@),
        r@.to_multiset() == without_archive(entries@).to_multiset(),
{
    let ghost whole = entries@;
    let mut input = entries;
    let mut kept: Vec<BrowseEntry> = Vec::new();
    let mut k: usize = 0;
    assert(input.len() == whole.len());
    while input.len() > 0
        invariant
            k + input@.len() == whole.len(),
            whole.len() <= usize::MAX,
            input@ == whole.skip(k as int),
            kept@ == without_archive(whole.take(k as int)),
        decreases input.len(),
    {
        proof {
            reveal_strlit(".versions");
        }
        let e = input.remove(0);
        proof {
            assert(e == whole[k as int]);
            assert(whole.take(k + 1).drop_last() =~= whole.take(k as int));
            assert(whole.take(k + 1).last() == e);
        }
        if !str_eq(e.name.as_str(), VERSIONS_DIR) {
            kept.push(e);
        }
        assert(input@ =~= whole.skip(k + 1));
        k += 1;
    }
    assert(whole.take(k as int) =~= whole);
    sort_stable(kept)
}

/// The snapshot summary of a mirror run: id `mirror-<timestamp>`, the
/// sources mirrored, the job tag, and the byte counters of the run.
pub fn mirror_snapshot(
    job_name: &str,
    timestamp: &str,
    time: String,
    epoch_nanos: i128,
    paths: Vec<String>,
    hostname: String,
    stats: &MirrorStats,
) -> (s: SnapshotInfo)
    ensures
        s.id@ == "mirror-"@ + timestamp@,
        s.time == time,
        s.epoch_nanos == epoch_nanos,
        s.paths == paths,
        s.hostname == hostname,
        s.tags.len() == 1,
        s.tags@[0]@ == job_tag_of(job_name@),
        s.total_bytes_processed == Some(stats.bytes_total),
        s.data_added == Some(stats.bytes_copied),
{
    let mut tags: Vec<String> = Vec::new();
    tags.push(job_tag(job_name));
    SnapshotInfo {
        id: concat2("mirror-", timestamp),
        time,
        epoch_nanos,
        paths,
        hostname,
        tags,
        total_bytes_processed: Some(stats.bytes_total),
        data_added: Some(stats.bytes_copied),
    }
}

/// An archived file found under `.versions`: the directory holding it
/// and its name.
#[derive(Debug)]
pub struct VersionFile {
    pub parent: String,
    pub name: String,
}

/// `a` and `b` are versions of the same file: both names parse, they sit
/// in the same directory and have the same canonical name.
pub open spec fn same_file(a: VersionFile, b: VersionFile) -> bool {
    &&& parsed_versioned_name(a.name@) is Some
    &&& parsed_versioned_name(b.name@) is Some
    &&& a.parent@ == b.parent@
    &&& canonical_of(a) == canonical_of(b)
}

/// Canonical name of an archived version.
pub open spec fn canonical_of(f: VersionFile) -> Seq<char> {
    match parsed_versioned_name(f.name@) {
        Some((c, _)) => c,
        None => Seq::empty(),
    }
}

/// Timestamp of an archived version.
pub open spec fn ts_of(f: VersionFile) -> Seq<char> {
    match parsed_versioned_name(f.name@) {
        Some((_, t)) => t,
        None => Seq::empty(),
    }
}

/// Version `j` is listed before version `i` of the same file: it is newer,
/// or as new and found earlier.
pub open spec fn outranks(files: Seq<VersionFile>, j: int, i: int) -> bool {
    same_file(files[j], files[i]) && (seq_lt(ts_of(files[i]), ts_of(files[j])) || (ts_of(files[j])
        == ts_of(files[i]) && j < i))
}

/// Number of versions among the first `n` that outrank version `i`.
pub open spec fn rank_within(files: Seq<VersionFile>, i: int, n: int) -> nat
    decreases n,
{
    if n <= 0 {
        0
    } else {
        rank_within(files, i, n - 1) + if outranks(files, n - 1, i) { 1nat } else { 0nat }
    }
}

/// Position of version `i` in the newest-first listing of its file.
pub open spec fn rank(files: Seq<VersionFile>, i: int) -> nat {
    rank_within(files, i, files.len() as int)
}

/// Retention deletes version `i`: its name parses and `keep` newer (or
/// equally new, earlier found) versions of the same file exist.
pub open spec fn pruned(files: Seq<VersionFile>, i: int, keep: nat) -> bool {
    parsed_versioned_name(files[i].name@) is Some && rank(files, i) >= keep
}

/// Which archived versions retention deletes when keeping `keep` per
/// file (names that are not archived versions are left alone).
pub fn prune_plan(files: &Vec<VersionFile>, keep: usize) -> (d: Vec<bool>)
    ensures
        d.len() == files.len(),
        forall|i: int| 0 <= i < files.len() ==> #[trigger] d@[i] == pruned(files@, i, keep as nat),
{
    let mut parsed: Vec<Option<(String, String)>> = Vec::new();
    let mut k: usize = 0;
    while k < files.len()
        invariant
            k <= files.len(),
            parsed.len() == k,
            forall|m: int| 0 <= m < k ==> match #[trigger] parsed@[m] {
                Some((c, t)) => parsed_versioned_name(files@[m].name@) == Some((c@, t@)),
                None => parsed_versioned_name(files@[m].name@) is None,
            },
        decreases files.len() - k,
    {
        parsed.push(parse_versioned_name(files[k].name.as_str()));
        k += 1;
    }
    let mut d: Vec<bool> = Vec::new();
    let mut i: usize = 0;
    while i < files.len()
        invariant
            i <= files.len(),
            parsed.len() == files.len(),
            forall|m: int| 0 <= m < files.len() ==> match #[trigger] parsed@[m] {
                Some((c, t)) => parsed_versioned_name(files@[m].name@) == Some((c@, t@)),
                None => parsed_versioned_name(files@[m].name@) is None,
            },
            d.len() == i,
            forall|m: int| 0 <= m < i ==> #[trigger] d@[m] == pruned(files@, m, keep as nat),
        decreases files.len() - i,
    {
        match &parsed[i] {
            None => {
                d.push(false);
            },
            Some((ci, ti)) => {
                let mut n: usize = 0;
                let mut j: usize = 0;
                while j < files.len()
                    invariant
                        j <= files.len(),
                        i < files.len(),
                        parsed.len() == files.len(),
                        forall|m: int| 0 <= m < files.len() ==> match #[trigger] parsed@[m] {
                            Some((c, t)) => parsed_versioned_name(files@[m].name@) == Some((c@, t@)),
                            None => parsed_versioned_name(files@[m].name@) is None,
                        },
                        parsed_versioned_name(files@[i as int].name@) == Some((ci@, ti@)),
                        n == rank_within(files@, i as int, j as int),
                        n <= j,
                    decreases files.len() - j,
                {
                    let hit = match &parsed[j] {
                        Some((cj, tj)) => str_eq(files[j].parent.as_str(), files[i].parent.as_str())
                            && str_eq(cj.as_str(), ci.as_str()) && (str_lt(ti.as_str(), tj.as_str())
                            || (str_eq(tj.as_str(), ti.as_str()) && j < i)),
                        None => false,
                    };
                    assert(hit == outranks(files@, j as int, i as int));
                    if hit {
                        n += 1;
                    }
                    j += 1;
                }
                d.push(n >= keep);
            },
        }
        i += 1;
    }
    d
}

/// `outranks` chains.
proof fn lemma_outranks_transitive(files: Seq<VersionFile>, k: int, j: int, i: int)
    requires
        outranks(files, k, j),
        outranks(files, j, i),
    ensures
        outranks(files, k, i),
{
    if seq_lt(ts_of(files[j]), ts_of(files[k])) && seq_lt(ts_of(files[i]), ts_of(files[j])) {
        lemma_seq_lt_transitive(ts_of(files[i]), ts_of(files[j]), ts_of(files[k]));
    }
}

/// No version outranks itself.
proof fn lemma_outranks_irreflexive(files: Seq<VersionFile>, i: int)
    ensures
        !outranks(files, i, i),
{
    lemma_seq_lt_irreflexive(ts_of(files[i]));
}

/// Of two different versions of the same file, one outranks the other.
proof fn lemma_outranks_total(files: Seq<VersionFile>, i: int, j: int)
    requires
        i != j,
        same_file(files[i], files[j]),
    ensures
        outranks(files, i, j) || outranks(files, j, i),
{
    lemma_seq_lt_total(ts_of(files[i]), ts_of(files[j]));
}

/// A version outranked by `j` has a strictly larger rank than `j`.
proof fn lemma_rank_increases(files: Seq<VersionFile>, j: int, i: int, n: int)
    requires
        0 <= j < files.len(),
        0 <= i < files.len(),
        0 <= n <= files.len(),
        outranks(files, j, i),
    ensures
        rank_within(files, j, n) + (if j < n { 1int } else { 0int }) <= rank_within(files, i, n),
    decreases n,
{
    if n > 0 {
        lemma_rank_increases(files, j, i, n - 1);
        let m = n - 1;
        if outranks(files, m, j) {
            lemma_outranks_transitive(files, m, j, i);
        }
        if m == j {
            lemma_outranks_irreflexive(files, j);
        }
    }
}

/// Ranks are below the number of versions.
proof fn lemma_rank_bounded(files: Seq<VersionFile>, i: int, n: int)
    requires
        0 <= n,
    ensures
        rank_within(files, i, n) <= n,
    decreases n,
{
    if n > 0 {
        lemma_rank_bounded(files, i, n - 1);
    }
}

/// The versions of the file of version `i` that retention keeps.
pub open spec fn kept_versions(files: Seq<VersionFile>, i: int, keep: nat) -> Set<int> {
    Set::new(|k: int| 0 <= k < files.len() && same_file(files[k], files[i]) && !pruned(files, k, keep))
}

/// Retention keeps at most `keep` versions of every file.
pub proof fn lemma_retention_keeps_at_most(files: Seq<VersionFile>, i: int, keep: nat)
    requires
        0 <= i < files.len(),
    ensures
        kept_versions(files, i, keep).finite(),
        kept_versions(files, i, keep).len() <= keep,
{
    let kept = kept_versions(files, i, keep);
    let range = vstd::set_lib::set_int_range(0, files.len() as int);
    vstd::set_lib::lemma_int_range(0, files.len() as int);
    assert(kept.subset_of(range));
    vstd::set_lib::lemma_len_subset(kept, range);
    let f = |k: int| rank(files, k) as int;
    assert forall|a: int, b: int| kept.contains(a) && kept.contains(b) && #[trigger] f(a) == #[trigger] f(b) implies a == b by {
        if a != b {
            lemma_outranks_total(files, a, b);
            if outranks(files, a, b) {
                lemma_rank_increases(files, a, b, files.len() as int);
            } else {
                lemma_rank_increases(files, b, a, files.len() as int);
            }
        }
    }
    let image = kept.map(f);
    vstd::set_lib::lemma_map_size(kept, image, f);
    let ranks = vstd::set_lib::set_int_range(0, keep as int);
    vstd::set_lib::lemma_int_range(0, keep as int);
    assert forall|r: int| image.contains(r) implies ranks.contains(r) by {
        let k = choose|k: int| kept.contains(k) && f(k) == r;
        lemma_rank_bounded(files, k, files.len() as int);
    }
    assert(image.subset_of(ranks));
    vstd::set_lib::lemma_len_subset(image, ranks);
}

/// Retention deletes older versions before newer ones: a kept version of
/// a file is never older than a deleted version of the same file.
pub proof fn lemma_retention_keeps_newest(files: Seq<VersionFile>, i: int, j: int, keep: nat)
    requires
        0 <= i < files.len(),
        0 <= j < files.len(),
        same_file(files[j], files[i]),
        pruned(files, i, keep),
        !pruned(files, j, keep),
    ensures
        !seq_lt(ts_of(files[j]), ts_of(files[i])),
{
    if seq_lt(ts_of(files[j]), ts_of(files[i])) {
        lemma_rank_increases(files, i, j, files.len() as int);
    }
}

/// The archived versions of the file of version `i`.
pub open spec fn versions_of_file(files: Seq<VersionFile>, i: int) -> Set<int> {
    Set::new(|k: int| 0 <= k < files.len() && same_file(files[k], files[i]))
}

/// The versions among the first `n` that outrank version `k`.
spec fn outranking(files: Seq<VersionFile>, k: int, n: int) -> Set<int> {
    Set::new(|j: int| 0 <= j < n && outranks(files, j, k))
}

proof fn lemma_rank_counts(files: Seq<VersionFile>, k: int, n: int)
    requires
        0 <= n,
    ensures
        outranking(files, k, n).finite(),
        outranking(files, k, n).len() == rank_within(files, k, n),
    decreases n,
{
    if n == 0 {
        assert(outranking(files, k, 0) =~= Set::<int>::empty());
    } else {
        lemma_rank_counts(files, k, n - 1);
        if outranks(files, n - 1, k) {
            assert(outranking(files, k, n) =~= outranking(files, k, n - 1).insert(n - 1));
        } else {
            assert(outranking(files, k, n) =~= outranking(files, k, n - 1));
        }
    }
}

/// Retention keeps exactly `keep` versions of a file that has at least
/// `keep` of them, and every version of a file that has fewer.
pub proof fn lemma_retention_keeps_exactly(files: Seq<VersionFile>, i: int, keep: nat)
    requires
        0 <= i < files.len(),
    ensures
        versions_of_file(files, i).finite(),
        kept_versions(files, i, keep).len() == if keep < versions_of_file(files, i).len() {
            keep
        } else {
            versions_of_file(files, i).len()
        },
{
    let g = versions_of_file(files, i);
    let range = vstd::set_lib::set_int_range(0, files.len() as int);
    vstd::set_lib::lemma_int_range(0, files.len() as int);
    assert(g.subset_of(range));
    vstd::set_lib::lemma_len_subset(g, range);
    let n = g.len() as int;
    let f = |k: int| rank(files, k) as int;
    assert forall|a: int, b: int| g.contains(a) && g.contains(b) && #[trigger] f(a) == #[trigger] f(b) implies a == b by {
        if a != b {
            lemma_outranks_total(files, a, b);
            if outranks(files, a, b) {
                lemma_rank_increases(files, a, b, files.len() as int);
            } else {
                lemma_rank_increases(files, b, a, files.len() as int);
            }
        }
    }
    let image = g.map(f);
    vstd::set_lib::lemma_map_size(g, image, f);
    let ranks = vstd::set_lib::set_int_range(0, n);
    vstd::set_lib::lemma_int_range(0, n);
    assert forall|r: int| image.contains(r) implies ranks.contains(r) by {
        let k = choose|k: int| g.contains(k) && f(k) == r;
        let o = outranking(files, k, files.len() as int);
        lemma_rank_counts(files, k, files.len() as int);
        lemma_outranks_irreflexive(files, k);
        assert(o.subset_of(g.remove(k)));
        vstd::set_lib::lemma_len_subset(o, g.remove(k));
    }
    vstd::set_lib::lemma_subset_equality(image, ranks);
    let m: int = if keep < n { keep as int } else { n };
    let kept = kept_versions(files, i, keep);
    let low = vstd::set_lib::set_int_range(0, m);
    vstd::set_lib::lemma_int_range(0, m);
    assert(kept.subset_of(g));
    vstd::set_lib::lemma_len_subset(kept, g);
    assert forall|r: int| kept.map(f).contains(r) <==> low.contains(r) by {
        if low.contains(r) {
            assert(image.contains(r));
            let k = choose|k: int| g.contains(k) && f(k) == r;
            assert(kept.contains(k));
        }
    }
    assert(kept.map(f) =~= low);
    vstd::set_lib::lemma_map_size(kept, low, f);
}

/// Among the first `n` versions, those whose name parses and which the
/// plan `doomed` keeps.
pub open spec fn kept_count(files: Seq<VersionFile>, doomed: Seq<bool>, n: int) -> nat
    decreases n,
{
    if n <= 0 {
        0
    } else {
        kept_count(files, doomed, n - 1) + if parsed_versioned_name(files[n - 1].name@) is Some
            && !doomed[n - 1] {
            1nat
        } else {
            0nat
        }
    }
}

/// Among the first `n` versions, those whose name parses, which the plan
/// `doomed` deletes, and whose removal succeeded (`deleted`).
pub open spec fn forgotten_count(files: Seq<VersionFile>, doomed: Seq<bool>, deleted: Seq<bool>, n: int) -> nat
    decreases n,
{
    if n <= 0 {
        0
    } else {
        forgotten_count(files, doomed, deleted, n - 1) + if parsed_versioned_name(files[n - 1].name@)
            is Some && doomed[n - 1] && deleted[n - 1] {
            1nat
        } else {
            0nat
        }
    }
}

proof fn lemma_counts_bounded(files: Seq<VersionFile>, doomed: Seq<bool>, deleted: Seq<bool>, n: int)
    requires
        0 <= n,
    ensures
        kept_count(files, doomed, n) <= n,
        forgotten_count(files, doomed, deleted, n) <= n,
    decreases n,
{
    if n > 0 {
        lemma_counts_bounded(files, doomed, deleted, n - 1);
    }
}

/// The outcome of a retention pass over the archived versions `files`:
/// the versions kept by the plan `doomed` (see `prune_plan`), and those it
/// deletes whose removal succeeded (`deleted[i]`); versions whose name
/// does not parse count in neither.
pub fn retention_outcome(files: &Vec<VersionFile>, doomed: &Vec<bool>, deleted: &Vec<bool>) -> (o:
    RetentionOutcome)
    requires
        doomed@.len() == files@.len(),
        deleted@.len() == files@.len(),
    ensures
        o.kept == kept_count(files@, doomed@, files@.len() as int),
        o.forgotten == forgotten_count(files@, doomed@, deleted@, files@.len() as int),
{
    let mut kept: usize = 0;
    let mut forgotten: usize = 0;
    let mut i: usize = 0;
    while i < files.len()
        invariant
            i <= files@.len(),
            doomed@.len() == files@.len(),
            deleted@.len() == files@.len(),
            kept == kept_count(files@, doomed@, i as int),
            forgotten == forgotten_count(files@, doomed@, deleted@, i as int),
        decreases files.len() - i,
    {
        proof {
            lemma_counts_bounded(files@, doomed@, deleted@, i as int);
        }
        let parsed = parse_versioned_name(files[i].name.as_str()).is_some();
        if parsed && !doomed[i] {
            kept = kept + 1;
        } else if parsed && doomed[i] && deleted[i] {
            forgotten = forgotten + 1;
        }
        i += 1;
    }
    RetentionOutcome { kept, forgotten }
}

/// The number of versions among the first `n` whose name parses.
pub open spec fn parsed_count(files: Seq<VersionFile>, n: int) -> nat
    decreases n,
{
    if n <= 0 {
        0
    } else {
        parsed_count(files, n - 1) + if parsed_versioned_name(files[n - 1].name@) is Some {
            1nat
        } else {
            0nat
        }
    }
}

/// The versions, among the first `n`, that retention keeping `keep` per
/// file leaves in place.
pub open spec fn kept_set(files: Seq<VersionFile>, keep: nat, n: int) -> Set<int> {
    Set::new(|k: int| 0 <= k < n && parsed_versioned_name(files[k].name@) is Some && !pruned(files, k, keep))
}

/// When every removal succeeds, a retention pass run on `prune_plan`'s
/// plan counts as kept exactly the versions that retention leaves in
/// place (of which each file keeps `min(keep, its versions)`, see
/// `lemma_retention_keeps_exactly`), and as forgotten all the other
/// versions whose name parses.
pub proof fn lemma_retention_outcome_counts(
    files: Seq<VersionFile>,
    doomed: Seq<bool>,
    deleted: Seq<bool>,
    keep: nat,
    n: int,
)
    requires
        0 <= n <= files.len(),
        doomed.len() == files.len(),
        deleted.len() == files.len(),
        forall|i: int| 0 <= i < files.len() ==> #[trigger] doomed[i] == pruned(files, i, keep),
        forall|i: int| 0 <= i < files.len() ==> #[trigger] deleted[i],
    ensures
        kept_set(files, keep, n).finite(),
        kept_count(files, doomed, n) == kept_set(files, keep, n).len(),
        kept_count(files, doomed, n) + forgotten_count(files, doomed, deleted, n) == parsed_count(files, n),
    decreases n,
{
    if n == 0 {
        assert(kept_set(files, keep, 0) =~= Set::<int>::empty());
    } else {
        lemma_retention_outcome_counts(files, doomed, deleted, keep, n - 1);
        let m = n - 1;
        assert(doomed[m] == pruned(files, m, keep));
        assert(deleted[m]);
        if parsed_versioned_name(files[m].name@) is Some && !pruned(files, m, keep) {
            assert(kept_set(files, keep, n) =~= kept_set(files, keep, m).insert(m));
        } else {
            assert(kept_set(files, keep, n) =~= kept_set(files, keep, m));
        }
    }
}

} // verus!
