//! Rules of the rustic engine that do not touch the repository itself:
//! which retention rules are set, how excludes are handed over, how the
//! passphrase is read from its file, and which snapshots belong to a job.

use vstd::prelude::*;
use crate::backup::{SnapshotInfo, job_tag_of, job_tag};
use crate::config::{Repository, Retention};
use crate::order::{listed, sort_stable, in_listing_order};
use crate::text::{is_white_space_char, trim_end, lemma_seq_lt_irreflexive, lemma_seq_lt_transitive, lemma_seq_lt_total, lemma_seq_lt_asymmetric, chars_of, concat2, concat3, owned, slice_chars, find_char, find_char_in, lemma_find_char, str_eq, seq_lt, str_lt};

verus! {

broadcast use vstd::string::group_string_axioms;

/// Backup engine storing deduplicated, encrypted, restic-compatible
/// snapshots at the repository path.
#[derive(Debug)]
pub struct RusticEngine {
    repo: Repository,
}

impl RusticEngine {
    /// The repository served.
    pub closed spec fn repo(&self) -> Repository {
        self.repo
    }

    /// An engine for `repo`; nothing is read or written.
    pub fn new(repo: Repository) -> (e: Self)
        ensures
            e.repo() == repo,
    {
        RusticEngine { repo }
    }

    /// The repository served.
    pub fn repository(&self) -> (r: &Repository)
        ensures
            *r == self.repo(),
    {
        &self.repo
    }

    /// The password file of the repository, which this backend requires.
    pub fn password_file(&self) -> (r: Result<String, PasswordError>)
        ensures
            match self.repo().password_file {
                Some(f) => r matches Ok(p) && p@ == f@,
                None => r == Err::<String, PasswordError>(PasswordError::MissingFile),
            },
    {
        match &self.repo.password_file {
            Some(f) => Ok(owned(f.as_str())),
            None => Err(PasswordError::MissingFile),
        }
    }
}

/// At least one snapshot retention rule is set (`keep_versions` is a
/// mirror rule and does not count).
pub open spec fn has_snapshot_rule(r: Retention) -> bool {
    r.keep_last is Some || r.keep_hourly is Some || r.keep_daily is Some || r.keep_weekly is Some
        || r.keep_monthly is Some || r.keep_yearly is Some
}

/// At least one of `keep_last` .. `keep_yearly` is set; without one,
/// retention leaves the snapshots alone.
pub fn any_rule_set(r: &Retention) -> (b: bool)
    ensures
        b == has_snapshot_rule(*r),
{
    r.keep_last.is_some() || r.keep_hourly.is_some() || r.keep_daily.is_some()
        || r.keep_weekly.is_some() || r.keep_monthly.is_some() || r.keep_yearly.is_some()
}

/// When snapshot retention applies: setting any one of `keep_last`,
/// `keep_hourly`, `keep_daily`, `keep_weekly`, `keep_monthly` or
/// `keep_yearly` makes it apply whatever the other fields hold; with none
/// of them set it does not apply; `keep_versions` never matters.
pub proof fn lemma_snapshot_rules(r: Retention, n: u32, v: Option<u32>)
    ensures
        has_snapshot_rule(Retention { keep_last: Some(n), ..r }),
        has_snapshot_rule(Retention { keep_hourly: Some(n), ..r }),
        has_snapshot_rule(Retention { keep_daily: Some(n), ..r }),
        has_snapshot_rule(Retention { keep_weekly: Some(n), ..r }),
        has_snapshot_rule(Retention { keep_monthly: Some(n), ..r }),
        has_snapshot_rule(Retention { keep_yearly: Some(n), ..r }),
        !has_snapshot_rule(Retention { keep_versions: v, ..Retention::none() }),
        has_snapshot_rule(Retention { keep_versions: v, ..r }) == has_snapshot_rule(r),
{
}

/// The exclude pattern in the engine's whitelist syntax: a bare pattern
/// is prefixed with `!` (exclude), one already starting with `!` is kept.
pub open spec fn negated_pattern(p: Seq<char>) -> Seq<char> {
    if p.len() > 0 && p[0] == '!' {
        p
    } else {
        seq!['!'] + p
    }
}

/// Converting a pattern twice changes nothing more: a pattern already
/// in the whitelist syntax is kept as it is.
pub proof fn lemma_negation_is_idempotent(p: Seq<char>)
    ensures
        negated_pattern(negated_pattern(p)) == negated_pattern(p),
{
}

/// Every exclude pattern in the engine's whitelist syntax, in order.
pub fn negate_excludes(excludes: &Vec<String>) -> (r: Vec<String>)
    ensures
        r.len() == excludes.len(),
        forall|i: int| 0 <= i < r.len() ==> #[trigger] r@[i]@ == negated_pattern(excludes@[i]@),
{
    proof {
        reveal_strlit("!");
    }
    let mut out: Vec<String> = Vec::new();
    let mut i: usize = 0;
    while i < excludes.len()
        invariant
            i <= excludes.len(),
            out.len() == i,
            forall|k: int| 0 <= k < i ==> #[trigger] out@[k]@ == negated_pattern(excludes@[k]@),
        decreases excludes.len() - i,
    {
        let ghost old_out = out@;
        proof {
            reveal_strlit("!");
        }
        let p = excludes[i].as_str();
        let v = chars_of(p);
        let q = if v.len() > 0 && v[0] == '!' {
            owned(p)
        } else {
            concat2("!", p)
        };
        assert(q@ =~= negated_pattern(excludes@[i as int]@));
        out.push(q);
        assert(forall|k: int| 0 <= k < i ==> out@[k] == old_out[k]);
        i += 1;
    }
    out
}

/// The first line of `s` (up to the first line feed).
pub open spec fn first_line(s: Seq<char>) -> Seq<char> {
    match find_char(s, '\n') {
        Some(i) => s.subrange(0, i),
        None => s,
    }
}

/// The passphrase stored in a password file: its first line, without
/// trailing white space.
pub open spec fn passphrase_of(content: Seq<char>) -> Seq<char> {
    trim_end(first_line(content))
}

proof fn lemma_trim_end_cuts_white_space(s: Seq<char>)
    ensures
        trim_end(s).len() <= s.len(),
        trim_end(s) == s.take(trim_end(s).len() as int),
        trim_end(s).len() == 0 || !crate::text::is_white_space(trim_end(s).last()),
        forall|k: int| trim_end(s).len() <= k < s.len() ==> crate::text::is_white_space(#[trigger] s[k]),
    decreases s.len(),
{
    if s.len() > 0 && crate::text::is_white_space(s.last()) {
        lemma_trim_end_cuts_white_space(s.drop_last());
        assert(s.drop_last().take(trim_end(s).len() as int) =~= s.take(trim_end(s).len() as int));
        assert forall|k: int| trim_end(s).len() <= k < s.len() implies crate::text::is_white_space(#[trigger] s[k]) by {
            if k < s.len() - 1 {
                assert(s[k] == s.drop_last()[k]);
            }
        }
    } else {
        assert(s.take(s.len() as int) =~= s);
    }
}

/// The passphrase is the start of the file: it holds no line break and
/// does not end in white space, and everything after it up to the first
/// line break (or the end of the file) is white space.
pub proof fn lemma_passphrase_shape(content: Seq<char>)
    ensures
        passphrase_of(content).len() <= content.len(),
        content.take(passphrase_of(content).len() as int) == passphrase_of(content),
        forall|k: int| 0 <= k < passphrase_of(content).len() ==> #[trigger] passphrase_of(content)[k] != '\n',
        passphrase_of(content).len() == 0 || !crate::text::is_white_space(passphrase_of(content).last()),
        forall|k: int|
            passphrase_of(content).len() <= k < content.len() && (forall|m: int| 0 <= m < k ==> content[m] != '\n')
                ==> crate::text::is_white_space(#[trigger] content[k]),
{
    let line = first_line(content);
    let p = passphrase_of(content);
    lemma_find_char(content, '\n');
    lemma_trim_end_cuts_white_space(line);
    assert(line == content.take(line.len() as int)) by {
        match find_char(content, '\n') {
            Some(i) => {},
            None => {
                assert(content.take(content.len() as int) =~= content);
            },
        }
    }
    assert(content.take(p.len() as int) =~= line.take(p.len() as int));
    assert forall|k: int| 0 <= k < p.len() implies #[trigger] p[k] != '\n' by {
        assert(p[k] == line[k]);
        assert(line[k] == content[k]);
    }
    assert forall|k: int|
        p.len() <= k < content.len() && (forall|m: int| 0 <= m < k ==> content[m] != '\n')
            implies crate::text::is_white_space(#[trigger] content[k]) by {
        if k < line.len() {
            assert(line[k] == content[k]);
        } else {
            match find_char(content, '\n') {
                Some(i) => {
                    assert(line.len() == i);
                    if k > i {
                        assert(content[i] == '\n');
                    }
                    assert(content[k] == '\n');
                },
                None => {},
            }
        }
    }
}

/// Why a password file cannot be used.
#[derive(Debug, Clone, Copy, PartialEq, Eq, Structural)]
pub enum PasswordError {
    /// The repository names no password file.
    MissingFile,
    /// The first line holds nothing but white space.
    Empty,
}

impl PasswordError {
    /// The human-readable description, for the password file `file`.
    pub fn message(&self, file: &str) -> (m: String)
        ensures
            m@ == (match self {
                PasswordError::MissingFile => "rustic backend requires `password_file:` on the repository \u{2014} set it in kovre.yaml (or pick `backend: mirror` if you don't want a passphrase)"@,
                PasswordError::Empty => "password file `"@ + file@ + "` is empty"@,
            }),
    {
        match self {
            PasswordError::MissingFile => owned(
                "rustic backend requires `password_file:` on the repository \u{2014} set it in kovre.yaml (or pick `backend: mirror` if you don't want a passphrase)",
            ),
            PasswordError::Empty => concat3("password file `", file, "` is empty"),
        }
    }
}

/// The passphrase in the content of a password file: the first line
/// without trailing white space (so line endings do not matter). An empty
/// passphrase is refused.
pub fn passphrase_from(content: &str) -> (r: Result<String, PasswordError>)
    ensures
        match r {
            Ok(p) => p@ == passphrase_of(content@) && p@.len() > 0,
            Err(e) => passphrase_of(content@).len() == 0 && e is Empty,
        },
{
    let v = chars_of(content);
    let end = match find_char_in(&v, '\n') {
        Some(i) => {
            proof {
                lemma_find_char(v@, '\n');
            }
            i
        },
        None => v.len(),
    };
    let ghost line = first_line(content@);
    assert(line =~= v@.subrange(0, end as int));
    let mut k = end;
    while k > 0 && is_white_space_char(v[k - 1])
        invariant
            k <= end <= v.len(),
            v@ == content@,
            trim_end(v@.subrange(0, k as int)) == trim_end(line),
        decreases k,
    {
        assert(v@.subrange(0, k as int).drop_last() =~= v@.subrange(0, k - 1));
        k -= 1;
    }
    assert(trim_end(v@.subrange(0, k as int)) == v@.subrange(0, k as int));
    if k == 0 {
        Err(PasswordError::Empty)
    } else {
        Ok(owned(slice_chars(content, 0, k)))
    }
}

/// Some tag of `s` is `tag`.
pub open spec fn tagged(s: SnapshotInfo, tag: Seq<char>) -> bool {
    exists|k: int| 0 <= k < s.tags.len() && #[trigger] s.tags@[k]@ == tag
}

/// The snapshots carrying `tag`, in order.
pub open spec fn with_tag(snaps: Seq<SnapshotInfo>, tag: Seq<char>) -> Seq<SnapshotInfo>
    decreases snaps.len(),
{
    if snaps.len() == 0 {
        snaps
    } else {
        let rest = with_tag(snaps.drop_last(), tag);
        if tagged(snaps.last(), tag) {
            rest.push(snaps.last())
        } else {
            rest
        }
    }
}

/// `s` carries `tag`.
pub fn has_tag(s: &SnapshotInfo, tag: &str) -> (b: bool)
    ensures
        b == tagged(*s, tag@),
{
    let mut i: usize = 0;
    while i < s.tags.len()
        invariant
            i <= s.tags.len(),
            forall|k: int| 0 <= k < i ==> s.tags@[k]@ != tag@,
        decreases s.tags.len() - i,
    {
        if str_eq(s.tags[i].as_str(), tag) {
            return true;
        }
        i += 1;
    }
    false
}

/// The snapshots selected for a tag are exactly those of `snaps` that
/// have that tag among their tags, in their order.
pub proof fn lemma_with_tag_selects_tagged(snaps: Seq<SnapshotInfo>, tag: Seq<char>)
    ensures
        with_tag(snaps, tag) == snaps.filter(
            |s: SnapshotInfo| exists|k: int| 0 <= k < s.tags@.len() && #[trigger] s.tags@[k]@ == tag,
        ),
    decreases snaps.len(),
{
    reveal(Seq::filter);
    if snaps.len() > 0 {
        lemma_with_tag_selects_tagged(snaps.drop_last(), tag);
    }
}

/// The snapshots of `job_name` (tagged `kovre-job:<job_name>`), newest
/// first; snapshots with the same time keep their order.
pub fn snapshots_for_job(all: Vec<SnapshotInfo>, job_name: &str) -> (r: Vec<SnapshotInfo>)
    ensures
        r@ == listed(with_tag(all@, job_tag_of(job_name@))),
        in_listing_order(r@),
        r@.to_multiset() == with_tag(all@, job_tag_of(job_name@)).to_multiset(),
        r@.to_multiset() == all@.filter(
            |s: SnapshotInfo|
                exists|k: int| 0 <= k < s.tags@.len() && #[trigger] s.tags@[k]@ == job_tag_of(job_name@),
        ).to_multiset(),
        forall|i: int| #![trigger r@[i]]
            0 <= i < r@.len() ==> exists|k: int|
                0 <= k < r@[i].tags@.len() && #[trigger] r@[i].tags@[k]@ == job_tag_of(job_name@),
{
    let tag = job_tag(job_name);
    let ghost whole = all@;
    let mut input = all;
    let mut kept: Vec<SnapshotInfo> = Vec::new();
    let mut k: usize = 0;
    assert(input.len() == whole.len());
    while input.len() > 0
        invariant
            k + input@.len() == whole.len(),
            whole.len() <= usize::MAX,
            input@ == whole.skip(k as int),
            kept@ == with_tag(whole.take(k as int), tag@),
        decreases input.len(),
    {
        let s = input.remove(0);
        proof {
            assert(s == whole[k as int]);
            assert(whole.take(k + 1).drop_last() =~= whole.take(k as int));
            assert(whole.take(k + 1).last() == s);
        }
        if has_tag(&s, tag.as_str()) {
            kept.push(s);
        }
        assert(input@ =~= whole.skip(k + 1));
        k += 1;
    }
    assert(whole.take(k as int) =~= whole);
    let r = sort_stable(kept);
    proof {
        let t = job_tag_of(job_name@);
        let pred = |s: SnapshotInfo| exists|k: int| 0 <= k < s.tags@.len() && #[trigger] s.tags@[k]@ == t;
        lemma_with_tag_selects_tagged(whole, t);
        crate::order::lemma_listed_is_sorted_permutation(with_tag(whole, t));
        let f = whole.filter(pred);
        assert forall|i: int| #![trigger r@[i]] 0 <= i < r@.len() implies exists|k: int|
            0 <= k < r@[i].tags@.len() && #[trigger] r@[i].tags@[k]@ == t by {
            r@.to_multiset_ensures();
            f.to_multiset_ensures();
            assert(with_tag(whole, t) == f);
            assert(r@.to_multiset() == f.to_multiset());
            assert(r@.contains(r@[i]));
            assert(r@.to_multiset().count(r@[i]) > 0);
            assert(f.to_multiset().count(r@[i]) > 0);
            assert(f.contains(r@[i]));
            let j = choose|j: int| 0 <= j < f.len() && f[j] == r@[i];
            whole.lemma_filter_pred(pred, j);
        }
    }
    r
}

/// Index of the snapshot to restore for `tag`: the one carrying it with
/// the latest instant, the last of them when several share that instant.
pub fn newest_tagged(snaps: &Vec<SnapshotInfo>, tag: &str) -> (r: Option<usize>)
    ensures
        match r {
            Some(i) => i < snaps.len() && tagged(snaps@[i as int], tag@) && (forall|j: int|
                0 <= j < snaps.len() && tagged(#[trigger] snaps@[j], tag@) ==> snaps@[j].epoch_nanos
                    <= snaps@[i as int].epoch_nanos) && (forall|j: int|
                i < j < snaps.len() && tagged(#[trigger] snaps@[j], tag@) ==> snaps@[j].epoch_nanos
                    < snaps@[i as int].epoch_nanos),
            None => forall|j: int| 0 <= j < snaps.len() ==> !tagged(#[trigger] snaps@[j], tag@),
        },
{
    let mut best: Option<usize> = None;
    let mut i: usize = 0;
    while i < snaps.len()
        invariant
            i <= snaps.len(),
            match best {
                Some(b) => b < i && tagged(snaps@[b as int], tag@) && (forall|j: int|
                    0 <= j < i && tagged(#[trigger] snaps@[j], tag@) ==> snaps@[j].epoch_nanos
                        <= snaps@[b as int].epoch_nanos) && (forall|j: int|
                    b < j < i && tagged(#[trigger] snaps@[j], tag@) ==> snaps@[j].epoch_nanos
                        < snaps@[b as int].epoch_nanos),
                None => forall|j: int| 0 <= j < i ==> !tagged(#[trigger] snaps@[j], tag@),
            },
        decreases snaps.len() - i,
    {
        if has_tag(&snaps[i], tag) {
            match best {
                Some(b) => {
                    if snaps[i].epoch_nanos >= snaps[b].epoch_nanos {
                        best = Some(i);
                    }
                },
                None => {
                    best = Some(i);
                },
            }
        }
        i += 1;
    }
    best
}

/// Outcome of evaluating retention rules over a job's snapshots.
#[derive(Debug)]
pub struct RetentionTally {
    /// Number of snapshots kept.
    pub kept: usize,
    /// Positions of the snapshots to forget.
    pub forget: Vec<usize>,
}

/// Split the evaluated snapshots (`keep[i]` tells whether snapshot `i` is
/// kept) into a count of the kept ones and the positions of the others.
pub fn tally_retention(keep: &Vec<bool>) -> (t: RetentionTally)
    ensures
        t.kept + t.forget.len() == keep.len(),
        forall|k: int| 0 <= k < t.forget.len() ==> t.forget@[k] < keep.len() && !keep@[t.forget@[k] as int],
        forall|k: int, l: int| 0 <= k < l < t.forget.len() ==> t.forget@[k] < t.forget@[l],
        forall|i: int| 0 <= i < keep.len() && !keep@[i] ==> t.forget@.contains(i as usize),
{
    let mut kept: usize = 0;
    let mut forget: Vec<usize> = Vec::new();
    let mut i: usize = 0;
    while i < keep.len()
        invariant
            i <= keep.len(),
            kept + forget.len() == i,
            forall|k: int| 0 <= k < forget.len() ==> forget@[k] < i && !keep@[forget@[k] as int],
            forall|k: int, l: int| 0 <= k < l < forget.len() ==> forget@[k] < forget@[l],
            forall|j: int| 0 <= j < i && !keep@[j] ==> forget@.contains(j as usize),
        decreases keep.len() - i,
    {
        if keep[i] {
            kept += 1;
        } else {
            let ghost before = forget@;
            forget.push(i);
            assert(forget@[forget.len() - 1] == i);
            assert forall|j: int| 0 <= j < i && !keep@[j] implies forget@.contains(j as usize) by {
                let w = choose|w: int| 0 <= w < before.len() && before[w] == j as usize;
                assert(forget@[w] == j as usize);
            }
        }
        i += 1;
    }
    RetentionTally { kept, forget }
}

} // verus!
