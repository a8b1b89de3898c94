//! Authentication against the SMB shares of repositories.
//!
//! A repository whose path is a UNC `\\host\share\...` and which names an
//! SMB user is connected at startup with the password kept, encrypted,
//! in its password file. The connection call itself is Windows-only and
//! made by the caller; this module decides what to do per repository and
//! how to read the call's result code.

use vstd::prelude::*;
use crate::config::Repository;
use crate::text::{chars_of, find_char, find_char_from, lemma_find_char, concat2, owned, slice_chars};

verus! {

broadcast use vstd::string::group_string_axioms;

/// `\\host\share` of a UNC path `\\host\share[\...]`; nothing when the
/// path is not of that shape or the host or share is empty.
pub open spec fn unc_root_of(s: Seq<char>) -> Option<Seq<char>> {
    if s.len() >= 2 && s[0] == '\\' && s[1] == '\\' {
        let after = s.subrange(2, s.len() as int);
        match find_char(after, '\\') {
            None => None,
            Some(i) => {
                let host = after.subrange(0, i);
                let rest = after.subrange(i + 1, after.len() as int);
                let share = match find_char(rest, '\\') {
                    None => rest,
                    Some(j) => rest.subrange(0, j),
                };
                if host.len() == 0 || share.len() == 0 {
                    None
                } else {
                    Some("\\\\"@ + host + "\\"@ + share)
                }
            },
        }
    } else {
        None
    }
}

/// `\\host\share` of a UNC path (see `unc_root_of`).
pub fn unc_share_root(path: &str) -> (r: Option<String>)
    ensures
        r matches Some(s) ==> unc_root_of(path@) == Some(s@),
        r is None ==> unc_root_of(path@) is None,
{
    let v = chars_of(path);
    if !(v.len() >= 2 && v[0] == '\\' && v[1] == '\\') {
        return None;
    }
    let ghost after = v@.subrange(2, v@.len() as int);
    match find_char_from(&v, '\\', 2) {
        None => None,
        Some(i) => {
            let ghost rest = after.subrange(i - 2 + 1, after.len() as int);
            assert(rest =~= v@.subrange(i + 1, v@.len() as int));
            assert(after.subrange(0, i - 2) =~= v@.subrange(2, i as int));
            let end = match find_char_from(&v, '\\', i + 1) {
                None => v.len(),
                Some(j) => {
                    assert(rest.subrange(0, j - (i + 1)) =~= v@.subrange(i + 1, j as int));
                    j
                },
            };
            if i == 2 || end == i + 1 {
                return None;
            }
            proof {
                if end == v@.len() {
                    assert(rest =~= v@.subrange(i + 1, end as int));
                }
                reveal_strlit("\\\\");
                reveal_strlit("\\");
            }
            let host = slice_chars(path, 2, i);
            let share = slice_chars(path, i + 1, end);
            let mut r = concat2("\\\\", host);
            r.append("\\");
            r.append(share);
            Some(r)
        },
    }
}

/// The share root is where the path starts: `unc_share_root` only ever
/// keeps a prefix of its input.
pub proof fn lemma_unc_root_is_prefix(s: Seq<char>)
    ensures
        unc_root_of(s) matches Some(r) ==> r.len() <= s.len() && s.subrange(0, r.len() as int) == r,
{
    if s.len() >= 2 && s[0] == '\\' && s[1] == '\\' {
        let after = s.subrange(2, s.len() as int);
        lemma_find_char(after, '\\');
        match find_char(after, '\\') {
            None => {},
            Some(i) => {
                let rest = after.subrange(i + 1, after.len() as int);
                lemma_find_char(rest, '\\');
                let share = match find_char(rest, '\\') {
                    None => rest,
                    Some(j) => rest.subrange(0, j),
                };
                let host = after.subrange(0, i);
                if host.len() > 0 && share.len() > 0 {
                    reveal_strlit("\\\\");
                    reveal_strlit("\\");
                    let r = "\\\\"@ + host + "\\"@ + share;
                    assert(s[2 + i] == '\\');
                    assert(s.subrange(0, r.len() as int) =~= r);
                }
            },
        }
    }
}

/// The share root of a share root is itself.
pub proof fn lemma_unc_root_is_fixed_point(s: Seq<char>)
    ensures
        unc_root_of(s) matches Some(r) ==> unc_root_of(r) == Some(r),
{
    if s.len() >= 2 && s[0] == '\\' && s[1] == '\\' {
        let after = s.subrange(2, s.len() as int);
        lemma_find_char(after, '\\');
        match find_char(after, '\\') {
            None => {},
            Some(i) => {
                let rest = after.subrange(i + 1, after.len() as int);
                lemma_find_char(rest, '\\');
                let share = match find_char(rest, '\\') {
                    None => rest,
                    Some(j) => rest.subrange(0, j),
                };
                let host = after.subrange(0, i);
                if host.len() > 0 && share.len() > 0 {
                    reveal_strlit("\\\\");
                    reveal_strlit("\\");
                    let r = "\\\\"@ + host + "\\"@ + share;
                    let after2 = r.subrange(2, r.len() as int);
                    assert(after2 =~= host + "\\"@ + share);
                    assert forall|k: int| 0 <= k < host.len() implies after2[k] != '\\' by {
                        assert(after2[k] == after[k]);
                    }
                    crate::text::lemma_find_char_at(after2, '\\', host.len() as int);
                    let rest2 = after2.subrange(host.len() + 1int, after2.len() as int);
                    assert(rest2 =~= share);
                    assert forall|k: int| 0 <= k < share.len() implies share[k] != '\\' by {
                        assert(share[k] == rest[k]);
                    }
                    crate::text::lemma_find_char_at(share, '\\', share.len() as int);
                    assert(r[0] == '\\' && r[1] == '\\');
                }
            },
        }
    }
}

/// What setting up SMB does for one repository.
#[derive(Debug)]
pub enum SmbStep {
    /// No SMB user: nothing to do.
    Skip,
    /// An SMB user without a password file: warn and go on.
    MissingPasswordFile,
    /// Connect as `user` with the password kept in `password_file`.
    Connect { user: String, password_file: String },
}

/// The step for `repo`.
pub fn smb_step(repo: &Repository) -> (s: SmbStep)
    ensures
        match repo.smb_user {
            None => s is Skip,
            Some(u) => match repo.smb_password_file {
                None => s is MissingPasswordFile,
                Some(f) => s matches SmbStep::Connect { user, password_file } && user@ == u@
                    && password_file@ == f@,
            },
        },
{
    match &repo.smb_user {
        None => SmbStep::Skip,
        Some(u) => match &repo.smb_password_file {
            None => SmbStep::MissingPasswordFile,
            Some(f) => SmbStep::Connect { user: owned(u.as_str()), password_file: owned(f.as_str()) },
        },
    }
}

/// Why a share could not be connected.
#[derive(Debug, PartialEq, Eq, Structural)]
pub enum SmbError {
    /// The repository path is not a UNC `\\host\share\...`.
    NotUnc,
    /// The connection call failed with this code.
    ConnectFailed { code: u32 },
}

/// The share to connect for a repository path.
pub fn share_target(repo_path: &str) -> (r: Result<String, SmbError>)
    ensures
        match r {
            Ok(t) => unc_root_of(repo_path@) == Some(t@),
            Err(e) => unc_root_of(repo_path@) is None && e == SmbError::NotUnc,
        },
{
    match unc_share_root(repo_path) {
        Some(t) => Ok(t),
        None => Err(SmbError::NotUnc),
    }
}

/// The reading of the connection call's result code: 0 is a connection,
/// 1219 (the session already holds other credentials for the share) is
/// accepted as one too, anything else is a failure.
pub fn connection_result(code: u32) -> (r: Result<(), SmbError>)
    ensures
        r == (if code == 0 || code == 1219 {
            Ok::<(), SmbError>(())
        } else {
            Err(SmbError::ConnectFailed { code })
        }),
{
    if code == 0 || code == 1219 {
        Ok(())
    } else {
        Err(SmbError::ConnectFailed { code })
    }
}

} // verus!
