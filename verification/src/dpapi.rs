//! Protection of secrets with the Windows Data Protection API (current
//! user scope), used for the SMB passwords kept on disk.
//!
//! The API is reached through Windows system calls, which this library
//! does not make: here both operations report the API as unavailable, as
//! on every platform other than Windows. The Windows program supplies its
//! own implementation around them.

use vstd::prelude::*;
use crate::text::owned;

verus! {

broadcast use vstd::string::group_string_axioms;

/// Why a protection operation failed.
#[derive(Debug, Clone, Copy, PartialEq, Eq, Structural)]
pub enum DpapiError {
    /// The Data Protection API is not available.
    Unavailable,
}

impl DpapiError {
    /// The human-readable description.
    pub fn message(&self) -> (m: String)
        ensures
            m@ == "DPAPI is only available on Windows"@,
    {
        owned("DPAPI is only available on Windows")
    }
}

/// Protect `plaintext` for the current user: unavailable here.
pub fn encrypt(plaintext: &[u8]) -> (r: Result<Vec<u8>, DpapiError>)
    ensures
        r matches Err(e) && e == DpapiError::Unavailable,
{
    Err(DpapiError::Unavailable)
}

/// Recover what `encrypt` protected: unavailable here.
pub fn decrypt(ciphertext: &[u8]) -> (r: Result<Vec<u8>, DpapiError>)
    ensures
        r matches Err(e) && e == DpapiError::Unavailable,
{
    Err(DpapiError::Unavailable)
}

} // verus!
