//! Content digests of mirrored files, used to recognise a file that was
//! renamed at the source: a new source file with the same size and the
//! same SHA-256 digest as a mirrored file that disappeared is a move.

use vstd::prelude::*;

verus! {

/// The SHA-256 digest of `data`, as computed by `sha2`.
pub uninterp spec fn sha256_of(data: Seq<u8>) -> Seq<u8>;

/// Calls `sha2::Sha256::digest` (through the `Digest` trait) and copies
/// the 32-byte output into an array. Claimed: the array holds
/// `sha256_of` of the input, a function of the input alone.
#[verifier::external_body]
fn sha256(data: &[u8]) -> (digest: [u8; 32])
    ensures
        digest@ == sha256_of(data@),
{
    <sha2::Sha256 as sha2::Digest>::digest(data).into()
}

/// The digest of a file's content.
pub fn content_digest(content: &[u8]) -> (d: [u8; 32])
    ensures
        d@ == sha256_of(content@),
{
    sha256(content)
}

/// The first of `candidates` whose digest equals `src`.
pub fn first_matching_digest(src: &[u8; 32], candidates: &Vec<[u8; 32]>) -> (r: Option<usize>)
    ensures
        match r {
            Some(i) => i < candidates@.len() && candidates@[i as int]@ == src@ && forall|k: int|
                0 <= k < i ==> candidates@[k]@ != src@,
            None => forall|k: int| 0 <= k < candidates@.len() ==> candidates@[k]@ != src@,
        },
{
    let mut i: usize = 0;
    while i < candidates.len()
        invariant
            i <= candidates@.len(),
            forall|k: int| 0 <= k < i ==> candidates@[k]@ != src@,
        decreases candidates.len() - i,
    {
        let c = &candidates[i];
        let mut j: usize = 0;
        let mut same = true;
        while j < 32
            invariant
                j <= 32,
                same == forall|m: int| 0 <= m < j ==> c@[m] == src@[m],
            decreases 32 - j,
        {
            if c[j] != src[j] {
                same = false;
            }
            j += 1;
        }
        if same {
            assert(c@ =~= src@);
            return Some(i);
        }
        i += 1;
    }
    None
}

} // verus!
