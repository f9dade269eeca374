//! Duplicate-file detection, run per file before any content moves.
//!
//! The sender transmits the file's name and size.  The receiver answers
//! with a candidate flag: 1 when it already holds a file of that name and
//! size, 0 otherwise.  Only on a candidate does the receiver compute and
//! send its 32-byte content digest; the sender compares it with its own
//! file's digest and signals back whether they matched.  The transfer is
//! skipped exactly when size and content digest both match; a size
//! mismatch never computes a digest at all, which is why size comparison
//! and digest comparison are separate decisions here.

use vstd::prelude::*;

use crate::crypto::sha256_of;
use crate::wire;

verus! {

/// The receiver's candidate decision: it announces a candidate exactly
/// when a local file of the same name exists with the same size.
pub fn receiver_candidate_flag(local_exists: bool, local_size: u64, remote_size: u64) -> (r: u64)
    ensures
        r == 1 <==> (local_exists && local_size == remote_size),
        r == 0 || r == 1,
{
    if local_exists && local_size == remote_size {
        1
    } else {
        0
    }
}

/// Whether two content digests are identical.
pub fn digests_match(local_digest: &Vec<u8>, peer_digest: &Vec<u8>) -> (r: bool)
    ensures
        r == (local_digest@ == peer_digest@),
{
    wire::bytes_equal(local_digest, peer_digest)
}

/// The verdict once the two digests were compared: the match flag put
/// on the wire (1 on a match, 0 otherwise), and whether the transfer is
/// still needed — exactly when the digests differ.
pub fn match_verdict(hashes_equal: bool) -> (r: (u64, bool))
    ensures
        r.0 == 1 <==> hashes_equal,
        r.0 == 0 || r.0 == 1,
        r.1 == !hashes_equal,
{
    if hashes_equal {
        (1, false)
    } else {
        (0, true)
    }
}

/// How a peer reads the candidate flag: only the value 1 announces a
/// candidate worth hashing.
pub fn candidate_announced(candidate_flag: u64) -> (r: bool)
    ensures
        r == (candidate_flag == 1),
{
    candidate_flag == 1
}

/// The final decision read off the match flag: the transfer goes ahead
/// exactly when the flag denies a digest match.
pub fn needs_transfer(match_flag: u64) -> (r: bool)
    ensures
        r == (match_flag != 1),
{
    match_flag != 1
}

/// When the protocol may skip a file: the receiver holds a file of the
/// same name, the sizes are equal, and the content digests are equal.
pub open spec fn skip_allowed(local_exists: bool, local: Seq<u8>, remote: Seq<u8>) -> bool {
    local_exists && local.len() == remote.len() && sha256_of(local) == sha256_of(remote)
}

/// What duplicate detection reports: identical files are skipped;
/// differing sizes always transfer (the size check alone settles it,
/// before any digest exists); and equal sizes with differing digests
/// transfer too.
pub proof fn lemma_duplicate_detection(local_exists: bool, local: Seq<u8>, remote: Seq<u8>)
    ensures
        local == remote ==> skip_allowed(true, local, remote),
        local.len() != remote.len() ==> !skip_allowed(local_exists, local, remote),
        sha256_of(local) != sha256_of(remote) ==> !skip_allowed(local_exists, local, remote),
        !local_exists ==> !skip_allowed(local_exists, local, remote),
{
}

} // verus!
