//! Host-side helpers of the benchmark driver: the zkVM host handle and the
//! peak memory figure of child processes.

use vstd::prelude::*;

verus! {

/// The error message of a proof generation request.
pub open spec fn proof_generation_unsupported() -> Seq<char> {
    "OpenVM proof generation is not implemented"@
}

/// The error message of a proof verification request.
pub open spec fn proof_verification_unsupported() -> Seq<char> {
    "OpenVM proof verification is not implemented"@
}

/// Host side of the zkVM integration.
pub struct ZkvmHost {}

impl ZkvmHost {
    /// Create a host instance; this always succeeds.
    pub fn new() -> (r: Result<Self, String>)
        ensures
            r is Ok,
    {
        Ok(ZkvmHost {})
    }

    /// Proof generation is not implemented for this backend: every call
    /// reports so, with the message in `proof_generation_unsupported`.
    pub fn generate_proof(&self, signatures: &[u8]) -> (r: Result<Vec<u8>, String>)
        ensures
            r matches Err(e) && e@ == proof_generation_unsupported(),
    {
        Err(String::from_str("OpenVM proof generation is not implemented"))
    }

    /// Proof verification is not implemented for this backend: every call
    /// reports so, with the message in `proof_verification_unsupported`.
    pub fn verify_proof(&self, proof: &[u8]) -> (r: Result<bool, String>)
        ensures
            r matches Err(e) && e@ == proof_verification_unsupported(),
    {
        Err(String::from_str("OpenVM proof verification is not implemented"))
    }
}

/// Peak resident memory of the children in bytes, from `getrusage`'s status
/// and its `ru_maxrss` reading: nothing when the call failed or the reading
/// is negative; else the reading itself when it is already in bytes (as on
/// macOS), or the reading in KiB times 1024, saturating (as on Linux).
pub fn children_maxrss_bytes(status: i32, ru_maxrss: i64, reading_in_bytes: bool) -> (r: Option<u64>)
    ensures
        r == (if status != 0 || ru_maxrss < 0 {
            None::<u64>
        } else if reading_in_bytes {
            Some(ru_maxrss as u64)
        } else if ru_maxrss * 1024 > u64::MAX {
            Some(u64::MAX)
        } else {
            Some((ru_maxrss * 1024) as u64)
        }),
{
    if status != 0 {
        return None;
    }
    let v = ru_maxrss;
    if v < 0 {
        return None;
    }
    let v = v as u64;
    if reading_in_bytes {
        return Some(v);
    }
    match v.checked_mul(1024) {
        Some(bytes) => Some(bytes),
        None => Some(u64::MAX),
    }
}

} // verus!
