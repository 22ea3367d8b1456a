//! Shortening a SHA-256 digest to the width of a tiny field: no real hash function has an
//! output that small.
use vstd::prelude::*;

verus! {

/// The first 24 bytes of a 32-byte digest, with all but the last `bytes` of them zeroed.
pub fn truncate_digest(full: &[u8; 32], bytes: usize) -> (r: [u8; 24])
    requires
        bytes <= 24,
    ensures
        forall|i: int|
            0 <= i < 24 ==> #[trigger] r@[i] == if i < 24 - bytes {
                0u8
            } else {
                full@[i]
            },
{
    let mut out = [0u8; 24];
    let mut i: usize = 24 - bytes;
    while i < 24
        invariant
            24 - bytes <= i <= 24,
            out@.len() == 24,
            forall|j: int|
                0 <= j < 24 ==> #[trigger] out@[j] == if j < 24 - bytes || j >= i {
                    0u8
                } else {
                    full@[j]
                },
        decreases 24 - i,
    {
        out[i] = full[i];
        i += 1;
    }
    out
}

} // verus!
