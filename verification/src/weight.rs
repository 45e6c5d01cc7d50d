//! Weights charged for storage accesses.

use sp_weights::RuntimeDbWeight;
use vstd::prelude::*;

verus! {

/// Execution weight: reference time and proof size.
#[derive(Clone, Copy, Debug, PartialEq, Eq)]
pub struct Weight {
    pub ref_time: u64,
    pub proof_size: u64,
}

/// Cost of one storage read and of one storage write.
#[derive(Clone, Copy, Debug, PartialEq, Eq)]
pub struct DbWeight {
    pub read: u64,
    pub write: u64,
}

/// `x`, saturated to the `u64` range.
pub open spec fn saturate(x: int) -> u64 {
    if x > u64::MAX {
        u64::MAX
    } else if x < 0 {
        0
    } else {
        x as u64
    }
}

/// Weight of `r` reads and `w` writes: both costs multiplied out and added,
/// each step saturating, with no proof size.
pub open spec fn reads_writes_weight(db: DbWeight, r: u64, w: u64) -> Weight {
    Weight {
        ref_time: saturate(saturate(db.read * r) + saturate(db.write * w)),
        proof_size: 0,
    }
}

/// `RuntimeDbWeight::reads_writes` of sp-weights. The contract claims the
/// saturating sum of the read and write costs as reference time and a zero
/// proof size, as the function's source computes them.
#[verifier::external_body]
pub(crate) fn db_reads_writes(db: DbWeight, r: u64, w: u64) -> (res: Weight)
    ensures
        res == reads_writes_weight(db, r, w),
{
    let x = RuntimeDbWeight { read: db.read, write: db.write }.reads_writes(r, w);
    Weight { ref_time: x.ref_time(), proof_size: x.proof_size() }
}

} // verus!
