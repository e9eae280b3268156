use vstd::prelude::*;

verus! {

/// A ceiling on the number of bytes one decode session may consume.
///
/// Lengths on the wire come from the input itself, so a bound keeps a hostile length prefix
/// from forcing huge reads or allocations: every charge is checked before bytes are touched.
#[derive(Clone, Copy, Debug, Hash, PartialEq, Eq, Structural, PartialOrd, Ord)]
pub enum SizeLimit {
    Infinite,
    Bounded(u64),
}

/// Whether a running total of `total` bytes is within `limit`.
pub open spec fn within_limit(limit: SizeLimit, total: nat) -> bool {
    match limit {
        SizeLimit::Infinite => true,
        SizeLimit::Bounded(x) => total <= x,
    }
}

/// The running total after `count` more bytes, saturated at the largest `u64`.
pub open spec fn charged_total(read: nat, count: nat) -> nat {
    if read + count > u64::MAX {
        u64::MAX as nat
    } else {
        read + count
    }
}

} // verus!
