use vstd::prelude::*;

verus! {

/// Fixed-point denominator: a rate or weight `w` stands for `w / SCALE`.
pub const SCALE: u64 = 1_000_000;

} // verus!
