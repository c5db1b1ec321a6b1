//! Estimates of the heap memory that values own.
//!
//! Every estimable type implements [`DynamicUsage`]: a point estimate of the heap
//! bytes a value owns, and a lower bound with an optional upper bound. Types that
//! never allocate implement the marker [`NoDynamicUsage`] and report zero.
//!
//! Results are counted in `usize` and saturate at `usize::MAX`.
use vstd::prelude::*;

pub mod btree;
pub mod channel;
pub mod collections;
pub mod non_empty;
pub mod sum;

verus! {

use crate::sum::{saturate, saturate_opt};

/// Heap memory accounting for a type.
///
/// `usage_spec(u)` holds of every exact (unsaturated) estimate `u` that the value's
/// observable allocation state (lengths, capacities) may give; `bounds_spec(lo, up)`
/// likewise of every bound pair. Where that state is a function of the value's
/// contents, exactly one estimate satisfies the predicate. Containers sum over their
/// own elements; an ordered map or set does so where its key type's order is
/// specified (see the `btree` module).
pub trait DynamicUsage {
    spec fn usage_spec(&self, usage: nat) -> bool;

    spec fn bounds_spec(&self, lower: nat, upper: Option<nat>) -> bool;

    /// A best estimate of the heap bytes this value owns.
    fn dynamic_usage(&self) -> (r: usize)
        ensures
            exists|u: nat| self.usage_spec(u) && r == saturate(u),
    ;

    /// A lower bound on the heap bytes this value owns, and an upper bound where
    /// the type's allocation strategy gives one (`None` means unbounded).
    fn dynamic_usage_bounds(&self) -> (r: (usize, Option<usize>))
        ensures
            exists|lo: nat, up: Option<nat>|
                self.bounds_spec(lo, up) && r.0 == saturate(lo) && r.1 == saturate_opt(up),
    ;
}

/// Marker for types that never own heap memory.
///
/// Implementing it for a type that allocates makes every estimate of that type
/// wrong: nothing detects the mistake at run time.
pub trait NoDynamicUsage {}

impl<T: NoDynamicUsage> DynamicUsage for T {
    open spec fn usage_spec(&self, usage: nat) -> bool {
        usage == 0
    }

    open spec fn bounds_spec(&self, lower: nat, upper: Option<nat>) -> bool {
        lower == 0 && upper == Some(0nat)
    }

    fn dynamic_usage(&self) -> (r: usize) {
        assert(self.usage_spec(0) && 0 == saturate(0));
        0
    }

    fn dynamic_usage_bounds(&self) -> (r: (usize, Option<usize>)) {
        assert(self.bounds_spec(0, Some(0nat)) && saturate_opt(Some(0nat)) == Some(0usize));
        (0, Some(0))
    }
}

/// A non-allocating value reports exactly zero, with bounds `(0, Some(0))`.
pub proof fn lemma_no_dynamic_usage<T: NoDynamicUsage>(v: T, usage: nat, lower: nat, upper: Option<
    nat,
>)
    ensures
        v.usage_spec(usage) <==> usage == 0,
        v.bounds_spec(lower, upper) <==> (lower == 0 && upper == Some(0nat)),
{
}

impl NoDynamicUsage for i8 {}
impl NoDynamicUsage for i16 {}
impl NoDynamicUsage for i32 {}
impl NoDynamicUsage for i64 {}
impl NoDynamicUsage for i128 {}
impl NoDynamicUsage for isize {}
impl NoDynamicUsage for u8 {}
impl NoDynamicUsage for u16 {}
impl NoDynamicUsage for u32 {}
impl NoDynamicUsage for u64 {}
impl NoDynamicUsage for u128 {}
impl NoDynamicUsage for usize {}
impl NoDynamicUsage for char {}
impl NoDynamicUsage for bool {}
impl NoDynamicUsage for () {}
impl<'a> NoDynamicUsage for &'a str {}

} // verus!
