//! Estimates for `nonempty::NonEmpty`: a head element stored in place and a tail
//! `Vec`, whose buffer is the whole allocation of the list itself.
use vstd::prelude::*;

verus! {

use nonempty::NonEmpty;
use crate::DynamicUsage;
use crate::collections::vec_capacity;
use crate::sum::{
    add_opt, add_opts, bounds_with_base, lemma_saturate_add_opt, items_bounds_spec, items_usage, items_usage_bounds,
    items_usage_spec, lemma_saturate_add_both, saturate, saturate_opt, saturating_product,
    slots_bytes, with_base,
};

/// `NonEmpty` with its public fields `head` and `tail` visible.
#[verifier::external_type_specification]
#[verifier::reject_recursive_types(T)]
pub struct ExNonEmpty<T>(NonEmpty<T>);

/// The estimate of a non-empty list whose tail has `tail_capacity` reserved slots:
/// the tail's buffer (the list's capacity less the head) plus what the head and the
/// tail's elements own.
pub fn non_empty_usage<T: DynamicUsage>(tail_capacity: usize, head: &T, tail: &[T]) -> (r: usize)
    ensures
        exists|h: nat, t: nat|
            head.usage_spec(h) && items_usage_spec(tail@, t) && r == saturate(
                slots_bytes::<T>(tail_capacity as nat) + h + t,
            ),
{
    let base = saturating_product(tail_capacity, core::mem::size_of::<T>());
    let h = head.dynamic_usage();
    let t = items_usage(tail);
    proof {
        let wh = choose|u: nat| head.usage_spec(u) && h == saturate(u);
        let wt = choose|u: nat| items_usage_spec(tail@, u) && t == saturate(u);
        let b = slots_bytes::<T>(tail_capacity as nat);
        lemma_saturate_add_both(wh, wt);
        lemma_saturate_add_both(b, wh + wt);
        assert(head.usage_spec(wh) && items_usage_spec(tail@, wt));
    }
    with_base(base, h.saturating_add(t))
}

/// The bound pair of a non-empty list whose tail has `tail_capacity` reserved slots.
pub fn non_empty_usage_bounds<T: DynamicUsage>(tail_capacity: usize, head: &T, tail: &[T]) -> (r: (
    usize,
    Option<usize>,
))
    ensures
        exists|hl: nat, hu: Option<nat>, tl: nat, tu: Option<nat>|
            head.bounds_spec(hl, hu) && items_bounds_spec(tail@, tl, tu) && r.0 == saturate(
                slots_bytes::<T>(tail_capacity as nat) + hl + tl,
            ) && r.1 == saturate_opt(add_opt(slots_bytes::<T>(tail_capacity as nat), add_opts(hu, tu))),
{
    let base = saturating_product(tail_capacity, core::mem::size_of::<T>());
    let (hl, hu) = head.dynamic_usage_bounds();
    let (tl, tu) = items_usage_bounds(tail);
    let upper = match (hu, tu) {
        (Some(a), Some(b)) => Some(a.saturating_add(b)),
        _ => None,
    };
    proof {
        let (whl, whu) = choose|lo: nat, up: Option<nat>|
            head.bounds_spec(lo, up) && hl == saturate(lo) && hu == saturate_opt(up);
        let (wtl, wtu) = choose|lo: nat, up: Option<nat>|
            items_bounds_spec(tail@, lo, up) && tl == saturate(lo) && tu == saturate_opt(up);
        let b = slots_bytes::<T>(tail_capacity as nat);
        lemma_saturate_add_both(whl, wtl);
        lemma_saturate_add_both(b, whl + wtl);
        lemma_saturate_add_opt(whu, wtu);
        if let Some(x) = add_opts(whu, wtu) {
            lemma_saturate_add_both(b, x);
        }
        assert(head.bounds_spec(whl, whu) && items_bounds_spec(tail@, wtl, wtu));
    }
    bounds_with_base(base, (hl.saturating_add(tl), upper))
}

impl<T: DynamicUsage> DynamicUsage for NonEmpty<T> {
    /// The tail's reserved slots (the list's capacity less the head) times the element
    /// size, plus what the head and the tail's elements own.
    open spec fn usage_spec(&self, usage: nat) -> bool {
        exists|slots: nat, h: nat, t: nat|
            #![trigger self.head.usage_spec(h), items_usage_spec(self.tail@, t), slots_bytes::<T>(slots)]
            slots >= self.tail@.len() && self.head.usage_spec(h) && items_usage_spec(self.tail@, t)
                && usage == slots_bytes::<T>(slots) + h + t
    }

    open spec fn bounds_spec(&self, lower: nat, upper: Option<nat>) -> bool {
        exists|slots: nat, hl: nat, hu: Option<nat>, tl: nat, tu: Option<nat>|
            #![trigger self.head.bounds_spec(hl, hu), items_bounds_spec(self.tail@, tl, tu), slots_bytes::<T>(slots)]
            slots >= self.tail@.len() && self.head.bounds_spec(hl, hu) && items_bounds_spec(
                self.tail@,
                tl,
                tu,
            ) && lower == slots_bytes::<T>(slots) + hl + tl && upper == add_opt(
                slots_bytes::<T>(slots),
                add_opts(hu, tu),
            )
    }

    fn dynamic_usage(&self) -> (r: usize) {
        let slots = vec_capacity(&self.tail);
        let r = non_empty_usage(slots, &self.head, self.tail.as_slice());
        proof {
            let b = slots_bytes::<T>(slots as nat);
            let (h, t) = choose|h: nat, t: nat|
                self.head.usage_spec(h) && items_usage_spec(self.tail@, t) && r == saturate(b + h + t);
            assert(self.usage_spec(b + h + t));
        }
        r
    }

    fn dynamic_usage_bounds(&self) -> (r: (usize, Option<usize>)) {
        let slots = vec_capacity(&self.tail);
        let r = non_empty_usage_bounds(slots, &self.head, self.tail.as_slice());
        proof {
            let b = slots_bytes::<T>(slots as nat);
            let (hl, hu, tl, tu) = choose|hl: nat, hu: Option<nat>, tl: nat, tu: Option<nat>|
                self.head.bounds_spec(hl, hu) && items_bounds_spec(self.tail@, tl, tu) && r.0
                    == saturate(b + hl + tl) && r.1 == saturate_opt(add_opt(b, add_opts(hu, tu)));
            assert(self.bounds_spec(b + hl + tl, add_opt(b, add_opts(hu, tu))));
        }
        r
    }
}

} // verus!
