//! Estimates for `Option`, tuples, slices, arrays, `String`, and the sequence
//! collections of std.
//!
//! A sequence collection owns a buffer of `reserved slots * size_of::<T>()` bytes,
//! plus whatever its elements own in turn. The reserved slot count is the
//! allocator's choice: `vec_usage` and `vec_deque_usage` give the estimate for the
//! capacity read, and the trait contracts speak of some slot count no smaller than
//! the length.
//!
//! `LinkedList` and `BinaryHeap` have no estimate here: both carry an allocator type
//! parameter, and naming one needs an unstable language feature.
use vstd::prelude::*;

verus! {

use std::collections::VecDeque;
use crate::DynamicUsage;
use crate::sum::{
    add_opt, add_opts, items_bounds_spec, items_usage, items_usage_bounds, items_usage_spec,
    bounds_with_base, lemma_saturate_add_both, saturate, saturate_opt, saturating_product,
    slots_bytes, with_base, usages_of, bounds_of, sum, sum_opt, lemma_saturate_add_opt,
};

/// Relies on `Vec::capacity`: the number of slots reserved, never below the length.
#[verifier::external_body]
pub(crate) fn vec_capacity<T>(v: &Vec<T>) -> (r: usize)
    ensures
        r >= v@.len(),
{
    v.capacity()
}

/// Relies on `VecDeque::capacity`: the number of slots reserved, never below the
/// length.
#[verifier::external_body]
fn vec_deque_capacity<T>(v: &VecDeque<T>) -> (r: usize)
    ensures
        r >= v@.len(),
{
    v.capacity()
}

/// Relies on `String::capacity`: the bytes reserved, never below the length in bytes,
/// hence never below the number of characters.
#[verifier::external_body]
fn string_capacity(s: &String) -> (r: usize)
    ensures
        r >= s@.len(),
{
    s.capacity()
}

impl<T: DynamicUsage> DynamicUsage for Option<T> {
    open spec fn usage_spec(&self, usage: nat) -> bool {
        match self {
            Some(v) => v.usage_spec(usage),
            None => usage == 0,
        }
    }

    open spec fn bounds_spec(&self, lower: nat, upper: Option<nat>) -> bool {
        match self {
            Some(v) => v.bounds_spec(lower, upper),
            None => lower == 0 && upper == Some(0nat),
        }
    }

    fn dynamic_usage(&self) -> (r: usize) {
        match self {
            Some(v) => v.dynamic_usage(),
            None => {
                assert(self.usage_spec(0) && 0 == saturate(0));
                0
            },
        }
    }

    fn dynamic_usage_bounds(&self) -> (r: (usize, Option<usize>)) {
        match self {
            Some(v) => {
                let r = v.dynamic_usage_bounds();
                proof {
                    let (lo, up) = choose|lo: nat, up: Option<nat>|
                        v.bounds_spec(lo, up) && r.0 == saturate(lo) && r.1 == saturate_opt(up);
                    assert(self.bounds_spec(lo, up));
                }
                r
            },
            None => {
                assert(self.bounds_spec(0, Some(0nat)) && saturate_opt(Some(0nat)) == Some(0usize));
                (0, Some(0))
            },
        }
    }
}

/// An absent value owns nothing; a present one reports exactly what it contains.
pub proof fn lemma_option_forwards<T: DynamicUsage>(o: Option<T>, usage: nat)
    ensures
        o is None ==> (o.usage_spec(usage) <==> usage == 0),
        o matches Some(v) ==> (o.usage_spec(usage) <==> v.usage_spec(usage)),
{
}

/// A vector's estimate is its reserved slots times the element size (`slots_bytes`) plus the sum of
/// its elements' estimates, for some number of reserved slots no smaller than its
/// length.
pub proof fn lemma_vec_usage<T: DynamicUsage>(v: Vec<T>, usage: nat)
    requires
        v.usage_spec(usage),
    ensures
        exists|slots: nat, us: Seq<nat>|
            #![trigger usages_of(v@, us), slots_bytes::<T>(slots)]
            slots >= v@.len() && usages_of(v@, us) && usage == slots_bytes::<T>(slots) + sum(us),
{
    let (slots, items) = choose|slots: nat, items: nat|
        slots >= v@.len() && items_usage_spec(v@, items) && usage == slots_bytes::<T>(slots)
            + items;
    let us = choose|us: Seq<nat>| usages_of(v@, us) && items == sum(us);
    assert(slots >= v@.len() && usages_of(v@, us) && usage == slots_bytes::<T>(slots) + sum(us));
}

impl<'a, T: DynamicUsage> DynamicUsage for &'a [T] {
    open spec fn usage_spec(&self, usage: nat) -> bool {
        items_usage_spec(self@, usage)
    }

    open spec fn bounds_spec(&self, lower: nat, upper: Option<nat>) -> bool {
        items_bounds_spec(self@, lower, upper)
    }

    fn dynamic_usage(&self) -> (r: usize) {
        items_usage(*self)
    }

    fn dynamic_usage_bounds(&self) -> (r: (usize, Option<usize>)) {
        let r = items_usage_bounds(*self);
        proof {
            let (lo, up) = choose|lo: nat, up: Option<nat>|
                items_bounds_spec(self@, lo, up) && r.0 == saturate(lo) && r.1 == saturate_opt(up);
            assert(self.bounds_spec(lo, up));
        }
        r
    }
}

impl<T: DynamicUsage, const N: usize> DynamicUsage for [T; N] {
    open spec fn usage_spec(&self, usage: nat) -> bool {
        items_usage_spec(self@, usage)
    }

    open spec fn bounds_spec(&self, lower: nat, upper: Option<nat>) -> bool {
        items_bounds_spec(self@, lower, upper)
    }

    fn dynamic_usage(&self) -> (r: usize) {
        items_usage(self.as_slice())
    }

    fn dynamic_usage_bounds(&self) -> (r: (usize, Option<usize>)) {
        let r = items_usage_bounds(self.as_slice());
        proof {
            let (lo, up) = choose|lo: nat, up: Option<nat>|
                items_bounds_spec(self@, lo, up) && r.0 == saturate(lo) && r.1 == saturate_opt(up);
            assert(self.bounds_spec(lo, up));
        }
        r
    }
}

impl DynamicUsage for String {
    open spec fn usage_spec(&self, usage: nat) -> bool {
        usage >= self@.len()
    }

    /// The buffer is the whole allocation: both bounds are its capacity.
    open spec fn bounds_spec(&self, lower: nat, upper: Option<nat>) -> bool {
        lower >= self@.len() && upper == Some(lower)
    }

    fn dynamic_usage(&self) -> (r: usize) {
        let c = string_capacity(self);
        assert(self.usage_spec(c as nat) && c == saturate(c as nat));
        c
    }

    fn dynamic_usage_bounds(&self) -> (r: (usize, Option<usize>)) {
        let c = string_capacity(self);
        assert(self.bounds_spec(c as nat, Some(c as nat)) && c == saturate(c as nat));
        (c, Some(c))
    }
}

/// The estimate of a vector with `capacity` reserved slots holding `items`: the
/// buffer of `capacity * size_of::<T>()` bytes plus what the items own.
pub fn vec_usage<T: DynamicUsage>(capacity: usize, items: &[T]) -> (r: usize)
    ensures
        exists|u: nat|
            items_usage_spec(items@, u) && r == saturate(slots_bytes::<T>(capacity as nat) + u),
{
    let base = saturating_product(capacity, core::mem::size_of::<T>());
    let total = items_usage(items);
    proof {
        let w = choose|u: nat| items_usage_spec(items@, u) && total == saturate(u);
        lemma_saturate_add_both(slots_bytes::<T>(capacity as nat), w);
    }
    with_base(base, total)
}

/// The bound pair of a vector with `capacity` reserved slots holding `items`: the
/// buffer's bytes plus the items' summed bounds.
pub fn vec_usage_bounds<T: DynamicUsage>(capacity: usize, items: &[T]) -> (r: (
    usize,
    Option<usize>,
))
    ensures
        exists|lo: nat, up: Option<nat>|
            items_bounds_spec(items@, lo, up) && r.0 == saturate(
                slots_bytes::<T>(capacity as nat) + lo,
            ) && r.1 == saturate_opt(add_opt(slots_bytes::<T>(capacity as nat), up)),
{
    let base = saturating_product(capacity, core::mem::size_of::<T>());
    let totals = items_usage_bounds(items);
    proof {
        let (wl, wu) = choose|lo: nat, up: Option<nat>|
            items_bounds_spec(items@, lo, up) && totals.0 == saturate(lo) && totals.1
                == saturate_opt(up);
        let b = slots_bytes::<T>(capacity as nat);
        lemma_saturate_add_both(b, wl);
        if let Some(u) = wu {
            lemma_saturate_add_both(b, u);
        }
        assert(items_bounds_spec(items@, wl, wu));
    }
    bounds_with_base(base, totals)
}

impl<T: DynamicUsage> DynamicUsage for Vec<T> {
    /// Reserved slots times the element size, plus what the elements own.
    open spec fn usage_spec(&self, usage: nat) -> bool {
        exists|slots: nat, items: nat|
            #![trigger items_usage_spec(self@, items), slots_bytes::<T>(slots)]
            slots >= self@.len() && items_usage_spec(self@, items) && usage == slots_bytes::<T>(
                slots,
            ) + items
    }

    open spec fn bounds_spec(&self, lower: nat, upper: Option<nat>) -> bool {
        exists|slots: nat, lo: nat, up: Option<nat>|
            #![trigger items_bounds_spec(self@, lo, up), slots_bytes::<T>(slots)]
            slots >= self@.len() && items_bounds_spec(self@, lo, up) && lower == slots_bytes::<T>(
                slots,
            ) + lo && upper == add_opt(slots_bytes::<T>(slots), up)
    }

    fn dynamic_usage(&self) -> (r: usize) {
        let slots = vec_capacity(self);
        let r = vec_usage(slots, self.as_slice());
        proof {
            let w = choose|u: nat| items_usage_spec(self@, u) && r == saturate(
                slots_bytes::<T>(slots as nat) + u,
            );
            assert(self.usage_spec(slots_bytes::<T>(slots as nat) + w));
        }
        r
    }

    fn dynamic_usage_bounds(&self) -> (r: (usize, Option<usize>)) {
        let slots = vec_capacity(self);
        let r = vec_usage_bounds(slots, self.as_slice());
        proof {
            let b = slots_bytes::<T>(slots as nat);
            let (wl, wu) = choose|lo: nat, up: Option<nat>|
                items_bounds_spec(self@, lo, up) && r.0 == saturate(b + lo) && r.1 == saturate_opt(
                    add_opt(b, up),
                );
            assert(self.bounds_spec(b + wl, add_opt(b, wu)));
        }
        r
    }
}

/// The summed estimates of the elements of a deque.
fn deque_items_usage<T: DynamicUsage>(items: &VecDeque<T>) -> (r: usize)
    ensures
        exists|u: nat| items_usage_spec(items@, u) && r == saturate(u),
{
    let mut total: usize = 0;
    let ghost mut us: Seq<nat> = Seq::empty();
    let mut i: usize = 0;
    while i < items.len()
        invariant
            i <= items@.len(),
            usages_of(items@.take(i as int), us),
            total == saturate(sum(us)),
        decreases items@.len() - i,
    {
        let u = items[i].dynamic_usage();
        let ghost w = choose|w: nat| items@[i as int].usage_spec(w) && u == saturate(w);
        proof {
            lemma_saturate_add_both(sum(us), w);
            assert(us.push(w).drop_last() =~= us);
            assert(items@.take(i + 1) =~= items@.take(i as int).push(items@[i as int]));
        }
        total = total.saturating_add(u);
        proof {
            us = us.push(w);
        }
        i = i + 1;
    }
    assert(items@.take(i as int) =~= items@);
    total
}

/// The summed bound pairs of the elements of a deque.
fn deque_items_usage_bounds<T: DynamicUsage>(items: &VecDeque<T>) -> (r: (usize, Option<usize>))
    ensures
        exists|lo: nat, up: Option<nat>|
            items_bounds_spec(items@, lo, up) && r.0 == saturate(lo) && r.1 == saturate_opt(up),
{
    let mut lower: usize = 0;
    let mut upper: Option<usize> = Some(0);
    let ghost mut los: Seq<nat> = Seq::empty();
    let ghost mut ups: Seq<Option<nat>> = Seq::empty();
    let mut i: usize = 0;
    while i < items.len()
        invariant
            i <= items@.len(),
            bounds_of(items@.take(i as int), los, ups),
            lower == saturate(sum(los)),
            upper == saturate_opt(sum_opt(ups)),
        decreases items@.len() - i,
    {
        let (lo, up) = items[i].dynamic_usage_bounds();
        let ghost (wl, wu) = choose|wl: nat, wu: Option<nat>|
            items@[i as int].bounds_spec(wl, wu) && lo == saturate(wl) && up == saturate_opt(wu);
        proof {
            lemma_saturate_add_both(sum(los), wl);
            lemma_saturate_add_opt(sum_opt(ups), wu);
            assert(los.push(wl).drop_last() =~= los);
            assert(ups.push(wu).drop_last() =~= ups);
            assert(items@.take(i + 1) =~= items@.take(i as int).push(items@[i as int]));
        }
        lower = lower.saturating_add(lo);
        upper = match (upper, up) {
            (Some(a), Some(b)) => Some(a.saturating_add(b)),
            _ => None,
        };
        proof {
            los = los.push(wl);
            ups = ups.push(wu);
        }
        i = i + 1;
    }
    assert(items@.take(i as int) =~= items@);
    assert(items_bounds_spec(items@, sum(los), sum_opt(ups)));
    (lower, upper)
}

/// The slots of a deque's buffer, times the element size: its capacity plus one,
/// since the ring buffer keeps a slot free.
fn deque_base<T>(slots: usize) -> (r: usize)
    ensures
        r == saturate(slots_bytes::<T>(slots as nat + 1)),
{
    let size = core::mem::size_of::<T>();
    if size == 0 {
        assert(slots_bytes::<T>(slots as nat + 1) == 0);
        0
    } else if slots == usize::MAX {
        assert(slots_bytes::<T>(slots as nat + 1) > usize::MAX) by (nonlinear_arith)
            requires
                slots == usize::MAX,
                size >= 1,
                size == vstd::layout::size_of::<T>(),
        ;
        usize::MAX
    } else {
        saturating_product(slots + 1, size)
    }
}

/// The estimate of a deque with `capacity` reserved slots holding `items`: a buffer
/// of `capacity + 1` slots, since the ring buffer keeps one free, plus what the
/// items own.
pub fn vec_deque_usage<T: DynamicUsage>(capacity: usize, items: &VecDeque<T>) -> (r: usize)
    ensures
        exists|u: nat|
            items_usage_spec(items@, u) && r == saturate(slots_bytes::<T>(capacity as nat + 1) + u),
{
    let base = deque_base::<T>(capacity);
    let total = deque_items_usage(items);
    proof {
        let w = choose|u: nat| items_usage_spec(items@, u) && total == saturate(u);
        lemma_saturate_add_both(slots_bytes::<T>(capacity as nat + 1), w);
    }
    with_base(base, total)
}

/// The bound pair of a deque with `capacity` reserved slots holding `items`.
pub fn vec_deque_usage_bounds<T: DynamicUsage>(capacity: usize, items: &VecDeque<T>) -> (r: (
    usize,
    Option<usize>,
))
    ensures
        exists|lo: nat, up: Option<nat>|
            items_bounds_spec(items@, lo, up) && r.0 == saturate(
                slots_bytes::<T>(capacity as nat + 1) + lo,
            ) && r.1 == saturate_opt(add_opt(slots_bytes::<T>(capacity as nat + 1), up)),
{
    let base = deque_base::<T>(capacity);
    let totals = deque_items_usage_bounds(items);
    proof {
        let (wl, wu) = choose|lo: nat, up: Option<nat>|
            items_bounds_spec(items@, lo, up) && totals.0 == saturate(lo) && totals.1
                == saturate_opt(up);
        let b = slots_bytes::<T>(capacity as nat + 1);
        lemma_saturate_add_both(b, wl);
        if let Some(u) = wu {
            lemma_saturate_add_both(b, u);
        }
        assert(items_bounds_spec(items@, wl, wu));
    }
    bounds_with_base(base, totals)
}

impl<T: DynamicUsage> DynamicUsage for VecDeque<T> {
    /// Reserved slots, one more than the capacity, times the element size, plus what
    /// the elements own.
    open spec fn usage_spec(&self, usage: nat) -> bool {
        exists|capacity: nat, items: nat|
            #![trigger items_usage_spec(self@, items), slots_bytes::<T>(capacity + 1)]
            capacity >= self@.len() && items_usage_spec(self@, items) && usage == slots_bytes::<T>(
                capacity + 1,
            ) + items
    }

    open spec fn bounds_spec(&self, lower: nat, upper: Option<nat>) -> bool {
        exists|capacity: nat, lo: nat, up: Option<nat>|
            #![trigger items_bounds_spec(self@, lo, up), slots_bytes::<T>(capacity + 1)]
            capacity >= self@.len() && items_bounds_spec(self@, lo, up) && lower == slots_bytes::<
                T,
            >(capacity + 1) + lo && upper == add_opt(slots_bytes::<T>(capacity + 1), up)
    }

    fn dynamic_usage(&self) -> (r: usize) {
        let capacity = vec_deque_capacity(self);
        let r = vec_deque_usage(capacity, self);
        proof {
            let b = slots_bytes::<T>(capacity as nat + 1);
            let w = choose|u: nat| items_usage_spec(self@, u) && r == saturate(b + u);
            assert(self.usage_spec(b + w));
        }
        r
    }

    fn dynamic_usage_bounds(&self) -> (r: (usize, Option<usize>)) {
        let capacity = vec_deque_capacity(self);
        let r = vec_deque_usage_bounds(capacity, self);
        proof {
            let b = slots_bytes::<T>(capacity as nat + 1);
            let (wl, wu) = choose|lo: nat, up: Option<nat>|
                items_bounds_spec(self@, lo, up) && r.0 == saturate(b + lo) && r.1 == saturate_opt(
                    add_opt(b, up),
                );
            assert(self.bounds_spec(b + wl, add_opt(b, wu)));
        }
        r
    }
}

/// A pair owns what its two components own.
impl<A: DynamicUsage, B: DynamicUsage> DynamicUsage for (A, B) {
    open spec fn usage_spec(&self, usage: nat) -> bool {
        exists|a: nat, b: nat|
            #![trigger self.0.usage_spec(a), self.1.usage_spec(b)]
            self.0.usage_spec(a) && self.1.usage_spec(b) && usage == a + b
    }

    open spec fn bounds_spec(&self, lower: nat, upper: Option<nat>) -> bool {
        exists|la: nat, ua: Option<nat>, lb: nat, ub: Option<nat>|
            #![trigger self.0.bounds_spec(la, ua), self.1.bounds_spec(lb, ub)]
            self.0.bounds_spec(la, ua) && self.1.bounds_spec(lb, ub) && lower == la + lb && upper
                == add_opts(ua, ub)
    }

    fn dynamic_usage(&self) -> (r: usize) {
        let a = self.0.dynamic_usage();
        let b = self.1.dynamic_usage();
        proof {
            let wa = choose|u: nat| self.0.usage_spec(u) && a == saturate(u);
            let wb = choose|u: nat| self.1.usage_spec(u) && b == saturate(u);
            lemma_saturate_add_both(wa, wb);
            assert(self.usage_spec(wa + wb));
        }
        a.saturating_add(b)
    }

    fn dynamic_usage_bounds(&self) -> (r: (usize, Option<usize>)) {
        let (la, ua) = self.0.dynamic_usage_bounds();
        let (lb, ub) = self.1.dynamic_usage_bounds();
        proof {
            let (wla, wua) = choose|lo: nat, up: Option<nat>|
                self.0.bounds_spec(lo, up) && la == saturate(lo) && ua == saturate_opt(up);
            let (wlb, wub) = choose|lo: nat, up: Option<nat>|
                self.1.bounds_spec(lo, up) && lb == saturate(lo) && ub == saturate_opt(up);
            lemma_saturate_add_both(wla, wlb);
            lemma_saturate_add_opt(wua, wub);
            assert(self.bounds_spec(wla + wlb, add_opts(wua, wub)));
        }
        let upper = match (ua, ub) {
            (Some(x), Some(y)) => Some(x.saturating_add(y)),
            _ => None,
        };
        (la.saturating_add(lb), upper)
    }
}

/// A triple owns what its three components own.
impl<A: DynamicUsage, B: DynamicUsage, C: DynamicUsage> DynamicUsage for (A, B, C) {
    open spec fn usage_spec(&self, usage: nat) -> bool {
        exists|a: nat, b: nat, c: nat|
            #![trigger self.0.usage_spec(a), self.1.usage_spec(b), self.2.usage_spec(c)]
            self.0.usage_spec(a) && self.1.usage_spec(b) && self.2.usage_spec(c) && usage == a + b
                + c
    }

    open spec fn bounds_spec(&self, lower: nat, upper: Option<nat>) -> bool {
        exists|la: nat, ua: Option<nat>, lb: nat, ub: Option<nat>, lc: nat, uc: Option<nat>|
            #![trigger self.0.bounds_spec(la, ua), self.1.bounds_spec(lb, ub), self.2.bounds_spec(lc, uc)]
            self.0.bounds_spec(la, ua) && self.1.bounds_spec(lb, ub) && self.2.bounds_spec(lc, uc)
                && lower == la + lb + lc && upper == add_opts(add_opts(ua, ub), uc)
    }

    fn dynamic_usage(&self) -> (r: usize) {
        let a = self.0.dynamic_usage();
        let b = self.1.dynamic_usage();
        let c = self.2.dynamic_usage();
        proof {
            let wa = choose|u: nat| self.0.usage_spec(u) && a == saturate(u);
            let wb = choose|u: nat| self.1.usage_spec(u) && b == saturate(u);
            let wc = choose|u: nat| self.2.usage_spec(u) && c == saturate(u);
            lemma_saturate_add_both(wa, wb);
            lemma_saturate_add_both(wa + wb, wc);
            assert(self.usage_spec(wa + wb + wc));
        }
        a.saturating_add(b).saturating_add(c)
    }

    fn dynamic_usage_bounds(&self) -> (r: (usize, Option<usize>)) {
        let (la, ua) = self.0.dynamic_usage_bounds();
        let (lb, ub) = self.1.dynamic_usage_bounds();
        let (lc, uc) = self.2.dynamic_usage_bounds();
        proof {
            let (wla, wua) = choose|lo: nat, up: Option<nat>|
                self.0.bounds_spec(lo, up) && la == saturate(lo) && ua == saturate_opt(up);
            let (wlb, wub) = choose|lo: nat, up: Option<nat>|
                self.1.bounds_spec(lo, up) && lb == saturate(lo) && ub == saturate_opt(up);
            let (wlc, wuc) = choose|lo: nat, up: Option<nat>|
                self.2.bounds_spec(lo, up) && lc == saturate(lo) && uc == saturate_opt(up);
            lemma_saturate_add_both(wla, wlb);
            lemma_saturate_add_both(wla + wlb, wlc);
            lemma_saturate_add_opt(wua, wub);
            lemma_saturate_add_opt(add_opts(wua, wub), wuc);
            assert(self.bounds_spec(wla + wlb + wlc, add_opts(add_opts(wua, wub), wuc)));
        }
        let ab = match (ua, ub) {
            (Some(x), Some(y)) => Some(x.saturating_add(y)),
            _ => None,
        };
        let upper = match (ab, uc) {
            (Some(x), Some(y)) => Some(x.saturating_add(y)),
            _ => None,
        };
        (la.saturating_add(lb).saturating_add(lc), upper)
    }
}

} // verus!
