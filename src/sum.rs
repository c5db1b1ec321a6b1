//! Saturating byte counts and sums of per-element estimates.
use vstd::prelude::*;

verus! {

use crate::DynamicUsage;

/// A byte count as reported in a `usize`: values past `usize::MAX` saturate.
pub open spec fn saturate(x: nat) -> usize {
    if x > usize::MAX {
        usize::MAX
    } else {
        x as usize
    }
}

pub open spec fn saturate_opt(x: Option<nat>) -> Option<usize> {
    match x {
        Some(v) => Some(saturate(v)),
        None => None,
    }
}

pub open spec fn sum(s: Seq<nat>) -> nat
    decreases s.len(),
{
    if s.len() == 0 {
        0
    } else {
        sum(s.drop_last()) + s.last()
    }
}

/// The sum of optional upper bounds: unbounded as soon as one term is.
pub open spec fn sum_opt(s: Seq<Option<nat>>) -> Option<nat>
    decreases s.len(),
{
    if s.len() == 0 {
        Some(0nat)
    } else {
        match (sum_opt(s.drop_last()), s.last()) {
            (Some(a), Some(b)) => Some(a + b),
            _ => None,
        }
    }
}

/// The sum of two optional upper bounds: unbounded if either is.
pub open spec fn add_opts(a: Option<nat>, b: Option<nat>) -> Option<nat> {
    match (a, b) {
        (Some(x), Some(y)) => Some(x + y),
        _ => None,
    }
}

pub open spec fn add_opt(base: nat, x: Option<nat>) -> Option<nat> {
    match x {
        Some(v) => Some(base + v),
        None => None,
    }
}

pub proof fn lemma_saturate_add(a: nat, b: nat)
    ensures
        saturate(a + saturate(b) as nat) == saturate(a + b),
{
}

pub proof fn lemma_saturate_add_both(a: nat, b: nat)
    ensures
        saturate(saturate(a) as nat + saturate(b) as nat) == saturate(a + b),
{
    lemma_saturate_add(saturate(a) as nat, b);
    lemma_saturate_add(b, a);
}

pub proof fn lemma_saturate_add_opt(a: Option<nat>, b: Option<nat>)
    ensures
        saturate_opt(
            match (a, b) {
                (Some(x), Some(y)) => Some(x + y),
                _ => None,
            },
        ) == match (saturate_opt(a), saturate_opt(b)) {
            (Some(x), Some(y)) => Some(saturate(x as nat + y as nat)),
            _ => None,
        },
{
    if let (Some(x), Some(y)) = (a, b) {
        lemma_saturate_add_both(x, y);
    }
}

/// The bytes of a buffer of `slots` slots of `T`.
pub open spec fn slots_bytes<T>(slots: nat) -> nat {
    slots * vstd::layout::size_of::<T>()
}

/// `a * b`, saturating at `usize::MAX`.
pub fn saturating_product(a: usize, b: usize) -> (r: usize)
    ensures
        r == saturate(a as nat * b as nat),
{
    match a.checked_mul(b) {
        Some(p) => p,
        None => usize::MAX,
    }
}

/// Adds a base allocation to summed element estimates.
pub fn with_base(base: usize, items: usize) -> (r: usize)
    ensures
        r == saturate(base as nat + items as nat),
{
    base.saturating_add(items)
}

/// Adds a base allocation to summed element bound pairs.
pub fn bounds_with_base(base: usize, items: (usize, Option<usize>)) -> (r: (usize, Option<usize>))
    ensures
        r.0 == saturate(base as nat + items.0 as nat),
        r.1 == match items.1 {
            Some(u) => Some(saturate(base as nat + u as nat)),
            None => None,
        },
{
    let upper = match items.1 {
        Some(u) => Some(base.saturating_add(u)),
        None => None,
    };
    (base.saturating_add(items.0), upper)
}

/// `us` gives an admissible estimate of each item.
pub open spec fn usages_of<T: DynamicUsage>(items: Seq<T>, us: Seq<nat>) -> bool {
    &&& us.len() == items.len()
    &&& forall|i: int| 0 <= i < items.len() ==> #[trigger] items[i].usage_spec(us[i])
}

/// `los` and `ups` give an admissible bound pair of each item.
pub open spec fn bounds_of<T: DynamicUsage>(
    items: Seq<T>,
    los: Seq<nat>,
    ups: Seq<Option<nat>>,
) -> bool {
    &&& los.len() == items.len()
    &&& ups.len() == items.len()
    &&& forall|i: int| 0 <= i < items.len() ==> #[trigger] items[i].bounds_spec(los[i], ups[i])
}

/// Estimates of items, summed.
pub open spec fn items_usage_spec<T: DynamicUsage>(items: Seq<T>, usage: nat) -> bool {
    exists|us: Seq<nat>| usages_of(items, us) && usage == sum(us)
}

/// Bound pairs of items, summed; unbounded above as soon as one item is.
pub open spec fn items_bounds_spec<T: DynamicUsage>(
    items: Seq<T>,
    lower: nat,
    upper: Option<nat>,
) -> bool {
    exists|los: Seq<nat>, ups: Seq<Option<nat>>|
        bounds_of(items, los, ups) && lower == sum(los) && upper == sum_opt(ups)
}

proof fn lemma_sum_zero(us: Seq<nat>)
    requires
        forall|i: int| 0 <= i < us.len() ==> us[i] == 0,
    ensures
        sum(us) == 0,
    decreases us.len(),
{
    if us.len() > 0 {
        lemma_sum_zero(us.drop_last());
    }
}

/// Items that never allocate sum to zero.
pub proof fn lemma_items_usage_zero<T: crate::NoDynamicUsage>(items: Seq<T>, usage: nat)
    requires
        items_usage_spec(items, usage),
    ensures
        usage == 0,
{
    let us = choose|us: Seq<nat>| usages_of(items, us) && usage == sum(us);
    assert forall|i: int| 0 <= i < us.len() implies us[i] == 0 by {
        assert(items[i].usage_spec(us[i]));
    }
    lemma_sum_zero(us);
}

proof fn lemma_sum_opt_zero(ups: Seq<Option<nat>>)
    requires
        forall|i: int| 0 <= i < ups.len() ==> ups[i] == Some(0nat),
    ensures
        sum_opt(ups) == Some(0nat),
    decreases ups.len(),
{
    if ups.len() > 0 {
        lemma_sum_opt_zero(ups.drop_last());
    }
}

/// Items that never allocate have bounds `(0, Some(0))` in sum.
pub proof fn lemma_items_bounds_zero<T: crate::NoDynamicUsage>(
    items: Seq<T>,
    lower: nat,
    upper: Option<nat>,
)
    requires
        items_bounds_spec(items, lower, upper),
    ensures
        lower == 0,
        upper == Some(0nat),
{
    let (los, ups) = choose|los: Seq<nat>, ups: Seq<Option<nat>>|
        bounds_of(items, los, ups) && lower == sum(los) && upper == sum_opt(ups);
    assert forall|i: int| 0 <= i < los.len() implies los[i] == 0 && ups[i] == Some(0nat) by {
        assert(items[i].bounds_spec(los[i], ups[i]));
    }
    lemma_sum_zero(los);
    lemma_sum_opt_zero(ups);
}

/// Each item has at most one admissible estimate.
pub open spec fn usage_unique<T: DynamicUsage>(items: Seq<T>) -> bool {
    forall|i: int, a: nat, b: nat|
        0 <= i < items.len() && #[trigger] items[i].usage_spec(a) && #[trigger] items[i].usage_spec(b)
            ==> a == b
}

/// Each item has at most one admissible bound pair.
pub open spec fn bounds_unique<T: DynamicUsage>(items: Seq<T>) -> bool {
    forall|i: int, la: nat, ua: Option<nat>, lb: nat, ub: Option<nat>|
        0 <= i < items.len() && #[trigger] items[i].bounds_spec(la, ua) && #[trigger] items[
            i
        ].bounds_spec(lb, ub) ==> la == lb && ua == ub
}

/// Where each item's estimate is unique, so is their sum.
pub proof fn lemma_items_usage_unique<T: DynamicUsage>(items: Seq<T>, a: nat, b: nat)
    requires
        usage_unique(items),
        items_usage_spec(items, a),
        items_usage_spec(items, b),
    ensures
        a == b,
{
    let ua = choose|us: Seq<nat>| usages_of(items, us) && a == sum(us);
    let ub = choose|us: Seq<nat>| usages_of(items, us) && b == sum(us);
    assert forall|i: int| 0 <= i < ua.len() implies ua[i] == ub[i] by {
        assert(items[i].usage_spec(ua[i]) && items[i].usage_spec(ub[i]));
    }
    assert(ua =~= ub);
}

/// Where each item's bound pair is unique, so is their sum.
pub proof fn lemma_items_bounds_unique<T: DynamicUsage>(
    items: Seq<T>,
    la: nat,
    ua: Option<nat>,
    lb: nat,
    ub: Option<nat>,
)
    requires
        bounds_unique(items),
        items_bounds_spec(items, la, ua),
        items_bounds_spec(items, lb, ub),
    ensures
        la == lb,
        ua == ub,
{
    let (los1, ups1) = choose|los: Seq<nat>, ups: Seq<Option<nat>>|
        bounds_of(items, los, ups) && la == sum(los) && ua == sum_opt(ups);
    let (los2, ups2) = choose|los: Seq<nat>, ups: Seq<Option<nat>>|
        bounds_of(items, los, ups) && lb == sum(los) && ub == sum_opt(ups);
    assert forall|i: int| 0 <= i < los1.len() implies los1[i] == los2[i] && ups1[i] == ups2[i] by {
        assert(items[i].bounds_spec(los1[i], ups1[i]) && items[i].bounds_spec(los2[i], ups2[i]));
    }
    assert(los1 =~= los2);
    assert(ups1 =~= ups2);
}

/// Each item's estimate lies within each of its bound pairs.
pub open spec fn within_bounds<T: DynamicUsage>(items: Seq<T>) -> bool {
    forall|i: int, u: nat, lo: nat, up: Option<nat>|
        0 <= i < items.len() && #[trigger] items[i].usage_spec(u) && #[trigger] items[i].bounds_spec(
            lo,
            up,
        ) ==> lo <= u && (up matches Some(x) ==> u <= x)
}

proof fn lemma_sums_within(us: Seq<nat>, los: Seq<nat>, ups: Seq<Option<nat>>)
    requires
        us.len() == los.len() == ups.len(),
        forall|i: int|
            0 <= i < us.len() ==> los[i] <= us[i] && (#[trigger] ups[i] matches Some(x) ==> us[i] <= x),
    ensures
        sum(los) <= sum(us),
        sum_opt(ups) matches Some(x) ==> sum(us) <= x,
    decreases us.len(),
{
    if us.len() > 0 {
        lemma_sums_within(us.drop_last(), los.drop_last(), ups.drop_last());
    }
}

/// Summed estimates lie within summed bounds where each item's does.
pub proof fn lemma_items_within_bounds<T: DynamicUsage>(
    items: Seq<T>,
    u: nat,
    lo: nat,
    up: Option<nat>,
)
    requires
        within_bounds(items),
        items_usage_spec(items, u),
        items_bounds_spec(items, lo, up),
    ensures
        lo <= u,
        up matches Some(x) ==> u <= x,
{
    let us = choose|us: Seq<nat>| usages_of(items, us) && u == sum(us);
    let (los, ups) = choose|los: Seq<nat>, ups: Seq<Option<nat>>|
        bounds_of(items, los, ups) && lo == sum(los) && up == sum_opt(ups);
    assert forall|i: int| 0 <= i < us.len() implies los[i] <= us[i] && (#[trigger] ups[i] matches Some(
        x,
    ) ==> us[i] <= x) by {
        assert(items[i].usage_spec(us[i]) && items[i].bounds_spec(los[i], ups[i]));
    }
    lemma_sums_within(us, los, ups);
}

/// The summed estimates of the items of a slice.
pub fn items_usage<T: DynamicUsage>(items: &[T]) -> (r: usize)
    ensures
        exists|u: nat| items_usage_spec(items@, u) && r == saturate(u),
{
    let mut total: usize = 0;
    let ghost mut us: Seq<nat> = Seq::empty();
    let mut i: usize = 0;
    while i < items.len()
        invariant
            i <= items@.len(),
            usages_of(items@.take(i as int), us),
            total == saturate(sum(us)),
        decreases items@.len() - i,
    {
        let u = items[i].dynamic_usage();
        let ghost w = choose|w: nat| items@[i as int].usage_spec(w) && u == saturate(w);
        proof {
            lemma_saturate_add_both(sum(us), w);
            assert(us.push(w).drop_last() =~= us);
            assert(items@.take(i + 1) =~= items@.take(i as int).push(items@[i as int]));
        }
        total = total.saturating_add(u);
        proof {
            us = us.push(w);
        }
        i = i + 1;
    }
    assert(items@.take(i as int) =~= items@);
    total
}

/// The summed bound pairs of the items of a slice.
pub fn items_usage_bounds<T: DynamicUsage>(items: &[T]) -> (r: (usize, Option<usize>))
    ensures
        exists|lo: nat, up: Option<nat>|
            items_bounds_spec(items@, lo, up) && r.0 == saturate(lo) && r.1 == saturate_opt(up),
{
    let mut lower: usize = 0;
    let mut upper: Option<usize> = Some(0);
    let ghost mut los: Seq<nat> = Seq::empty();
    let ghost mut ups: Seq<Option<nat>> = Seq::empty();
    let mut i: usize = 0;
    while i < items.len()
        invariant
            i <= items@.len(),
            bounds_of(items@.take(i as int), los, ups),
            lower == saturate(sum(los)),
            upper == saturate_opt(sum_opt(ups)),
        decreases items@.len() - i,
    {
        let (lo, up) = items[i].dynamic_usage_bounds();
        let ghost (wl, wu) = choose|wl: nat, wu: Option<nat>|
            items@[i as int].bounds_spec(wl, wu) && lo == saturate(wl) && up == saturate_opt(wu);
        proof {
            lemma_saturate_add_both(sum(los), wl);
            lemma_saturate_add_opt(sum_opt(ups), wu);
            assert(los.push(wl).drop_last() =~= los);
            assert(ups.push(wu).drop_last() =~= ups);
            assert(items@.take(i + 1) =~= items@.take(i as int).push(items@[i as int]));
        }
        lower = lower.saturating_add(lo);
        upper = match (upper, up) {
            (Some(a), Some(b)) => Some(a.saturating_add(b)),
            _ => None,
        };
        proof {
            los = los.push(wl);
            ups = ups.push(wu);
        }
        i = i + 1;
    }
    assert(items@.take(i as int) =~= items@);
    assert(items_bounds_spec(items@, sum(los), sum_opt(ups)));
    (lower, upper)
}

} // verus!
