use std::collections::{BTreeMap, BTreeSet};

use memuse::btree::{btree_dynamic_usage, btree_dynamic_usage_bounds};
use memuse::DynamicUsage;

// Node sizes of a tree of `u16` keys and values on a 64-bit target: a leaf holds a
// parent link, two `u16` fields and eleven keys and values; an internal node adds
// twelve child links.
const LEAF_U16: usize = 8 + 2 + 2 + 11 * 2 + 11 * 2;
const INTERNAL_U16: usize = LEAF_U16 + 12 * 8;

#[test]
fn test_bounds() {
    // No allocations for a new tree.
    let mut map = BTreeMap::new();
    assert_eq!(map.dynamic_usage_bounds(), (0, Some(0)));

    // Insert 10 items: they fit in a single leaf, which is what the tree allocates.
    for i in 0u16..10 {
        map.insert(i, i);
    }
    let allocated = LEAF_U16;

    // The actual allocations should fall within the calculated bounds.
    let (lower, upper) = map.dynamic_usage_bounds();
    assert!(lower <= allocated);
    assert!(allocated <= upper.unwrap());

    // Insert 1000 more items.
    for i in 0u16..1000 {
        map.insert(10 + i, i);
    }

    // Inserting keys in increasing order splits each full node into six entries on
    // the left and five on the right, which leaves 24 internal nodes over 144 leaves.
    let allocated = 24 * INTERNAL_U16 + 144 * LEAF_U16;

    // The actual allocations should fall within the calculated bounds.
    let (lower, upper) = map.dynamic_usage_bounds();
    assert!(lower <= allocated);
    assert!(allocated <= upper.unwrap());
}

#[test]
fn empty_map_reports_zero() {
    let map: BTreeMap<u64, u64> = BTreeMap::new();
    assert_eq!(map.dynamic_usage(), 0);
    assert_eq!(map.dynamic_usage_bounds(), (0, Some(0)));
    assert_eq!(btree_dynamic_usage_bounds::<u8, u8>(0), (0, 0));
    assert_eq!(btree_dynamic_usage::<u8, u8>(0), 0);
}

#[test]
fn single_leaf_bounds_are_exact() {
    assert_eq!(btree_dynamic_usage_bounds::<u16, u16>(1), (LEAF_U16, LEAF_U16));
    assert_eq!(btree_dynamic_usage_bounds::<u16, u16>(10), (LEAF_U16, LEAF_U16));
    assert_eq!(btree_dynamic_usage::<u16, u16>(10), LEAF_U16);
}

#[test]
fn full_leaf_may_have_split() {
    // Eleven entries: one full leaf at best; at most three nodes, one of them internal.
    let (lower, upper) = btree_dynamic_usage_bounds::<u16, u16>(11);
    assert_eq!(lower, LEAF_U16);
    assert_eq!(upper, INTERNAL_U16 + 3 * LEAF_U16);
    assert_eq!(btree_dynamic_usage::<u16, u16>(11), LEAF_U16 + (upper - LEAF_U16) / 2);
}

#[test]
fn bounds_stay_ordered_past_one_level() {
    // 144 entries: the full tree below the least height has one internal node over
    // twelve leaves; at most 29 nodes, five of them internal.
    let (lower, upper) = btree_dynamic_usage_bounds::<u16, u16>(144);
    assert_eq!(lower, INTERNAL_U16 + 12 * LEAF_U16);
    assert_eq!(upper, 5 * INTERNAL_U16 + 29 * LEAF_U16);
    assert_eq!(btree_dynamic_usage::<u16, u16>(144), lower + (upper - lower) / 2);
}

#[test]
fn lower_bound_never_decreases() {
    let mut previous = 0;
    for n in 0..5000usize {
        let (lower, _) = btree_dynamic_usage_bounds::<u32, u64>(n);
        assert!(previous <= lower);
        previous = lower;
    }
}

#[test]
fn estimate_lies_between_bounds() {
    for n in 0..3000usize {
        let (lower, upper) = btree_dynamic_usage_bounds::<u64, u8>(n);
        let estimate = btree_dynamic_usage::<u64, u8>(n);
        assert!(lower <= upper);
        assert!(lower <= estimate && estimate <= upper);
    }
}

#[test]
fn huge_counts_do_not_overflow() {
    let (lower, upper) = btree_dynamic_usage_bounds::<[u8; 4096], [u8; 4096]>(usize::MAX);
    assert_eq!(lower, usize::MAX);
    assert_eq!(upper, usize::MAX);
}

#[test]
fn map_adds_what_entries_own() {
    let mut map: BTreeMap<u16, String> = BTreeMap::new();
    map.insert(1, String::with_capacity(40));
    map.insert(2, String::with_capacity(2));
    let owned: usize = map.values().map(|s| s.capacity()).sum();
    let node = btree_dynamic_usage::<u16, String>(2);
    assert_eq!(map.dynamic_usage(), node + owned);
    let (lower, upper) = map.dynamic_usage_bounds();
    let (node_lower, node_upper) = btree_dynamic_usage_bounds::<u16, String>(2);
    assert_eq!(lower, node_lower + owned);
    assert_eq!(upper, Some(node_upper + owned));
}

#[test]
fn set_is_a_map_of_unit_values() {
    let set: BTreeSet<u8> = (0u8..10).collect();
    assert_eq!(set.dynamic_usage_bounds(), {
        let (lower, upper) = btree_dynamic_usage_bounds::<u8, ()>(10);
        (lower, Some(upper))
    });
    // A leaf of eleven `u8` keys and no values: 8 + 2 + 2 + 11, padded to 24.
    assert_eq!(set.dynamic_usage(), 24);
}

#[test]
fn map_of_maps_counts_inner_maps() {
    let mut outer: BTreeMap<u8, BTreeMap<u8, u8>> = BTreeMap::new();
    assert_eq!(outer.dynamic_usage(), 0);
    assert_eq!(outer.dynamic_usage_bounds(), (0, Some(0)));

    let inner: BTreeMap<u8, u8> = (0u8..3).map(|i| (i, i)).collect();
    let inner_usage = inner.dynamic_usage();
    let (inner_lower, inner_upper) = inner.dynamic_usage_bounds();
    outer.insert(1, inner);
    let node = btree_dynamic_usage::<u8, BTreeMap<u8, u8>>(1);
    assert_eq!(outer.dynamic_usage(), node + inner_usage);
    let (node_lower, node_upper) = btree_dynamic_usage_bounds::<u8, BTreeMap<u8, u8>>(1);
    assert_eq!(
        outer.dynamic_usage_bounds(),
        (node_lower + inner_lower, Some(node_upper + inner_upper.unwrap()))
    );
}

#[test]
fn set_reports_what_unit_map_reports() {
    let set: BTreeSet<u32> = (0u32..40).collect();
    let map: BTreeMap<u32, ()> = (0u32..40).map(|i| (i, ())).collect();
    assert_eq!(set.dynamic_usage(), map.dynamic_usage());
    assert_eq!(set.dynamic_usage_bounds(), map.dynamic_usage_bounds());
}

#[test]
fn inserting_never_lowers_map_lower_bound() {
    let mut map: BTreeMap<u32, u32> = BTreeMap::new();
    let mut previous = 0;
    for i in 0u32..2000 {
        map.insert(i, i);
        let (lower, _) = map.dynamic_usage_bounds();
        assert!(previous <= lower);
        previous = lower;
    }
}

#[test]
fn map_estimate_within_bounds_where_formulas_agree() {
    let map: BTreeMap<u16, String> = (0u16..20).map(|i| (i, String::with_capacity(i as usize))).collect();
    let usage = map.dynamic_usage();
    let (lower, upper) = map.dynamic_usage_bounds();
    assert!(lower <= usage);
    assert!(usage <= upper.unwrap());
}
