//! Heap usage of `BTreeMap` and `BTreeSet`, estimated from the entry count alone.
//!
//! The tree's nodes are not visible from outside, so the node count is derived
//! from the B-tree invariants: every node but the root holds between 5 and 11
//! entries, all leaves are at the same depth, and an internal node with `k` entries
//! has `k + 1` children. The node sizes follow std's node layout.
//!
//! The lower count is the full tree one level shorter than the least height that
//! holds `n` entries: it holds fewer than `n` entries, so every tree holding `n` has
//! at least its internal nodes and at least its bytes. The upper count follows from
//! occupancy: a tree holding `n > 10` entries has at most `1 + (n - 1) / 5` nodes,
//! since every node but the root holds at least 5 entries, and of them at most
//! `(nodes + 3) / 6` are internal, since the root has at least 2 children and every
//! other internal node at least 6. A tree of at most 10 entries is a single leaf:
//! a root with children needs at least `1 + 2 * 5` entries.
//!
//! The contents of a map or set are summed over its own entries where the key
//! type's order is specified (`key_obeys_cmp_spec`), which is where std's iteration
//! order is described at all.
use vstd::prelude::*;

verus! {

use std::collections::{BTreeMap, BTreeSet};
use vstd::std_specs::btree::{
    group_btree_axioms, into_iter, into_iter_btree_keys, key_obeys_cmp_spec, spec_btree_keys_iter,
    spec_btree_map_iter,
};
use vstd::std_specs::iter::IteratorSpec;
use crate::DynamicUsage;
use crate::sum::{
    add_opt, add_opts, bounds_of, lemma_saturate_add, lemma_saturate_add_both,
    lemma_saturate_add_opt, saturate, saturate_opt, saturating_product, sum, sum_opt,
    usages_of, with_base, lemma_items_usage_zero, lemma_items_bounds_zero, usage_unique,
    bounds_unique, lemma_items_usage_unique, lemma_items_bounds_unique, within_bounds,
    lemma_items_within_bounds, items_usage_spec, items_bounds_spec,
};

broadcast use group_btree_axioms;

/// The most entries a node holds.
pub const CAPACITY: usize = 11;

/// The most children an internal node has (`m`).
pub const MAX_CHILDREN: usize = 12;

/// The fewest children a non-root internal node has (`d`).
pub const MIN_CHILDREN: usize = 6;

/// Same size and alignment as std's leaf node: a parent link, the index in the
/// parent, the length, and `CAPACITY` key and value slots.
#[allow(dead_code)]
struct LeafNode<K, V> {
    parent: usize,
    parent_idx: u16,
    len: u16,
    keys: [K; CAPACITY],
    vals: [V; CAPACITY],
}

/// Same size and alignment as std's internal node: a leaf node and `MAX_CHILDREN`
/// child links.
#[allow(dead_code)]
struct InternalNode<K, V> {
    data: LeafNode<K, V>,
    edges: [usize; MAX_CHILDREN],
}

pub closed spec fn leaf_node_size<K, V>() -> nat {
    vstd::layout::size_of::<LeafNode<K, V>>()
}

pub closed spec fn internal_node_size<K, V>() -> nat {
    vstd::layout::size_of::<InternalNode<K, V>>()
}

pub open spec fn pow(b: nat, e: nat) -> nat
    decreases e,
{
    if e == 0 {
        1
    } else {
        b * pow(b, (e - 1) as nat)
    }
}

/// `floor(log_b(x))` for `b >= 2` and `x >= 1`; zero for `x < b`.
pub open spec fn log_floor(b: nat, x: nat) -> nat
    decreases x,
{
    if b < 2 || x < b {
        0
    } else {
        proof {
            lemma_div_smaller(b, x);
        }
        1 + log_floor(b, x / b)
    }
}

/// Height of the fullest tree that holds `n >= 1` entries:
/// `ceil(log_m(n + 1)) - 1`, which is `floor(log_m(n))`.
pub open spec fn min_height(n: nat) -> nat {
    log_floor(MAX_CHILDREN as nat, n)
}

/// At least (internal nodes, leaf nodes) of a tree holding `n` entries: those of the
/// full tree one level shorter than `min_height(n)`, which holds fewer than `n`.
pub open spec fn lower_node_counts(n: nat) -> (nat, nat) {
    let m = MAX_CHILDREN as nat;
    let h = min_height(n);
    if n == 0 {
        (0, 0)
    } else if h == 0 {
        (0, 1)
    } else {
        (((pow(m, (h - 1) as nat) - 1) / (m - 1)) as nat, pow(m, (h - 1) as nat))
    }
}

/// The most nodes a tree holding `n >= 1` entries has: the root holds at least one
/// entry and every other node at least `MIN_CHILDREN - 1`.
pub open spec fn max_nodes(n: nat) -> nat {
    1 + (n - 1) as nat / 5
}

/// At most (internal nodes, leaf nodes) of a tree holding `n` entries: every node may
/// be a leaf, and at most `(nodes + 3) / 6` of them are internal.
pub open spec fn upper_node_counts(n: nat) -> (nat, nat) {
    if n == 0 {
        (0, 0)
    } else if n <= 10 {
        (0, 1)
    } else {
        ((max_nodes(n) + 3) / 6, max_nodes(n))
    }
}

pub open spec fn node_bytes(counts: (nat, nat), internal_size: nat, leaf_size: nat) -> nat {
    counts.0 * internal_size + counts.1 * leaf_size
}

/// Bytes of the nodes of a tree with `n` entries of `K` and `V`: at least (by
/// `lower_node_counts`) and at most (by `upper_node_counts`).
pub open spec fn btree_bounds_spec<K, V>(n: nat) -> (nat, nat) {
    (
        node_bytes(lower_node_counts(n), internal_node_size::<K, V>(), leaf_node_size::<K, V>()),
        node_bytes(upper_node_counts(n), internal_node_size::<K, V>(), leaf_node_size::<K, V>()),
    )
}

/// The point estimate of the node bytes of a tree with `n` entries of `K` and `V`.
pub open spec fn btree_estimate<K, V>(n: nat) -> nat {
    midpoint(
        saturate(btree_bounds_spec::<K, V>(n).0) as nat,
        saturate(btree_bounds_spec::<K, V>(n).1) as nat,
    )
}

/// The midpoint of two byte counts `a <= b`, rounded down.
pub open spec fn midpoint(a: nat, b: nat) -> nat {
    a + (b - a) as nat / 2
}

pub proof fn lemma_div_smaller(b: nat, x: nat)
    requires
        b >= 2,
        x >= b,
    ensures
        x / b < x,
        x / b >= 1,
{
    assert(x / b < x) by (nonlinear_arith)
        requires
            b >= 2,
            x >= b,
    ;
    assert(x / b >= 1) by (nonlinear_arith)
        requires
            b >= 2,
            x >= b,
    ;
}

/// `b^log_floor(b, x) <= x < b^(log_floor(b, x) + 1)`.
pub proof fn lemma_log_floor(b: nat, x: nat)
    requires
        b >= 2,
        x >= 1,
    ensures
        pow(b, log_floor(b, x)) <= x,
        x < pow(b, log_floor(b, x) + 1),
    decreases x,
{
    if x >= b {
        lemma_div_smaller(b, x);
        let y = x / b;
        lemma_log_floor(b, y);
        let l = log_floor(b, y);
        assert(log_floor(b, x) == l + 1);
        assert(pow(b, l + 1) == b * pow(b, l));
        assert(pow(b, l + 2) == b * pow(b, l + 1));
        assert(b * pow(b, l) <= x) by (nonlinear_arith)
            requires
                pow(b, l) <= y,
                y == x / b,
                b >= 2,
        ;
        assert(x < b * (y + 1)) by (nonlinear_arith)
            requires
                y == x / b,
                b >= 2,
        ;
        assert(b * (y + 1) <= b * pow(b, l + 1)) by (nonlinear_arith)
            requires
                y + 1 <= pow(b, l + 1),
                b >= 2,
        ;
    } else {
        assert(log_floor(b, x) == 0);
        assert(pow(b, 0) == 1);
        assert(pow(b, 1) == b * pow(b, 0));
    }
}

pub proof fn lemma_pow_positive(b: nat, e: nat)
    requires
        b >= 1,
    ensures
        pow(b, e) >= 1,
    decreases e,
{
    if e > 0 {
        lemma_pow_positive(b, (e - 1) as nat);
        assert(b * pow(b, (e - 1) as nat) >= 1) by (nonlinear_arith)
            requires
                b >= 1,
                pow(b, (e - 1) as nat) >= 1,
        ;
    }
}

pub proof fn lemma_pow_monotone(b: nat, e1: nat, e2: nat)
    requires
        b >= 1,
        e1 <= e2,
    ensures
        pow(b, e1) <= pow(b, e2),
    decreases e2,
{
    if e1 < e2 {
        lemma_pow_monotone(b, e1, (e2 - 1) as nat);
        lemma_pow_positive(b, (e2 - 1) as nat);
        assert(pow(b, (e2 - 1) as nat) <= b * pow(b, (e2 - 1) as nat)) by (nonlinear_arith)
            requires
                b >= 1,
        ;
    }
}

pub proof fn lemma_log_floor_monotone(b: nat, x: nat, y: nat)
    requires
        b >= 2,
        x <= y,
    ensures
        log_floor(b, x) <= log_floor(b, y),
    decreases x,
{
    if x >= b {
        lemma_div_smaller(b, x);
        assert(x / b <= y / b) by (nonlinear_arith)
            requires
                x <= y,
                b >= 2,
        ;
        lemma_log_floor_monotone(b, x / b, y / b);
    }
}

/// No entries: no nodes, no bytes.
pub proof fn lemma_empty_tree<K, V>()
    ensures
        btree_bounds_spec::<K, V>(0) == (0nat, 0nat),
{
    let i = internal_node_size::<K, V>();
    let l = leaf_node_size::<K, V>();
    assert(lower_node_counts(0) == (0nat, 0nat));
    assert(upper_node_counts(0) == (0nat, 0nat));
    assert(0 * i + 0 * l == 0) by (nonlinear_arith);
}

proof fn lemma_lower_counts_monotone(n: nat)
    ensures
        lower_node_counts(n).0 <= lower_node_counts(n + 1).0,
        lower_node_counts(n).1 <= lower_node_counts(n + 1).1,
{
    let m = MAX_CHILDREN as nat;
    if n > 0 {
        lemma_log_floor_monotone(m, n, n + 1);
        let h1 = min_height(n);
        let h2 = min_height(n + 1);
        if h1 > 0 {
            lemma_pow_monotone(m, (h1 - 1) as nat, (h2 - 1) as nat);
            lemma_pow_positive(m, (h1 - 1) as nat);
            let p1 = pow(m, (h1 - 1) as nat);
            let p2 = pow(m, (h2 - 1) as nat);
            assert((p1 - 1) / 11 <= (p2 - 1) / 11) by (nonlinear_arith)
                requires
                    1 <= p1 <= p2,
            ;
        } else if h2 > 0 {
            lemma_pow_positive(m, (h2 - 1) as nat);
        }
    }
}

/// One more entry never lowers the lower bound: the fullest tree only grows.
pub proof fn lemma_lower_bound_monotone<K, V>(n: nat)
    ensures
        btree_bounds_spec::<K, V>(n).0 <= btree_bounds_spec::<K, V>(n + 1).0,
        saturate(btree_bounds_spec::<K, V>(n).0) <= saturate(btree_bounds_spec::<K, V>(n + 1).0),
{
    lemma_lower_counts_monotone(n);
    let a = lower_node_counts(n);
    let b = lower_node_counts(n + 1);
    let i = internal_node_size::<K, V>();
    let l = leaf_node_size::<K, V>();
    assert(a.0 * i + a.1 * l <= b.0 * i + b.1 * l) by (nonlinear_arith)
        requires
            a.0 <= b.0,
            a.1 <= b.1,
    ;
}

/// Under a specified key order, a map whose keys and values each have exactly one
/// estimate and one bound pair has exactly one of each itself: asking twice about an
/// unchanged map gives the same answer.
pub proof fn lemma_btree_map_deterministic<K: DynamicUsage, V: DynamicUsage>(
    m: BTreeMap<K, V>,
    u1: nat,
    u2: nat,
    lo1: nat,
    up1: Option<nat>,
    lo2: nat,
    up2: Option<nat>,
)
    requires
        key_obeys_cmp_spec::<K>(),
        usage_unique(map_keys(&m)),
        usage_unique(map_values(&m)),
        bounds_unique(map_keys(&m)),
        bounds_unique(map_values(&m)),
        m.usage_spec(u1),
        m.usage_spec(u2),
        m.bounds_spec(lo1, up1),
        m.bounds_spec(lo2, up2),
    ensures
        u1 == u2,
        lo1 == lo2,
        up1 == up2,
{
    let i1 = choose|items: nat| map_items_usage(&m, items) && u1 == btree_estimate::<K, V>(m.len() as nat) + items;
    let i2 = choose|items: nat| map_items_usage(&m, items) && u2 == btree_estimate::<K, V>(m.len() as nat) + items;
    let (k1, v1) = choose|ku: nat, vu: nat|
        items_usage_spec(map_keys(&m), ku) && items_usage_spec(map_values(&m), vu) && i1 == ku + vu;
    let (k2, v2) = choose|ku: nat, vu: nat|
        items_usage_spec(map_keys(&m), ku) && items_usage_spec(map_values(&m), vu) && i2 == ku + vu;
    lemma_items_usage_unique(map_keys(&m), k1, k2);
    lemma_items_usage_unique(map_values(&m), v1, v2);
    let (l1, p1) = choose|lo: nat, up: Option<nat>|
        map_items_bounds(&m, lo, up) && lo1 == saturate(btree_bounds_spec::<K, V>(m.len() as nat).0)
            + lo && up1 == add_opt(saturate(btree_bounds_spec::<K, V>(m.len() as nat).1) as nat, up);
    let (l2, p2) = choose|lo: nat, up: Option<nat>|
        map_items_bounds(&m, lo, up) && lo2 == saturate(btree_bounds_spec::<K, V>(m.len() as nat).0)
            + lo && up2 == add_opt(saturate(btree_bounds_spec::<K, V>(m.len() as nat).1) as nat, up);
    let (kl1, ku1, vl1, vu1) = choose|klo: nat, kup: Option<nat>, vlo: nat, vup: Option<nat>|
        items_bounds_spec(map_keys(&m), klo, kup) && items_bounds_spec(map_values(&m), vlo, vup)
            && l1 == klo + vlo && p1 == add_opts(kup, vup);
    let (kl2, ku2, vl2, vu2) = choose|klo: nat, kup: Option<nat>, vlo: nat, vup: Option<nat>|
        items_bounds_spec(map_keys(&m), klo, kup) && items_bounds_spec(map_values(&m), vlo, vup)
            && l2 == klo + vlo && p2 == add_opts(kup, vup);
    lemma_items_bounds_unique(map_keys(&m), kl1, ku1, kl2, ku2);
    lemma_items_bounds_unique(map_values(&m), vl1, vu1, vl2, vu2);
}

/// Under a specified key order, an empty map reports 0 and `(0, Some(0))`.
pub proof fn lemma_empty_map<K: DynamicUsage, V: DynamicUsage>(
    m: BTreeMap<K, V>,
    u: nat,
    lo: nat,
    up: Option<nat>,
)
    requires
        key_obeys_cmp_spec::<K>(),
        m@.len() == 0,
        m.usage_spec(u),
        m.bounds_spec(lo, up),
    ensures
        u == 0,
        lo == 0,
        up == Some(0nat),
{
    lemma_empty_tree::<K, V>();
    let i = choose|items: nat| map_items_usage(&m, items) && u == btree_estimate::<K, V>(m.len() as nat) + items;
    let (ku, vu) = choose|ku: nat, vu: nat|
        items_usage_spec(map_keys(&m), ku) && items_usage_spec(map_values(&m), vu) && i == ku + vu;
    lemma_no_items_usage(map_keys(&m), ku);
    lemma_no_items_usage(map_values(&m), vu);
    let (l, p) = choose|l: nat, p: Option<nat>|
        map_items_bounds(&m, l, p) && lo == saturate(btree_bounds_spec::<K, V>(m.len() as nat).0)
            + l && up == add_opt(saturate(btree_bounds_spec::<K, V>(m.len() as nat).1) as nat, p);
    let (kl, kp, vl, vp) = choose|klo: nat, kup: Option<nat>, vlo: nat, vup: Option<nat>|
        items_bounds_spec(map_keys(&m), klo, kup) && items_bounds_spec(map_values(&m), vlo, vup)
            && l == klo + vlo && p == add_opts(kup, vup);
    lemma_no_items_bounds(map_keys(&m), kl, kp);
    lemma_no_items_bounds(map_values(&m), vl, vp);
}

proof fn lemma_no_items_usage<T: DynamicUsage>(items: Seq<T>, u: nat)
    requires
        items.len() == 0,
        items_usage_spec(items, u),
    ensures
        u == 0,
{
    let us = choose|us: Seq<nat>| usages_of(items, us) && u == sum(us);
    assert(us.len() == 0);
}

proof fn lemma_no_items_bounds<T: DynamicUsage>(items: Seq<T>, lo: nat, up: Option<nat>)
    requires
        items.len() == 0,
        items_bounds_spec(items, lo, up),
    ensures
        lo == 0,
        up == Some(0nat),
{
    let (los, ups) = choose|los: Seq<nat>, ups: Seq<Option<nat>>|
        bounds_of(items, los, ups) && lo == sum(los) && up == sum_opt(ups);
    assert(los.len() == 0 && ups.len() == 0);
}

proof fn lemma_saturate_monotone(a: nat, b: nat)
    requires
        a <= b,
    ensures
        saturate(a) <= saturate(b),
{
}

proof fn lemma_node_estimate_within(lower: nat, upper: nat)
    requires
        lower <= upper,
    ensures
        saturate(lower) <= midpoint(saturate(lower) as nat, saturate(upper) as nat) <= saturate(upper),
{
    lemma_saturate_monotone(lower, upper);
}

/// Under a specified key order, where each key's and value's estimate lies within its
/// bounds, the map's estimate lies within the map's bounds.
pub proof fn lemma_map_estimate_within_bounds<K: DynamicUsage, V: DynamicUsage>(
    m: BTreeMap<K, V>,
    u: nat,
    lo: nat,
    up: Option<nat>,
)
    requires
        key_obeys_cmp_spec::<K>(),
        within_bounds(map_keys(&m)),
        within_bounds(map_values(&m)),
        m.usage_spec(u),
        m.bounds_spec(lo, up),
    ensures
        lo <= u,
        up matches Some(x) ==> u <= x,
{
    let n = m.len() as nat;
    lemma_bounds_ordered::<K, V>(n);
    lemma_node_estimate_within(btree_bounds_spec::<K, V>(n).0, btree_bounds_spec::<K, V>(n).1);
    let i = choose|items: nat| map_items_usage(&m, items) && u == btree_estimate::<K, V>(n) + items;
    let (ku, vu) = choose|ku: nat, vu: nat|
        items_usage_spec(map_keys(&m), ku) && items_usage_spec(map_values(&m), vu) && i == ku + vu;
    let (l, p) = choose|l: nat, p: Option<nat>|
        map_items_bounds(&m, l, p) && lo == saturate(btree_bounds_spec::<K, V>(n).0) + l && up
            == add_opt(saturate(btree_bounds_spec::<K, V>(n).1) as nat, p);
    let (kl, kp, vl, vp) = choose|klo: nat, kup: Option<nat>, vlo: nat, vup: Option<nat>|
        items_bounds_spec(map_keys(&m), klo, kup) && items_bounds_spec(map_values(&m), vlo, vup)
            && l == klo + vlo && p == add_opts(kup, vup);
    lemma_items_within_bounds(map_keys(&m), ku, kl, kp);
    lemma_items_within_bounds(map_values(&m), vu, vl, vp);
}

fn log_floor_exec(b: usize, x: usize) -> (r: usize)
    requires
        b >= 2,
    ensures
        r == log_floor(b as nat, x as nat),
        r <= x,
{
    let mut y: usize = x;
    let mut k: usize = 0;
    while y >= b
        invariant
            b >= 2,
            log_floor(b as nat, x as nat) == k + log_floor(b as nat, y as nat),
            k + y <= x,
        decreases y,
    {
        proof {
            lemma_div_smaller(b as nat, y as nat);
            assert(y / b <= y / 2) by (nonlinear_arith)
                requires
                    b >= 2,
            ;
        }
        y = y / b;
        k = k + 1;
    }
    k
}

fn pow_exec(b: usize, e: usize) -> (r: usize)
    requires
        b >= 1,
        pow(b as nat, e as nat) <= usize::MAX,
    ensures
        r == pow(b as nat, e as nat),
{
    let mut r: usize = 1;
    let mut i: usize = 0;
    while i < e
        invariant
            b >= 1,
            i <= e,
            r == pow(b as nat, i as nat),
            pow(b as nat, e as nat) <= usize::MAX,
        decreases e - i,
    {
        proof {
            lemma_pow_monotone(b as nat, (i + 1) as nat, e as nat);
            assert(pow(b as nat, (i + 1) as nat) == b * pow(b as nat, i as nat));
        }
        r = r * b;
        i = i + 1;
    }
    r
}

fn node_bytes_exec(counts: (usize, usize), internal_size: usize, leaf_size: usize) -> (r: usize)
    ensures
        r == saturate(node_bytes((counts.0 as nat, counts.1 as nat), internal_size as nat, leaf_size as nat)),
{
    let a = saturating_product(counts.0, internal_size);
    let b = saturating_product(counts.1, leaf_size);
    proof {
        let p = counts.0 as nat * internal_size as nat;
        let q = counts.1 as nat * leaf_size as nat;
        lemma_saturate_add(q, p);
        lemma_saturate_add(a as nat, q);
    }
    a.saturating_add(b)
}

fn lower_node_counts_exec(n: usize) -> (r: (usize, usize))
    ensures
        r.0 as nat == lower_node_counts(n as nat).0,
        r.1 as nat == lower_node_counts(n as nat).1,
{
    if n == 0 {
        return (0, 0);
    }
    let m = MAX_CHILDREN;
    let h = log_floor_exec(m, n);
    if h == 0 {
        (0, 1)
    } else {
        proof {
            lemma_log_floor(m as nat, n as nat);
            lemma_pow_monotone(m as nat, (h - 1) as nat, h as nat);
            lemma_pow_positive(m as nat, (h - 1) as nat);
        }
        let p = pow_exec(m, h - 1);
        ((p - 1) / (m - 1), p)
    }
}

fn upper_node_counts_exec(n: usize) -> (r: (usize, usize))
    ensures
        r.0 as nat == upper_node_counts(n as nat).0,
        r.1 as nat == upper_node_counts(n as nat).1,
{
    if n == 0 {
        (0, 0)
    } else if n <= 10 {
        (0, 1)
    } else {
        let nodes = 1 + (n - 1) / 5;
        ((nodes + 3) / 6, nodes)
    }
}

/// The fullest-tree counts never exceed the occupancy counts.
proof fn lemma_counts_ordered(n: nat)
    ensures
        lower_node_counts(n).0 <= upper_node_counts(n).0,
        lower_node_counts(n).1 <= upper_node_counts(n).1,
{
    let m = MAX_CHILDREN as nat;
    if n >= 1 {
        let h = min_height(n);
        lemma_log_floor(m, n);
        if n <= 10 {
            assert(h == 0);
        } else if h > 0 {
            let p = pow(m, (h - 1) as nat);
            assert(pow(m, h) == m * p);
            lemma_pow_positive(m, (h - 1) as nat);
            assert(12 * p <= n);
        }
    }
}

/// The node bytes of the lower count never exceed those of the upper count.
pub proof fn lemma_bounds_ordered<K, V>(n: nat)
    ensures
        btree_bounds_spec::<K, V>(n).0 <= btree_bounds_spec::<K, V>(n).1,
{
    lemma_counts_ordered(n);
    let a = lower_node_counts(n);
    let b = upper_node_counts(n);
    let i = internal_node_size::<K, V>();
    let l = leaf_node_size::<K, V>();
    assert(a.0 * i + a.1 * l <= b.0 * i + b.1 * l) by (nonlinear_arith)
        requires
            a.0 <= b.0,
            a.1 <= b.1,
    ;
}

/// Bytes of the nodes of a `BTreeMap<K, V>` holding `entries` entries, at least and
/// at most (see the module documentation), saturating at `usize::MAX`.
///
/// No entries take no nodes.
pub fn btree_dynamic_usage_bounds<K, V>(entries: usize) -> (r: (usize, usize))
    ensures
        r.0 == saturate(btree_bounds_spec::<K, V>(entries as nat).0),
        r.1 == saturate(btree_bounds_spec::<K, V>(entries as nat).1),
        entries == 0 ==> r == (0usize, 0usize),
        r.0 <= r.1,
{
    proof {
        lemma_empty_tree::<K, V>();
        lemma_bounds_ordered::<K, V>(entries as nat);
    }
    let internal_size = core::mem::size_of::<InternalNode<K, V>>();
    let leaf_size = core::mem::size_of::<LeafNode<K, V>>();
    let lower = lower_node_counts_exec(entries);
    let upper = upper_node_counts_exec(entries);
    (node_bytes_exec(lower, internal_size, leaf_size), node_bytes_exec(upper, internal_size, leaf_size))
}

/// The point estimate of the node bytes of a `BTreeMap<K, V>` holding `entries`
/// entries: the midpoint of its two bounds, rounded down.
pub fn btree_dynamic_usage<K, V>(entries: usize) -> (r: usize)
    ensures
        r == btree_estimate::<K, V>(entries as nat),
        entries == 0 ==> r == 0,
        saturate(btree_bounds_spec::<K, V>(entries as nat).0) <= r <= saturate(
            btree_bounds_spec::<K, V>(entries as nat).1,
        ),
{
    let (lower, upper) = btree_dynamic_usage_bounds::<K, V>(entries);
    lower + (upper - lower) / 2
}


/// Advances an iterator: under the iterator laws, the first of the remaining items
/// comes out, or `None` once none remain.
fn next_of<I: Iterator>(it: &mut I) -> (r: Option<I::Item>)
    ensures
        (*final(it)).obeys_prophetic_iter_laws() == (*old(it)).obeys_prophetic_iter_laws(),
        (*final(it)).obeys_prophetic_iter_laws() ==> if (*old(it)).remaining().len() > 0 {
            &&& (*final(it)).remaining() == (*old(it)).remaining().drop_first()
            &&& r == Some((*old(it)).remaining()[0])
        } else {
            r is None
        },
{
    it.next()
}

/// Taking the first of the remaining entries leaves the rest of the entry sequence.
proof fn lemma_advance_entries<K, V>(rest: Seq<(&K, &V)>, entries: Seq<(K, V)>, idx: int)
    requires
        0 <= idx < entries.len(),
        rest.unref() =~= entries.skip(idx),
    ensures
        rest.len() > 0,
        rest.unref()[0] == entries[idx],
        rest.drop_first().unref() =~= entries.skip(idx + 1),
{
    assert(rest.unref().len() == rest.len());
    assert forall|j: int| 0 <= j < rest.len() - 1 implies #[trigger] rest.drop_first().unref()[j]
        == entries.skip(idx + 1)[j] by {
        assert(rest.unref()[j + 1] == entries.skip(idx)[j + 1]);
    }
}

/// Taking the first of the remaining elements leaves the rest of the element
/// sequence.
proof fn lemma_advance_elements<T>(rest: Seq<&T>, elements: Seq<T>, idx: int)
    requires
        0 <= idx < elements.len(),
        rest.unref() =~= elements.skip(idx),
    ensures
        rest.len() > 0,
        rest.unref()[0] == elements[idx],
        rest.drop_first().unref() =~= elements.skip(idx + 1),
{
    assert(rest.unref().len() == rest.len());
    assert forall|j: int| 0 <= j < rest.len() - 1 implies #[trigger] rest.drop_first().unref()[j]
        == elements.skip(idx + 1)[j] by {
        assert(rest.unref()[j + 1] == elements.skip(idx)[j + 1]);
    }
}

/// The entries of a map in the order its iterator hands them out.
pub open spec fn map_entries<K, V>(m: &BTreeMap<K, V>) -> Seq<(K, V)> {
    into_iter(spec_btree_map_iter(m))
}

pub open spec fn map_keys<K, V>(m: &BTreeMap<K, V>) -> Seq<K> {
    map_entries(m).map_values(|e: (K, V)| e.0)
}

pub open spec fn map_values<K, V>(m: &BTreeMap<K, V>) -> Seq<V> {
    map_entries(m).map_values(|e: (K, V)| e.1)
}

/// The entry sequence lists the map: one entry per key, each with its key's value.
pub open spec fn enumerates_map<K, V>(m: &BTreeMap<K, V>) -> bool {
    &&& m.len() == m@.len()
    &&& map_entries(m).len() == m@.len()
    &&& forall|i: int|
        0 <= i < map_entries(m).len() ==> #[trigger] m@.contains_key(map_entries(m)[i].0)
            && m@[map_entries(m)[i].0] == map_entries(m)[i].1
}

/// What the keys and values of a map own, summed: over the map's own entries where
/// its key type's order is specified, over some key and value sequences otherwise.
pub open spec fn map_items_usage<K: DynamicUsage, V: DynamicUsage>(
    m: &BTreeMap<K, V>,
    usage: nat,
) -> bool {
    if key_obeys_cmp_spec::<K>() {
        &&& enumerates_map(m)
        &&& exists|ku: nat, vu: nat|
            #![trigger items_usage_spec(map_keys(m), ku), items_usage_spec(map_values(m), vu)]
            items_usage_spec(map_keys(m), ku) && items_usage_spec(map_values(m), vu) && usage
                == ku + vu
    } else {
        exists|keys: Seq<K>, values: Seq<V>, ku: nat, vu: nat|
            #![trigger items_usage_spec(keys, ku), items_usage_spec(values, vu)]
            items_usage_spec(keys, ku) && items_usage_spec(values, vu) && usage == ku + vu
    }
}

/// The bound pairs of the keys and values of a map, summed, over the same entries as
/// `map_items_usage`.
pub open spec fn map_items_bounds<K: DynamicUsage, V: DynamicUsage>(
    m: &BTreeMap<K, V>,
    lower: nat,
    upper: Option<nat>,
) -> bool {
    if key_obeys_cmp_spec::<K>() {
        &&& enumerates_map(m)
        &&& exists|klo: nat, kup: Option<nat>, vlo: nat, vup: Option<nat>|
            #![trigger items_bounds_spec(map_keys(m), klo, kup), items_bounds_spec(map_values(m), vlo, vup)]
            items_bounds_spec(map_keys(m), klo, kup) && items_bounds_spec(map_values(m), vlo, vup)
                && lower == klo + vlo && upper == add_opts(kup, vup)
    } else {
        exists|keys: Seq<K>, values: Seq<V>, klo: nat, kup: Option<nat>, vlo: nat, vup: Option<nat>|
            #![trigger items_bounds_spec(keys, klo, kup), items_bounds_spec(values, vlo, vup)]
            items_bounds_spec(keys, klo, kup) && items_bounds_spec(values, vlo, vup) && lower == klo
                + vlo && upper == add_opts(kup, vup)
    }
}

/// Sums what the keys and values of a map own.
fn map_items_usage_exec<K: DynamicUsage, V: DynamicUsage>(m: &BTreeMap<K, V>) -> (r: usize)
    ensures
        exists|u: nat| map_items_usage(m, u) && r == saturate(u),
{
    let n = m.len();
    let mut it = m.iter();
    let ghost cmp = key_obeys_cmp_spec::<K>();
    let ghost entries = map_entries(m);
    proof {
        if cmp {
            assert(it.remaining().unref() =~= entries);
            assert forall|i: int| 0 <= i < entries.len() implies #[trigger] m@.contains_key(
                entries[i].0,
            ) && m@[entries[i].0] == entries[i].1 by {
                assert(m@.contains_key(*it.remaining()[i].0));
            }
        }
    }
    let mut total: usize = 0;
    let ghost mut keys: Seq<K> = Seq::empty();
    let ghost mut values: Seq<V> = Seq::empty();
    let ghost mut kus: Seq<nat> = Seq::empty();
    let ghost mut vus: Seq<nat> = Seq::empty();
    let ghost mut idx: int = 0;
    let mut left: usize = n;
    while left > 0
        invariant
            usages_of(keys, kus),
            usages_of(values, vus),
            total == saturate(sum(kus) + sum(vus)),
            cmp == key_obeys_cmp_spec::<K>(),
            entries == map_entries(m),
            cmp ==> {
                &&& enumerates_map(m)
                &&& 0 <= idx <= entries.len()
                &&& idx + left == entries.len()
                &&& it.remaining().unref() =~= entries.skip(idx)
                &&& keys =~= entries.take(idx).map_values(|e: (K, V)| e.0)
                &&& values =~= entries.take(idx).map_values(|e: (K, V)| e.1)
            },
        decreases left,
    {
        let ghost before = it;
        let kv = match next_of(&mut it) {
            Some(kv) => kv,
            None => {
                left = 0;
                continue;
            },
        };
        left = left - 1;
        let (k, v) = kv;
        let ku = k.dynamic_usage();
        let vu = v.dynamic_usage();
        let ghost wk = choose|w: nat| k.usage_spec(w) && ku == saturate(w);
        let ghost wv = choose|w: nat| v.usage_spec(w) && vu == saturate(w);
        proof {
            lemma_saturate_add_both(sum(kus) + sum(vus), wk);
            lemma_saturate_add_both(sum(kus) + sum(vus) + wk, wv);
            assert(kus.push(wk).drop_last() =~= kus);
            assert(vus.push(wv).drop_last() =~= vus);
            if cmp {
                lemma_advance_entries(before.remaining(), entries, idx);
                assert(entries.take(idx + 1) =~= entries.take(idx).push(entries[idx]));
            }
        }
        total = total.saturating_add(ku).saturating_add(vu);
        proof {
            keys = keys.push(*k);
            values = values.push(*v);
            kus = kus.push(wk);
            vus = vus.push(wv);
            idx = idx + 1;
        }
    }
    proof {
        assert(items_usage_spec(keys, sum(kus)));
        assert(items_usage_spec(values, sum(vus)));
        if cmp {
            assert(entries.take(idx) =~= entries);
            assert(keys =~= map_keys(m));
            assert(values =~= map_values(m));
        }
        assert(map_items_usage(m, sum(kus) + sum(vus)));
    }
    total
}

/// Sums the bound pairs of the keys and values of a map.
fn map_items_bounds_exec<K: DynamicUsage, V: DynamicUsage>(m: &BTreeMap<K, V>) -> (r: (
    usize,
    Option<usize>,
))
    ensures
        exists|lo: nat, up: Option<nat>|
            map_items_bounds(m, lo, up) && r.0 == saturate(lo) && r.1 == saturate_opt(up),
{
    let n = m.len();
    let mut it = m.iter();
    let ghost cmp = key_obeys_cmp_spec::<K>();
    let ghost entries = map_entries(m);
    proof {
        if cmp {
            assert(it.remaining().unref() =~= entries);
            assert forall|i: int| 0 <= i < entries.len() implies #[trigger] m@.contains_key(
                entries[i].0,
            ) && m@[entries[i].0] == entries[i].1 by {
                assert(m@.contains_key(*it.remaining()[i].0));
            }
        }
    }
    let mut lower: usize = 0;
    let mut upper: Option<usize> = Some(0);
    let ghost mut keys: Seq<K> = Seq::empty();
    let ghost mut values: Seq<V> = Seq::empty();
    let ghost mut klos: Seq<nat> = Seq::empty();
    let ghost mut kups: Seq<Option<nat>> = Seq::empty();
    let ghost mut vlos: Seq<nat> = Seq::empty();
    let ghost mut vups: Seq<Option<nat>> = Seq::empty();
    let ghost mut idx: int = 0;
    let mut left: usize = n;
    while left > 0
        invariant
            bounds_of(keys, klos, kups),
            bounds_of(values, vlos, vups),
            lower == saturate(sum(klos) + sum(vlos)),
            upper == saturate_opt(add_opts(sum_opt(kups), sum_opt(vups))),
            cmp == key_obeys_cmp_spec::<K>(),
            entries == map_entries(m),
            cmp ==> {
                &&& enumerates_map(m)
                &&& 0 <= idx <= entries.len()
                &&& idx + left == entries.len()
                &&& it.remaining().unref() =~= entries.skip(idx)
                &&& keys =~= entries.take(idx).map_values(|e: (K, V)| e.0)
                &&& values =~= entries.take(idx).map_values(|e: (K, V)| e.1)
            },
        decreases left,
    {
        let ghost before = it;
        let kv = match next_of(&mut it) {
            Some(kv) => kv,
            None => {
                left = 0;
                continue;
            },
        };
        left = left - 1;
        let (k, v) = kv;
        let (kl, ku) = k.dynamic_usage_bounds();
        let (vl, vu) = v.dynamic_usage_bounds();
        let ghost (wkl, wku) = choose|lo: nat, up: Option<nat>|
            k.bounds_spec(lo, up) && kl == saturate(lo) && ku == saturate_opt(up);
        let ghost (wvl, wvu) = choose|lo: nat, up: Option<nat>|
            v.bounds_spec(lo, up) && vl == saturate(lo) && vu == saturate_opt(up);
        proof {
            lemma_saturate_add_both(sum(klos) + sum(vlos), wkl);
            lemma_saturate_add_both(sum(klos) + sum(vlos) + wkl, wvl);
            let acc = add_opts(sum_opt(kups), sum_opt(vups));
            lemma_saturate_add_opt(acc, wku);
            lemma_saturate_add_opt(add_opts(acc, wku), wvu);
            assert(klos.push(wkl).drop_last() =~= klos);
            assert(vlos.push(wvl).drop_last() =~= vlos);
            assert(kups.push(wku).drop_last() =~= kups);
            assert(vups.push(wvu).drop_last() =~= vups);
            if cmp {
                lemma_advance_entries(before.remaining(), entries, idx);
                assert(entries.take(idx + 1) =~= entries.take(idx).push(entries[idx]));
            }
        }
        lower = lower.saturating_add(kl).saturating_add(vl);
        upper = match (upper, ku) {
            (Some(a), Some(b)) => Some(a.saturating_add(b)),
            _ => None,
        };
        upper = match (upper, vu) {
            (Some(a), Some(b)) => Some(a.saturating_add(b)),
            _ => None,
        };
        proof {
            keys = keys.push(*k);
            values = values.push(*v);
            klos = klos.push(wkl);
            kups = kups.push(wku);
            vlos = vlos.push(wvl);
            vups = vups.push(wvu);
            idx = idx + 1;
        }
    }
    proof {
        assert(items_bounds_spec(keys, sum(klos), sum_opt(kups)));
        assert(items_bounds_spec(values, sum(vlos), sum_opt(vups)));
        if cmp {
            assert(entries.take(idx) =~= entries);
            assert(keys =~= map_keys(m));
            assert(values =~= map_values(m));
        }
        assert(map_items_bounds(m, sum(klos) + sum(vlos), add_opts(sum_opt(kups), sum_opt(vups))));
    }
    (lower, upper)
}

impl<K: DynamicUsage, V: DynamicUsage> DynamicUsage for BTreeMap<K, V> {
    /// The estimated node bytes for `len()` entries, plus what the keys and values
    /// own (`map_items_usage`).
    open spec fn usage_spec(&self, usage: nat) -> bool {
        exists|items: nat|
            #![trigger map_items_usage(self, items)]
            map_items_usage(self, items) && usage == btree_estimate::<K, V>(self.len() as nat) + items
    }

    /// The node byte bounds for `len()` entries, plus the bound pairs of the keys and
    /// values (`map_items_bounds`).
    open spec fn bounds_spec(&self, lower: nat, upper: Option<nat>) -> bool {
        exists|lo: nat, up: Option<nat>|
            #![trigger map_items_bounds(self, lo, up)]
            map_items_bounds(self, lo, up) && lower == saturate(
                btree_bounds_spec::<K, V>(self.len() as nat).0,
            ) + lo && upper == add_opt(
                saturate(btree_bounds_spec::<K, V>(self.len() as nat).1) as nat,
                up,
            )
    }

    fn dynamic_usage(&self) -> (r: usize) {
        let base = btree_dynamic_usage::<K, V>(self.len());
        let items = map_items_usage_exec(self);
        proof {
            let w = choose|u: nat| map_items_usage(self, u) && items == saturate(u);
            lemma_saturate_add_both(btree_estimate::<K, V>(self.len() as nat), w);
            assert(self.usage_spec(btree_estimate::<K, V>(self.len() as nat) + w));
        }
        with_base(base, items)
    }

    fn dynamic_usage_bounds(&self) -> (r: (usize, Option<usize>)) {
        let (node_lower, node_upper) = btree_dynamic_usage_bounds::<K, V>(self.len());
        let (lower, upper) = map_items_bounds_exec(self);
        proof {
            let (wl, wu) = choose|lo: nat, up: Option<nat>|
                map_items_bounds(self, lo, up) && lower == saturate(lo) && upper == saturate_opt(up);
            let nl = saturate(btree_bounds_spec::<K, V>(self.len() as nat).0) as nat;
            let nu = saturate(btree_bounds_spec::<K, V>(self.len() as nat).1) as nat;
            lemma_saturate_add_both(nl, wl);
            if let Some(x) = wu {
                lemma_saturate_add_both(nu, x);
            }
            assert(self.bounds_spec(nl + wl, add_opt(nu, wu)));
        }
        let upper_total = match upper {
            Some(u) => Some(node_upper.saturating_add(u)),
            None => None,
        };
        (node_lower.saturating_add(lower), upper_total)
    }
}
/// The elements of a set in the order its iterator hands them out.
pub open spec fn set_elements<T>(st: &BTreeSet<T>) -> Seq<T> {
    into_iter_btree_keys(spec_btree_keys_iter(st))
}

/// The element sequence lists the set, each element once.
pub open spec fn enumerates_set<T>(st: &BTreeSet<T>) -> bool {
    &&& st.len() == st@.len()
    &&& set_elements(st).len() == st@.len()
    &&& forall|i: int| 0 <= i < set_elements(st).len() ==> #[trigger] st@.contains(set_elements(st)[i])
}

/// What the elements of a set own, summed: over the set's own elements where its
/// element type's order is specified, over some sequence otherwise.
pub open spec fn set_items_usage<T: DynamicUsage>(st: &BTreeSet<T>, usage: nat) -> bool {
    if key_obeys_cmp_spec::<T>() {
        enumerates_set(st) && items_usage_spec(set_elements(st), usage)
    } else {
        exists|items: Seq<T>| #[trigger] items_usage_spec(items, usage)
    }
}

/// The bound pairs of the elements of a set, summed, over the same elements as
/// `set_items_usage`.
pub open spec fn set_items_bounds<T: DynamicUsage>(
    st: &BTreeSet<T>,
    lower: nat,
    upper: Option<nat>,
) -> bool {
    if key_obeys_cmp_spec::<T>() {
        enumerates_set(st) && items_bounds_spec(set_elements(st), lower, upper)
    } else {
        exists|items: Seq<T>| #[trigger] items_bounds_spec(items, lower, upper)
    }
}

fn set_items_usage_exec<T: DynamicUsage>(st: &BTreeSet<T>) -> (r: usize)
    ensures
        exists|u: nat| set_items_usage(st, u) && r == saturate(u),
{
    let n = st.len();
    let mut it = st.iter();
    let ghost cmp = key_obeys_cmp_spec::<T>();
    let ghost elements = set_elements(st);
    proof {
        if cmp {
            assert(it.remaining().unref() =~= elements);
            assert forall|i: int| 0 <= i < elements.len() implies #[trigger] st@.contains(
                elements[i],
            ) by {
                assert(it.remaining().unref().to_set().contains(elements[i]));
            }
        }
    }
    let mut total: usize = 0;
    let ghost mut us: Seq<nat> = Seq::empty();
    let ghost mut items: Seq<T> = Seq::empty();
    let ghost mut idx: int = 0;
    let mut left: usize = n;
    while left > 0
        invariant
            usages_of(items, us),
            total == saturate(sum(us)),
            cmp == key_obeys_cmp_spec::<T>(),
            elements == set_elements(st),
            cmp ==> {
                &&& enumerates_set(st)
                &&& 0 <= idx <= elements.len()
                &&& idx + left == elements.len()
                &&& it.remaining().unref() =~= elements.skip(idx)
                &&& items =~= elements.take(idx)
            },
        decreases left,
    {
        let ghost before = it;
        let x = match next_of(&mut it) {
            Some(x) => x,
            None => {
                left = 0;
                continue;
            },
        };
        left = left - 1;
        let u = x.dynamic_usage();
        let ghost w = choose|w: nat| x.usage_spec(w) && u == saturate(w);
        proof {
            lemma_saturate_add_both(sum(us), w);
            assert(us.push(w).drop_last() =~= us);
        }
        proof {
            if cmp {
                lemma_advance_elements(before.remaining(), elements, idx);
                assert(elements.take(idx + 1) =~= elements.take(idx).push(elements[idx]));
            }
        }
        total = total.saturating_add(u);
        proof {
            us = us.push(w);
        }
        proof {
            items = items.push(*x);
            idx = idx + 1;
        }
    }
    proof {
        if cmp {
            assert(elements.take(idx) =~= elements);
        }
        assert(items_usage_spec(items, sum(us)));
        assert(set_items_usage(st, sum(us)));
    }
    total
}

fn set_items_bounds_exec<T: DynamicUsage>(st: &BTreeSet<T>) -> (r: (usize, Option<usize>))
    ensures
        exists|lo: nat, up: Option<nat>|
            set_items_bounds(st, lo, up) && r.0 == saturate(lo) && r.1 == saturate_opt(up),
{
    let n = st.len();
    let mut it = st.iter();
    let ghost cmp = key_obeys_cmp_spec::<T>();
    let ghost elements = set_elements(st);
    proof {
        if cmp {
            assert(it.remaining().unref() =~= elements);
            assert forall|i: int| 0 <= i < elements.len() implies #[trigger] st@.contains(
                elements[i],
            ) by {
                assert(it.remaining().unref().to_set().contains(elements[i]));
            }
        }
    }
    let mut lower: usize = 0;
    let mut upper: Option<usize> = Some(0);
    let ghost mut los: Seq<nat> = Seq::empty();
    let ghost mut ups: Seq<Option<nat>> = Seq::empty();
    let ghost mut items: Seq<T> = Seq::empty();
    let ghost mut idx: int = 0;
    let mut left: usize = n;
    while left > 0
        invariant
            bounds_of(items, los, ups),
            lower == saturate(sum(los)),
            upper == saturate_opt(sum_opt(ups)),
            cmp == key_obeys_cmp_spec::<T>(),
            elements == set_elements(st),
            cmp ==> {
                &&& enumerates_set(st)
                &&& 0 <= idx <= elements.len()
                &&& idx + left == elements.len()
                &&& it.remaining().unref() =~= elements.skip(idx)
                &&& items =~= elements.take(idx)
            },
        decreases left,
    {
        let ghost before = it;
        let x = match next_of(&mut it) {
            Some(x) => x,
            None => {
                left = 0;
                continue;
            },
        };
        left = left - 1;
        let (lo, up) = x.dynamic_usage_bounds();
        let ghost (wl, wu) = choose|lo2: nat, up2: Option<nat>|
            x.bounds_spec(lo2, up2) && lo == saturate(lo2) && up == saturate_opt(up2);
        proof {
            lemma_saturate_add_both(sum(los), wl);
            lemma_saturate_add_opt(sum_opt(ups), wu);
            assert(los.push(wl).drop_last() =~= los);
            assert(ups.push(wu).drop_last() =~= ups);
        }
        proof {
            if cmp {
                lemma_advance_elements(before.remaining(), elements, idx);
                assert(elements.take(idx + 1) =~= elements.take(idx).push(elements[idx]));
            }
        }
        lower = lower.saturating_add(lo);
        upper = match (upper, up) {
            (Some(a), Some(b)) => Some(a.saturating_add(b)),
            _ => None,
        };
        proof {
            los = los.push(wl);
            ups = ups.push(wu);
        }
        proof {
            items = items.push(*x);
            idx = idx + 1;
        }
    }
    proof {
        if cmp {
            assert(elements.take(idx) =~= elements);
        }
        assert(items_bounds_spec(items, sum(los), sum_opt(ups)));
        assert(set_items_bounds(st, sum(los), sum_opt(ups)));
    }
    (lower, upper)
}

/// A set is a map whose values are `()`: its nodes have no value bytes.
impl<T: DynamicUsage> DynamicUsage for BTreeSet<T> {
    open spec fn usage_spec(&self, usage: nat) -> bool {
        exists|items: nat|
            #![trigger set_items_usage(self, items)]
            set_items_usage(self, items) && usage == btree_estimate::<T, ()>(self.len() as nat)
                + items
    }

    open spec fn bounds_spec(&self, lower: nat, upper: Option<nat>) -> bool {
        exists|lo: nat, up: Option<nat>|
            #![trigger set_items_bounds(self, lo, up)]
            set_items_bounds(self, lo, up) && lower == saturate(
                btree_bounds_spec::<T, ()>(self.len() as nat).0,
            ) + lo && upper == add_opt(
                saturate(btree_bounds_spec::<T, ()>(self.len() as nat).1) as nat,
                up,
            )
    }

    fn dynamic_usage(&self) -> (r: usize) {
        let base = btree_dynamic_usage::<T, ()>(self.len());
        let items = set_items_usage_exec(self);
        proof {
            let w = choose|u: nat| set_items_usage(self, u) && items == saturate(u);
            lemma_saturate_add_both(btree_estimate::<T, ()>(self.len() as nat), w);
            assert(self.usage_spec(btree_estimate::<T, ()>(self.len() as nat) + w));
        }
        with_base(base, items)
    }

    fn dynamic_usage_bounds(&self) -> (r: (usize, Option<usize>)) {
        let (node_lower, node_upper) = btree_dynamic_usage_bounds::<T, ()>(self.len());
        let (lower, upper) = set_items_bounds_exec(self);
        proof {
            let (wl, wu) = choose|lo: nat, up: Option<nat>|
                set_items_bounds(self, lo, up) && lower == saturate(lo) && upper == saturate_opt(up);
            let nl = saturate(btree_bounds_spec::<T, ()>(self.len() as nat).0) as nat;
            let nu = saturate(btree_bounds_spec::<T, ()>(self.len() as nat).1) as nat;
            lemma_saturate_add_both(nl, wl);
            if let Some(x) = wu {
                lemma_saturate_add_both(nu, x);
            }
            assert(self.bounds_spec(nl + wl, add_opt(nu, wu)));
        }
        let upper_total = match upper {
            Some(u) => Some(node_upper.saturating_add(u)),
            None => None,
        };
        (node_lower.saturating_add(lower), upper_total)
    }
}

/// Under a specified element order, a set reports what a map with the same keys and
/// `()` values reports, where each element has exactly one estimate and bound pair.
pub proof fn lemma_set_as_unit_map<T: DynamicUsage>(
    st: BTreeSet<T>,
    m: BTreeMap<T, ()>,
    u1: nat,
    u2: nat,
    lo1: nat,
    up1: Option<nat>,
    lo2: nat,
    up2: Option<nat>,
)
    requires
        key_obeys_cmp_spec::<T>(),
        set_elements(&st) == map_keys(&m),
        usage_unique(set_elements(&st)),
        bounds_unique(set_elements(&st)),
        st.usage_spec(u1),
        m.usage_spec(u2),
        st.bounds_spec(lo1, up1),
        m.bounds_spec(lo2, up2),
    ensures
        u1 == u2,
        lo1 == lo2,
        up1 == up2,
{
    let e = set_elements(&st);
    let i1 = choose|items: nat| set_items_usage(&st, items) && u1 == btree_estimate::<T, ()>(st.len() as nat) + items;
    let i2 = choose|items: nat| map_items_usage(&m, items) && u2 == btree_estimate::<T, ()>(m.len() as nat) + items;
    assert(st.len() == m.len());
    let (ku, vu) = choose|ku: nat, vu: nat|
        items_usage_spec(map_keys(&m), ku) && items_usage_spec(map_values(&m), vu) && i2 == ku + vu;
    lemma_items_usage_zero(map_values(&m), vu);
    lemma_items_usage_unique(e, i1, ku);
    let (l1, p1) = choose|lo: nat, up: Option<nat>|
        set_items_bounds(&st, lo, up) && lo1 == saturate(btree_bounds_spec::<T, ()>(st.len() as nat).0)
            + lo && up1 == add_opt(saturate(btree_bounds_spec::<T, ()>(st.len() as nat).1) as nat, up);
    let (l2, p2) = choose|lo: nat, up: Option<nat>|
        map_items_bounds(&m, lo, up) && lo2 == saturate(btree_bounds_spec::<T, ()>(m.len() as nat).0)
            + lo && up2 == add_opt(saturate(btree_bounds_spec::<T, ()>(m.len() as nat).1) as nat, up);
    let (kl, kp, vl, vp) = choose|klo: nat, kup: Option<nat>, vlo: nat, vup: Option<nat>|
        items_bounds_spec(map_keys(&m), klo, kup) && items_bounds_spec(map_values(&m), vlo, vup)
            && l2 == klo + vlo && p2 == add_opts(kup, vup);
    lemma_items_bounds_zero(map_values(&m), vl, vp);
    lemma_items_bounds_unique(e, l1, p1, kl, kp);
}

/// Under a specified element order, where each element's estimate lies within its
/// bounds, the set's estimate lies within the set's bounds.
pub proof fn lemma_set_estimate_within_bounds<T: DynamicUsage>(
    st: BTreeSet<T>,
    u: nat,
    lo: nat,
    up: Option<nat>,
)
    requires
        key_obeys_cmp_spec::<T>(),
        within_bounds(set_elements(&st)),
        st.usage_spec(u),
        st.bounds_spec(lo, up),
    ensures
        lo <= u,
        up matches Some(x) ==> u <= x,
{
    let n = st.len() as nat;
    lemma_bounds_ordered::<T, ()>(n);
    lemma_node_estimate_within(btree_bounds_spec::<T, ()>(n).0, btree_bounds_spec::<T, ()>(n).1);
    let i = choose|items: nat| set_items_usage(&st, items) && u == btree_estimate::<T, ()>(n) + items;
    let (l, p) = choose|l: nat, p: Option<nat>|
        set_items_bounds(&st, l, p) && lo == saturate(btree_bounds_spec::<T, ()>(n).0) + l && up
            == add_opt(saturate(btree_bounds_spec::<T, ()>(n).1) as nat, p);
    lemma_items_within_bounds(set_elements(&st), i, l, p);
}

/// Under a specified key order, inserting a new key into a map whose keys and values
/// never allocate does not lower its lower bound.
pub proof fn lemma_map_insert_lower_bound<K: crate::NoDynamicUsage, V: crate::NoDynamicUsage>(
    before: BTreeMap<K, V>,
    after: BTreeMap<K, V>,
    k: K,
    v: V,
    lo1: nat,
    up1: Option<nat>,
    lo2: nat,
    up2: Option<nat>,
)
    requires
        key_obeys_cmp_spec::<K>(),
        !before@.contains_key(k),
        after@ == before@.insert(k, v),
        before.bounds_spec(lo1, up1),
        after.bounds_spec(lo2, up2),
    ensures
        lo1 <= lo2,
{
    lemma_map_bounds_no_items(before, lo1, up1);
    lemma_map_bounds_no_items(after, lo2, up2);
    assert(after@.len() == before@.len() + 1);
    lemma_lower_bound_monotone::<K, V>(before.len() as nat);
}

proof fn lemma_map_bounds_no_items<K: crate::NoDynamicUsage, V: crate::NoDynamicUsage>(
    m: BTreeMap<K, V>,
    lo: nat,
    up: Option<nat>,
)
    requires
        key_obeys_cmp_spec::<K>(),
        m.bounds_spec(lo, up),
    ensures
        lo == saturate(btree_bounds_spec::<K, V>(m.len() as nat).0),
        m.len() == m@.len(),
{
    let (l, p) = choose|l: nat, p: Option<nat>|
        map_items_bounds(&m, l, p) && lo == saturate(btree_bounds_spec::<K, V>(m.len() as nat).0)
            + l && up == add_opt(saturate(btree_bounds_spec::<K, V>(m.len() as nat).1) as nat, p);
    let (kl, kp, vl, vp) = choose|klo: nat, kup: Option<nat>, vlo: nat, vup: Option<nat>|
        items_bounds_spec(map_keys(&m), klo, kup) && items_bounds_spec(map_values(&m), vlo, vup)
            && l == klo + vlo && p == add_opts(kup, vup);
    lemma_items_bounds_zero(map_keys(&m), kl, kp);
    lemma_items_bounds_zero(map_values(&m), vl, vp);
}

/// Under a specified element order, inserting a new element into a set of values
/// that never allocate does not lower its lower bound.
pub proof fn lemma_set_insert_lower_bound<T: crate::NoDynamicUsage>(
    before: BTreeSet<T>,
    after: BTreeSet<T>,
    t: T,
    lo1: nat,
    up1: Option<nat>,
    lo2: nat,
    up2: Option<nat>,
)
    requires
        key_obeys_cmp_spec::<T>(),
        !before@.contains(t),
        after@ == before@.insert(t),
        before.bounds_spec(lo1, up1),
        after.bounds_spec(lo2, up2),
    ensures
        lo1 <= lo2,
{
    let (l1, p1) = choose|l: nat, p: Option<nat>|
        set_items_bounds(&before, l, p) && lo1 == saturate(btree_bounds_spec::<T, ()>(before.len() as nat).0)
            + l && up1 == add_opt(saturate(btree_bounds_spec::<T, ()>(before.len() as nat).1) as nat, p);
    let (l2, p2) = choose|l: nat, p: Option<nat>|
        set_items_bounds(&after, l, p) && lo2 == saturate(btree_bounds_spec::<T, ()>(after.len() as nat).0)
            + l && up2 == add_opt(saturate(btree_bounds_spec::<T, ()>(after.len() as nat).1) as nat, p);
    lemma_items_bounds_zero(set_elements(&before), l1, p1);
    lemma_items_bounds_zero(set_elements(&after), l2, p2);
    let rest = spec_btree_keys_iter(&before).remaining().unref();
    vstd::seq_lib::seq_to_set_is_finite(rest);
    assert(before@.finite());
    assert(after@.len() == before@.len() + 1);
    lemma_lower_bound_monotone::<T, ()>(before.len() as nat);
}

} // verus!
