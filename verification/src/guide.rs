//! The adaptive path guide: a binary spatial partition over world space
//! whose leaves each own a pair of directional quad-trees — a live "guide"
//! tree the kernel samples and a "training" tree accumulating flux. At
//! refinement boundaries the partition splits overloaded leaves, every
//! leaf's training tree is promoted to be its guide tree, and a fresh,
//! re-normalized training tree is built in its place.

use vstd::prelude::*;

verus! {

/// The sentinel index marking an absent node.
pub const NONE_NODE: u32 = 0xffff_ffff;

/// Flux-ratio fixed-point scale: ratios live in `[0, RATIO_SCALE]`.
pub const RATIO_SCALE: u64 = 1_000_000;

/// A quad-tree child is only expanded while its modeled share of the total
/// energy stays above this ratio.
pub const LEAF_ENERGY_PORTION: u64 = 10_000;

/// Hard cap on quad-tree depth.
pub const MAX_QUADTREE_DEPTH: u32 = 20;

/// Scale of the leaf-visit split threshold.
pub const SPLIT_COUNT_SCALE: u32 = 32000;

/// Samples before the first refinement; the interval doubles with every
/// refinement after it.
pub const INITIAL_SAMPLES: u32 = 4;

/// One node of the spatial partition. An internal node names its two
/// children; a leaf reuses the two slots for its guide and training
/// quad-tree roots, and `count` accumulates the visits since the last
/// refinement.
#[derive(Clone, Copy, Debug, PartialEq, Eq, Hash, Structural)]
pub struct BspNode {
    pub is_leaf: bool,
    pub left: u32,
    pub right: u32,
    pub count: u32,
}

/// One quad-tree child: its accumulated flux and the index of its own
/// node, `NONE_NODE` when it is not expanded.
#[derive(Clone, Copy, Debug, PartialEq, Eq, Hash, Structural)]
pub struct DirTreeNode {
    pub flux: u64,
    pub child: u32,
}

/// One quad-tree node: four children, one per directional quadrant.
#[derive(Clone, Copy, Debug, PartialEq, Eq, Hash, Structural)]
pub struct QuadNode {
    pub c0: DirTreeNode,
    pub c1: DirTreeNode,
    pub c2: DirTreeNode,
    pub c3: DirTreeNode,
}

impl QuadNode {
    /// The child in quadrant `k`.
    pub open spec fn child(self, k: int) -> DirTreeNode {
        if k == 0 {
            self.c0
        } else if k == 1 {
            self.c1
        } else if k == 2 {
            self.c2
        } else {
            self.c3
        }
    }
}

/// A well-formed partition: every internal node's children sit strictly
/// behind it in the array, so walks down the tree terminate.
pub open spec fn bsp_wf(bsp: Seq<BspNode>) -> bool {
    forall|i: int|
        0 <= i < bsp.len() ==> ((#[trigger] bsp[i]).is_leaf || (i < bsp[i].left < bsp.len() && i
            < bsp[i].right < bsp.len()))
}

/// Every leaf's accumulated visit count is zero, as holds right after a
/// refinement.
pub open spec fn bsp_counts_zero(bsp: Seq<BspNode>) -> bool {
    forall|i: int| 0 <= i < bsp.len() && (#[trigger] bsp[i]).is_leaf ==> bsp[i].count == 0
}

/// Every leaf of the partition points its training-tree root (`right`)
/// inside the directional-tree array, or at the absent-node sentinel.
pub open spec fn bsp_leaf_trees_in(bsp: Seq<BspNode>, qt: Seq<QuadNode>) -> bool {
    forall|i: int|
        0 <= i < bsp.len() && (#[trigger] bsp[i]).is_leaf ==> (bsp[i].right == NONE_NODE
            || bsp[i].right < qt.len())
}

/// A well-formed directional tree: children are built before their
/// parents, so every child index is either absent or strictly below its
/// parent's.
pub open spec fn dir_tree_wf(qt: Seq<QuadNode>) -> bool {
    forall|i: int, k: int|
        0 <= i < qt.len() && 0 <= k < 4 ==> ((#[trigger] qt[i].child(k)).child == NONE_NODE
            || qt[i].child(k).child < i)
}

/// The share of a parent's flux ratio a child inherits: the parent ratio
/// scaled by the child's portion of the node's flux, rounded down.
pub open spec fn spec_child_ratio(ratio: int, flux: int, total: int) -> int {
    (ratio * flux) / total
}

/// Flux-ratio monotonicity: a child's modeled share of the scene's energy
/// never exceeds its parent's, whatever the flux distribution.
pub proof fn lemma_child_ratio_monotonic(ratio: int, flux: int, total: int)
    requires
        0 <= ratio,
        0 <= flux <= total,
        0 < total,
    ensures
        0 <= spec_child_ratio(ratio, flux, total) <= ratio,
{
    vstd::arithmetic::mul::lemma_mul_nonnegative(ratio, flux);
    vstd::arithmetic::div_mod::lemma_div_pos_is_pos(ratio * flux, total);
    vstd::arithmetic::mul::lemma_mul_inequality(flux, total, ratio);
    assert(flux * ratio == ratio * flux) by (nonlinear_arith);
    assert(total * ratio == ratio * total) by (nonlinear_arith);
    vstd::arithmetic::div_mod::lemma_div_is_ordered(ratio * flux, ratio * total, total);
    vstd::arithmetic::div_mod::lemma_div_multiples_vanish(ratio, total);
}

/// The child's inherited flux ratio, rounded down; never above the parent's.
pub fn child_ratio(ratio: u64, flux: u64, total: u64) -> (r: u64)
    requires
        flux <= total,
        0 < total,
        ratio <= RATIO_SCALE,
    ensures
        r == spec_child_ratio(ratio as int, flux as int, total as int),
        r <= ratio,
{
    proof {
        lemma_child_ratio_monotonic(ratio as int, flux as int, total as int);
        vstd::arithmetic::mul::lemma_mul_nonnegative(ratio as int, flux as int);
        vstd::arithmetic::mul::lemma_mul_upper_bound(
            ratio as int,
            RATIO_SCALE as int,
            flux as int,
            0xffff_ffff_ffff_ffff,
        );
    }
    let wide: u128 = (ratio as u128) * (flux as u128);
    (wide / (total as u128)) as u64
}

/// The visit counts of the two leaves a split produces: each half of the
/// parent's count, the left leaf taking the odd visit. Together they keep
/// exactly the parent's pre-split count.
pub open spec fn spec_split_left(count: u32) -> u32 {
    ((count + 1) / 2) as u32
}

/// The right half of a split leaf's count.
pub open spec fn spec_split_right(count: u32) -> u32 {
    (count / 2) as u32
}

/// A split conserves visits: the two halves sum to the parent's count.
pub proof fn lemma_split_counts(count: u32)
    ensures
        spec_split_left(count) + spec_split_right(count) == count,
{
}

/// The two halves of a split leaf's visit count.
pub fn split_counts(count: u32) -> (r: (u32, u32))
    ensures
        r.0 == spec_split_left(count),
        r.1 == spec_split_right(count),
        r.0 + r.1 == count,
{
    let left = (((count as u64) + 1) / 2) as u32;
    (left, count / 2)
}

/// The flux a rebuilt node redistributes: the sum of its four children's
/// accumulators.
pub open spec fn spec_quad_total(existing: Seq<QuadNode>, node: u32) -> int {
    existing[node as int].c0.flux + existing[node as int].c1.flux + existing[node as int].c2.flux
        + existing[node as int].c3.flux
}

/// The existing child the rebuild descends into for quadrant `k`: absent
/// for a missing or flux-less node.
pub open spec fn spec_quad_src(existing: Seq<QuadNode>, node: u32, k: int) -> u32 {
    if node == NONE_NODE || spec_quad_total(existing, node) == 0 {
        NONE_NODE
    } else {
        existing[node as int].child(k).child
    }
}

/// The flux ratio quadrant `k` inherits: an exact quarter of the parent's
/// for a missing or flux-less node, the child's exact share otherwise.
pub open spec fn spec_quad_ratio(existing: Seq<QuadNode>, node: u32, ratio: int, k: int) -> int {
    if node == NONE_NODE || spec_quad_total(existing, node) == 0 {
        ratio / 4
    } else {
        spec_child_ratio(
            ratio,
            existing[node as int].child(k).flux as int,
            spec_quad_total(existing, node),
        )
    }
}

/// The whole effect of rebuilding one directional subtree at offset
/// `base`: the exact run of node groups appended (children before their
/// parent, every flux accumulator zero) and the root's index — the absent
/// sentinel exactly when the branch prunes (ratio below the threshold or
/// depth at the cap) or cannot be numbered.
pub open spec fn spec_refine_quadtree(
    existing: Seq<QuadNode>,
    node: u32,
    ratio: int,
    depth: int,
    base: int,
) -> (Seq<QuadNode>, u32)
    decreases MAX_QUADTREE_DEPTH - depth,
{
    if ratio < LEAF_ENERGY_PORTION || depth >= MAX_QUADTREE_DEPTH {
        (Seq::empty(), NONE_NODE)
    } else {
        let q0 = spec_refine_quadtree(
            existing,
            spec_quad_src(existing, node, 0),
            spec_quad_ratio(existing, node, ratio, 0),
            depth + 1,
            base,
        );
        let q1 = spec_refine_quadtree(
            existing,
            spec_quad_src(existing, node, 1),
            spec_quad_ratio(existing, node, ratio, 1),
            depth + 1,
            base + q0.0.len(),
        );
        let q2 = spec_refine_quadtree(
            existing,
            spec_quad_src(existing, node, 2),
            spec_quad_ratio(existing, node, ratio, 2),
            depth + 1,
            base + q0.0.len() + q1.0.len(),
        );
        let q3 = spec_refine_quadtree(
            existing,
            spec_quad_src(existing, node, 3),
            spec_quad_ratio(existing, node, ratio, 3),
            depth + 1,
            base + q0.0.len() + q1.0.len() + q2.0.len(),
        );
        let all = q0.0 + q1.0 + q2.0 + q3.0;
        if base + all.len() >= NONE_NODE {
            (all, NONE_NODE)
        } else {
            (
                all.push(
                    QuadNode {
                        c0: DirTreeNode { flux: 0, child: q0.1 },
                        c1: DirTreeNode { flux: 0, child: q1.1 },
                        c2: DirTreeNode { flux: 0, child: q2.1 },
                        c3: DirTreeNode { flux: 0, child: q3.1 },
                    },
                ),
                (base + all.len()) as u32,
            )
        }
    }
}

/// Rebuilds one directional subtree into `new_nodes` from the statistics
/// in `existing`, post-order: children land before their parents. A branch
/// whose inherited flux ratio falls below the pruning threshold, or whose
/// depth hits the cap, collapses to an absent child; all new flux
/// accumulators start at zero. Runs out of node numbers conservatively: a
/// branch that cannot be numbered is pruned rather than grown.
#[verifier::rlimit(100)]
fn refine_quadtree(
    new_nodes: &mut Vec<QuadNode>,
    existing: &Vec<QuadNode>,
    node: u32,
    flux_ratio: u64,
    depth: u32,
) -> (r: u32)
    requires
        dir_tree_wf(existing@),
        node == NONE_NODE || node < existing@.len(),
        flux_ratio <= RATIO_SCALE,
        dir_tree_wf(old(new_nodes)@),
    ensures
        dir_tree_wf(final(new_nodes)@),
        final(new_nodes)@.len() >= old(new_nodes)@.len(),
        final(new_nodes)@.subrange(0, old(new_nodes)@.len() as int) == old(new_nodes)@,
        r == NONE_NODE || (old(new_nodes)@.len() <= r < final(new_nodes)@.len()),
        (flux_ratio < LEAF_ENERGY_PORTION || depth >= MAX_QUADTREE_DEPTH) ==> r == NONE_NODE,
        forall|i: int, k: int|
            old(new_nodes)@.len() <= i < final(new_nodes)@.len() && 0 <= k < 4 ==> (
            #[trigger] final(new_nodes)@[i].child(k)).flux == 0,
        final(new_nodes)@ == old(new_nodes)@ + spec_refine_quadtree(
            existing@,
            node,
            flux_ratio as int,
            depth as int,
            old(new_nodes)@.len() as int,
        ).0,
        r == spec_refine_quadtree(
            existing@,
            node,
            flux_ratio as int,
            depth as int,
            old(new_nodes)@.len() as int,
        ).1,
    decreases MAX_QUADTREE_DEPTH - depth,
{
    if flux_ratio < LEAF_ENERGY_PORTION || depth >= MAX_QUADTREE_DEPTH {
        proof {
            assert(final(new_nodes)@ =~= old(new_nodes)@ + Seq::<QuadNode>::empty());
        }
        return NONE_NODE;
    }
    let quarter = flux_ratio / 4;
    let mut src0: u32 = NONE_NODE;
    let mut src1: u32 = NONE_NODE;
    let mut src2: u32 = NONE_NODE;
    let mut src3: u32 = NONE_NODE;
    let mut rat0: u64 = quarter;
    let mut rat1: u64 = quarter;
    let mut rat2: u64 = quarter;
    let mut rat3: u64 = quarter;
    if node != NONE_NODE {
        let q = existing[node as usize];
        let total128: u128 = (q.c0.flux as u128) + (q.c1.flux as u128) + (q.c2.flux as u128) + (
        q.c3.flux as u128);
        if total128 != 0 {
            proof {
                assert(dir_tree_wf(existing@));
                assert(existing@[node as int].child(0) == q.c0);
                assert(existing@[node as int].child(1) == q.c1);
                assert(existing@[node as int].child(2) == q.c2);
                assert(existing@[node as int].child(3) == q.c3);
                assert(total128 as int == spec_quad_total(existing@, node));
            }
            src0 = q.c0.child;
            src1 = q.c1.child;
            src2 = q.c2.child;
            src3 = q.c3.child;
            rat0 = child_ratio_wide(flux_ratio, q.c0.flux, total128);
            rat1 = child_ratio_wide(flux_ratio, q.c1.flux, total128);
            rat2 = child_ratio_wide(flux_ratio, q.c2.flux, total128);
            rat3 = child_ratio_wide(flux_ratio, q.c3.flux, total128);
        }
    }
    proof {
        assert(src0 == spec_quad_src(existing@, node, 0));
        assert(src1 == spec_quad_src(existing@, node, 1));
        assert(src2 == spec_quad_src(existing@, node, 2));
        assert(src3 == spec_quad_src(existing@, node, 3));
        assert(rat0 as int == spec_quad_ratio(existing@, node, flux_ratio as int, 0));
        assert(rat1 as int == spec_quad_ratio(existing@, node, flux_ratio as int, 1));
        assert(rat2 as int == spec_quad_ratio(existing@, node, flux_ratio as int, 2));
        assert(rat3 as int == spec_quad_ratio(existing@, node, flux_ratio as int, 3));
    }
    let ghost base = old(new_nodes)@.len() as int;
    let n0 = refine_quadtree(new_nodes, existing, src0, rat0, depth + 1);
    let ghost g1 = new_nodes@;
    let n1 = refine_quadtree(new_nodes, existing, src1, rat1, depth + 1);
    let ghost g2 = new_nodes@;
    let n2 = refine_quadtree(new_nodes, existing, src2, rat2, depth + 1);
    let ghost g3 = new_nodes@;
    let n3 = refine_quadtree(new_nodes, existing, src3, rat3, depth + 1);
    let ghost g4 = new_nodes@;
    let ghost q0 = spec_refine_quadtree(existing@, src0, rat0 as int, depth + 1, base);
    let ghost q1 = spec_refine_quadtree(existing@, src1, rat1 as int, depth + 1, base + q0.0.len());
    let ghost q2 = spec_refine_quadtree(
        existing@,
        src2,
        rat2 as int,
        depth + 1,
        base + q0.0.len() + q1.0.len(),
    );
    let ghost q3 = spec_refine_quadtree(
        existing@,
        src3,
        rat3 as int,
        depth + 1,
        base + q0.0.len() + q1.0.len() + q2.0.len(),
    );
    proof {
        assert(g1 == old(new_nodes)@ + q0.0);
        assert(g2 == g1 + q1.0);
        assert(g3 == g2 + q2.0);
        assert(g4 == g3 + q3.0);
        assert(g4 =~= old(new_nodes)@ + (q0.0 + q1.0 + q2.0 + q3.0));
        assert(n0 == q0.1 && n1 == q1.1 && n2 == q2.1 && n3 == q3.1);
    }
    proof {
        assert forall|i: int| 0 <= i < g1.len() implies #[trigger] g2[i] == g1[i] by {
            assert(g2.subrange(0, g1.len() as int)[i] == g2[i]);
        }
        assert forall|i: int| 0 <= i < g2.len() implies #[trigger] g3[i] == g2[i] by {
            assert(g3.subrange(0, g2.len() as int)[i] == g3[i]);
        }
        assert forall|i: int| 0 <= i < g3.len() implies #[trigger] g4[i] == g3[i] by {
            assert(g4.subrange(0, g3.len() as int)[i] == g4[i]);
        }
        assert(g4.subrange(0, old(new_nodes)@.len() as int) =~= old(new_nodes)@);
        assert forall|i: int, k: int|
            old(new_nodes)@.len() <= i < g4.len() && 0 <= k < 4 implies (#[trigger] g4[i].child(
            k,
        )).flux == 0 by {
            if i < g1.len() {
                assert(g1[i].child(k).flux == 0);
            } else if i < g2.len() {
                assert(g2[i].child(k).flux == 0);
            } else if i < g3.len() {
                assert(g3[i].child(k).flux == 0);
            }
        }
    }
    let ghost whole = spec_refine_quadtree(existing@, node, flux_ratio as int, depth as int, base);
    proof {
        assert(whole.0 == (if base + (q0.0 + q1.0 + q2.0 + q3.0).len() >= NONE_NODE {
            q0.0 + q1.0 + q2.0 + q3.0
        } else {
            (q0.0 + q1.0 + q2.0 + q3.0).push(
                QuadNode {
                    c0: DirTreeNode { flux: 0, child: q0.1 },
                    c1: DirTreeNode { flux: 0, child: q1.1 },
                    c2: DirTreeNode { flux: 0, child: q2.1 },
                    c3: DirTreeNode { flux: 0, child: q3.1 },
                },
            )
        }));
    }
    if new_nodes.len() >= NONE_NODE as usize {
        proof {
            assert(g4.len() == base + (q0.0 + q1.0 + q2.0 + q3.0).len());
            assert(whole.1 == NONE_NODE);
            assert(final(new_nodes)@ == old(new_nodes)@ + whole.0);
        }
        return NONE_NODE;
    }
    let id = new_nodes.len() as u32;
    new_nodes.push(
        QuadNode {
            c0: DirTreeNode { flux: 0, child: n0 },
            c1: DirTreeNode { flux: 0, child: n1 },
            c2: DirTreeNode { flux: 0, child: n2 },
            c3: DirTreeNode { flux: 0, child: n3 },
        },
    );
    proof {
        let vf = new_nodes@;
        assert(vf =~= old(new_nodes)@ + whole.0);
        assert(id == whole.1);
        assert(forall|i: int| 0 <= i < g4.len() ==> #[trigger] vf[i] == g4[i]);
        assert(vf.subrange(0, old(new_nodes)@.len() as int) =~= old(new_nodes)@);
        assert forall|i: int, k: int|
            old(new_nodes)@.len() <= i < vf.len() && 0 <= k < 4 implies (#[trigger] vf[i].child(
            k,
        )).flux == 0 by {
            if i < g4.len() {
                assert(g4[i].child(k).flux == 0);
            } else {
                assert(vf[i] == vf.last());
            }
        }
        assert forall|i: int, k: int|
            0 <= i < vf.len() && 0 <= k < 4 implies ((#[trigger] vf[i].child(k)).child
            == NONE_NODE || vf[i].child(k).child < i) by {
            if i < g4.len() {
                assert(g4[i].child(k).child == NONE_NODE || g4[i].child(k).child < i);
            } else {
                assert(vf[i] == vf.last());
            }
        }
    }
    id
}

/// The inherited ratio of one quadrant against a four-way flux total that
/// may exceed the single-value range.
fn child_ratio_wide(ratio: u64, flux: u64, total: u128) -> (r: u64)
    requires
        flux <= total,
        0 < total,
        ratio <= RATIO_SCALE,
    ensures
        r == (ratio * flux) / (total as int),
        r <= ratio,
{
    proof {
        lemma_child_ratio_monotonic(ratio as int, flux as int, total as int);
        vstd::arithmetic::mul::lemma_mul_nonnegative(ratio as int, flux as int);
        vstd::arithmetic::mul::lemma_mul_upper_bound(
            ratio as int,
            RATIO_SCALE as int,
            flux as int,
            0xffff_ffff_ffff_ffff,
        );
    }
    let wide: u128 = (ratio as u128) * (flux as u128);
    (wide / total) as u64
}

/// The whole effect of rebuilding one leaf at offsets `bsp_base` and
/// `qt_base`: the exact run of partition nodes appended (the region's root
/// first) and of training-tree groups grown beside them. An overloaded
/// leaf splits, each half inheriting the tree pair and half the count; a
/// settled leaf is promoted — its guide slot becomes the old training
/// root, its training slot the root of a freshly rebuilt zero-flux tree,
/// and its count resets to zero.
pub open spec fn spec_split_leaf(
    guide: u32,
    train: u32,
    count: u32,
    threshold: u32,
    dir_tree: Seq<QuadNode>,
    bsp_base: int,
    qt_base: int,
) -> (Seq<BspNode>, Seq<QuadNode>)
    decreases count,
{
    if count > threshold && count >= 2 && bsp_base + 2 < NONE_NODE {
        let l = spec_split_leaf(
            guide,
            train,
            spec_split_left(count),
            threshold,
            dir_tree,
            bsp_base + 1,
            qt_base,
        );
        if bsp_base + 1 + l.0.len() >= NONE_NODE {
            (
                seq![BspNode { is_leaf: true, left: NONE_NODE, right: NONE_NODE, count: 0 }] + l.0,
                l.1,
            )
        } else {
            let rr = spec_split_leaf(
                guide,
                train,
                spec_split_right(count),
                threshold,
                dir_tree,
                bsp_base + 1 + l.0.len(),
                qt_base + l.1.len(),
            );
            (
                seq![
                    BspNode {
                        is_leaf: false,
                        left: (bsp_base + 1) as u32,
                        right: (bsp_base + 1 + l.0.len()) as u32,
                        count,
                    }
                ] + l.0 + rr.0,
                l.1 + rr.1,
            )
        }
    } else {
        let qt = spec_refine_quadtree(dir_tree, train, RATIO_SCALE as int, 0, qt_base);
        (seq![BspNode { is_leaf: true, left: train, right: qt.1, count: 0 }], qt.0)
    }
}

/// The whole effect of rebuilding the partition subtree at `node`: an
/// internal region keeps its count and rebuilds both children, the left
/// child's region directly behind the parent; a leaf splits or promotes as
/// `spec_split_leaf` says. A region that cannot be numbered closes off as
/// one empty leaf.
pub open spec fn spec_refine_bsp(
    bsp: Seq<BspNode>,
    node: u32,
    dir_tree: Seq<QuadNode>,
    threshold: u32,
    bsp_base: int,
    qt_base: int,
) -> (Seq<BspNode>, Seq<QuadNode>)
    decreases bsp.len() - node when bsp_wf(bsp) && (node as int) < bsp.len()
{
    let n = bsp[node as int];
    if !n.is_leaf && bsp_base + 2 < NONE_NODE {
        let l = spec_refine_bsp(bsp, n.left, dir_tree, threshold, bsp_base + 1, qt_base);
        if bsp_base + 1 + l.0.len() >= NONE_NODE {
            (
                seq![BspNode { is_leaf: true, left: NONE_NODE, right: NONE_NODE, count: 0 }] + l.0,
                l.1,
            )
        } else {
            let rr = spec_refine_bsp(
                bsp,
                n.right,
                dir_tree,
                threshold,
                bsp_base + 1 + l.0.len(),
                qt_base + l.1.len(),
            );
            (
                seq![
                    BspNode {
                        is_leaf: false,
                        left: (bsp_base + 1) as u32,
                        right: (bsp_base + 1 + l.0.len()) as u32,
                        count: n.count,
                    }
                ] + l.0 + rr.0,
                l.1 + rr.1,
            )
        }
    } else if !n.is_leaf {
        let qt = spec_refine_quadtree(dir_tree, NONE_NODE, RATIO_SCALE as int, 0, qt_base);
        (seq![BspNode { is_leaf: true, left: NONE_NODE, right: qt.1, count: 0 }], qt.0)
    } else {
        spec_split_leaf(n.left, n.right, n.count, threshold, dir_tree, bsp_base, qt_base)
    }
}

/// Rebuilds one leaf of the partition into `new_bsp`. A leaf with more
/// than `split_threshold` visits (and at least two of them) splits into two
/// leaves that inherit its tree pair and half its count each; a leaf that
/// stays is promoted — last round's training tree becomes its guide tree, a
/// fresh training tree is grown from it, and its count resets to zero.
fn split_leaf(
    guide: u32,
    train: u32,
    count: u32,
    split_threshold: u32,
    dir_tree: &Vec<QuadNode>,
    new_bsp: &mut Vec<BspNode>,
    new_dir_tree: &mut Vec<QuadNode>,
) -> (r: u32)
    requires
        dir_tree_wf(dir_tree@),
        train == NONE_NODE || train < dir_tree@.len(),
        dir_tree_wf(old(new_dir_tree)@),
        bsp_wf(old(new_bsp)@),
        bsp_counts_zero(old(new_bsp)@),
        bsp_leaf_trees_in(old(new_bsp)@, old(new_dir_tree)@),
        old(new_bsp)@.len() < NONE_NODE,
    ensures
        bsp_wf(final(new_bsp)@),
        bsp_counts_zero(final(new_bsp)@),
        bsp_leaf_trees_in(final(new_bsp)@, final(new_dir_tree)@),
        final(new_bsp)@.len() > old(new_bsp)@.len(),
        final(new_bsp)@.subrange(0, old(new_bsp)@.len() as int) == old(new_bsp)@,
        r == old(new_bsp)@.len(),
        dir_tree_wf(final(new_dir_tree)@),
        final(new_dir_tree)@.len() >= old(new_dir_tree)@.len(),
        final(new_dir_tree)@.subrange(0, old(new_dir_tree)@.len() as int) == old(new_dir_tree)@,
        (count <= split_threshold || count < 2) ==> (final(new_bsp)@[r as int].is_leaf
            && final(new_bsp)@[r as int].left == train
            && final(new_bsp)@[r as int].count == 0),
        (count > split_threshold && count >= 2 && final(new_bsp)@.len() + 2 < NONE_NODE)
            ==> !final(new_bsp)@[r as int].is_leaf,
        final(new_bsp)@ == old(new_bsp)@ + spec_split_leaf(
            guide,
            train,
            count,
            split_threshold,
            dir_tree@,
            old(new_bsp)@.len() as int,
            old(new_dir_tree)@.len() as int,
        ).0,
        final(new_dir_tree)@ == old(new_dir_tree)@ + spec_split_leaf(
            guide,
            train,
            count,
            split_threshold,
            dir_tree@,
            old(new_bsp)@.len() as int,
            old(new_dir_tree)@.len() as int,
        ).1,
    decreases count,
{
    let ghost whole = spec_split_leaf(
        guide,
        train,
        count,
        split_threshold,
        dir_tree@,
        old(new_bsp)@.len() as int,
        old(new_dir_tree)@.len() as int,
    );
    let ghost ls = spec_split_leaf(
        guide,
        train,
        spec_split_left(count),
        split_threshold,
        dir_tree@,
        old(new_bsp)@.len() as int + 1,
        old(new_dir_tree)@.len() as int,
    );
    let idx = new_bsp.len() as u32;
    if count > split_threshold && count >= 2 && ((new_bsp.len() as u64) + 2 < NONE_NODE as u64) {
        new_bsp.push(BspNode { is_leaf: true, left: NONE_NODE, right: NONE_NODE, count: 0 });
        let ghost b0 = new_bsp@;
        let (count_left, count_right) = split_counts(count);
        let l = split_leaf(
            guide,
            train,
            count_left,
            split_threshold,
            dir_tree,
            new_bsp,
            new_dir_tree,
        );
        let ghost b1 = new_bsp@;
        if (new_bsp.len() as u64) >= NONE_NODE as u64 {
            // out of node numbers: close the subtree off as an empty leaf
            let mut n = new_bsp[idx as usize];
            n.is_leaf = true;
            n.left = NONE_NODE;
            n.right = NONE_NODE;
            n.count = 0;
            new_bsp.set(idx as usize, n);
            proof {
                let bf = new_bsp@;
                assert forall|i: int|
                    0 <= i < old(new_bsp)@.len() implies #[trigger] bf[i] == old(
                    new_bsp,
                )@[i] by {
                    assert(bf[i] == b1[i]);
                    assert(b1.subrange(0, b0.len() as int)[i] == b1[i]);
                    assert(b0[i] == old(new_bsp)@[i]);
                }
                assert(bf.subrange(0, old(new_bsp)@.len() as int) =~= old(new_bsp)@);
                assert forall|i: int|
                    0 <= i < bf.len() implies ((#[trigger] bf[i]).is_leaf || (i < bf[i].left
                    < bf.len() && i < bf[i].right < bf.len())) by {
                    if i != idx as int {
                        assert(bf[i] == b1[i]);
                    }
                }
                assert forall|i: int|
                    0 <= i < bf.len() && (#[trigger] bf[i]).is_leaf implies bf[i].count == 0 by {
                    if i != idx as int {
                        assert(bf[i] == b1[i]);
                    }
                }
                assert(b1 == b0 + ls.0);
                assert(whole.0 == seq![
                    BspNode { is_leaf: true, left: NONE_NODE, right: NONE_NODE, count: 0 }
                ] + ls.0);
                assert(bf =~= old(new_bsp)@ + whole.0);
                assert(final(new_dir_tree)@ == old(new_dir_tree)@ + whole.1);
            }
            return idx;
        }
        let r2 = split_leaf(
            guide,
            train,
            count_right,
            split_threshold,
            dir_tree,
            new_bsp,
            new_dir_tree,
        );
        let ghost b2 = new_bsp@;
        let mut n = new_bsp[idx as usize];
        n.is_leaf = false;
        n.left = l;
        n.right = r2;
        n.count = count;
        new_bsp.set(idx as usize, n);
        proof {
            let bf = new_bsp@;
            assert forall|i: int| 0 <= i < b1.len() implies #[trigger] b2[i] == b1[i] by {
                assert(b2.subrange(0, b1.len() as int)[i] == b2[i]);
            }
            assert forall|i: int|
                0 <= i < old(new_bsp)@.len() implies #[trigger] bf[i] == old(new_bsp)@[i] by {
                assert(bf[i] == b2[i]);
                assert(b2[i] == b1[i]);
                assert(b1.subrange(0, b0.len() as int)[i] == b1[i]);
                assert(b0[i] == old(new_bsp)@[i]);
            }
            assert(bf.subrange(0, old(new_bsp)@.len() as int) =~= old(new_bsp)@);
            assert forall|i: int|
                0 <= i < bf.len() implies ((#[trigger] bf[i]).is_leaf || (i < bf[i].left
                < bf.len() && i < bf[i].right < bf.len())) by {
                if i != idx as int && i < b2.len() {
                    assert(bf[i] == b2[i]);
                }
            }
            assert forall|i: int|
                0 <= i < bf.len() && (#[trigger] bf[i]).is_leaf implies bf[i].count == 0 by {
                if i != idx as int && i < b2.len() {
                    assert(bf[i] == b2[i]);
                }
            }
            let rs = spec_split_leaf(
                guide,
                train,
                spec_split_right(count),
                split_threshold,
                dir_tree@,
                old(new_bsp)@.len() as int + 1 + ls.0.len(),
                old(new_dir_tree)@.len() as int + ls.1.len(),
            );
            assert(b1 == b0 + ls.0);
            assert(b2 == b1 + rs.0);
            assert(whole.0 == seq![
                BspNode {
                    is_leaf: false,
                    left: (old(new_bsp)@.len() + 1) as u32,
                    right: (old(new_bsp)@.len() + 1 + ls.0.len()) as u32,
                    count,
                }
            ] + ls.0 + rs.0);
            assert(whole.1 == ls.1 + rs.1);
            assert(bf =~= old(new_bsp)@ + whole.0);
            assert(final(new_dir_tree)@ =~= old(new_dir_tree)@ + whole.1);
        }
        idx
    } else {
        let fresh = refine_quadtree(new_dir_tree, dir_tree, train, RATIO_SCALE, 0);
        new_bsp.push(BspNode { is_leaf: true, left: train, right: fresh, count: 0 });
        proof {
            let bf = new_bsp@;
            assert(bf.subrange(0, old(new_bsp)@.len() as int) =~= old(new_bsp)@);
            assert forall|i: int|
                0 <= i < bf.len() implies ((#[trigger] bf[i]).is_leaf || (i < bf[i].left
                < bf.len() && i < bf[i].right < bf.len())) by {
                if i < old(new_bsp)@.len() {
                    assert(bf[i] == old(new_bsp)@[i]);
                }
            }
            assert(bf =~= old(new_bsp)@ + whole.0);
            assert(final(new_dir_tree)@ == old(new_dir_tree)@ + whole.1);
        }
        idx
    }
}

/// Rebuilds the subtree of the partition rooted at `node` into `new_bsp`,
/// growing every leaf's fresh training tree into `new_dir_tree`.
fn refine_bsp_node(
    bsp: &Vec<BspNode>,
    node: u32,
    dir_tree: &Vec<QuadNode>,
    new_bsp: &mut Vec<BspNode>,
    new_dir_tree: &mut Vec<QuadNode>,
    split_threshold: u32,
) -> (r: u32)
    requires
        bsp_wf(bsp@),
        node < bsp@.len(),
        dir_tree_wf(dir_tree@),
        forall|i: int|
            0 <= i < bsp@.len() && (#[trigger] bsp@[i]).is_leaf ==> (bsp@[i].right == NONE_NODE
                || bsp@[i].right < dir_tree@.len()),
        dir_tree_wf(old(new_dir_tree)@),
        bsp_wf(old(new_bsp)@),
        bsp_counts_zero(old(new_bsp)@),
        bsp_leaf_trees_in(old(new_bsp)@, old(new_dir_tree)@),
        old(new_bsp)@.len() < NONE_NODE,
    ensures
        bsp_wf(final(new_bsp)@),
        bsp_counts_zero(final(new_bsp)@),
        bsp_leaf_trees_in(final(new_bsp)@, final(new_dir_tree)@),
        final(new_bsp)@.len() > old(new_bsp)@.len(),
        final(new_bsp)@.subrange(0, old(new_bsp)@.len() as int) == old(new_bsp)@,
        r == old(new_bsp)@.len(),
        dir_tree_wf(final(new_dir_tree)@),
        final(new_dir_tree)@.len() >= old(new_dir_tree)@.len(),
        final(new_dir_tree)@.subrange(0, old(new_dir_tree)@.len() as int) == old(new_dir_tree)@,
        (bsp@[node as int].is_leaf && (bsp@[node as int].count <= split_threshold || bsp@[
            node as int].count < 2)) ==> (final(new_bsp)@[r as int].is_leaf
            && final(new_bsp)@[r as int].left == bsp@[node as int].right
            && final(new_bsp)@[r as int].count == 0),
        final(new_bsp)@ == old(new_bsp)@ + spec_refine_bsp(
            bsp@,
            node,
            dir_tree@,
            split_threshold,
            old(new_bsp)@.len() as int,
            old(new_dir_tree)@.len() as int,
        ).0,
        final(new_dir_tree)@ == old(new_dir_tree)@ + spec_refine_bsp(
            bsp@,
            node,
            dir_tree@,
            split_threshold,
            old(new_bsp)@.len() as int,
            old(new_dir_tree)@.len() as int,
        ).1,
    decreases bsp@.len() - node,
{
    let ghost whole = spec_refine_bsp(
        bsp@,
        node,
        dir_tree@,
        split_threshold,
        old(new_bsp)@.len() as int,
        old(new_dir_tree)@.len() as int,
    );
    let ghost ls = spec_refine_bsp(
        bsp@,
        bsp@[node as int].left,
        dir_tree@,
        split_threshold,
        old(new_bsp)@.len() as int + 1,
        old(new_dir_tree)@.len() as int,
    );
    let n = bsp[node as usize];
    if !n.is_leaf && ((new_bsp.len() as u64) + 2 < NONE_NODE as u64) {
        let idx = new_bsp.len() as u32;
        new_bsp.push(BspNode { is_leaf: true, left: NONE_NODE, right: NONE_NODE, count: 0 });
        let ghost b0 = new_bsp@;
        let l = refine_bsp_node(bsp, n.left, dir_tree, new_bsp, new_dir_tree, split_threshold);
        let ghost b1 = new_bsp@;
        if (new_bsp.len() as u64) >= NONE_NODE as u64 {
            // out of node numbers: close the subtree off as an empty leaf
            let mut m = new_bsp[idx as usize];
            m.is_leaf = true;
            m.left = NONE_NODE;
            m.right = NONE_NODE;
            m.count = 0;
            new_bsp.set(idx as usize, m);
            proof {
                let bf = new_bsp@;
                assert forall|i: int|
                    0 <= i < old(new_bsp)@.len() implies #[trigger] bf[i] == old(
                    new_bsp,
                )@[i] by {
                    assert(bf[i] == b1[i]);
                    assert(b1.subrange(0, b0.len() as int)[i] == b1[i]);
                    assert(b0[i] == old(new_bsp)@[i]);
                }
                assert(bf.subrange(0, old(new_bsp)@.len() as int) =~= old(new_bsp)@);
                assert forall|i: int|
                    0 <= i < bf.len() implies ((#[trigger] bf[i]).is_leaf || (i < bf[i].left
                    < bf.len() && i < bf[i].right < bf.len())) by {
                    if i != idx as int {
                        assert(bf[i] == b1[i]);
                    }
                }
                assert forall|i: int|
                    0 <= i < bf.len() && (#[trigger] bf[i]).is_leaf implies bf[i].count == 0 by {
                    if i != idx as int {
                        assert(bf[i] == b1[i]);
                    }
                }
                assert(b1 == b0 + ls.0);
                assert(whole.0 == seq![
                    BspNode { is_leaf: true, left: NONE_NODE, right: NONE_NODE, count: 0 }
                ] + ls.0);
                assert(bf =~= old(new_bsp)@ + whole.0);
                assert(final(new_dir_tree)@ == old(new_dir_tree)@ + whole.1);
            }
            return idx;
        }
        let r2 = refine_bsp_node(bsp, n.right, dir_tree, new_bsp, new_dir_tree, split_threshold);
        let ghost rs = spec_refine_bsp(
            bsp@,
            n.right,
            dir_tree@,
            split_threshold,
            old(new_bsp)@.len() as int + 1 + ls.0.len(),
            old(new_dir_tree)@.len() as int + ls.1.len(),
        );
        let ghost b2 = new_bsp@;
        let mut m = new_bsp[idx as usize];
        m.is_leaf = false;
        m.left = l;
        m.right = r2;
        m.count = n.count;
        new_bsp.set(idx as usize, m);
        proof {
            let bf = new_bsp@;
            assert forall|i: int| 0 <= i < b1.len() implies #[trigger] b2[i] == b1[i] by {
                assert(b2.subrange(0, b1.len() as int)[i] == b2[i]);
            }
            assert forall|i: int|
                0 <= i < old(new_bsp)@.len() implies #[trigger] bf[i] == old(new_bsp)@[i] by {
                assert(bf[i] == b2[i]);
                assert(b2[i] == b1[i]);
                assert(b1.subrange(0, b0.len() as int)[i] == b1[i]);
                assert(b0[i] == old(new_bsp)@[i]);
            }
            assert(bf.subrange(0, old(new_bsp)@.len() as int) =~= old(new_bsp)@);
            assert forall|i: int|
                0 <= i < bf.len() implies ((#[trigger] bf[i]).is_leaf || (i < bf[i].left
                < bf.len() && i < bf[i].right < bf.len())) by {
                if i != idx as int && i < b2.len() {
                    assert(bf[i] == b2[i]);
                }
            }
            assert forall|i: int|
                0 <= i < bf.len() && (#[trigger] bf[i]).is_leaf implies bf[i].count == 0 by {
                if i != idx as int && i < b2.len() {
                    assert(bf[i] == b2[i]);
                }
            }
            assert(b1 == b0 + ls.0);
            assert(b2 == b1 + rs.0);
            assert(whole.0 == seq![
                BspNode {
                    is_leaf: false,
                    left: (old(new_bsp)@.len() + 1) as u32,
                    right: (old(new_bsp)@.len() + 1 + ls.0.len()) as u32,
                    count: n.count,
                }
            ] + ls.0 + rs.0);
            assert(whole.1 == ls.1 + rs.1);
            assert(bf =~= old(new_bsp)@ + whole.0);
            assert(final(new_dir_tree)@ =~= old(new_dir_tree)@ + whole.1);
        }
        idx
    } else if !n.is_leaf {
        // out of node numbers for a pair of children: keep the region as one
        // unsplit empty leaf
        let fresh = refine_quadtree(new_dir_tree, dir_tree, NONE_NODE, RATIO_SCALE, 0);
        let idx = new_bsp.len() as u32;
        new_bsp.push(BspNode { is_leaf: true, left: NONE_NODE, right: fresh, count: 0 });
        proof {
            let bf = new_bsp@;
            assert(bf.subrange(0, old(new_bsp)@.len() as int) =~= old(new_bsp)@);
            assert forall|i: int|
                0 <= i < bf.len() implies ((#[trigger] bf[i]).is_leaf || (i < bf[i].left
                < bf.len() && i < bf[i].right < bf.len())) by {
                if i < old(new_bsp)@.len() {
                    assert(bf[i] == old(new_bsp)@[i]);
                }
            }
            assert(bf =~= old(new_bsp)@ + whole.0);
            assert(final(new_dir_tree)@ == old(new_dir_tree)@ + whole.1);
        }
        idx
    } else {
        let r = split_leaf(n.left, n.right, n.count, split_threshold, dir_tree, new_bsp, new_dir_tree);
        proof {
            assert(whole == spec_split_leaf(
                n.left,
                n.right,
                n.count,
                split_threshold,
                dir_tree@,
                old(new_bsp)@.len() as int,
                old(new_dir_tree)@.len() as int,
            ));
        }
        r
    }
}

/// The integer square root: the largest root whose square still fits,
/// found by counting down from the top of the sixteen-bit range.
pub open spec fn spec_isqrt_from(x: int, r: int) -> int
    decreases r,
{
    if r <= 0 {
        0
    } else if r * r <= x {
        r
    } else {
        spec_isqrt_from(x, r - 1)
    }
}

/// The integer square root of a thirty-two-bit value.
pub open spec fn spec_isqrt(x: int) -> int {
    spec_isqrt_from(x, 0x1_0000)
}

/// Any value with `r * r <= x < (r + 1) * (r + 1)` is the square root.
proof fn lemma_isqrt_unique(x: int, r: int, r0: int)
    requires
        0 <= r <= r0 <= 0x1_0000,
        r * r <= x,
        x < (r + 1) * (r + 1),
    ensures
        spec_isqrt_from(x, r0) == r,
    decreases r0,
{
    if r0 > r {
        assert((r + 1) * (r + 1) <= r0 * r0) by (nonlinear_arith)
            requires
                0 <= r + 1 <= r0,
        ;
        lemma_isqrt_unique(x, r, r0 - 1);
    }
}

/// Whether `(r + 1)` squared still fits under `x`.
fn next_square_fits(r: u32, x: u32) -> (b: bool)
    requires
        r <= 0x1_0000,
    ensures
        b == (((r as int) + 1) * ((r as int) + 1) <= x as int),
{
    let t: u64 = (r as u64) + 1;
    proof {
        vstd::arithmetic::mul::lemma_mul_nonnegative(t as int, t as int);
        vstd::arithmetic::mul::lemma_mul_upper_bound(t as int, 0x1_0001, t as int, 0x1_0001);
    }
    t * t <= x as u64
}

/// The integer square root, rounded down.
pub fn isqrt32(x: u32) -> (r: u32)
    ensures
        (r as int) * (r as int) <= x as int,
        (x as int) < ((r as int) + 1) * ((r as int) + 1),
        r == spec_isqrt(x as int),
{
    let mut r: u32 = 0;
    while next_square_fits(r, x)
        invariant
            r <= 0x1_0000,
            (r as int) * (r as int) <= x as int,
        decreases 0x1_0000 - r,
    {
        proof {
            assert(((r as int + 1) * (r as int + 1) <= x as int && x as int <= 0xffff_ffff) ==> r
                as int + 1 <= 0xffff) by (nonlinear_arith);
        }
        r = r + 1;
    }
    proof {
        lemma_isqrt_unique(x as int, r as int, 0x1_0000);
    }
    r
}

/// The next refinement boundary after a refinement that raised the count
/// to `iter`: the previous boundary plus an interval that doubles with
/// every refinement, saturating at the top of the counter's range.
pub open spec fn spec_next_boundary(next: u32, iter: u32) -> u32 {
    let step: u32 = if iter < 27 {
        INITIAL_SAMPLES << iter
    } else {
        u32::MAX
    };
    if next + step > u32::MAX {
        u32::MAX
    } else {
        (next + step) as u32
    }
}

/// The leaf-visit threshold of refinement `iter`: the split scale times
/// the square root of the past interval count, saturating in range.
pub open spec fn spec_split_threshold(iter: u32) -> u32 {
    let shifted: u32 = if iter < 32 {
        1u32 << iter
    } else {
        u32::MAX
    };
    let widened = (SPLIT_COUNT_SCALE as int) * spec_isqrt(shifted as int);
    if widened > u32::MAX {
        u32::MAX
    } else {
        widened as u32
    }
}

/// Every node group a directional rebuild produces starts with all four
/// flux accumulators at zero.
pub proof fn lemma_spec_quadtree_zero_flux(
    existing: Seq<QuadNode>,
    node: u32,
    ratio: int,
    depth: int,
    base: int,
)
    ensures
        forall|i: int, k: int|
            0 <= i < spec_refine_quadtree(existing, node, ratio, depth, base).0.len() && 0 <= k < 4
                ==> (#[trigger] spec_refine_quadtree(existing, node, ratio, depth, base).0[i].child(
                k,
            )).flux == 0,
    decreases MAX_QUADTREE_DEPTH - depth,
{
    if !(ratio < LEAF_ENERGY_PORTION || depth >= MAX_QUADTREE_DEPTH) {
        let q0 = spec_refine_quadtree(
            existing,
            spec_quad_src(existing, node, 0),
            spec_quad_ratio(existing, node, ratio, 0),
            depth + 1,
            base,
        );
        let q1 = spec_refine_quadtree(
            existing,
            spec_quad_src(existing, node, 1),
            spec_quad_ratio(existing, node, ratio, 1),
            depth + 1,
            base + q0.0.len(),
        );
        let q2 = spec_refine_quadtree(
            existing,
            spec_quad_src(existing, node, 2),
            spec_quad_ratio(existing, node, ratio, 2),
            depth + 1,
            base + q0.0.len() + q1.0.len(),
        );
        let q3 = spec_refine_quadtree(
            existing,
            spec_quad_src(existing, node, 3),
            spec_quad_ratio(existing, node, ratio, 3),
            depth + 1,
            base + q0.0.len() + q1.0.len() + q2.0.len(),
        );
        lemma_spec_quadtree_zero_flux(
            existing,
            spec_quad_src(existing, node, 0),
            spec_quad_ratio(existing, node, ratio, 0),
            depth + 1,
            base,
        );
        lemma_spec_quadtree_zero_flux(
            existing,
            spec_quad_src(existing, node, 1),
            spec_quad_ratio(existing, node, ratio, 1),
            depth + 1,
            base + q0.0.len(),
        );
        lemma_spec_quadtree_zero_flux(
            existing,
            spec_quad_src(existing, node, 2),
            spec_quad_ratio(existing, node, ratio, 2),
            depth + 1,
            base + q0.0.len() + q1.0.len(),
        );
        lemma_spec_quadtree_zero_flux(
            existing,
            spec_quad_src(existing, node, 3),
            spec_quad_ratio(existing, node, ratio, 3),
            depth + 1,
            base + q0.0.len() + q1.0.len() + q2.0.len(),
        );
        let whole = spec_refine_quadtree(existing, node, ratio, depth, base);
        assert forall|i: int, k: int|
            0 <= i < whole.0.len() && 0 <= k < 4 implies (#[trigger] whole.0[i].child(k)).flux
            == 0 by {
            if i < q0.0.len() {
                assert(whole.0[i] == q0.0[i]);
            } else if i < q0.0.len() + q1.0.len() {
                assert(whole.0[i] == q1.0[i - q0.0.len()]);
            } else if i < q0.0.len() + q1.0.len() + q2.0.len() {
                assert(whole.0[i] == q2.0[i - q0.0.len() - q1.0.len()]);
            } else if i < q0.0.len() + q1.0.len() + q2.0.len() + q3.0.len() {
                assert(whole.0[i] == q3.0[i - q0.0.len() - q1.0.len() - q2.0.len()]);
            }
        }
    }
}

/// Every training-tree group a leaf rebuild grows starts with zero flux.
pub proof fn lemma_spec_split_leaf_zero_flux(
    guide: u32,
    train: u32,
    count: u32,
    threshold: u32,
    dir_tree: Seq<QuadNode>,
    bsp_base: int,
    qt_base: int,
)
    ensures
        forall|i: int, k: int|
            0 <= i < spec_split_leaf(guide, train, count, threshold, dir_tree, bsp_base, qt_base).1.len()
                && 0 <= k < 4 ==> (#[trigger] spec_split_leaf(
                guide,
                train,
                count,
                threshold,
                dir_tree,
                bsp_base,
                qt_base,
            ).1[i].child(k)).flux == 0,
    decreases count,
{
    let whole = spec_split_leaf(guide, train, count, threshold, dir_tree, bsp_base, qt_base);
    if count > threshold && count >= 2 && bsp_base + 2 < NONE_NODE {
        let l = spec_split_leaf(
            guide,
            train,
            spec_split_left(count),
            threshold,
            dir_tree,
            bsp_base + 1,
            qt_base,
        );
        lemma_spec_split_leaf_zero_flux(
            guide,
            train,
            spec_split_left(count),
            threshold,
            dir_tree,
            bsp_base + 1,
            qt_base,
        );
        if !(bsp_base + 1 + l.0.len() >= NONE_NODE) {
            let rr = spec_split_leaf(
                guide,
                train,
                spec_split_right(count),
                threshold,
                dir_tree,
                bsp_base + 1 + l.0.len(),
                qt_base + l.1.len(),
            );
            lemma_spec_split_leaf_zero_flux(
                guide,
                train,
                spec_split_right(count),
                threshold,
                dir_tree,
                bsp_base + 1 + l.0.len(),
                qt_base + l.1.len(),
            );
            assert forall|i: int, k: int|
                0 <= i < whole.1.len() && 0 <= k < 4 implies (#[trigger] whole.1[i].child(k)).flux
                == 0 by {
                if i < l.1.len() {
                    assert(whole.1[i] == l.1[i]);
                } else {
                    assert(whole.1[i] == rr.1[i - l.1.len()]);
                }
            }
        }
    } else {
        lemma_spec_quadtree_zero_flux(dir_tree, train, RATIO_SCALE as int, 0, qt_base);
    }
}

/// Every training-tree group a partition rebuild grows starts with zero
/// flux.
pub proof fn lemma_spec_refine_bsp_zero_flux(
    bsp: Seq<BspNode>,
    node: u32,
    dir_tree: Seq<QuadNode>,
    threshold: u32,
    bsp_base: int,
    qt_base: int,
)
    requires
        bsp_wf(bsp),
        (node as int) < bsp.len(),
    ensures
        forall|i: int, k: int|
            0 <= i < spec_refine_bsp(bsp, node, dir_tree, threshold, bsp_base, qt_base).1.len()
                && 0 <= k < 4 ==> (#[trigger] spec_refine_bsp(
                bsp,
                node,
                dir_tree,
                threshold,
                bsp_base,
                qt_base,
            ).1[i].child(k)).flux == 0,
    decreases bsp.len() - node,
{
    let whole = spec_refine_bsp(bsp, node, dir_tree, threshold, bsp_base, qt_base);
    let n = bsp[node as int];
    if !n.is_leaf && bsp_base + 2 < NONE_NODE {
        let l = spec_refine_bsp(bsp, n.left, dir_tree, threshold, bsp_base + 1, qt_base);
        lemma_spec_refine_bsp_zero_flux(bsp, n.left, dir_tree, threshold, bsp_base + 1, qt_base);
        if !(bsp_base + 1 + l.0.len() >= NONE_NODE) {
            let rr = spec_refine_bsp(
                bsp,
                n.right,
                dir_tree,
                threshold,
                bsp_base + 1 + l.0.len(),
                qt_base + l.1.len(),
            );
            lemma_spec_refine_bsp_zero_flux(
                bsp,
                n.right,
                dir_tree,
                threshold,
                bsp_base + 1 + l.0.len(),
                qt_base + l.1.len(),
            );
            assert forall|i: int, k: int|
                0 <= i < whole.1.len() && 0 <= k < 4 implies (#[trigger] whole.1[i].child(k)).flux
                == 0 by {
                if i < l.1.len() {
                    assert(whole.1[i] == l.1[i]);
                } else {
                    assert(whole.1[i] == rr.1[i - l.1.len()]);
                }
            }
        }
    } else if !n.is_leaf {
        lemma_spec_quadtree_zero_flux(dir_tree, NONE_NODE, RATIO_SCALE as int, 0, qt_base);
    } else {
        lemma_spec_split_leaf_zero_flux(
            n.left,
            n.right,
            n.count,
            threshold,
            dir_tree,
            bsp_base,
            qt_base,
        );
    }
}

/// The host side of the guide: the current spatial partition, the live
/// ("guide") and accumulating ("training") directional trees, and the
/// refinement schedule over the render loop's sample counter.
pub struct PathGuide {
    pub bsp: Vec<BspNode>,
    pub guide_tree: Vec<QuadNode>,
    pub train_tree: Vec<QuadNode>,
    pub iter: u32,
    pub next_iter: u32,
    pub train_budget_samples: u32,
    pub train_budget_ms: u64,
}

impl PathGuide {
    /// A healthy guide: a non-empty well-formed partition, well-formed
    /// directional trees, and every leaf's training root inside the
    /// training array.
    pub open spec fn wf(self) -> bool {
        &&& self.bsp@.len() > 0
        &&& bsp_wf(self.bsp@)
        &&& dir_tree_wf(self.train_tree@)
        &&& bsp_leaf_trees_in(self.bsp@, self.train_tree@)
    }

    /// A guide seeded with a single region carrying a low-resolution
    /// directional tree, refinement scheduled after the initial samples,
    /// and a training budget of fifteen percent of the planned samples and
    /// wall-clock time.
    pub fn new(samples: u32, time_limit_ms: u64) -> (r: PathGuide)
        ensures
            r.wf(),
            bsp_counts_zero(r.bsp@),
            r.iter == 0,
            r.next_iter == INITIAL_SAMPLES,
            r.train_budget_samples == (samples as int) * 3 / 20,
            r.train_budget_ms == (time_limit_ms as int) * 3 / 20,
            r.bsp@ == spec_refine_bsp(
                seq![BspNode { is_leaf: true, left: NONE_NODE, right: NONE_NODE, count: 64 }],
                0,
                Seq::empty(),
                0,
                0,
                0,
            ).0,
            r.train_tree@ == spec_refine_bsp(
                seq![BspNode { is_leaf: true, left: NONE_NODE, right: NONE_NODE, count: 64 }],
                0,
                Seq::empty(),
                0,
                0,
                0,
            ).1,
            r.guide_tree@ == seq![
                QuadNode {
                    c0: DirTreeNode { flux: 0, child: NONE_NODE },
                    c1: DirTreeNode { flux: 0, child: NONE_NODE },
                    c2: DirTreeNode { flux: 0, child: NONE_NODE },
                    c3: DirTreeNode { flux: 0, child: NONE_NODE },
                }
            ],
    {
        let mut seed_bsp: Vec<BspNode> = Vec::new();
        seed_bsp.push(BspNode { is_leaf: true, left: NONE_NODE, right: NONE_NODE, count: 64 });
        let empty_tree: Vec<QuadNode> = Vec::new();
        proof {
            assert(seed_bsp@ =~= seq![
                BspNode { is_leaf: true, left: NONE_NODE, right: NONE_NODE, count: 64 }
            ]);
            assert(empty_tree@ =~= Seq::<QuadNode>::empty());
        }
        let mut bsp: Vec<BspNode> = Vec::new();
        let mut train: Vec<QuadNode> = Vec::new();
        refine_bsp_node(&seed_bsp, 0, &empty_tree, &mut bsp, &mut train, 0);
        proof {
            assert(bsp@ =~= spec_refine_bsp(seed_bsp@, 0, empty_tree@, 0, 0, 0).0);
            assert(train@ =~= spec_refine_bsp(seed_bsp@, 0, empty_tree@, 0, 0, 0).1);
        }
        let mut guide_seed: Vec<QuadNode> = Vec::new();
        guide_seed.push(
            QuadNode {
                c0: DirTreeNode { flux: 0, child: NONE_NODE },
                c1: DirTreeNode { flux: 0, child: NONE_NODE },
                c2: DirTreeNode { flux: 0, child: NONE_NODE },
                c3: DirTreeNode { flux: 0, child: NONE_NODE },
            },
        );
        let budget_samples = (((samples as u64) * 3) / 20) as u32;
        let budget_ms = (((time_limit_ms as u128) * 3) / 20) as u64;
        PathGuide {
            bsp,
            guide_tree: guide_seed,
            train_tree: train,
            iter: 0,
            next_iter: INITIAL_SAMPLES,
            train_budget_samples: budget_samples,
            train_budget_ms: budget_ms,
        }
    }

    /// Whether the next dispatch crosses a refinement boundary: the sample
    /// counter hits the scheduled sample and both training budgets still
    /// have room.
    pub open spec fn spec_should_refine(self, sample: u32, elapsed_ms: u64) -> bool {
        sample == self.next_iter && sample < self.train_budget_samples && elapsed_ms
            < self.train_budget_ms
    }

    /// Whether the next dispatch crosses a refinement boundary.
    pub fn should_refine(&self, sample: u32, elapsed_ms: u64) -> (r: bool)
        ensures
            r == self.spec_should_refine(sample, elapsed_ms),
    {
        sample == self.next_iter && sample < self.train_budget_samples && elapsed_ms
            < self.train_budget_ms
    }

    /// The refinement hook of the render loop, called once before each
    /// sample. Off a refinement boundary it changes nothing. On one, it
    /// advances the schedule (the interval to the next boundary doubles
    /// every time), splits every leaf whose visit count exceeds the
    /// iteration's threshold, promotes every leaf's training tree to be its
    /// guide tree and grows a fresh training tree, and publishes the new
    /// arrays. After a refinement every leaf's count is zero again.
    pub fn before_sample(&mut self, sample: u32, elapsed_ms: u64) -> (r: bool)
        requires
            old(self).wf(),
        ensures
            final(self).wf(),
            r == old(self).spec_should_refine(sample, elapsed_ms),
            !r ==> *final(self) == *old(self),
            r ==> bsp_counts_zero(final(self).bsp@),
            r ==> final(self).guide_tree == old(self).train_tree,
            r ==> final(self).iter == (if old(self).iter < u32::MAX {
                old(self).iter + 1
            } else {
                old(self).iter as int
            }),
            r ==> final(self).next_iter == spec_next_boundary(
                old(self).next_iter,
                final(self).iter,
            ),
            r ==> final(self).bsp@ == spec_refine_bsp(
                old(self).bsp@,
                0,
                old(self).train_tree@,
                spec_split_threshold(final(self).iter),
                0,
                0,
            ).0,
            r ==> final(self).train_tree@ == spec_refine_bsp(
                old(self).bsp@,
                0,
                old(self).train_tree@,
                spec_split_threshold(final(self).iter),
                0,
                0,
            ).1,
            r ==> forall|i: int, k: int|
                0 <= i < final(self).train_tree@.len() && 0 <= k < 4
                    ==> (#[trigger] final(self).train_tree@[i].child(k)).flux == 0,
            r ==> final(self).train_budget_samples == old(self).train_budget_samples,
            r ==> final(self).train_budget_ms == old(self).train_budget_ms,
    {
        if !self.should_refine(sample, elapsed_ms) {
            return false;
        }
        if self.iter < u32::MAX {
            self.iter = self.iter + 1;
        }
        let step: u32 = if self.iter < 27 {
            INITIAL_SAMPLES << self.iter
        } else {
            u32::MAX
        };
        let widened: u64 = (self.next_iter as u64) + (step as u64);
        self.next_iter = if widened > u32::MAX as u64 {
            u32::MAX
        } else {
            widened as u32
        };
        let shifted: u32 = if self.iter < 32 {
            1u32 << self.iter
        } else {
            u32::MAX
        };
        let root = isqrt32(shifted);
        let widened_threshold: u64 = (SPLIT_COUNT_SCALE as u64) * (root as u64);
        let split_threshold: u32 = if widened_threshold > u32::MAX as u64 {
            u32::MAX
        } else {
            widened_threshold as u32
        };
        proof {
            assert(self.next_iter == spec_next_boundary(old(self).next_iter, self.iter));
            assert(split_threshold == spec_split_threshold(self.iter));
        }
        let mut new_bsp: Vec<BspNode> = Vec::new();
        let mut new_train: Vec<QuadNode> = Vec::new();
        refine_bsp_node(&self.bsp, 0, &self.train_tree, &mut new_bsp, &mut new_train, split_threshold);
        proof {
            lemma_spec_refine_bsp_zero_flux(
                self.bsp@,
                0,
                self.train_tree@,
                split_threshold,
                0,
                0,
            );
        }
        self.bsp = new_bsp;
        core::mem::swap(&mut self.guide_tree, &mut self.train_tree);
        self.train_tree = new_train;
        true
    }
}

} // verus!
