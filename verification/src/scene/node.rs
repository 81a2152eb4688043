//! Scene-graph nodes and their handles.

use vstd::prelude::*;
use vstd::multiset::Multiset;
use crate::handle::{index_limit, index_of, pack, tag_of, unpack_index, unpack_tag};
use crate::scene::light::LightId;
use crate::scene::material::MaterialId;
use crate::scene::shapes::ShapeId;
use crate::scene::texture::TextureId;
use crate::scene::Transform;
use crate::scene::Vec3;

verus! {

pub const NODE_TAG_BITS: u32 = 2;

/// Largest index a `NodeId` can carry.
pub const NODE_INDEX_LIMIT: u32 = 0x3fff_ffff;

/// The scene-graph node variants.
#[derive(Clone, Copy, Debug, PartialEq, Eq, Hash, Structural)]
pub enum NodeType {
    Bvh,
    Transform,
    Primitive,
}

impl NodeType {
    /// The tag value packed into a handle for this variant.
    pub open spec fn tag(self) -> u32 {
        match self {
            NodeType::Bvh => 0,
            NodeType::Transform => 1,
            NodeType::Primitive => 2,
        }
    }
}

/// Packed handle of a scene-graph node: two tag bits selecting the variant,
/// thirty index bits into that variant's array.
#[derive(Clone, Copy, Debug, PartialEq, Eq, Hash, Structural)]
pub struct NodeId(u32);

/// The packed constants of `NodeId` agree with the generic handle scheme.
proof fn lemma_node_id_limits()
    ensures
        NODE_INDEX_LIMIT == index_limit(NODE_TAG_BITS),
        3u32 < (1u32 << NODE_TAG_BITS),
{
    assert(0xffff_ffffu32 >> 2 == 0x3fff_ffffu32 && 3u32 < (1u32 << 2)) by (bit_vector);
}

impl NodeId {
    /// The variant this handle refers to. An unused fourth tag value decodes
    /// as `Primitive`; `new` never produces it.
    pub closed spec fn spec_ty(self) -> NodeType {
        if tag_of(NODE_TAG_BITS, self.0) == 0 {
            NodeType::Bvh
        } else if tag_of(NODE_TAG_BITS, self.0) == 1 {
            NodeType::Transform
        } else {
            NodeType::Primitive
        }
    }

    /// The index into the variant's array.
    pub closed spec fn spec_idx(self) -> u32 {
        index_of(NODE_TAG_BITS, self.0)
    }

    /// The all-zero handle as a value.
    pub closed spec fn spec_zero() -> NodeId {
        NodeId(0)
    }

    /// The all-zero handle, used as a sentinel slot.
    pub fn zero() -> (r: NodeId)
        ensures
            r == NodeId::spec_zero(),
            r.spec_ty() == NodeType::Bvh,
            r.spec_idx() == 0,
    {
        proof {
            assert(0u32 >> 30u32 == 0u32 && 0u32 & (0xffff_ffffu32 >> 2u32) == 0u32)
                by (bit_vector);
        }
        NodeId(0)
    }

    /// Packs a variant and an in-range index into a handle; both unpack to
    /// exactly the values given.
    pub fn new(ty: NodeType, idx: usize) -> (r: NodeId)
        requires
            idx <= NODE_INDEX_LIMIT,
        ensures
            r.spec_ty() == ty,
            r.spec_idx() == idx,
    {
        proof {
            lemma_node_id_limits();
        }
        let tag: u32 = match ty {
            NodeType::Bvh => 0,
            NodeType::Transform => 1,
            NodeType::Primitive => 2,
        };
        NodeId(pack(NODE_TAG_BITS, tag, idx as u32))
    }

    /// The variant this handle refers to.
    pub fn ty(self) -> (r: NodeType)
        ensures
            r == self.spec_ty(),
    {
        match unpack_tag(NODE_TAG_BITS, self.0) {
            0 => NodeType::Bvh,
            1 => NodeType::Transform,
            _ => NodeType::Primitive,
        }
    }

    /// The index into the variant's array.
    pub fn idx(self) -> (r: usize)
        ensures
            r == self.spec_idx(),
    {
        unpack_index(NODE_TAG_BITS, self.0) as usize
    }
}

/// The box stored in a BVH node.
pub open spec fn node_box(nodes: Seq<BvhNode>, i: int) -> crate::scene::Bounds {
    crate::scene::Bounds { min: nodes[i].min, max: nodes[i].max }
}

/// The flattened BVH rooted at index `i` occupies exactly the index range
/// `[i, end)`: a single leaf wrapper, or an internal node whose left child
/// is the tree starting right behind it at `i + 1` and whose right child is
/// the tree its `far_node` handle points at. Every internal node's box is
/// the union of its children's boxes.
pub open spec fn bvh_wf(nodes: Seq<BvhNode>, i: int, end: int) -> bool
    decreases end - i,
{
    if i < 0 || end > nodes.len() || end <= i {
        false
    } else if end == i + 1 {
        nodes[i].flags == 0 && node_box(nodes, i).wf()
    } else {
        let n = nodes[i];
        let far = n.far_node.spec_idx() as int;
        &&& n.flags != 0
        &&& n.far_node.spec_ty() == NodeType::Bvh
        &&& i + 1 < far < end
        &&& bvh_wf(nodes, i + 1, far)
        &&& bvh_wf(nodes, far, end)
        &&& node_box(nodes, i) == node_box(nodes, i + 1).spec_union(node_box(nodes, far))
    }
}

/// The objects wrapped by the leaves of the tree over `[i, end)`, each with
/// the box its leaf stores.
pub open spec fn bvh_leaves(nodes: Seq<BvhNode>, i: int, end: int) -> Multiset<
    (NodeId, crate::scene::Bounds),
>
    decreases end - i,
{
    if i < 0 || end > nodes.len() || end <= i {
        Multiset::empty()
    } else if end == i + 1 {
        Multiset::empty().insert((nodes[i].far_node, node_box(nodes, i)))
    } else {
        let far = nodes[i].far_node.spec_idx() as int;
        if i + 1 < far < end {
            bvh_leaves(nodes, i + 1, far).add(bvh_leaves(nodes, far, end))
        } else {
            Multiset::empty()
        }
    }
}

/// The tree over `[i, end)` reads only that index range, so it is immune to
/// changes elsewhere in the node array.
pub proof fn lemma_bvh_frame(n1: Seq<BvhNode>, n2: Seq<BvhNode>, i: int, end: int)
    requires
        0 <= i < end <= n1.len(),
        end <= n2.len(),
        forall|j: int| i <= j < end ==> n1[j] == n2[j],
    ensures
        bvh_wf(n1, i, end) == bvh_wf(n2, i, end),
        bvh_leaves(n1, i, end) == bvh_leaves(n2, i, end),
    decreases end - i,
{
    if end == i + 1 {
    } else {
        let far1 = n1[i].far_node.spec_idx() as int;
        if i + 1 < far1 < end {
            lemma_bvh_frame(n1, n2, i + 1, far1);
            lemma_bvh_frame(n1, n2, far1, end);
        }
    }
}

/// For every internal node of a well-formed tree, the left child sits
/// directly behind its parent in the node array: walking the tree needs no
/// stored left-child handle.
pub proof fn lemma_bvh_left_child_layout(nodes: Seq<BvhNode>, i: int, end: int)
    requires
        bvh_wf(nodes, i, end),
        end - i > 1,
    ensures
        bvh_wf(nodes, i + 1, nodes[i].far_node.spec_idx() as int),
        i + 1 < nodes[i].far_node.spec_idx() < end,
{
}

/// The root of a well-formed tree bounds everything below it: every object
/// a leaf wraps has its box covered by the root's box.
pub proof fn lemma_bvh_root_covers_leaves(
    nodes: Seq<BvhNode>,
    i: int,
    end: int,
    leaf: (NodeId, crate::scene::Bounds),
)
    requires
        bvh_wf(nodes, i, end),
        bvh_leaves(nodes, i, end).count(leaf) > 0,
    ensures
        node_box(nodes, i).covers(leaf.1),
    decreases end - i,
{
    broadcast use vstd::multiset::group_multiset_axioms;

    if end == i + 1 {
        assert(leaf == (nodes[i].far_node, node_box(nodes, i)));
    } else {
        let far = nodes[i].far_node.spec_idx() as int;
        if bvh_leaves(nodes, i + 1, far).count(leaf) > 0 {
            lemma_bvh_root_covers_leaves(nodes, i + 1, far, leaf);
        } else {
            lemma_bvh_root_covers_leaves(nodes, far, end, leaf);
        }
    }
}

/// The boxes of a run of bounded objects.
pub open spec fn boxes_of(items: Seq<(NodeId, crate::scene::Bounds)>) -> Seq<crate::scene::Bounds> {
    items.map_values(|p: (NodeId, crate::scene::Bounds)| p.1)
}

/// The union of a non-empty run of boxes, folded from the front.
pub open spec fn boxes_union(bs: Seq<crate::scene::Bounds>) -> crate::scene::Bounds
    recommends
        bs.len() > 0,
    decreases bs.len(),
{
    if bs.len() <= 1 {
        bs[0]
    } else {
        boxes_union(bs.drop_last()).spec_union(bs.last())
    }
}

/// The union of the boxes `bs[k..]`, folded from the back.
pub open spec fn boxes_union_from(bs: Seq<crate::scene::Bounds>, k: int) -> crate::scene::Bounds
    recommends
        0 <= k < bs.len(),
    decreases bs.len() - k,
{
    if k >= bs.len() - 1 {
        bs[k]
    } else {
        bs[k].spec_union(boxes_union_from(bs, k + 1))
    }
}

/// Any element can be pulled out of a union and joined back in last.
proof fn lemma_union_remove(bs: Seq<crate::scene::Bounds>, i: int)
    requires
        bs.len() >= 2,
        0 <= i < bs.len(),
    ensures
        boxes_union(bs) == boxes_union(bs.remove(i)).spec_union(bs[i]),
    decreases bs.len(),
{
    if i == bs.len() - 1 {
        assert(bs.remove(i) =~= bs.drop_last());
    } else if bs.len() == 2 {
        assert(bs.remove(0) =~= seq![bs[1]]);
        assert(bs.drop_last() =~= seq![bs[0]]);
        assert(boxes_union(seq![bs[1]]) == bs[1]);
        assert(boxes_union(seq![bs[0]]) == bs[0]);
        assert(boxes_union(bs) == bs[0].spec_union(bs[1]));
        crate::scene::lemma_union_comm(bs[0], bs[1]);
    } else {
        let dl = bs.drop_last();
        lemma_union_remove(dl, i);
        assert(bs.remove(i).drop_last() =~= dl.remove(i));
        assert(bs.remove(i).last() == bs.last());
        assert(boxes_union(bs) == boxes_union(dl).spec_union(bs.last()));
        assert(boxes_union(bs.remove(i)) == boxes_union(dl.remove(i)).spec_union(bs.last()));
        crate::scene::lemma_union_assoc(boxes_union(dl.remove(i)), bs[i], bs.last());
        crate::scene::lemma_union_comm(bs[i], bs.last());
        crate::scene::lemma_union_assoc(boxes_union(dl.remove(i)), bs.last(), bs[i]);
    }
}

/// The union of a run of objects' boxes does not depend on their order:
/// any two runs holding the same objects union to the same box.
pub proof fn lemma_pairs_union_permutation(
    s1: Seq<(NodeId, crate::scene::Bounds)>,
    s2: Seq<(NodeId, crate::scene::Bounds)>,
)
    requires
        s1.len() > 0,
        s1.to_multiset() == s2.to_multiset(),
    ensures
        boxes_union(boxes_of(s1)) == boxes_union(boxes_of(s2)),
    decreases s1.len(),
{
    broadcast use vstd::seq_lib::group_to_multiset_ensures;

    assert(s1.len() == s1.to_multiset().len());
    assert(s2.len() == s2.to_multiset().len());
    assert(s1.len() == s2.len());
    let x = s1.last();
    assert(s1.contains(x));
    assert(s1.to_multiset().count(x) > 0);
    assert(s2.to_multiset().count(x) > 0);
    assert(s2.contains(x));
    let i = s2.index_of(x);
    if s1.len() == 1 {
        assert(boxes_of(s1) =~= seq![x.1]);
        assert(boxes_of(s2) =~= seq![x.1]);
    } else {
        let r1 = s1.drop_last();
        let r2 = s2.remove(i);
        assert(s1.remove(s1.len() - 1) =~= r1);
        assert(r1.to_multiset() == s1.to_multiset().remove(x));
        assert(r2.to_multiset() == s2.to_multiset().remove(x));
        lemma_pairs_union_permutation(r1, r2);
        assert(boxes_of(s1).drop_last() =~= boxes_of(r1));
        assert(boxes_of(s1).last() == x.1);
        assert(boxes_of(r2) =~= boxes_of(s2).remove(i));
        lemma_union_remove(boxes_of(s2), i);
        assert(s2[i] == x);
        assert(boxes_of(s2)[i] == x.1);
    }
}

/// The union over a concatenation of two non-empty runs is the union of
/// their unions.
pub proof fn lemma_boxes_union_concat(bs: Seq<crate::scene::Bounds>, a: Seq<crate::scene::Bounds>, b: Seq<crate::scene::Bounds>)
    requires
        a.len() > 0,
        b.len() > 0,
        bs =~= a + b,
    ensures
        boxes_union(bs) == boxes_union(a).spec_union(boxes_union(b)),
    decreases b.len(),
{
    if b.len() == 1 {
        assert(bs.drop_last() =~= a);
        assert(bs.last() == b[0]);
    } else {
        lemma_boxes_union_concat(bs.drop_last(), a, b.drop_last());
        assert(bs.drop_last() =~= a + b.drop_last());
        assert(bs.last() == b.last());
    }
}

/// A union of well-formed boxes is well-formed.
pub proof fn lemma_boxes_union_wf(bs: Seq<crate::scene::Bounds>)
    requires
        bs.len() > 0,
        forall|j: int| 0 <= j < bs.len() ==> (#[trigger] bs[j]).wf(),
    ensures
        boxes_union(bs).wf(),
    decreases bs.len(),
{
    if bs.len() > 1 {
        lemma_boxes_union_wf(bs.drop_last());
    }
}

/// Swapping two entries of a run leaves the run's multiset unchanged.
proof fn lemma_swap_multiset<T>(t: Seq<T>, i: int, j: int)
    requires
        0 <= i < j < t.len(),
    ensures
        t.update(i, t[j]).update(j, t[i]).to_multiset() == t.to_multiset(),
{
    broadcast use vstd::seq_lib::lemma_multiset_commutative;

    let u = t.update(i, t[j]).update(j, t[i]);
    let front = t.subrange(0, i);
    let mid = t.subrange(i + 1, j);
    let back = t.subrange(j + 1, t.len() as int);
    assert(t =~= front + seq![t[i]] + mid + seq![t[j]] + back);
    assert(u =~= front + seq![t[j]] + mid + seq![t[i]] + back);
    assert(t.to_multiset() =~= front.to_multiset().add(seq![t[i]].to_multiset()).add(
        mid.to_multiset(),
    ).add(seq![t[j]].to_multiset()).add(back.to_multiset()));
    assert(u.to_multiset() =~= front.to_multiset().add(seq![t[j]].to_multiset()).add(
        mid.to_multiset(),
    ).add(seq![t[i]].to_multiset()).add(back.to_multiset()));
    assert(u.to_multiset() =~= t.to_multiset());
}

/// The run `[lo, hi)` is ordered by the boxes' centroid keys along `axis`.
pub open spec fn sorted_by_key(
    items: Seq<(NodeId, crate::scene::Bounds)>,
    lo: int,
    hi: int,
    axis: int,
) -> bool {
    forall|a: int, b: int|
        lo <= a < b < hi ==> (#[trigger] items[a]).1.spec_centroid_key(axis)
            <= (#[trigger] items[b]).1.spec_centroid_key(axis)
}

/// The centroid sort key of a box along an axis.
fn centroid_key(b: &crate::scene::Bounds, axis: usize) -> (r: i64)
    requires
        b.wf(),
    ensures
        r == b.spec_centroid_key(axis as int),
{
    if axis == 0 {
        b.min.x + b.max.x
    } else if axis == 1 {
        b.min.y + b.max.y
    } else {
        b.min.z + b.max.z
    }
}

/// The run with `x` inserted behind every entry whose key does not exceed
/// `x`'s: the insertion step of a stable sort.
pub open spec fn spec_insert_by_key(
    s: Seq<(NodeId, crate::scene::Bounds)>,
    x: (NodeId, crate::scene::Bounds),
    axis: int,
) -> Seq<(NodeId, crate::scene::Bounds)>
    decreases s.len(),
{
    if s.len() == 0 {
        seq![x]
    } else if s.last().1.spec_centroid_key(axis) > x.1.spec_centroid_key(axis) {
        spec_insert_by_key(s.drop_last(), x, axis).push(s.last())
    } else {
        s.push(x)
    }
}

/// The run stably sorted by centroid key along `axis`: every entry
/// inserted in turn behind its equals, so ties keep their input order.
pub open spec fn spec_sort_by_key(s: Seq<(NodeId, crate::scene::Bounds)>, axis: int) -> Seq<
    (NodeId, crate::scene::Bounds),
>
    decreases s.len(),
{
    if s.len() == 0 {
        Seq::empty()
    } else {
        spec_insert_by_key(spec_sort_by_key(s.drop_last(), axis), s.last(), axis)
    }
}

/// Insertion grows a run by one.
pub proof fn lemma_insert_len(s: Seq<(NodeId, crate::scene::Bounds)>, x: (NodeId, crate::scene::Bounds), axis: int)
    ensures
        spec_insert_by_key(s, x, axis).len() == s.len() + 1,
    decreases s.len(),
{
    if s.len() > 0 && s.last().1.spec_centroid_key(axis) > x.1.spec_centroid_key(axis) {
        lemma_insert_len(s.drop_last(), x, axis);
    }
}

/// Sorting keeps the run's length.
pub proof fn lemma_sort_len(s: Seq<(NodeId, crate::scene::Bounds)>, axis: int)
    ensures
        spec_sort_by_key(s, axis).len() == s.len(),
    decreases s.len(),
{
    if s.len() > 0 {
        lemma_sort_len(s.drop_last(), axis);
        lemma_insert_len(spec_sort_by_key(s.drop_last(), axis), s.last(), axis);
    }
}

/// Inserting at the slot behind the last entry whose key does not exceed
/// the new entry's splits the run exactly there.
proof fn lemma_insert_at(
    s: Seq<(NodeId, crate::scene::Bounds)>,
    x: (NodeId, crate::scene::Bounds),
    axis: int,
    p: int,
)
    requires
        0 <= p <= s.len(),
        forall|k: int|
            p <= k < s.len() ==> (#[trigger] s[k]).1.spec_centroid_key(axis)
                > x.1.spec_centroid_key(axis),
        p > 0 ==> s[p - 1].1.spec_centroid_key(axis) <= x.1.spec_centroid_key(axis),
    ensures
        spec_insert_by_key(s, x, axis) == s.take(p) + seq![x] + s.skip(p),
    decreases s.len(),
{
    if s.len() == 0 {
        assert(s.take(0) + seq![x] + s.skip(0) =~= seq![x]);
    } else if p == s.len() {
        assert(s.take(p) + seq![x] + s.skip(p) =~= s.push(x));
    } else {
        lemma_insert_at(s.drop_last(), x, axis, p);
        assert(forall|k: int|
            p <= k < s.len() - 1 ==> #[trigger] s.drop_last()[k] == s[k]);
        assert(spec_insert_by_key(s, x, axis) == spec_insert_by_key(s.drop_last(), x, axis).push(
            s.last(),
        ));
        assert((s.drop_last().take(p) + seq![x] + s.drop_last().skip(p)).push(s.last()) =~= s.take(
            p,
        ) + seq![x] + s.skip(p));
    }
}

/// Whether the entry before slot `j` has the larger centroid key.
fn keys_inverted(objs: &Vec<(NodeId, crate::scene::Bounds)>, j: usize, axis: usize) -> (r: bool)
    requires
        1 <= j < objs@.len(),
        objs@[j - 1].1.wf(),
        objs@[j as int].1.wf(),
    ensures
        r == (objs@[j - 1].1.spec_centroid_key(axis as int) > objs@[j as int].1.spec_centroid_key(
            axis as int,
        )),
{
    let key_prev = centroid_key(&objs[j - 1].1, axis);
    let key_here = centroid_key(&objs[j].1, axis);
    key_prev > key_here
}

/// Sorts the run `[lo, hi)` of `objs` by centroid key along `axis` with a
/// stable insertion sort; entries outside the run do not move, and the run
/// keeps exactly its objects.
fn sort_range(objs: &mut Vec<(NodeId, crate::scene::Bounds)>, lo: usize, hi: usize, axis: usize)
    requires
        lo <= hi <= old(objs)@.len(),
        forall|j: int| lo <= j < hi ==> (#[trigger] old(objs)@[j]).1.wf(),
    ensures
        final(objs)@.len() == old(objs)@.len(),
        forall|j: int|
            (0 <= j < lo || hi <= j < old(objs)@.len()) ==> final(objs)@[j] == old(objs)@[j],
        final(objs)@.subrange(lo as int, hi as int).to_multiset() == old(objs)@.subrange(
            lo as int,
            hi as int,
        ).to_multiset(),
        forall|j: int| lo <= j < hi ==> (#[trigger] final(objs)@[j]).1.wf(),
        sorted_by_key(final(objs)@, lo as int, hi as int, axis as int),
        final(objs)@.subrange(lo as int, hi as int) == spec_sort_by_key(
            old(objs)@.subrange(lo as int, hi as int),
            axis as int,
        ),
{
    if lo >= hi {
        proof {
            assert(final(objs)@.subrange(lo as int, hi as int) =~= spec_sort_by_key(
                old(objs)@.subrange(lo as int, hi as int),
                axis as int,
            ));
        }
        return ;
    }
    proof {
        assert(old(objs)@.subrange(lo as int, lo + 1).drop_last() =~= old(objs)@.subrange(
            lo as int,
            lo as int,
        ));
        assert(old(objs)@.subrange(lo as int, lo + 1).last() == old(objs)@[lo as int]);
        assert(old(objs)@.subrange(lo as int, lo as int) =~= Seq::<
            (NodeId, crate::scene::Bounds),
        >::empty());
        assert(spec_sort_by_key(
            Seq::<(NodeId, crate::scene::Bounds)>::empty(),
            axis as int,
        ) =~= Seq::<(NodeId, crate::scene::Bounds)>::empty());
        assert(spec_insert_by_key(
            Seq::<(NodeId, crate::scene::Bounds)>::empty(),
            old(objs)@[lo as int],
            axis as int,
        ) =~= seq![old(objs)@[lo as int]]);
        assert(spec_sort_by_key(old(objs)@.subrange(lo as int, lo + 1), axis as int)
            =~= seq![old(objs)@[lo as int]]);
        assert(objs@.subrange(lo as int, lo + 1) =~= seq![old(objs)@[lo as int]]);
    }
    let mut i: usize = lo + 1;
    while i < hi
        invariant
            lo < i <= hi <= objs@.len(),
            objs@.len() == old(objs)@.len(),
            forall|j: int|
                (0 <= j < lo || hi <= j < old(objs)@.len()) ==> objs@[j] == old(objs)@[j],
            objs@.subrange(lo as int, hi as int).to_multiset() == old(objs)@.subrange(
                lo as int,
                hi as int,
            ).to_multiset(),
            forall|j: int| lo <= j < hi ==> (#[trigger] objs@[j]).1.wf(),
            sorted_by_key(objs@, lo as int, i as int, axis as int),
            forall|j: int| i <= j < hi ==> #[trigger] objs@[j] == old(objs)@[j],
            objs@.subrange(lo as int, i as int) == spec_sort_by_key(
                old(objs)@.subrange(lo as int, i as int),
                axis as int,
            ),
        decreases hi - i,
    {
        let ghost prefix = spec_sort_by_key(old(objs)@.subrange(lo as int, i as int), axis as int);
        let ghost x = old(objs)@[i as int];
        proof {
            lemma_sort_len(old(objs)@.subrange(lo as int, i as int), axis as int);
            assert(objs@.subrange(lo as int, i + 1) =~= prefix.take(i - lo) + seq![x]
                + prefix.skip(i - lo));
        }
        let mut j: usize = i;
        while j > lo && keys_inverted(objs, j, axis)
            invariant
                lo <= j <= i < hi <= objs@.len(),
                objs@.len() == old(objs)@.len(),
                forall|j2: int|
                    (0 <= j2 < lo || hi <= j2 < old(objs)@.len()) ==> objs@[j2] == old(objs)@[j2],
                objs@.subrange(lo as int, hi as int).to_multiset() == old(objs)@.subrange(
                    lo as int,
                    hi as int,
                ).to_multiset(),
                forall|j2: int| lo <= j2 < hi ==> (#[trigger] objs@[j2]).1.wf(),
                forall|a: int, b: int|
                    lo <= a < b <= i && b != j ==> (#[trigger] objs@[a]).1.spec_centroid_key(
                        axis as int,
                    ) <= (#[trigger] objs@[b]).1.spec_centroid_key(axis as int),
                forall|b: int|
                    j < b <= i ==> (#[trigger] objs@[b]).1.spec_centroid_key(axis as int)
                        >= objs@[j as int].1.spec_centroid_key(axis as int),
                prefix == spec_sort_by_key(
                    old(objs)@.subrange(lo as int, i as int),
                    axis as int,
                ),
                prefix.len() == i - lo,
                x == old(objs)@[i as int],
                forall|j2: int| i < j2 < hi ==> #[trigger] objs@[j2] == old(objs)@[j2],
                objs@.subrange(lo as int, i + 1) == prefix.take(j - lo) + seq![x] + prefix.skip(
                    j - lo,
                ),
                forall|m: int|
                    j - lo <= m < prefix.len() ==> (#[trigger] prefix[m]).1.spec_centroid_key(
                        axis as int,
                    ) > x.1.spec_centroid_key(axis as int),
            decreases j,
        {
            let ghost before = objs@;
            let prev = objs[j - 1];
            let here = objs[j];
            objs.set(j - 1, here);
            objs.set(j, prev);
            proof {
                assert(objs@ =~= before.update(j - 1, before[j as int]).update(
                    j as int,
                    before[j - 1],
                ));
                lemma_swap_multiset(before, j - 1, j as int);
                assert(objs@.subrange(lo as int, hi as int) =~= before.update(
                    j - 1,
                    before[j as int],
                ).update(j as int, before[j - 1]).subrange(lo as int, hi as int));
                lemma_swap_multiset(
                    before.subrange(lo as int, hi as int),
                    j - 1 - lo,
                    j - lo,
                );
                assert(before.update(j - 1, before[j as int]).update(j as int, before[j - 1])
                    .subrange(lo as int, hi as int) =~= before.subrange(lo as int, hi as int)
                    .update(j - 1 - lo, before.subrange(lo as int, hi as int)[j - lo]).update(
                    j - lo,
                    before.subrange(lo as int, hi as int)[j - 1 - lo],
                ));
                assert(before.subrange(lo as int, i + 1)[j - 1 - lo] == before[j - 1]);
                assert(before[j - 1] == prefix[j - 1 - lo]);
                assert(objs@.subrange(lo as int, i + 1) =~= prefix.take(j - 1 - lo) + seq![x]
                    + prefix.skip(j - 1 - lo));
            }
            j -= 1;
        }
        proof {
            if j > lo {
                assert(objs@.subrange(lo as int, i + 1)[j - 1 - lo] == objs@[j - 1]);
                assert(objs@[j - 1] == prefix[j - 1 - lo]);
                assert(objs@.subrange(lo as int, i + 1)[j - lo] == objs@[j as int]);
                assert(objs@[j as int] == x);
            }
            lemma_insert_at(prefix, x, axis as int, j - lo);
            assert(objs@.subrange(lo as int, i + 1) =~= spec_insert_by_key(prefix, x, axis as int));
            assert(old(objs)@.subrange(lo as int, i + 1).drop_last() =~= old(objs)@.subrange(
                lo as int,
                i as int,
            ));
            assert(old(objs)@.subrange(lo as int, i + 1).last() == x);
            assert(spec_sort_by_key(old(objs)@.subrange(lo as int, i + 1), axis as int)
                == spec_insert_by_key(prefix, x, axis as int));
        }
        i += 1;
    }
}

/// The split-cost proxy of cutting a run after its first `k` objects: each
/// side's object count weighted by the surface area of its box union.
pub open spec fn spec_sah_cost(items: Seq<(NodeId, crate::scene::Bounds)>, k: int) -> int
    recommends
        1 <= k < items.len(),
{
    k * boxes_union(boxes_of(items).take(k)).spec_surface_area() + (items.len() - k)
        * boxes_union_from(boxes_of(items), k).spec_surface_area()
}

/// A well-formed box's surface area is non-negative and far below the
/// `u128` range.
proof fn lemma_area_bound(b: crate::scene::Bounds)
    requires
        b.wf(),
    ensures
        0 <= b.spec_surface_area() <= 0x2000_0000_0000_0000_0000_0000,
{
    let dx = b.max.x - b.min.x;
    let dy = b.max.y - b.min.y;
    let dz = b.max.z - b.min.z;
    assert(2 * (dx * dy + dx * dz + dy * dz) >= 0 && 2 * (dx * dy + dx * dz + dy * dz)
        <= 0x2000_0000_0000_0000_0000_0000) by (nonlinear_arith)
        requires
            0 <= dx <= 0x200_0000_0000,
            0 <= dy <= 0x200_0000_0000,
            0 <= dz <= 0x200_0000_0000,
    ;
}

/// A split-cost term stays far below the `u128` range.
proof fn lemma_cost_term_bound(k: int, area: int)
    requires
        0 <= k <= 0x2000_0000,
        0 <= area <= 0x2000_0000_0000_0000_0000_0000,
    ensures
        0 <= k * area <= 0x400_0000_0000_0000_0000_0000_0000_0000,
{
    vstd::arithmetic::mul::lemma_mul_nonnegative(k, area);
    vstd::arithmetic::mul::lemma_mul_upper_bound(
        k,
        0x2000_0000,
        area,
        0x2000_0000_0000_0000_0000_0000,
    );
    assert((0x2000_0000int) * (0x2000_0000_0000_0000_0000_0000int)
        == 0x400_0000_0000_0000_0000_0000_0000_0000int) by (nonlinear_arith);
}

/// The union of the boxes of the run `[lo, hi)`.
fn range_union(objs: &Vec<(NodeId, crate::scene::Bounds)>, lo: usize, hi: usize) -> (r:
    crate::scene::Bounds)
    requires
        lo < hi <= objs@.len(),
        forall|j: int| lo <= j < hi ==> (#[trigger] objs@[j]).1.wf(),
    ensures
        r == boxes_union(boxes_of(objs@.subrange(lo as int, hi as int))),
        r.wf(),
{
    let mut bb = objs[lo].1;
    let mut i: usize = lo + 1;
    while i < hi
        invariant
            lo < i <= hi <= objs@.len(),
            forall|j: int| lo <= j < hi ==> (#[trigger] objs@[j]).1.wf(),
            bb == boxes_union(boxes_of(objs@.subrange(lo as int, i as int))),
            bb.wf(),
        decreases hi - i,
    {
        let ghost prev = boxes_of(objs@.subrange(lo as int, i as int));
        bb = bb.union(&objs[i].1);
        proof {
            let cur = boxes_of(objs@.subrange(lo as int, i + 1));
            assert(cur =~= prev.push(objs@[i as int].1));
            assert(cur.drop_last() =~= prev);
            assert(cur.last() == objs@[i as int].1);
        }
        i += 1;
    }
    proof {
        assert(boxes_of(objs@.subrange(lo as int, hi as int)) =~= boxes_of(
            objs@.subrange(lo as int, hi as int),
        ));
    }
    bb
}

/// The cheapest of the first `j` split points, the earliest among equals.
pub open spec fn spec_best_split_upto(seg: Seq<(NodeId, crate::scene::Bounds)>, j: int) -> int
    decreases j,
{
    if j <= 1 {
        1
    } else {
        let b = spec_best_split_upto(seg, j - 1);
        if spec_sah_cost(seg, j) < spec_sah_cost(seg, b) {
            j
        } else {
            b
        }
    }
}

/// The cheapest split of the run, the earliest among equals.
pub open spec fn spec_best_split(seg: Seq<(NodeId, crate::scene::Bounds)>) -> int {
    spec_best_split_upto(seg, seg.len() - 1)
}

/// The chosen split always lies strictly inside the run.
pub proof fn lemma_best_split_range(seg: Seq<(NodeId, crate::scene::Bounds)>, j: int)
    requires
        j >= 1,
    ensures
        1 <= spec_best_split_upto(seg, j) <= j,
    decreases j,
{
    if j > 1 {
        lemma_best_split_range(seg, j - 1);
    }
}

/// The order the builder leaves a run's objects in: the run sorted by
/// centroid along the widest axis of its box union, each side of the
/// cheapest split recursively reordered the same way.
pub open spec fn spec_build_order(seg: Seq<(NodeId, crate::scene::Bounds)>) -> Seq<
    (NodeId, crate::scene::Bounds),
>
    decreases seg.len()
        via spec_build_order_decreases
{
    if seg.len() <= 1 {
        seg
    } else {
        let sorted = spec_sort_by_key(seg, spec_major_axis(boxes_union(boxes_of(seg))));
        let s = spec_best_split(sorted);
        spec_build_order(sorted.take(s)) + spec_build_order(sorted.skip(s))
    }
}

#[via_fn]
proof fn spec_build_order_decreases(seg: Seq<(NodeId, crate::scene::Bounds)>) {
    if seg.len() > 1 {
        let sorted = spec_sort_by_key(seg, spec_major_axis(boxes_union(boxes_of(seg))));
        lemma_sort_len(seg, spec_major_axis(boxes_union(boxes_of(seg))));
        lemma_best_split_range(sorted, sorted.len() - 1);
    }
}

/// The flags word an internal node carries: one bit, selecting its split
/// axis.
pub open spec fn spec_axis_flags(axis: int) -> u32 {
    if axis == 0 {
        1
    } else if axis == 1 {
        2
    } else {
        4
    }
}

/// The index of the box's widest axis, ties resolved to the earlier axis.
pub open spec fn spec_major_axis(b: crate::scene::Bounds) -> int {
    let sx = b.max.x - b.min.x;
    let sy = b.max.y - b.min.y;
    let sz = b.max.z - b.min.z;
    if sx >= sy && sx >= sz {
        0
    } else if sy >= sz {
        1
    } else {
        2
    }
}

/// The index of the box's widest axis.
fn major_axis(b: &crate::scene::Bounds) -> (r: usize)
    requires
        b.wf(),
    ensures
        r == spec_major_axis(*b),
        r < 3,
{
    let sx = b.max.x - b.min.x;
    let sy = b.max.y - b.min.y;
    let sz = b.max.z - b.min.z;
    if sx >= sy && sx >= sz {
        0
    } else if sy >= sz {
        1
    } else {
        2
    }
}

/// Picks the split of the run `[lo, hi)` that minimizes the split-cost
/// proxy, computing every prefix and suffix cost with one forward and one
/// backward scan. Among equal costs the earliest split wins. The result is
/// the number of objects on the left side.
pub fn best_split(objs: &Vec<(NodeId, crate::scene::Bounds)>, lo: usize, hi: usize) -> (k: usize)
    requires
        lo + 2 <= hi <= objs@.len(),
        hi - lo <= 0x2000_0000,
        forall|j: int| lo <= j < hi ==> (#[trigger] objs@[j]).1.wf(),
    ensures
        1 <= k < hi - lo,
        forall|j: int|
            1 <= j < hi - lo ==> spec_sah_cost(objs@.subrange(lo as int, hi as int), k as int)
                <= spec_sah_cost(objs@.subrange(lo as int, hi as int), j),
        forall|j: int|
            1 <= j < k ==> spec_sah_cost(objs@.subrange(lo as int, hi as int), j) > spec_sah_cost(
                objs@.subrange(lo as int, hi as int),
                k as int,
            ),
        k == spec_best_split(objs@.subrange(lo as int, hi as int)),
{
    let n = hi - lo;
    let ghost seg = objs@.subrange(lo as int, hi as int);
    let ghost boxes = boxes_of(seg);
    let mut costs: Vec<u128> = Vec::new();
    let mut bb = objs[lo].1;
    proof {
        assert(boxes.take(1) =~= seq![objs@[lo as int].1]);
        assert forall|j: int| 0 <= j < n implies (#[trigger] boxes[j]).wf() by {
            assert(boxes[j] == seg[j].1);
            assert(seg[j] == objs@[lo + j]);
        }
    }
    let mut i: usize = 1;
    while i < n
        invariant
            1 <= i <= n,
            n == hi - lo,
            lo + 2 <= hi <= objs@.len(),
            n <= 0x2000_0000,
            forall|j: int| lo <= j < hi ==> (#[trigger] objs@[j]).1.wf(),
            seg == objs@.subrange(lo as int, hi as int),
            boxes == boxes_of(seg),
            bb == boxes_union(boxes.take(i as int)),
            bb.wf(),
            costs@.len() == i - 1,
            forall|t: int|
                1 <= t < i ==> #[trigger] costs@[t - 1] == t * boxes_union(
                    boxes.take(t),
                ).spec_surface_area(),
            forall|j: int| 0 <= j < n ==> (#[trigger] boxes[j]).wf(),
        decreases n - i,
    {
        proof {
            lemma_area_bound(bb);
            lemma_cost_term_bound(i as int, bb.spec_surface_area());
        }
        costs.push((i as u128) * bb.surface_area());
        let ghost prev = boxes.take(i as int);
        bb = bb.union(&objs[lo + i].1);
        proof {
            let cur = boxes.take(i + 1);
            assert(cur.drop_last() =~= prev);
            assert(cur.last() == seg[i as int].1);
            assert(seg[i as int] == objs@[lo + i]);
        }
        i += 1;
    }
    let mut bb2 = objs[hi - 1].1;
    proof {
        assert(boxes_union_from(boxes, n - 1) == boxes[n - 1]);
        assert(boxes[n - 1] == seg[n - 1].1);
        assert(seg[n - 1] == objs@[hi - 1]);
    }
    let mut t: usize = 1;
    while t < n
        invariant
            1 <= t <= n,
            n == hi - lo,
            lo + 2 <= hi <= objs@.len(),
            n <= 0x2000_0000,
            forall|j: int| lo <= j < hi ==> (#[trigger] objs@[j]).1.wf(),
            seg == objs@.subrange(lo as int, hi as int),
            boxes == boxes_of(seg),
            t < n ==> bb2 == boxes_union_from(boxes, n - t),
            bb2.wf(),
            costs@.len() == n - 1,
            forall|u: int| n - t < u < n ==> #[trigger] costs@[u - 1] == spec_sah_cost(seg, u),
            forall|u: int|
                1 <= u <= n - t ==> #[trigger] costs@[u - 1] == u * boxes_union(
                    boxes.take(u),
                ).spec_surface_area(),
            forall|j: int| 0 <= j < n ==> (#[trigger] boxes[j]).wf(),
        decreases n - t,
    {
        proof {
            lemma_area_bound(bb2);
            lemma_cost_term_bound(t as int, bb2.spec_surface_area());
            lemma_boxes_union_wf(boxes.take(n - t));
            lemma_area_bound(boxes_union(boxes.take(n - t)));
            lemma_cost_term_bound(n - t, boxes_union(boxes.take(n - t)).spec_surface_area());
        }
        let idx = n - t - 1;
        let add = (t as u128) * bb2.surface_area();
        let cur = costs[idx];
        costs.set(idx, cur + add);
        proof {
            assert(spec_sah_cost(seg, n - t) == (n - t) * boxes_union(
                boxes.take(n - t),
            ).spec_surface_area() + t * boxes_union_from(boxes, n - t).spec_surface_area());
            assert(costs@[n - t - 1] == spec_sah_cost(seg, n - t));
        }
        if t < n - 1 {
            bb2 = objs[hi - 1 - t].1.union(&bb2);
            proof {
                assert(seg[n - t - 1] == objs@[hi - 1 - t]);
                assert(boxes[n - t - 1] == seg[n - t - 1].1);
                crate::scene::lemma_union_comm(objs@[hi - 1 - t].1, boxes_union_from(boxes, n - t));
            }
        }
        t += 1;
    }
    let mut best: usize = 0;
    let mut m: usize = 1;
    proof {
        assert(spec_best_split_upto(seg, 1) == 1);
    }
    while m < n - 1
        invariant
            n == hi - lo,
            1 <= m <= n - 1,
            best < m,
            costs@.len() == n - 1,
            forall|j: int| 0 <= j < m ==> costs@[best as int] <= #[trigger] costs@[j],
            forall|j: int| 0 <= j < best ==> #[trigger] costs@[j] > costs@[best as int],
            seg == objs@.subrange(lo as int, hi as int),
            forall|u: int| 1 <= u < n ==> #[trigger] costs@[u - 1] == spec_sah_cost(seg, u),
            best + 1 == spec_best_split_upto(seg, m as int),
        decreases n - 1 - m,
    {
        proof {
            assert(costs@[(m + 1) - 1] == spec_sah_cost(seg, m + 1));
            assert(costs@[(best + 1) - 1] == spec_sah_cost(seg, best + 1));
        }
        if costs[m] < costs[best] {
            best = m;
        }
        m += 1;
    }
    proof {
        assert(forall|u: int| 1 <= u < n ==> #[trigger] costs@[u - 1] == spec_sah_cost(seg, u));
        assert forall|j: int| 1 <= j < n implies spec_sah_cost(seg, best + 1) <= #[trigger] spec_sah_cost(
            seg,
            j,
        ) by {
            assert(costs@[j - 1] == spec_sah_cost(seg, j));
            assert(costs@[best as int] == spec_sah_cost(seg, best + 1));
            assert(costs@[best as int] <= costs@[j - 1]);
        }
        assert forall|j: int| 1 <= j < best + 1 implies #[trigger] spec_sah_cost(seg, j) > spec_sah_cost(
            seg,
            best + 1,
        ) by {
            assert(costs@[j - 1] == spec_sah_cost(seg, j));
            assert(costs@[j - 1] > costs@[best as int]);
        }
    }
    best + 1
}

/// The node handle `n` resolves in the view `s`; a transform handle must
/// also point strictly below slot `bound` of the transform array.
pub open spec fn node_ref_wf(s: crate::scene::SceneView, n: NodeId, bound: int) -> bool {
    if n.spec_ty() == NodeType::Bvh {
        n.spec_idx() < s.bvh_nodes.len()
    } else if n.spec_ty() == NodeType::Primitive {
        n.spec_idx() < s.primitive_nodes.len()
    } else {
        n.spec_idx() < s.transform_nodes.len() && n.spec_idx() < bound
    }
}

/// Every scene-graph reference of the view resolves: primitives wrap valid
/// shapes, transform nodes have bounded coefficients and refer only to nodes
/// created before them (so walks down the graph terminate), and stored BVH
/// boxes are well-formed.
pub open spec fn graph_wf(s: crate::scene::SceneView) -> bool {
    &&& forall|i: int|
        0 <= i < s.primitive_nodes.len() ==> crate::scene::shapes::shape_valid(
            s,
            (#[trigger] s.primitive_nodes[i]).shape,
        )
    &&& forall|i: int|
        0 <= i < s.transform_nodes.len() ==> {
            let t = #[trigger] s.transform_nodes[i];
            t.transform.wf() && node_ref_wf(s, t.object, i)
        }
    &&& forall|i: int| 0 <= i < s.bvh_nodes.len() ==> (#[trigger] node_box(s.bvh_nodes, i)).wf()
}

/// The box of the eight corners of `b` mapped through `a`.
pub open spec fn spec_transformed_bounds(a: crate::scene::Affine, b: crate::scene::Bounds)
    -> crate::scene::Bounds {
    let c0 = point_box(a.spec_apply(b.spec_corner(0)));
    let c1 = point_box(a.spec_apply(b.spec_corner(1)));
    let c2 = point_box(a.spec_apply(b.spec_corner(2)));
    let c3 = point_box(a.spec_apply(b.spec_corner(3)));
    let c4 = point_box(a.spec_apply(b.spec_corner(4)));
    let c5 = point_box(a.spec_apply(b.spec_corner(5)));
    let c6 = point_box(a.spec_apply(b.spec_corner(6)));
    let c7 = point_box(a.spec_apply(b.spec_corner(7)));
    c0.spec_union(c1).spec_union(c2).spec_union(c3).spec_union(c4).spec_union(c5).spec_union(
        c6,
    ).spec_union(c7)
}

/// The degenerate box of a single point.
pub open spec fn point_box(p: Vec3) -> crate::scene::Bounds {
    crate::scene::Bounds { min: p, max: p }
}

/// The world box a scene-graph node occupies: a primitive's shape box, a
/// BVH node's stored box, or a transform's child box mapped out into world
/// space corner by corner.
pub open spec fn spec_node_bounds(s: crate::scene::SceneView, n: NodeId) -> crate::scene::Bounds
    recommends
        graph_wf(s),
        node_ref_wf(s, n, s.transform_nodes.len() as int),
    decreases (if n.spec_ty() == NodeType::Transform {
        n.spec_idx() as int + 1
    } else {
        0
    }) when graph_wf(s) && node_ref_wf(s, n, s.transform_nodes.len() as int)
{
    if n.spec_ty() == NodeType::Primitive {
        crate::scene::shapes::spec_shape_bounds(s, s.primitive_nodes[n.spec_idx() as int].shape)
    } else if n.spec_ty() == NodeType::Bvh {
        node_box(s.bvh_nodes, n.spec_idx() as int)
    } else {
        let t = s.transform_nodes[n.spec_idx() as int];
        spec_transformed_bounds(t.transform.m_inv, spec_node_bounds(s, t.object))
    }
}

impl crate::scene::Scene {
    /// Appends a primitive node and returns its handle.
    pub fn add_primitive(&mut self, prim: PrimitiveNode) -> (r: NodeId)
        requires
            old(self)@.primitive_nodes.len() <= NODE_INDEX_LIMIT,
        ensures
            final(self)@ == (crate::scene::SceneView {
                primitive_nodes: old(self)@.primitive_nodes.push(prim),
                ..old(self)@
            }),
            r.spec_ty() == NodeType::Primitive,
            r.spec_idx() == old(self)@.primitive_nodes.len(),
    {
        let id = NodeId::new(NodeType::Primitive, self.primitive_nodes.len());
        self.primitive_nodes.push(prim);
        id
    }

    /// Appends a transform node placing `node` under `transform` and returns
    /// its handle.
    pub fn add_transform(&mut self, transform: Transform, node: NodeId) -> (r: NodeId)
        requires
            old(self)@.transform_nodes.len() <= NODE_INDEX_LIMIT,
        ensures
            final(self)@ == (crate::scene::SceneView {
                transform_nodes: old(self)@.transform_nodes.push(
                    TransformNode { transform, object: node },
                ),
                ..old(self)@
            }),
            r.spec_ty() == NodeType::Transform,
            r.spec_idx() == old(self)@.transform_nodes.len(),
    {
        let id = NodeId::new(NodeType::Transform, self.transform_nodes.len());
        self.transform_nodes.push(TransformNode { transform, object: node });
        id
    }

    /// The world box of a scene-graph node.
    #[verifier::rlimit(100)]
    pub fn node_bounds(&self, node: NodeId) -> (r: crate::scene::Bounds)
        requires
            graph_wf(self@),
            node_ref_wf(self@, node, self@.transform_nodes.len() as int),
        ensures
            r == spec_node_bounds(self@, node),
            r.wf(),
        decreases (if node.spec_ty() == NodeType::Transform {
            node.spec_idx() as int + 1
        } else {
            0
        }),
    {
        match node.ty() {
            NodeType::Primitive => self.shape_bounds(self.primitive_nodes[node.idx()].shape),
            NodeType::Bvh => {
                proof {
                    assert((node_box(self@.bvh_nodes, node.spec_idx() as int)).wf());
                }
                let b = &self.bvh_nodes[node.idx()];
                crate::scene::Bounds { min: b.min, max: b.max }
            },
            NodeType::Transform => {
                let t = self.transform_nodes[node.idx()];
                let inner = self.node_bounds(t.object);
                let c0 = point_box_exec(t.transform.m_inv.apply(inner.corner(0)));
                let c1 = point_box_exec(t.transform.m_inv.apply(inner.corner(1)));
                let c2 = point_box_exec(t.transform.m_inv.apply(inner.corner(2)));
                let c3 = point_box_exec(t.transform.m_inv.apply(inner.corner(3)));
                let c4 = point_box_exec(t.transform.m_inv.apply(inner.corner(4)));
                let c5 = point_box_exec(t.transform.m_inv.apply(inner.corner(5)));
                let c6 = point_box_exec(t.transform.m_inv.apply(inner.corner(6)));
                let c7 = point_box_exec(t.transform.m_inv.apply(inner.corner(7)));
                c0.union(&c1).union(&c2).union(&c3).union(&c4).union(&c5).union(&c6).union(&c7)
            },
        }
    }
}

/// Every node of a well-formed tree stores a well-formed box.
proof fn lemma_bvh_boxes_wf(nodes: Seq<BvhNode>, i: int, end: int)
    requires
        bvh_wf(nodes, i, end),
    ensures
        forall|j: int| i <= j < end ==> (#[trigger] node_box(nodes, j)).wf(),
    decreases end - i,
{
    if end == i + 1 {
    } else {
        let far = nodes[i].far_node.spec_idx() as int;
        lemma_bvh_boxes_wf(nodes, i + 1, far);
        lemma_bvh_boxes_wf(nodes, far, end);
        assert(node_box(nodes, i + 1).wf());
        assert(node_box(nodes, far).wf());
    }
}

impl crate::scene::Scene {
    /// Builds the subtree over the run `[lo, hi)` of `objs`: reserve the
    /// parent slot, sort the run by centroid along the widest axis, cut it
    /// at the cheapest split, build the left child directly behind the
    /// parent and the right child behind that, then fill the parent in.
    /// Exactly `2 * (hi - lo) - 1` nodes are appended and the run keeps
    /// exactly its objects, reordered as the split policy dictates.
    #[verifier::rlimit(100)]
    fn build_bvh(
        &mut self,
        objs: &mut Vec<(NodeId, crate::scene::Bounds)>,
        lo: usize,
        hi: usize,
    ) -> (r: NodeId)
        requires
            lo < hi <= old(objs)@.len(),
            hi - lo <= 0x2000_0000,
            forall|j: int| lo <= j < hi ==> (#[trigger] old(objs)@[j]).1.wf(),
            old(self)@.bvh_nodes.len() + 2 * ((hi - lo) as int) - 1 <= NODE_INDEX_LIMIT + 1,
        ensures
            final(objs)@.len() == old(objs)@.len(),
            forall|j: int|
                (0 <= j < lo || hi <= j < old(objs)@.len()) ==> final(objs)@[j] == old(objs)@[j],
            final(objs)@.subrange(lo as int, hi as int).to_multiset() == old(objs)@.subrange(
                lo as int,
                hi as int,
            ).to_multiset(),
            forall|j: int| lo <= j < hi ==> (#[trigger] final(objs)@[j]).1.wf(),
            final(self)@ == (crate::scene::SceneView {
                bvh_nodes: final(self)@.bvh_nodes,
                ..old(self)@
            }),
            final(self)@.bvh_nodes.len() == old(self)@.bvh_nodes.len() + 2 * ((hi - lo) as int)
                - 1,
            final(self)@.bvh_nodes.subrange(0, old(self)@.bvh_nodes.len() as int) == old(
                self,
            )@.bvh_nodes,
            r.spec_ty() == NodeType::Bvh,
            r.spec_idx() == old(self)@.bvh_nodes.len(),
            bvh_wf(
                final(self)@.bvh_nodes,
                old(self)@.bvh_nodes.len() as int,
                final(self)@.bvh_nodes.len() as int,
            ),
            bvh_leaves(
                final(self)@.bvh_nodes,
                old(self)@.bvh_nodes.len() as int,
                final(self)@.bvh_nodes.len() as int,
            ) == final(objs)@.subrange(lo as int, hi as int).to_multiset(),
            node_box(final(self)@.bvh_nodes, old(self)@.bvh_nodes.len() as int) == boxes_union(
                boxes_of(final(objs)@.subrange(lo as int, hi as int)),
            ),
            final(objs)@.subrange(lo as int, hi as int) == spec_build_order(
                old(objs)@.subrange(lo as int, hi as int),
            ),
            hi - lo >= 2 ==> final(self)@.bvh_nodes[old(self)@.bvh_nodes.len() as int]
                .far_node.spec_idx() == old(self)@.bvh_nodes.len() + 2 * spec_best_split(
                spec_sort_by_key(
                    old(objs)@.subrange(lo as int, hi as int),
                    spec_major_axis(
                        boxes_union(boxes_of(old(objs)@.subrange(lo as int, hi as int))),
                    ),
                ),
            ),
            hi - lo >= 2 ==> final(self)@.bvh_nodes[old(self)@.bvh_nodes.len() as int].flags
                == spec_axis_flags(
                spec_major_axis(boxes_union(boxes_of(old(objs)@.subrange(lo as int, hi as int)))),
            ),
        decreases hi - lo,
    {
        let ghost seg0 = old(objs)@.subrange(lo as int, hi as int);
        let ghost axis0 = spec_major_axis(boxes_union(boxes_of(seg0)));
        let idx = self.bvh_nodes.len();
        let ghost start = idx as int;
        self.bvh_nodes.push(
            BvhNode {
                min: Vec3 { x: 0, y: 0, z: 0 },
                flags: 0,
                max: Vec3 { x: 0, y: 0, z: 0 },
                far_node: NodeId::zero(),
            },
        );
        if hi - lo == 1 {
            let (node, bounds) = objs[lo];
            self.bvh_nodes.set(
                idx,
                BvhNode { min: bounds.min, flags: 0, max: bounds.max, far_node: node },
            );
            proof {
                broadcast use vstd::seq_lib::group_to_multiset_ensures;

                let nodes = self@.bvh_nodes;
                assert(nodes.subrange(0, start) =~= old(self)@.bvh_nodes);
                assert(node_box(nodes, start) == bounds);
                assert(bvh_wf(nodes, start, start + 1));
                let seg = objs@.subrange(lo as int, hi as int);
                assert(seg =~= Seq::empty().push(objs@[lo as int]));
                assert(seg.to_multiset() =~= Multiset::empty().insert((node, bounds)));
                assert(bvh_leaves(nodes, start, start + 1) == Multiset::empty().insert(
                    (node, bounds),
                ));
                assert(boxes_of(seg).len() == 1);
                assert(boxes_of(seg)[0] == bounds);
                assert(boxes_union(boxes_of(seg)) == bounds);
                assert(seg =~= seg0);
                assert(spec_build_order(seg0) == seg0);
            }
            NodeId::new(NodeType::Bvh, idx)
        } else {
            let total = range_union(objs, lo, hi);
            let axis = major_axis(&total);
            sort_range(objs, lo, hi, axis);
            let ghost objs1 = objs@;
            let split = lo + best_split(objs, lo, hi);
            let ghost nodes1 = self@.bvh_nodes;
            let left = self.build_bvh(objs, lo, split);
            let ghost objs2 = objs@;
            let ghost nodes2 = self@.bvh_nodes;
            let right = self.build_bvh(objs, split, hi);
            let ghost objs3 = objs@;
            let ghost nodes3 = self@.bvh_nodes;
            let lidx = left.idx();
            let ridx = right.idx();
            let lnode = self.bvh_nodes[lidx];
            let rnode = self.bvh_nodes[ridx];
            let lbox = crate::scene::Bounds { min: lnode.min, max: lnode.max };
            let rbox = crate::scene::Bounds { min: rnode.min, max: rnode.max };
            let pbox = lbox.union(&rbox);
            let flags: u32 = if axis == 0 {
                1
            } else if axis == 1 {
                2
            } else {
                4
            };
            self.bvh_nodes.set(
                idx,
                BvhNode { min: pbox.min, flags, max: pbox.max, far_node: right },
            );
            proof {
                broadcast use vstd::seq_lib::lemma_multiset_commutative;

                let nodes4 = self@.bvh_nodes;
                let end = nodes4.len() as int;
                let far = right.spec_idx() as int;
                assert(far == nodes2.len());
                assert forall|j: int| 0 <= j < nodes2.len() implies #[trigger] nodes3[j]
                    == nodes2[j] by {
                    assert(nodes3.subrange(0, nodes2.len() as int)[j] == nodes2[j]);
                }
                assert forall|j: int| 0 <= j < nodes1.len() implies #[trigger] nodes2[j]
                    == nodes1[j] by {
                    assert(nodes2.subrange(0, nodes1.len() as int)[j] == nodes1[j]);
                }
                assert(forall|j: int|
                    0 <= j < start ==> #[trigger] nodes1[j] == old(self)@.bvh_nodes[j]);
                assert forall|j: int| 0 <= j < start implies #[trigger] nodes4[j] == old(
                    self,
                )@.bvh_nodes[j] by {
                    assert(nodes4[j] == nodes3[j]);
                }
                assert(nodes4.subrange(0, start) =~= old(self)@.bvh_nodes);
                // the children's regions survived the later writes
                assert(forall|j: int| start + 1 <= j < far ==> nodes2[j] == nodes4[j]);
                lemma_bvh_frame(nodes2, nodes4, start + 1, far);
                assert(forall|j: int| far <= j < end ==> nodes3[j] == nodes4[j]);
                lemma_bvh_frame(nodes3, nodes4, far, end);
                // the run segments of the two recursive calls
                assert(objs3.subrange(lo as int, split as int) =~= objs2.subrange(
                    lo as int,
                    split as int,
                ));
                assert(objs2.subrange(split as int, hi as int) =~= objs1.subrange(
                    split as int,
                    hi as int,
                ));
                // parent node shape
                assert(node_box(nodes4, start + 1) == node_box(nodes2, start + 1));
                assert(node_box(nodes4, far) == node_box(nodes3, far));
                assert(node_box(nodes4, start) == node_box(nodes4, start + 1).spec_union(
                    node_box(nodes4, far),
                ));
                assert(bvh_wf(nodes4, start, end));
                // the leaves are exactly the run's objects
                assert(bvh_leaves(nodes4, start, end) == bvh_leaves(nodes4, start + 1, far).add(
                    bvh_leaves(nodes4, far, end),
                ));
                assert(objs3.subrange(lo as int, hi as int) =~= objs3.subrange(
                    lo as int,
                    split as int,
                ) + objs3.subrange(split as int, hi as int));
                assert(objs3.subrange(lo as int, hi as int).to_multiset() == objs3.subrange(
                    lo as int,
                    split as int,
                ).to_multiset().add(objs3.subrange(split as int, hi as int).to_multiset()));
                assert(bvh_leaves(nodes4, start, end) == objs3.subrange(
                    lo as int,
                    hi as int,
                ).to_multiset());
                // permutation chain back to the input run
                assert(objs1.subrange(lo as int, hi as int) =~= objs1.subrange(
                    lo as int,
                    split as int,
                ) + objs1.subrange(split as int, hi as int));
                assert(objs3.subrange(lo as int, hi as int).to_multiset() == objs1.subrange(
                    lo as int,
                    hi as int,
                ).to_multiset());
                // the parent box is the union over the whole run
                assert(boxes_of(objs3.subrange(lo as int, hi as int)) =~= boxes_of(
                    objs3.subrange(lo as int, split as int),
                ) + boxes_of(objs3.subrange(split as int, hi as int)));
                lemma_boxes_union_concat(
                    boxes_of(objs3.subrange(lo as int, hi as int)),
                    boxes_of(objs3.subrange(lo as int, split as int)),
                    boxes_of(objs3.subrange(split as int, hi as int)),
                );
                // the split policy and the final object order
                lemma_sort_len(seg0, axis0);
                assert(axis as int == axis0);
                let sorted = spec_sort_by_key(seg0, axis0);
                assert(objs1.subrange(lo as int, hi as int) == sorted);
                let sp = spec_best_split(sorted);
                lemma_best_split_range(sorted, sorted.len() - 1);
                assert(split - lo == sp);
                assert(objs1.subrange(lo as int, split as int) =~= sorted.take(sp));
                assert(objs2.subrange(lo as int, split as int) == spec_build_order(
                    sorted.take(sp),
                ));
                assert(objs2.subrange(split as int, hi as int) =~= objs1.subrange(
                    split as int,
                    hi as int,
                ));
                assert(objs1.subrange(split as int, hi as int) =~= sorted.skip(sp));
                assert(objs3.subrange(split as int, hi as int) == spec_build_order(
                    sorted.skip(sp),
                ));
                assert(spec_build_order(seg0) == spec_build_order(sorted.take(sp))
                    + spec_build_order(sorted.skip(sp)));
                assert(objs3.subrange(lo as int, hi as int) == spec_build_order(seg0));
                // the far child sits right behind the left subtree
                assert(self@.bvh_nodes[old(self)@.bvh_nodes.len() as int].flags == spec_axis_flags(
                    axis0,
                ));
                assert(right.spec_idx() == nodes2.len());
                assert(nodes2.len() == old(self)@.bvh_nodes.len() + 1 + (2 * ((split - lo) as int)
                    - 1));
                assert(self@.bvh_nodes[old(self)@.bvh_nodes.len() as int].far_node == right);
            }
            NodeId::new(NodeType::Bvh, idx)
        }
    }

    /// Builds a BVH over the given scene-graph nodes, appending its tree to
    /// the arena's BVH array, and returns the root's handle. The tree has
    /// exactly `2 * n - 1` nodes and wraps each given node exactly once.
    pub fn add_bvh(&mut self, nodes: &Vec<NodeId>) -> (r: NodeId)
        requires
            graph_wf(old(self)@),
            0 < nodes@.len() <= 0x2000_0000,
            forall|i: int|
                0 <= i < nodes@.len() ==> node_ref_wf(
                    old(self)@,
                    #[trigger] nodes@[i],
                    old(self)@.transform_nodes.len() as int,
                ),
            old(self)@.bvh_nodes.len() + 2 * nodes@.len() - 1 <= NODE_INDEX_LIMIT + 1,
        ensures
            final(self)@ == (crate::scene::SceneView {
                bvh_nodes: final(self)@.bvh_nodes,
                ..old(self)@
            }),
            final(self)@.bvh_nodes.len() == old(self)@.bvh_nodes.len() + 2 * nodes@.len() - 1,
            final(self)@.bvh_nodes.subrange(0, old(self)@.bvh_nodes.len() as int) == old(
                self,
            )@.bvh_nodes,
            r.spec_ty() == NodeType::Bvh,
            r.spec_idx() == old(self)@.bvh_nodes.len(),
            bvh_wf(
                final(self)@.bvh_nodes,
                old(self)@.bvh_nodes.len() as int,
                final(self)@.bvh_nodes.len() as int,
            ),
            bvh_leaves(
                final(self)@.bvh_nodes,
                old(self)@.bvh_nodes.len() as int,
                final(self)@.bvh_nodes.len() as int,
            ) == Seq::new(
                nodes@.len(),
                |i: int| (nodes@[i], spec_node_bounds(old(self)@, nodes@[i])),
            ).to_multiset(),
            node_box(final(self)@.bvh_nodes, old(self)@.bvh_nodes.len() as int) == boxes_union(
                boxes_of(
                    Seq::new(
                        nodes@.len(),
                        |i: int| (nodes@[i], spec_node_bounds(old(self)@, nodes@[i])),
                    ),
                ),
            ),
            nodes@.len() >= 2 ==> final(self)@.bvh_nodes[old(self)@.bvh_nodes.len() as int]
                .far_node.spec_idx() == old(self)@.bvh_nodes.len() + 2 * spec_best_split(
                spec_sort_by_key(
                    Seq::new(
                        nodes@.len(),
                        |i: int| (nodes@[i], spec_node_bounds(old(self)@, nodes@[i])),
                    ),
                    spec_major_axis(
                        boxes_union(
                            boxes_of(
                                Seq::new(
                                    nodes@.len(),
                                    |i: int| (nodes@[i], spec_node_bounds(old(self)@, nodes@[i])),
                                ),
                            ),
                        ),
                    ),
                ),
            ),
            graph_wf(final(self)@),
    {
        let ghost pairs = Seq::new(
            nodes@.len(),
            |i: int| (nodes@[i], spec_node_bounds(old(self)@, nodes@[i])),
        );
        let mut objs: Vec<(NodeId, crate::scene::Bounds)> = Vec::new();
        let mut i: usize = 0;
        while i < nodes.len()
            invariant
                i <= nodes@.len(),
                self == old(self),
                graph_wf(self@),
                forall|j: int|
                    0 <= j < nodes@.len() ==> node_ref_wf(
                        self@,
                        #[trigger] nodes@[j],
                        self@.transform_nodes.len() as int,
                    ),
                pairs == Seq::new(
                    nodes@.len(),
                    |j: int| (nodes@[j], spec_node_bounds(self@, nodes@[j])),
                ),
                objs@ =~= pairs.take(i as int),
                forall|j: int| 0 <= j < i ==> (#[trigger] objs@[j]).1.wf(),
            decreases nodes@.len() - i,
        {
            let b = self.node_bounds(nodes[i]);
            objs.push((nodes[i], b));
            proof {
                assert(objs@ =~= pairs.take(i + 1));
            }
            i += 1;
        }
        proof {
            assert(objs@ =~= pairs);
        }
        let n = nodes.len();
        let root = self.build_bvh(&mut objs, 0, n);
        proof {
            broadcast use vstd::seq_lib::group_to_multiset_ensures;

            let start = old(self)@.bvh_nodes.len() as int;
            let end = self@.bvh_nodes.len() as int;
            assert(objs@.subrange(0, n as int) =~= objs@);
            assert(pairs.subrange(0, n as int) =~= pairs);
            assert(bvh_leaves(self@.bvh_nodes, start, end) == pairs.to_multiset());
            lemma_pairs_union_permutation(objs@, pairs);
            lemma_bvh_boxes_wf(self@.bvh_nodes, start, end);
            assert forall|j: int| 0 <= j < end implies (#[trigger] node_box(
                self@.bvh_nodes,
                j,
            )).wf() by {
                if j < start {
                    assert(self@.bvh_nodes[j] == old(self)@.bvh_nodes.subrange(0, start)[j]);
                    assert(self@.bvh_nodes[j] == old(self)@.bvh_nodes[j]);
                    assert(node_box(old(self)@.bvh_nodes, j).wf());
                }
            }
        }
        root
    }
}

/// The degenerate box of a single point.
fn point_box_exec(p: Vec3) -> (r: crate::scene::Bounds)
    ensures
        r == point_box(p),
{
    crate::scene::Bounds { min: p, max: p }
}

/// One node of the flattened BVH. Only the right ("far") child is stored:
/// for an internal node at array index `i` the left child always sits at
/// index `i + 1`. A zero `flags` word marks a leaf wrapper whose `far_node`
/// is the wrapped scene-graph node; an internal node stores `1 << axis` of
/// its split axis.
#[derive(Clone, Copy, Debug, PartialEq, Eq, Hash, Structural)]
pub struct BvhNode {
    pub min: Vec3,
    pub flags: u32,
    pub max: Vec3,
    pub far_node: NodeId,
}

/// A placement of a child node under an affine transform.
#[derive(Clone, Copy, Debug)]
pub struct TransformNode {
    pub transform: Transform,
    pub object: NodeId,
}

/// A leaf of the scene graph: a shape with its shading data.
#[derive(Clone, Copy, Debug, PartialEq, Eq, Hash, Structural)]
pub struct PrimitiveNode {
    pub shape: ShapeId,
    pub material: MaterialId,
    pub light: LightId,
    pub alpha: TextureId,
}

} // verus!
