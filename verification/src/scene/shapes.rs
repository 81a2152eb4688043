//! Shapes and their handles.

use vstd::prelude::*;
use crate::handle::{index_limit, index_of, pack, tag_of, unpack_index, unpack_tag};
use crate::scene::Vec3;

verus! {

pub const SHAPE_TAG_BITS: u32 = 1;

/// Largest index a `ShapeId` can carry.
pub const SHAPE_INDEX_LIMIT: u32 = 0x7fff_ffff;

/// One world unit in fixed-point coordinates.
pub const FP_ONE: i64 = 0x1_0000;

/// The shape variants.
#[derive(Clone, Copy, Debug, PartialEq, Eq, Hash, Structural)]
pub enum ShapeType {
    Sphere,
    Triangle,
}

impl ShapeType {
    /// The tag value packed into a handle for this variant.
    pub open spec fn tag(self) -> u32 {
        match self {
            ShapeType::Sphere => 0,
            ShapeType::Triangle => 1,
        }
    }
}

/// Packed handle of a shape: one tag bit selecting the variant, thirty-one
/// index bits into that variant's array.
#[derive(Clone, Copy, Debug, PartialEq, Eq, Hash, Structural)]
pub struct ShapeId(u32);

/// The packed constants of `ShapeId` agree with the generic handle scheme.
proof fn lemma_shape_id_limits()
    ensures
        SHAPE_INDEX_LIMIT == index_limit(SHAPE_TAG_BITS),
        1u32 < (1u32 << SHAPE_TAG_BITS),
{
    assert(0xffff_ffffu32 >> 1 == 0x7fff_ffffu32 && 1u32 < (1u32 << 1)) by (bit_vector);
}

impl ShapeId {
    /// The variant this handle refers to.
    pub closed spec fn spec_ty(self) -> ShapeType {
        if tag_of(SHAPE_TAG_BITS, self.0) == 0 {
            ShapeType::Sphere
        } else {
            ShapeType::Triangle
        }
    }

    /// The index into the variant's array.
    pub closed spec fn spec_idx(self) -> u32 {
        index_of(SHAPE_TAG_BITS, self.0)
    }

    /// Packs a variant and an in-range index into a handle; both unpack to
    /// exactly the values given.
    pub fn new(ty: ShapeType, idx: usize) -> (r: ShapeId)
        requires
            idx <= SHAPE_INDEX_LIMIT,
        ensures
            r.spec_ty() == ty,
            r.spec_idx() == idx,
    {
        proof {
            lemma_shape_id_limits();
        }
        let tag: u32 = match ty {
            ShapeType::Sphere => 0,
            ShapeType::Triangle => 1,
        };
        ShapeId(pack(SHAPE_TAG_BITS, tag, idx as u32))
    }

    /// The variant this handle refers to.
    pub fn ty(self) -> (r: ShapeType)
        ensures
            r == self.spec_ty(),
    {
        match unpack_tag(SHAPE_TAG_BITS, self.0) {
            0 => ShapeType::Sphere,
            _ => ShapeType::Triangle,
        }
    }

    /// The index into the variant's array.
    pub fn idx(self) -> (r: usize)
        ensures
            r == self.spec_idx(),
    {
        unpack_index(SHAPE_TAG_BITS, self.0) as usize
    }
}

/// A unit sphere, possibly cut along z; placement is done by a transform
/// node above its primitive.
#[derive(Clone, Copy, Debug, PartialEq, Eq, Hash, Structural)]
pub struct Sphere {
    pub z_min: i64,
    pub z_max: i64,
    pub flip_normal: bool,
}

impl Sphere {
    /// A meaningful sphere: its z cut stays within the unit range.
    pub open spec fn wf(self) -> bool {
        -FP_ONE <= self.z_min <= self.z_max <= FP_ONE
    }

    /// The object-space box of the (cut) unit sphere.
    pub open spec fn spec_bounds(self) -> crate::scene::Bounds {
        crate::scene::Bounds {
            min: Vec3 { x: (-FP_ONE) as i64, y: (-FP_ONE) as i64, z: self.z_min },
            max: Vec3 { x: FP_ONE, y: FP_ONE, z: self.z_max },
        }
    }

    /// The object-space box of the (cut) unit sphere.
    pub fn bounds(&self) -> (r: crate::scene::Bounds)
        requires
            self.wf(),
        ensures
            r == self.spec_bounds(),
            r.wf(),
    {
        crate::scene::Bounds {
            min: Vec3 { x: -FP_ONE, y: -FP_ONE, z: self.z_min },
            max: Vec3 { x: FP_ONE, y: FP_ONE, z: self.z_max },
        }
    }
}

/// The smaller of two coordinates.
pub open spec fn spec_min3(a: i64, b: i64, c: i64) -> i64 {
    if a <= b && a <= c {
        a
    } else if b <= c {
        b
    } else {
        c
    }
}

/// The larger of two coordinates.
pub open spec fn spec_max3(a: i64, b: i64, c: i64) -> i64 {
    if a >= b && a >= c {
        a
    } else if b >= c {
        b
    } else {
        c
    }
}

fn min3(a: i64, b: i64, c: i64) -> (r: i64)
    ensures
        r == spec_min3(a, b, c),
{
    if a <= b && a <= c {
        a
    } else if b <= c {
        b
    } else {
        c
    }
}

fn max3(a: i64, b: i64, c: i64) -> (r: i64)
    ensures
        r == spec_max3(a, b, c),
{
    if a >= b && a >= c {
        a
    } else if b >= c {
        b
    } else {
        c
    }
}

/// The box of a triangle's three corner points.
pub open spec fn spec_triangle_bounds(a: Vec3, b: Vec3, c: Vec3) -> crate::scene::Bounds {
    crate::scene::Bounds {
        min: Vec3 {
            x: spec_min3(a.x, b.x, c.x),
            y: spec_min3(a.y, b.y, c.y),
            z: spec_min3(a.z, b.z, c.z),
        },
        max: Vec3 {
            x: spec_max3(a.x, b.x, c.x),
            y: spec_max3(a.y, b.y, c.y),
            z: spec_max3(a.z, b.z, c.z),
        },
    }
}

/// The triangle record for an index triple offset by the vertex base.
pub open spec fn spec_offset_triangle(t: (u32, u32, u32), base: int) -> Triangle {
    Triangle { v0: (t.0 + base) as u32, v1: (t.1 + base) as u32, v2: (t.2 + base) as u32 }
}

/// The shape `shape` resolves to well-formed geometry of the scene view `s`.
pub open spec fn shape_valid(s: crate::scene::SceneView, shape: ShapeId) -> bool {
    if shape.spec_ty() == ShapeType::Sphere {
        shape.spec_idx() < s.spheres.len() && s.spheres[shape.spec_idx() as int].wf()
    } else {
        &&& shape.spec_idx() < s.triangles.len()
        &&& {
            let t = s.triangles[shape.spec_idx() as int];
            &&& t.v0 < s.triangle_vertices.len()
            &&& t.v1 < s.triangle_vertices.len()
            &&& t.v2 < s.triangle_vertices.len()
            &&& s.triangle_vertices[t.v0 as int].p.in_world()
            &&& s.triangle_vertices[t.v1 as int].p.in_world()
            &&& s.triangle_vertices[t.v2 as int].p.in_world()
        }
    }
}

/// The object-space box of a shape of the scene view `s`.
pub open spec fn spec_shape_bounds(s: crate::scene::SceneView, shape: ShapeId)
    -> crate::scene::Bounds
    recommends
        shape_valid(s, shape),
{
    if shape.spec_ty() == ShapeType::Sphere {
        s.spheres[shape.spec_idx() as int].spec_bounds()
    } else {
        let t = s.triangles[shape.spec_idx() as int];
        spec_triangle_bounds(
            s.triangle_vertices[t.v0 as int].p,
            s.triangle_vertices[t.v1 as int].p,
            s.triangle_vertices[t.v2 as int].p,
        )
    }
}

impl crate::scene::Scene {
    /// The object-space box of a shape already stored in the arena.
    pub fn shape_bounds(&self, shape: ShapeId) -> (r: crate::scene::Bounds)
        requires
            shape_valid(self@, shape),
        ensures
            r == spec_shape_bounds(self@, shape),
            r.wf(),
    {
        match shape.ty() {
            ShapeType::Sphere => self.spheres[shape.idx()].bounds(),
            ShapeType::Triangle => {
                let t = self.triangles[shape.idx()];
                let a = self.triangle_vertices[t.v0 as usize].p;
                let b = self.triangle_vertices[t.v1 as usize].p;
                let c = self.triangle_vertices[t.v2 as usize].p;
                crate::scene::Bounds {
                    min: Vec3 {
                        x: min3(a.x, b.x, c.x),
                        y: min3(a.y, b.y, c.y),
                        z: min3(a.z, b.z, c.z),
                    },
                    max: Vec3 {
                        x: max3(a.x, b.x, c.x),
                        y: max3(a.y, b.y, c.y),
                        z: max3(a.z, b.z, c.z),
                    },
                }
            },
        }
    }

    /// Appends a batch of vertices and one triangle per index triple, the
    /// triples offset by the vertex base, and returns the new triangle
    /// handles in creation order.
    pub fn add_triangles(&mut self, verts: &Vec<TriVertex>, tris: &Vec<(u32, u32, u32)>) -> (r:
        Vec<ShapeId>)
        requires
            old(self)@.triangles.len() + tris@.len() <= SHAPE_INDEX_LIMIT,
            old(self)@.triangle_vertices.len() + verts@.len() <= u32::MAX,
            forall|k: int|
                0 <= k < tris@.len() ==> (#[trigger] tris@[k]).0 < verts@.len() && tris@[k].1
                    < verts@.len() && tris@[k].2 < verts@.len(),
        ensures
            final(self)@ == (crate::scene::SceneView {
                triangle_vertices: old(self)@.triangle_vertices + verts@,
                triangles: old(self)@.triangles + Seq::new(
                    tris@.len(),
                    |k: int| spec_offset_triangle(tris@[k], old(self)@.triangle_vertices.len() as int),
                ),
                ..old(self)@
            }),
            r@.len() == tris@.len(),
            forall|k: int|
                0 <= k < tris@.len() ==> (#[trigger] r@[k]).spec_ty() == ShapeType::Triangle
                    && r@[k].spec_idx() == old(self)@.triangles.len() + k,
    {
        let base = self.triangle_vertices.len() as u32;
        let mut i: usize = 0;
        while i < verts.len()
            invariant
                i <= verts@.len(),
                old(self)@.triangle_vertices.len() + verts@.len() <= u32::MAX,
                self@ == (crate::scene::SceneView {
                    triangle_vertices: old(self)@.triangle_vertices + verts@.take(i as int),
                    ..old(self)@
                }),
            decreases verts@.len() - i,
        {
            self.triangle_vertices.push(verts[i]);
            proof {
                assert(old(self)@.triangle_vertices + verts@.take(i + 1) =~= (old(
                    self,
                )@.triangle_vertices + verts@.take(i as int)).push(verts@[i as int]));
            }
            i += 1;
        }
        proof {
            assert(verts@.take(verts@.len() as int) =~= verts@);
        }
        let ghost tri_base = old(self)@.triangles.len() as int;
        let ghost vert_base = old(self)@.triangle_vertices.len() as int;
        let mut ids: Vec<ShapeId> = Vec::new();
        let mut k: usize = 0;
        while k < tris.len()
            invariant
                k <= tris@.len(),
                old(self)@.triangles.len() + tris@.len() <= SHAPE_INDEX_LIMIT,
                old(self)@.triangle_vertices.len() + verts@.len() <= u32::MAX,
                base == vert_base,
                vert_base == old(self)@.triangle_vertices.len(),
                tri_base == old(self)@.triangles.len(),
                forall|j: int|
                    0 <= j < tris@.len() ==> (#[trigger] tris@[j]).0 < verts@.len() && tris@[j].1
                        < verts@.len() && tris@[j].2 < verts@.len(),
                self@ == (crate::scene::SceneView {
                    triangle_vertices: old(self)@.triangle_vertices + verts@,
                    triangles: old(self)@.triangles + Seq::new(
                        k as nat,
                        |j: int| spec_offset_triangle(tris@[j], vert_base),
                    ),
                    ..old(self)@
                }),
                ids@.len() == k,
                forall|j: int|
                    0 <= j < k ==> (#[trigger] ids@[j]).spec_ty() == ShapeType::Triangle
                        && ids@[j].spec_idx() == tri_base + j,
            decreases tris@.len() - k,
        {
            let (a, b, c) = tris[k];
            proof {
                assert(tris@[k as int].0 < verts@.len() && tris@[k as int].1 < verts@.len()
                    && tris@[k as int].2 < verts@.len());
            }
            let id = ShapeId::new(ShapeType::Triangle, self.triangles.len());
            self.triangles.push(Triangle { v0: a + base, v1: b + base, v2: c + base });
            ids.push(id);
            proof {
                assert(old(self)@.triangles + Seq::new(
                    (k + 1) as nat,
                    |j: int| spec_offset_triangle(tris@[j], vert_base),
                ) =~= (old(self)@.triangles + Seq::new(
                    k as nat,
                    |j: int| spec_offset_triangle(tris@[j], vert_base),
                )).push(spec_offset_triangle(tris@[k as int], vert_base)));
            }
            k += 1;
        }
        ids
    }

    /// Appends a sphere and returns its handle, whose index is the array's
    /// previous length.
    pub fn add_sphere(&mut self, sphere: Sphere) -> (r: ShapeId)
        requires
            old(self)@.spheres.len() <= SHAPE_INDEX_LIMIT,
        ensures
            final(self)@ == (crate::scene::SceneView {
                spheres: old(self)@.spheres.push(sphere),
                ..old(self)@
            }),
            r.spec_ty() == ShapeType::Sphere,
            r.spec_idx() == old(self)@.spheres.len(),
    {
        let id = ShapeId::new(ShapeType::Sphere, self.spheres.len());
        self.spheres.push(sphere);
        id
    }
}

/// One triangle-mesh vertex: position, shading normal and texture
/// coordinates, all in fixed point.
#[derive(Clone, Copy, Debug, PartialEq, Eq, Hash, Structural)]
pub struct TriVertex {
    pub p: Vec3,
    pub u: i64,
    pub n: Vec3,
    pub v: i64,
}

/// A triangle addressing three entries of the shared vertex array.
#[derive(Clone, Copy, Debug, PartialEq, Eq, Hash, Structural)]
pub struct Triangle {
    pub v0: u32,
    pub v1: u32,
    pub v2: u32,
}

} // verus!
