//! The scene arena and its shared geometry types.
//!
//! World coordinates are fixed-point integers restricted to
//! `[-COORD_LIMIT, COORD_LIMIT]`, which keeps every surface-area and
//! split-cost computation exact and free of overflow.

use vstd::prelude::*;

pub mod light;
pub mod light_sampler;
pub mod material;
pub mod node;
pub mod other;
pub mod shapes;
pub mod spectra;
pub mod texture;

use crate::scene::light::{AreaLight, ImageLight, LightId, UniformLight};
use crate::scene::light_sampler::{
    LightSamplerId, PlsAliasBucket, PowerLightSampler, UniformLightSampler,
};
use crate::scene::material::{
    ConductorMaterial, DielectricMaterial, DiffuseMaterial, DiffuseTransmitMaterial,
    MetallicWorkflowMaterial, MixMaterial, ThinDielectricMaterial,
};
use crate::scene::node::{BvhNode, NodeId, PrimitiveNode, TransformNode};
use crate::scene::shapes::{Sphere, TriVertex, Triangle};
use crate::scene::spectra::{
    BlackbodySpectrum, ConstantSpectrum, PiecewiseLinearSpectrum, RgbAlbedoSpectrum,
    RgbIlluminantSpectrum, RgbIorImSpectrum, SpectrumData, SpectrumId, TableSpectrum,
};
use crate::scene::texture::{
    CheckerboardTexture, ConstantFloatTexture, ConstantRgbTexture, ConstantSpectrumTexture,
    ImageRgbTexture, MixTexture, ScaleTexture,
};

verus! {

/// Largest magnitude a world coordinate may take.
pub const COORD_LIMIT: i64 = 0x100_0000_0000;

/// A point or extent in world space, in fixed-point world units.
#[derive(Clone, Copy, Debug, PartialEq, Eq, Hash, Structural)]
pub struct Vec3 {
    pub x: i64,
    pub y: i64,
    pub z: i64,
}

impl Vec3 {
    /// Component along axis `a` (0 = x, 1 = y, 2 = z).
    pub open spec fn axis(self, a: int) -> i64 {
        if a == 0 {
            self.x
        } else if a == 1 {
            self.y
        } else {
            self.z
        }
    }

    /// All components within the representable world range.
    pub open spec fn in_world(self) -> bool {
        &&& -COORD_LIMIT <= self.x <= COORD_LIMIT
        &&& -COORD_LIMIT <= self.y <= COORD_LIMIT
        &&& -COORD_LIMIT <= self.z <= COORD_LIMIT
    }

    pub fn new(x: i64, y: i64, z: i64) -> (r: Vec3)
        ensures
            r == (Vec3 { x, y, z }),
    {
        Vec3 { x, y, z }
    }
}

/// An axis-aligned box. Once constructed from at least one point it always
/// satisfies `min <= max` component-wise; empty boxes are never built.
#[derive(Clone, Copy, Debug, PartialEq, Eq, Hash, Structural)]
pub struct Bounds {
    pub min: Vec3,
    pub max: Vec3,
}

/// Box union is commutative.
pub proof fn lemma_union_comm(a: Bounds, b: Bounds)
    ensures
        a.spec_union(b) == b.spec_union(a),
{
}

/// Box union is associative.
pub proof fn lemma_union_assoc(a: Bounds, b: Bounds, c: Bounds)
    ensures
        a.spec_union(b).spec_union(c) == a.spec_union(b.spec_union(c)),
{
}

impl Bounds {
    /// A well-formed box: ordered corners, both inside the world range.
    pub open spec fn wf(self) -> bool {
        &&& self.min.x <= self.max.x
        &&& self.min.y <= self.max.y
        &&& self.min.z <= self.max.z
        &&& self.min.in_world()
        &&& self.max.in_world()
    }

    /// The point `p` lies inside the box.
    pub open spec fn contains(self, p: Vec3) -> bool {
        &&& self.min.x <= p.x <= self.max.x
        &&& self.min.y <= p.y <= self.max.y
        &&& self.min.z <= p.z <= self.max.z
    }

    /// `self` covers every point of `other`.
    pub open spec fn covers(self, other: Bounds) -> bool {
        self.contains(other.min) && self.contains(other.max)
    }

    /// The smallest box containing both arguments.
    pub open spec fn spec_union(self, other: Bounds) -> Bounds {
        Bounds {
            min: Vec3 {
                x: if self.min.x <= other.min.x {
                    self.min.x
                } else {
                    other.min.x
                },
                y: if self.min.y <= other.min.y {
                    self.min.y
                } else {
                    other.min.y
                },
                z: if self.min.z <= other.min.z {
                    self.min.z
                } else {
                    other.min.z
                },
            },
            max: Vec3 {
                x: if self.max.x >= other.max.x {
                    self.max.x
                } else {
                    other.max.x
                },
                y: if self.max.y >= other.max.y {
                    self.max.y
                } else {
                    other.max.y
                },
                z: if self.max.z >= other.max.z {
                    self.max.z
                } else {
                    other.max.z
                },
            },
        }
    }

    /// Twice the sum of the pairwise face areas, exactly.
    pub open spec fn spec_surface_area(self) -> int {
        let dx = self.max.x - self.min.x;
        let dy = self.max.y - self.min.y;
        let dz = self.max.z - self.min.z;
        2 * (dx * dy + dx * dz + dy * dz)
    }

    /// Sort key of the box centre along axis `a`: the (doubled) centroid
    /// coordinate `min + max`, which orders boxes exactly as their centroids
    /// do without any rounding.
    pub open spec fn spec_centroid_key(self, a: int) -> int {
        self.min.axis(a) + self.max.axis(a)
    }

    /// The smallest box containing every listed point.
    pub fn from_points(points: &Vec<Vec3>) -> (r: Bounds)
        requires
            points@.len() > 0,
            forall|i: int| 0 <= i < points@.len() ==> (#[trigger] points@[i]).in_world(),
        ensures
            r.wf(),
            forall|i: int| 0 <= i < points@.len() ==> r.contains(#[trigger] points@[i]),
            exists|i: int| 0 <= i < points@.len() && r.min.x == #[trigger] points@[i].x,
            exists|i: int| 0 <= i < points@.len() && r.min.y == #[trigger] points@[i].y,
            exists|i: int| 0 <= i < points@.len() && r.min.z == #[trigger] points@[i].z,
            exists|i: int| 0 <= i < points@.len() && r.max.x == #[trigger] points@[i].x,
            exists|i: int| 0 <= i < points@.len() && r.max.y == #[trigger] points@[i].y,
            exists|i: int| 0 <= i < points@.len() && r.max.z == #[trigger] points@[i].z,
    {
        let first = points[0];
        let mut this = Bounds { min: first, max: first };
        let mut i: usize = 1;
        while i < points.len()
            invariant
                1 <= i <= points@.len(),
                points@.len() > 0,
                forall|j: int| 0 <= j < points@.len() ==> (#[trigger] points@[j]).in_world(),
                forall|j: int| 0 <= j < i ==> this.contains(#[trigger] points@[j]),
                exists|j: int| 0 <= j < i && this.min.x == #[trigger] points@[j].x,
                exists|j: int| 0 <= j < i && this.min.y == #[trigger] points@[j].y,
                exists|j: int| 0 <= j < i && this.min.z == #[trigger] points@[j].z,
                exists|j: int| 0 <= j < i && this.max.x == #[trigger] points@[j].x,
                exists|j: int| 0 <= j < i && this.max.y == #[trigger] points@[j].y,
                exists|j: int| 0 <= j < i && this.max.z == #[trigger] points@[j].z,
            decreases points@.len() - i,
        {
            let p = points[i];
            if p.x < this.min.x {
                this.min.x = p.x;
            }
            if p.y < this.min.y {
                this.min.y = p.y;
            }
            if p.z < this.min.z {
                this.min.z = p.z;
            }
            if p.x > this.max.x {
                this.max.x = p.x;
            }
            if p.y > this.max.y {
                this.max.y = p.y;
            }
            if p.z > this.max.z {
                this.max.z = p.z;
            }
            i += 1;
        }
        this
    }

    /// The union box of `self` and `other`.
    pub fn union(&self, other: &Bounds) -> (r: Bounds)
        ensures
            r == self.spec_union(*other),
    {
        Bounds {
            min: Vec3 {
                x: if self.min.x <= other.min.x {
                    self.min.x
                } else {
                    other.min.x
                },
                y: if self.min.y <= other.min.y {
                    self.min.y
                } else {
                    other.min.y
                },
                z: if self.min.z <= other.min.z {
                    self.min.z
                } else {
                    other.min.z
                },
            },
            max: Vec3 {
                x: if self.max.x >= other.max.x {
                    self.max.x
                } else {
                    other.max.x
                },
                y: if self.max.y >= other.max.y {
                    self.max.y
                } else {
                    other.max.y
                },
                z: if self.max.z >= other.max.z {
                    self.max.z
                } else {
                    other.max.z
                },
            },
        }
    }

    /// The box extent along each axis.
    pub fn size(&self) -> (r: Vec3)
        requires
            self.wf(),
        ensures
            r.x == self.max.x - self.min.x,
            r.y == self.max.y - self.min.y,
            r.z == self.max.z - self.min.z,
    {
        Vec3 {
            x: self.max.x - self.min.x,
            y: self.max.y - self.min.y,
            z: self.max.z - self.min.z,
        }
    }

    /// Twice the total face area of the box.
    pub fn surface_area(&self) -> (r: u128)
        requires
            self.wf(),
        ensures
            r == self.spec_surface_area(),
    {
        let dx = (self.max.x - self.min.x) as u128;
        let dy = (self.max.y - self.min.y) as u128;
        let dz = (self.max.z - self.min.z) as u128;
        proof {
            lemma_extent_product_bound(dx, dy);
            lemma_extent_product_bound(dx, dz);
            lemma_extent_product_bound(dy, dz);
        }
        2 * (dx * dy + dx * dz + dy * dz)
    }

    /// The corner selected by the low three bits of `sel`: bit 0 picks the x
    /// component from `max` instead of `min`, bit 1 the y, bit 2 the z.
    pub open spec fn spec_corner(self, sel: int) -> Vec3 {
        Vec3 {
            x: if sel % 2 == 1 {
                self.max.x
            } else {
                self.min.x
            },
            y: if (sel / 2) % 2 == 1 {
                self.max.y
            } else {
                self.min.y
            },
            z: if (sel / 4) % 2 == 1 {
                self.max.z
            } else {
                self.min.z
            },
        }
    }

    /// The corner selected by the low three bits of `sel`.
    pub fn corner(&self, sel: usize) -> (r: Vec3)
        ensures
            r == self.spec_corner(sel as int),
    {
        Vec3 {
            x: if sel % 2 == 1 {
                self.max.x
            } else {
                self.min.x
            },
            y: if (sel / 2) % 2 == 1 {
                self.max.y
            } else {
                self.min.y
            },
            z: if (sel / 4) % 2 == 1 {
                self.max.z
            } else {
                self.min.z
            },
        }
    }

    /// All eight corners, ordered by their selector bits.
    pub fn corners(&self) -> (r: Vec<Vec3>)
        ensures
            r@.len() == 8,
            forall|i: int| 0 <= i < 8 ==> r@[i] == self.spec_corner(i),
    {
        let mut r: Vec<Vec3> = Vec::new();
        r.push(Vec3 { x: self.min.x, y: self.min.y, z: self.min.z });
        r.push(Vec3 { x: self.max.x, y: self.min.y, z: self.min.z });
        r.push(Vec3 { x: self.min.x, y: self.max.y, z: self.min.z });
        r.push(Vec3 { x: self.max.x, y: self.max.y, z: self.min.z });
        r.push(Vec3 { x: self.min.x, y: self.min.y, z: self.max.z });
        r.push(Vec3 { x: self.max.x, y: self.min.y, z: self.max.z });
        r.push(Vec3 { x: self.min.x, y: self.max.y, z: self.max.z });
        r.push(Vec3 { x: self.max.x, y: self.max.y, z: self.max.z });
        r
    }
}

/// Largest magnitude a linear transform coefficient may take.
pub const TRANSFORM_COEFF_LIMIT: i64 = 0x10_0000;

/// One affine map of world space: an integer-coefficient linear part given
/// by rows `r0..r2`, then a translation `t` in world units.
#[derive(Clone, Copy, Debug)]
pub struct Affine {
    pub r0: Vec3,
    pub r1: Vec3,
    pub r2: Vec3,
    pub t: Vec3,
}

/// Clamps an exact coordinate into the representable world range.
pub open spec fn clamp_world(v: int) -> i64 {
    if v < -COORD_LIMIT {
        (-COORD_LIMIT) as i64
    } else if v > COORD_LIMIT {
        COORD_LIMIT as i64
    } else {
        v as i64
    }
}

impl Affine {
    /// Bounded coefficients, so that applying the map to an in-world point
    /// cannot overflow.
    pub open spec fn wf(self) -> bool {
        &&& -TRANSFORM_COEFF_LIMIT <= self.r0.x <= TRANSFORM_COEFF_LIMIT
        &&& -TRANSFORM_COEFF_LIMIT <= self.r0.y <= TRANSFORM_COEFF_LIMIT
        &&& -TRANSFORM_COEFF_LIMIT <= self.r0.z <= TRANSFORM_COEFF_LIMIT
        &&& -TRANSFORM_COEFF_LIMIT <= self.r1.x <= TRANSFORM_COEFF_LIMIT
        &&& -TRANSFORM_COEFF_LIMIT <= self.r1.y <= TRANSFORM_COEFF_LIMIT
        &&& -TRANSFORM_COEFF_LIMIT <= self.r1.z <= TRANSFORM_COEFF_LIMIT
        &&& -TRANSFORM_COEFF_LIMIT <= self.r2.x <= TRANSFORM_COEFF_LIMIT
        &&& -TRANSFORM_COEFF_LIMIT <= self.r2.y <= TRANSFORM_COEFF_LIMIT
        &&& -TRANSFORM_COEFF_LIMIT <= self.r2.z <= TRANSFORM_COEFF_LIMIT
        &&& self.t.in_world()
    }

    /// The exact image of `p` along one row, before clamping.
    pub open spec fn spec_row(row: Vec3, t: i64, p: Vec3) -> int {
        row.x * p.x + row.y * p.y + row.z * p.z + t
    }

    /// The image of `p` under the map, clamped into the world range.
    pub open spec fn spec_apply(self, p: Vec3) -> Vec3 {
        Vec3 {
            x: clamp_world(Affine::spec_row(self.r0, self.t.x, p)),
            y: clamp_world(Affine::spec_row(self.r1, self.t.y, p)),
            z: clamp_world(Affine::spec_row(self.r2, self.t.z, p)),
        }
    }

    /// Applies the map to an in-world point; the result is clamped into the
    /// world range.
    pub fn apply(&self, p: Vec3) -> (r: Vec3)
        requires
            self.wf(),
            p.in_world(),
        ensures
            r == self.spec_apply(p),
            r.in_world(),
    {
        Vec3 {
            x: apply_row(self.r0, self.t.x, p),
            y: apply_row(self.r1, self.t.y, p),
            z: apply_row(self.r2, self.t.z, p),
        }
    }
}

/// One row of an affine application, clamped into the world range.
fn apply_row(row: Vec3, t: i64, p: Vec3) -> (r: i64)
    requires
        -TRANSFORM_COEFF_LIMIT <= row.x <= TRANSFORM_COEFF_LIMIT,
        -TRANSFORM_COEFF_LIMIT <= row.y <= TRANSFORM_COEFF_LIMIT,
        -TRANSFORM_COEFF_LIMIT <= row.z <= TRANSFORM_COEFF_LIMIT,
        -COORD_LIMIT <= t <= COORD_LIMIT,
        p.in_world(),
    ensures
        r == clamp_world(Affine::spec_row(row, t, p)),
        -COORD_LIMIT <= r <= COORD_LIMIT,
{
    proof {
        lemma_coeff_product_bound(row.x as int, p.x as int);
        lemma_coeff_product_bound(row.y as int, p.y as int);
        lemma_coeff_product_bound(row.z as int, p.z as int);
    }
    let v: i64 = row.x * p.x + row.y * p.y + row.z * p.z + t;
    if v < -COORD_LIMIT {
        -COORD_LIMIT
    } else if v > COORD_LIMIT {
        COORD_LIMIT
    } else {
        v
    }
}

/// The product of a bounded coefficient and an in-world coordinate stays
/// well inside the `i64` range.
proof fn lemma_coeff_product_bound(a: int, b: int)
    requires
        -TRANSFORM_COEFF_LIMIT <= a <= TRANSFORM_COEFF_LIMIT,
        -COORD_LIMIT <= b <= COORD_LIMIT,
    ensures
        -0x1000_0000_0000_0000 <= a * b <= 0x1000_0000_0000_0000,
{
    assert(-0x1000_0000_0000_0000 <= a * b <= 0x1000_0000_0000_0000) by (nonlinear_arith)
        requires
            -0x10_0000 <= a <= 0x10_0000,
            -0x100_0000_0000 <= b <= 0x100_0000_0000,
    ;
}

/// A placement transform: `m` maps world space into object space and
/// `m_inv` maps object space back out into world space.
#[derive(Clone, Copy, Debug)]
pub struct Transform {
    pub m: Affine,
    pub m_inv: Affine,
}

impl Transform {
    /// Both directions have bounded coefficients.
    pub open spec fn wf(self) -> bool {
        self.m.wf() && self.m_inv.wf()
    }
}

/// A box extent is at most `2 * COORD_LIMIT`, so the product of two extents
/// stays far below the `u128` range.
proof fn lemma_extent_product_bound(a: u128, b: u128)
    requires
        a <= 2 * COORD_LIMIT,
        b <= 2 * COORD_LIMIT,
    ensures
        a * b <= 0x4000_0000_0000_0000_0000_0000,
{
    assert(a * b <= 0x4000_0000_0000_0000_0000_0000) by (nonlinear_arith)
        requires
            a <= 0x200_0000_0000u128,
            b <= 0x200_0000_0000u128,
    ;
}

/// The scene arena: one growable array per variant of every entity kind,
/// plus the cross-cutting scalar blob, the infinite-light list, the scene
/// roots and the named-spectrum lookup. Constructors append one record and
/// hand back a handle; records already issued are never moved.
pub struct Scene {
    pub spheres: Vec<Sphere>,
    pub triangles: Vec<Triangle>,
    pub triangle_vertices: Vec<TriVertex>,
    pub bvh_nodes: Vec<BvhNode>,
    pub transform_nodes: Vec<TransformNode>,
    pub primitive_nodes: Vec<PrimitiveNode>,
    pub constant_float_tex: Vec<ConstantFloatTexture>,
    pub constant_rgb_tex: Vec<ConstantRgbTexture>,
    pub constant_spectrum_tex: Vec<ConstantSpectrumTexture>,
    pub image_rgb_tex: Vec<ImageRgbTexture>,
    pub scale_tex: Vec<ScaleTexture>,
    pub mix_tex: Vec<MixTexture>,
    pub checkerboard_tex: Vec<CheckerboardTexture>,
    pub diffuse_mat: Vec<DiffuseMaterial>,
    pub diffuse_transmit_mat: Vec<DiffuseTransmitMaterial>,
    pub conductor_mat: Vec<ConductorMaterial>,
    pub dielectric_mat: Vec<DielectricMaterial>,
    pub thin_dielectric_mat: Vec<ThinDielectricMaterial>,
    pub metallic_workflow_mat: Vec<MetallicWorkflowMaterial>,
    pub mix_mat: Vec<MixMaterial>,
    pub infinite_lights: Vec<LightId>,
    pub uniform_lights: Vec<UniformLight>,
    pub image_lights: Vec<ImageLight>,
    pub area_lights: Vec<AreaLight>,
    pub table_spectra: Vec<TableSpectrum>,
    pub constant_spectra: Vec<ConstantSpectrum>,
    pub rgb_albedo_spectra: Vec<RgbAlbedoSpectrum>,
    pub rgb_illuminant_spectra: Vec<RgbIlluminantSpectrum>,
    pub blackbody_spectra: Vec<BlackbodySpectrum>,
    pub piecewise_linear_spectra: Vec<PiecewiseLinearSpectrum>,
    pub rgb_ior_im_spectra: Vec<RgbIorImSpectrum>,
    pub float_data: Vec<i64>,
    pub uniform_light_samplers: Vec<UniformLightSampler>,
    pub uniform_light_sampler_data: Vec<LightId>,
    pub power_light_samplers: Vec<PowerLightSampler>,
    pub power_light_sampler_data: Vec<PlsAliasBucket>,
    pub root: Option<NodeId>,
    pub root_ls: Option<LightSamplerId>,
    pub named_spectra: Vec<(String, SpectrumId)>,
}

/// The mathematical content of a `Scene`: each arena array as a sequence.
/// Arena constructors state their effect as one update of this view.
#[verifier::ext_equal]
pub ghost struct SceneView {
    pub spheres: Seq<Sphere>,
    pub triangles: Seq<Triangle>,
    pub triangle_vertices: Seq<TriVertex>,
    pub bvh_nodes: Seq<BvhNode>,
    pub transform_nodes: Seq<TransformNode>,
    pub primitive_nodes: Seq<PrimitiveNode>,
    pub constant_float_tex: Seq<ConstantFloatTexture>,
    pub constant_rgb_tex: Seq<ConstantRgbTexture>,
    pub constant_spectrum_tex: Seq<ConstantSpectrumTexture>,
    pub image_rgb_tex: Seq<ImageRgbTexture>,
    pub scale_tex: Seq<ScaleTexture>,
    pub mix_tex: Seq<MixTexture>,
    pub checkerboard_tex: Seq<CheckerboardTexture>,
    pub diffuse_mat: Seq<DiffuseMaterial>,
    pub diffuse_transmit_mat: Seq<DiffuseTransmitMaterial>,
    pub conductor_mat: Seq<ConductorMaterial>,
    pub dielectric_mat: Seq<DielectricMaterial>,
    pub thin_dielectric_mat: Seq<ThinDielectricMaterial>,
    pub metallic_workflow_mat: Seq<MetallicWorkflowMaterial>,
    pub mix_mat: Seq<MixMaterial>,
    pub infinite_lights: Seq<LightId>,
    pub uniform_lights: Seq<UniformLight>,
    pub image_lights: Seq<ImageLight>,
    pub area_lights: Seq<AreaLight>,
    pub table_spectra: Seq<TableSpectrum>,
    pub constant_spectra: Seq<ConstantSpectrum>,
    pub rgb_albedo_spectra: Seq<RgbAlbedoSpectrum>,
    pub rgb_illuminant_spectra: Seq<RgbIlluminantSpectrum>,
    pub blackbody_spectra: Seq<BlackbodySpectrum>,
    pub piecewise_linear_spectra: Seq<PiecewiseLinearSpectrum>,
    pub rgb_ior_im_spectra: Seq<RgbIorImSpectrum>,
    pub float_data: Seq<i64>,
    pub uniform_light_samplers: Seq<UniformLightSampler>,
    pub uniform_light_sampler_data: Seq<LightId>,
    pub power_light_samplers: Seq<PowerLightSampler>,
    pub power_light_sampler_data: Seq<PlsAliasBucket>,
    pub root: Option<NodeId>,
    pub root_ls: Option<LightSamplerId>,
    pub named_spectra: Seq<(String, SpectrumId)>,
}

impl View for Scene {
    type V = SceneView;

    open spec fn view(&self) -> SceneView {
        SceneView {
            spheres: self.spheres@,
            triangles: self.triangles@,
            triangle_vertices: self.triangle_vertices@,
            bvh_nodes: self.bvh_nodes@,
            transform_nodes: self.transform_nodes@,
            primitive_nodes: self.primitive_nodes@,
            constant_float_tex: self.constant_float_tex@,
            constant_rgb_tex: self.constant_rgb_tex@,
            constant_spectrum_tex: self.constant_spectrum_tex@,
            image_rgb_tex: self.image_rgb_tex@,
            scale_tex: self.scale_tex@,
            mix_tex: self.mix_tex@,
            checkerboard_tex: self.checkerboard_tex@,
            diffuse_mat: self.diffuse_mat@,
            diffuse_transmit_mat: self.diffuse_transmit_mat@,
            conductor_mat: self.conductor_mat@,
            dielectric_mat: self.dielectric_mat@,
            thin_dielectric_mat: self.thin_dielectric_mat@,
            metallic_workflow_mat: self.metallic_workflow_mat@,
            mix_mat: self.mix_mat@,
            infinite_lights: self.infinite_lights@,
            uniform_lights: self.uniform_lights@,
            image_lights: self.image_lights@,
            area_lights: self.area_lights@,
            table_spectra: self.table_spectra@,
            constant_spectra: self.constant_spectra@,
            rgb_albedo_spectra: self.rgb_albedo_spectra@,
            rgb_illuminant_spectra: self.rgb_illuminant_spectra@,
            blackbody_spectra: self.blackbody_spectra@,
            piecewise_linear_spectra: self.piecewise_linear_spectra@,
            rgb_ior_im_spectra: self.rgb_ior_im_spectra@,
            float_data: self.float_data@,
            uniform_light_samplers: self.uniform_light_samplers@,
            uniform_light_sampler_data: self.uniform_light_sampler_data@,
            power_light_samplers: self.power_light_samplers@,
            power_light_sampler_data: self.power_light_sampler_data@,
            root: self.root,
            root_ls: self.root_ls,
            named_spectra: self.named_spectra@,
        }
    }
}

impl Scene {
    /// An arena with every array empty and no roots assigned.
    pub fn empty() -> (r: Scene)
        ensures
            r@.spheres.len() == 0,
            r@.triangles.len() == 0,
            r@.triangle_vertices.len() == 0,
            r@.bvh_nodes.len() == 0,
            r@.transform_nodes.len() == 0,
            r@.primitive_nodes.len() == 0,
            r@.constant_float_tex.len() == 0,
            r@.constant_rgb_tex.len() == 0,
            r@.constant_spectrum_tex.len() == 0,
            r@.image_rgb_tex.len() == 0,
            r@.scale_tex.len() == 0,
            r@.mix_tex.len() == 0,
            r@.checkerboard_tex.len() == 0,
            r@.diffuse_mat.len() == 0,
            r@.diffuse_transmit_mat.len() == 0,
            r@.conductor_mat.len() == 0,
            r@.dielectric_mat.len() == 0,
            r@.thin_dielectric_mat.len() == 0,
            r@.metallic_workflow_mat.len() == 0,
            r@.mix_mat.len() == 0,
            r@.infinite_lights.len() == 0,
            r@.uniform_lights.len() == 0,
            r@.image_lights.len() == 0,
            r@.area_lights.len() == 0,
            r@.table_spectra.len() == 0,
            r@.constant_spectra.len() == 0,
            r@.rgb_albedo_spectra.len() == 0,
            r@.rgb_illuminant_spectra.len() == 0,
            r@.blackbody_spectra.len() == 0,
            r@.piecewise_linear_spectra.len() == 0,
            r@.rgb_ior_im_spectra.len() == 0,
            r@.float_data.len() == 0,
            r@.uniform_light_samplers.len() == 0,
            r@.uniform_light_sampler_data.len() == 0,
            r@.power_light_samplers.len() == 0,
            r@.power_light_sampler_data.len() == 0,
            r@.root is None,
            r@.root_ls is None,
            r@.named_spectra.len() == 0,
    {
        Scene {
            spheres: Vec::new(),
            triangles: Vec::new(),
            triangle_vertices: Vec::new(),
            bvh_nodes: Vec::new(),
            transform_nodes: Vec::new(),
            primitive_nodes: Vec::new(),
            constant_float_tex: Vec::new(),
            constant_rgb_tex: Vec::new(),
            constant_spectrum_tex: Vec::new(),
            image_rgb_tex: Vec::new(),
            scale_tex: Vec::new(),
            mix_tex: Vec::new(),
            checkerboard_tex: Vec::new(),
            diffuse_mat: Vec::new(),
            diffuse_transmit_mat: Vec::new(),
            conductor_mat: Vec::new(),
            dielectric_mat: Vec::new(),
            thin_dielectric_mat: Vec::new(),
            metallic_workflow_mat: Vec::new(),
            mix_mat: Vec::new(),
            infinite_lights: Vec::new(),
            uniform_lights: Vec::new(),
            image_lights: Vec::new(),
            area_lights: Vec::new(),
            table_spectra: Vec::new(),
            constant_spectra: Vec::new(),
            rgb_albedo_spectra: Vec::new(),
            rgb_illuminant_spectra: Vec::new(),
            blackbody_spectra: Vec::new(),
            piecewise_linear_spectra: Vec::new(),
            rgb_ior_im_spectra: Vec::new(),
            float_data: Vec::new(),
            uniform_light_samplers: Vec::new(),
            uniform_light_sampler_data: Vec::new(),
            power_light_samplers: Vec::new(),
            power_light_sampler_data: Vec::new(),
            root: None,
            root_ls: None,
            named_spectra: Vec::new(),
        }
    }

    /// An arena seeded with the built-in colorimetric tables: the three
    /// observer curves and the daylight illuminant as the first four table
    /// spectra, a sentinel slot in the infinite-light list, the illuminant
    /// registered under its standard name, and one piecewise-linear
    /// spectrum per named refractive-index table.
    pub fn new(builtin: SpectrumData) -> (r: Scene)
        requires
            builtin.wf(),
        ensures
            r@.infinite_lights.len() == 1,
            r@.infinite_lights[0] == LightId::spec_zero(),
            r@.table_spectra.len() == 4,
            r@.table_spectra[0] == builtin.cie_x,
            r@.table_spectra[1] == builtin.cie_y,
            r@.table_spectra[2] == builtin.cie_z,
            r@.table_spectra[3] == builtin.d65,
            r@.piecewise_linear_spectra.len() == builtin.iors@.len(),
            r@.named_spectra.len() == 1 + builtin.iors@.len(),
            r@.named_spectra[0].0@ == "stdillum-D65"@,
            r@.named_spectra[0].1.spec_ty() == crate::scene::spectra::SpectrumType::Table,
            r@.named_spectra[0].1.spec_idx() == 3,
            forall|i: int|
                0 <= i < builtin.iors@.len() ==> (#[trigger] r@.named_spectra[i + 1]).0@
                    == builtin.iors@[i].0@ && r@.named_spectra[i + 1].1.spec_ty()
                    == crate::scene::spectra::SpectrumType::PiecewiseLinear && r@.named_spectra[i
                    + 1].1.spec_idx() == i,
            r@.root is None,
            r@.root_ls is None,
            r@.bvh_nodes.len() == 0,
            r@.primitive_nodes.len() == 0,
            r@.transform_nodes.len() == 0,
    {
        let mut this = Scene::empty();
        this.infinite_lights.push(crate::scene::light::LightId::zero());
        this.add_table_spectrum(builtin.cie_x);
        this.add_table_spectrum(builtin.cie_y);
        this.add_table_spectrum(builtin.cie_z);
        let d65 = this.add_table_spectrum(builtin.d65);
        this.named_spectra.push((String::from_str("stdillum-D65"), d65));
        let mut i: usize = 0;
        while i < builtin.iors.len()
            invariant
                i <= builtin.iors@.len(),
                builtin.iors@.len() <= 0x1000,
                forall|j: int|
                    0 <= j < builtin.iors@.len() ==> (#[trigger] builtin.iors@[j]).1@.len()
                        <= 0x1_0000,
                this@.float_data.len() <= i * 0x2_0000,
                this@.piecewise_linear_spectra.len() == i,
                this@.named_spectra.len() == 1 + i,
                this@.named_spectra[0].0@ == "stdillum-D65"@,
                this@.named_spectra[0].1.spec_ty() == crate::scene::spectra::SpectrumType::Table,
                this@.named_spectra[0].1.spec_idx() == 3,
                forall|j: int|
                    0 <= j < i ==> (#[trigger] this@.named_spectra[j + 1]).0@ == builtin.iors@[
                        j
                    ].0@ && this@.named_spectra[j + 1].1.spec_ty()
                        == crate::scene::spectra::SpectrumType::PiecewiseLinear
                        && this@.named_spectra[j + 1].1.spec_idx() == j,
                this@.infinite_lights.len() == 1,
                this@.infinite_lights[0] == LightId::spec_zero(),
                this@.table_spectra.len() == 4,
                this@.table_spectra[0] == builtin.cie_x,
                this@.table_spectra[1] == builtin.cie_y,
                this@.table_spectra[2] == builtin.cie_z,
                this@.table_spectra[3] == builtin.d65,
                this@.root is None,
                this@.root_ls is None,
                this@.bvh_nodes.len() == 0,
                this@.primitive_nodes.len() == 0,
                this@.transform_nodes.len() == 0,
            decreases builtin.iors@.len() - i,
        {
            let name = builtin.iors[i].0.clone();
            let v = this.add_piecewise_linear_spectrum(&builtin.iors[i].1);
            this.named_spectra.push((name, v));
            i += 1;
        }
        this
    }

    /// Appends raw scalar data to the shared blob and returns the offset at
    /// which it starts.
    pub fn add_float_data(&mut self, data: &Vec<i64>) -> (r: u32)
        requires
            old(self)@.float_data.len() + data@.len() <= u32::MAX,
        ensures
            final(self)@ == (SceneView {
                float_data: old(self)@.float_data + data@,
                ..old(self)@
            }),
            r == old(self)@.float_data.len(),
    {
        let base = self.float_data.len() as u32;
        let mut i: usize = 0;
        while i < data.len()
            invariant
                i <= data@.len(),
                base == old(self)@.float_data.len(),
                self@ == (SceneView {
                    float_data: old(self)@.float_data + data@.take(i as int),
                    ..old(self)@
                }),
            decreases data@.len() - i,
        {
            self.float_data.push(data[i]);
            proof {
                assert(old(self)@.float_data + data@.take(i + 1) =~= (old(self)@.float_data
                    + data@.take(i as int)).push(data@[i as int]));
            }
            i += 1;
        }
        proof {
            assert(data@.take(data@.len() as int) =~= data@);
        }
        base
    }
}

} // verus!
