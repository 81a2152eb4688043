//! Light entries and their handles.

use vstd::prelude::*;
use crate::handle::{index_limit, index_of, pack, tag_of, unpack_index, unpack_tag};
use crate::scene::node::NodeId;
use crate::scene::shapes::ShapeId;
use crate::scene::spectra::SpectrumId;
use crate::scene::texture::TextureId;

verus! {

pub const LIGHT_TAG_BITS: u32 = 2;

/// Largest index a `LightId` can carry.
pub const LIGHT_INDEX_LIMIT: u32 = 0x3fff_ffff;

/// The light variants.
#[derive(Clone, Copy, Debug, PartialEq, Eq, Hash, Structural)]
pub enum LightType {
    Uniform,
    Image,
    Area,
}

impl LightType {
    /// The tag value packed into a handle for this variant.
    pub open spec fn tag(self) -> u32 {
        match self {
            LightType::Uniform => 0,
            LightType::Image => 1,
            LightType::Area => 2,
        }
    }
}

/// Packed handle of a light: two tag bits selecting the variant, thirty
/// index bits into that variant's array.
#[derive(Clone, Copy, Debug, PartialEq, Eq, Hash, Structural)]
pub struct LightId(u32);

/// The packed constants of `LightId` agree with the generic handle scheme.
proof fn lemma_light_id_limits()
    ensures
        LIGHT_INDEX_LIMIT == index_limit(LIGHT_TAG_BITS),
        3u32 < (1u32 << LIGHT_TAG_BITS),
{
    assert(0xffff_ffffu32 >> 2 == 0x3fff_ffffu32 && 3u32 < (1u32 << 2)) by (bit_vector);
}

impl LightId {
    /// The variant this handle refers to. An unused fourth tag value decodes
    /// as `Area`; `new` never produces it.
    pub closed spec fn spec_ty(self) -> LightType {
        if tag_of(LIGHT_TAG_BITS, self.0) == 0 {
            LightType::Uniform
        } else if tag_of(LIGHT_TAG_BITS, self.0) == 1 {
            LightType::Image
        } else {
            LightType::Area
        }
    }

    /// The index into the variant's array.
    pub closed spec fn spec_idx(self) -> u32 {
        index_of(LIGHT_TAG_BITS, self.0)
    }

    /// Whether the light is an infinite one (not attached to a shape).
    pub open spec fn spec_is_infinite(self) -> bool {
        self.spec_ty() != LightType::Area
    }

    /// The all-zero handle as a value.
    pub closed spec fn spec_zero() -> LightId {
        LightId(0)
    }

    /// The all-zero handle, used as a sentinel slot.
    pub fn zero() -> (r: LightId)
        ensures
            r == LightId::spec_zero(),
            r.spec_ty() == LightType::Uniform,
            r.spec_idx() == 0,
    {
        proof {
            assert(0u32 >> 30u32 == 0u32 && 0u32 & (0xffff_ffffu32 >> 2u32) == 0u32)
                by (bit_vector);
        }
        LightId(0)
    }

    /// Packs a variant and an in-range index into a handle; both unpack to
    /// exactly the values given.
    pub fn new(ty: LightType, idx: usize) -> (r: LightId)
        requires
            idx <= LIGHT_INDEX_LIMIT,
        ensures
            r.spec_ty() == ty,
            r.spec_idx() == idx,
    {
        proof {
            lemma_light_id_limits();
        }
        let tag: u32 = match ty {
            LightType::Uniform => 0,
            LightType::Image => 1,
            LightType::Area => 2,
        };
        LightId(pack(LIGHT_TAG_BITS, tag, idx as u32))
    }

    /// The variant this handle refers to.
    pub fn ty(self) -> (r: LightType)
        ensures
            r == self.spec_ty(),
    {
        match unpack_tag(LIGHT_TAG_BITS, self.0) {
            0 => LightType::Uniform,
            1 => LightType::Image,
            _ => LightType::Area,
        }
    }

    /// The index into the variant's array.
    pub fn idx(self) -> (r: usize)
        ensures
            r == self.spec_idx(),
    {
        unpack_index(LIGHT_TAG_BITS, self.0) as usize
    }

    /// Whether the light is an infinite one.
    pub fn is_infinite(self) -> (r: bool)
        ensures
            r == self.spec_is_infinite(),
    {
        match self.ty() {
            LightType::Area => false,
            _ => true,
        }
    }
}

impl crate::scene::Scene {
    /// Appends an infinite uniform light, registers it in the infinite-light
    /// list, and returns its handle.
    pub fn add_uniform_light(&mut self, spectrum: SpectrumId) -> (r: LightId)
        requires
            old(self)@.uniform_lights.len() <= LIGHT_INDEX_LIMIT,
        ensures
            final(self)@ == (crate::scene::SceneView {
                infinite_lights: old(self)@.infinite_lights.push(r),
                uniform_lights: old(self)@.uniform_lights.push(
                    UniformLight { spectrum, light_sampling_path: 0 },
                ),
                ..old(self)@
            }),
            r.spec_ty() == LightType::Uniform,
            r.spec_idx() == old(self)@.uniform_lights.len(),
    {
        let id = LightId::new(LightType::Uniform, self.uniform_lights.len());
        self.infinite_lights.push(id);
        self.uniform_lights.push(UniformLight { spectrum, light_sampling_path: 0 });
        id
    }

    /// Appends an infinite image-based light, registers it in the
    /// infinite-light list, and returns its handle. The sampling
    /// distribution over the image is supplied by the caller.
    pub fn add_image_light(
        &mut self,
        transform: crate::scene::Transform,
        image: u32,
        scale: i64,
        sampling_distr: crate::scene::other::TableSampler2d,
    ) -> (r: LightId)
        requires
            old(self)@.image_lights.len() <= LIGHT_INDEX_LIMIT,
        ensures
            final(self)@ == (crate::scene::SceneView {
                infinite_lights: old(self)@.infinite_lights.push(r),
                image_lights: old(self)@.image_lights.push(
                    ImageLight { transform, image, scale, light_sampling_path: 0, sampling_distr },
                ),
                ..old(self)@
            }),
            r.spec_ty() == LightType::Image,
            r.spec_idx() == old(self)@.image_lights.len(),
    {
        let id = LightId::new(LightType::Image, self.image_lights.len());
        self.infinite_lights.push(id);
        self.image_lights.push(
            ImageLight { transform, image, scale, light_sampling_path: 0, sampling_distr },
        );
        id
    }

    /// Appends an area light attached to a shape and returns its handle.
    /// Its placing transform node starts at the zero sentinel until
    /// `set_area_light_transform` assigns it.
    pub fn add_area_light(
        &mut self,
        shape: ShapeId,
        spectrum: SpectrumId,
        alpha: TextureId,
    ) -> (r: LightId)
        requires
            old(self)@.area_lights.len() <= LIGHT_INDEX_LIMIT,
        ensures
            final(self)@ == (crate::scene::SceneView {
                area_lights: old(self)@.area_lights.push(
                    AreaLight {
                        spectrum,
                        transform_node: NodeId::spec_zero(),
                        shape,
                        alpha,
                        two_sided: false,
                        light_sampling_path: 0,
                    },
                ),
                ..old(self)@
            }),
            r.spec_ty() == LightType::Area,
            r.spec_idx() == old(self)@.area_lights.len(),
    {
        let id = LightId::new(LightType::Area, self.area_lights.len());
        self.area_lights.push(
            AreaLight {
                spectrum,
                transform_node: NodeId::zero(),
                shape,
                alpha,
                two_sided: false,
                light_sampling_path: 0,
            },
        );
        id
    }

    /// Points an area light at its placing transform node.
    pub fn set_area_light_transform(&mut self, light: LightId, transform: NodeId)
        requires
            light.spec_ty() == LightType::Area,
            light.spec_idx() < old(self)@.area_lights.len(),
        ensures
            final(self)@ == (crate::scene::SceneView {
                area_lights: old(self)@.area_lights.update(
                    light.spec_idx() as int,
                    AreaLight {
                        transform_node: transform,
                        ..old(self)@.area_lights[light.spec_idx() as int]
                    },
                ),
                ..old(self)@
            }),
    {
        let i = light.idx();
        let mut rec = self.area_lights[i];
        rec.transform_node = transform;
        self.area_lights.set(i, rec);
    }

    /// Records the light's slot within the active light sampler, whatever
    /// variant the light is.
    pub fn set_light_sampling_path(&mut self, light: LightId, path: u32)
        requires
            light.spec_ty() == LightType::Uniform ==> light.spec_idx() < old(
                self,
            )@.uniform_lights.len(),
            light.spec_ty() == LightType::Image ==> light.spec_idx() < old(
                self,
            )@.image_lights.len(),
            light.spec_ty() == LightType::Area ==> light.spec_idx() < old(
                self,
            )@.area_lights.len(),
        ensures
            light.spec_ty() == LightType::Uniform ==> final(self)@ == (crate::scene::SceneView {
                uniform_lights: old(self)@.uniform_lights.update(
                    light.spec_idx() as int,
                    UniformLight {
                        light_sampling_path: path,
                        ..old(self)@.uniform_lights[light.spec_idx() as int]
                    },
                ),
                ..old(self)@
            }),
            light.spec_ty() == LightType::Image ==> final(self)@ == (crate::scene::SceneView {
                image_lights: old(self)@.image_lights.update(
                    light.spec_idx() as int,
                    ImageLight {
                        light_sampling_path: path,
                        ..old(self)@.image_lights[light.spec_idx() as int]
                    },
                ),
                ..old(self)@
            }),
            light.spec_ty() == LightType::Area ==> final(self)@ == (crate::scene::SceneView {
                area_lights: old(self)@.area_lights.update(
                    light.spec_idx() as int,
                    AreaLight {
                        light_sampling_path: path,
                        ..old(self)@.area_lights[light.spec_idx() as int]
                    },
                ),
                ..old(self)@
            }),
    {
        let i = light.idx();
        match light.ty() {
            LightType::Uniform => {
                let mut rec = self.uniform_lights[i];
                rec.light_sampling_path = path;
                self.uniform_lights.set(i, rec);
            },
            LightType::Image => {
                let mut rec = self.image_lights[i];
                rec.light_sampling_path = path;
                self.image_lights.set(i, rec);
            },
            LightType::Area => {
                let mut rec = self.area_lights[i];
                rec.light_sampling_path = path;
                self.area_lights.set(i, rec);
            },
        }
    }
}

/// An infinite light of uniform radiance.
#[derive(Clone, Copy, Debug, PartialEq, Eq, Hash, Structural)]
pub struct UniformLight {
    pub spectrum: SpectrumId,
    pub light_sampling_path: u32,
}

/// An infinite light whose radiance comes from an image.
#[derive(Clone, Copy, Debug)]
pub struct ImageLight {
    pub transform: crate::scene::Transform,
    pub image: u32,
    pub scale: i64,
    pub light_sampling_path: u32,
    pub sampling_distr: crate::scene::other::TableSampler2d,
}

/// A light attached to a shape.
#[derive(Clone, Copy, Debug, PartialEq, Eq, Hash, Structural)]
pub struct AreaLight {
    pub spectrum: SpectrumId,
    pub transform_node: NodeId,
    pub shape: ShapeId,
    pub alpha: TextureId,
    pub two_sided: bool,
    pub light_sampling_path: u32,
}

} // verus!
