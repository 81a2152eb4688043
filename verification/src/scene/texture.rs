//! Textures and their handles.

use vstd::prelude::*;
use crate::handle::{index_limit, index_of, pack, tag_of, unpack_index, unpack_tag};
use crate::scene::Vec3;

verus! {

pub const TEXTURE_TAG_BITS: u32 = 3;

/// Largest index a `TextureId` can carry.
pub const TEXTURE_INDEX_LIMIT: u32 = 0x1fff_ffff;

/// The texture variants.
#[derive(Clone, Copy, Debug, PartialEq, Eq, Hash, Structural)]
pub enum TextureType {
    ConstantFloat,
    ConstantRgb,
    ConstantSpectrum,
    ImageRgb,
    Scale,
    Mix,
    Checkerboard,
}

impl TextureType {
    /// The tag value packed into a handle for this variant.
    pub open spec fn tag(self) -> u32 {
        match self {
            TextureType::ConstantFloat => 0,
            TextureType::ConstantRgb => 1,
            TextureType::ConstantSpectrum => 2,
            TextureType::ImageRgb => 3,
            TextureType::Scale => 4,
            TextureType::Mix => 5,
            TextureType::Checkerboard => 6,
        }
    }
}

/// Packed handle of a texture: three tag bits selecting the variant,
/// twenty-nine index bits into that variant's array.
#[derive(Clone, Copy, Debug, PartialEq, Eq, Hash, Structural)]
pub struct TextureId(u32);

/// The packed constants of `TextureId` agree with the generic handle scheme.
proof fn lemma_texture_id_limits()
    ensures
        TEXTURE_INDEX_LIMIT == index_limit(TEXTURE_TAG_BITS),
        7u32 < (1u32 << TEXTURE_TAG_BITS),
{
    assert(0xffff_ffffu32 >> 3 == 0x1fff_ffffu32 && 7u32 < (1u32 << 3)) by (bit_vector);
}

impl TextureId {
    /// The variant this handle refers to. The unused eighth tag value
    /// decodes as `Checkerboard`; `new` never produces it.
    pub closed spec fn spec_ty(self) -> TextureType {
        if tag_of(TEXTURE_TAG_BITS, self.0) == 0 {
            TextureType::ConstantFloat
        } else if tag_of(TEXTURE_TAG_BITS, self.0) == 1 {
            TextureType::ConstantRgb
        } else if tag_of(TEXTURE_TAG_BITS, self.0) == 2 {
            TextureType::ConstantSpectrum
        } else if tag_of(TEXTURE_TAG_BITS, self.0) == 3 {
            TextureType::ImageRgb
        } else if tag_of(TEXTURE_TAG_BITS, self.0) == 4 {
            TextureType::Scale
        } else if tag_of(TEXTURE_TAG_BITS, self.0) == 5 {
            TextureType::Mix
        } else {
            TextureType::Checkerboard
        }
    }

    /// The index into the variant's array.
    pub closed spec fn spec_idx(self) -> u32 {
        index_of(TEXTURE_TAG_BITS, self.0)
    }

    /// Packs a variant and an in-range index into a handle; both unpack to
    /// exactly the values given.
    pub fn new(ty: TextureType, idx: usize) -> (r: TextureId)
        requires
            idx <= TEXTURE_INDEX_LIMIT,
        ensures
            r.spec_ty() == ty,
            r.spec_idx() == idx,
    {
        proof {
            lemma_texture_id_limits();
        }
        let tag: u32 = match ty {
            TextureType::ConstantFloat => 0,
            TextureType::ConstantRgb => 1,
            TextureType::ConstantSpectrum => 2,
            TextureType::ImageRgb => 3,
            TextureType::Scale => 4,
            TextureType::Mix => 5,
            TextureType::Checkerboard => 6,
        };
        TextureId(pack(TEXTURE_TAG_BITS, tag, idx as u32))
    }

    /// The variant this handle refers to.
    pub fn ty(self) -> (r: TextureType)
        ensures
            r == self.spec_ty(),
    {
        match unpack_tag(TEXTURE_TAG_BITS, self.0) {
            0 => TextureType::ConstantFloat,
            1 => TextureType::ConstantRgb,
            2 => TextureType::ConstantSpectrum,
            3 => TextureType::ImageRgb,
            4 => TextureType::Scale,
            5 => TextureType::Mix,
            _ => TextureType::Checkerboard,
        }
    }

    /// The index into the variant's array.
    pub fn idx(self) -> (r: usize)
        ensures
            r == self.spec_idx(),
    {
        unpack_index(TEXTURE_TAG_BITS, self.0) as usize
    }
}

impl crate::scene::Scene {
    /// Appends a constant scalar texture and returns its handle.
    pub fn add_constant_float_texture(&mut self, value: i64) -> (r: TextureId)
        requires
            old(self)@.constant_float_tex.len() <= TEXTURE_INDEX_LIMIT,
        ensures
            final(self)@ == (crate::scene::SceneView {
                constant_float_tex: old(self)@.constant_float_tex.push(
                    ConstantFloatTexture { value },
                ),
                ..old(self)@
            }),
            r.spec_ty() == TextureType::ConstantFloat,
            r.spec_idx() == old(self)@.constant_float_tex.len(),
    {
        let id = TextureId::new(TextureType::ConstantFloat, self.constant_float_tex.len());
        self.constant_float_tex.push(ConstantFloatTexture { value });
        id
    }

    /// Appends a constant color texture and returns its handle.
    pub fn add_constant_rgb_texture(&mut self, rgb: Vec3) -> (r: TextureId)
        requires
            old(self)@.constant_rgb_tex.len() <= TEXTURE_INDEX_LIMIT,
        ensures
            final(self)@ == (crate::scene::SceneView {
                constant_rgb_tex: old(self)@.constant_rgb_tex.push(ConstantRgbTexture { rgb }),
                ..old(self)@
            }),
            r.spec_ty() == TextureType::ConstantRgb,
            r.spec_idx() == old(self)@.constant_rgb_tex.len(),
    {
        let id = TextureId::new(TextureType::ConstantRgb, self.constant_rgb_tex.len());
        self.constant_rgb_tex.push(ConstantRgbTexture { rgb });
        id
    }

    /// Appends a constant spectrum texture and returns its handle.
    pub fn add_constant_spectrum_texture(&mut self, spectrum: u32) -> (r: TextureId)
        requires
            old(self)@.constant_spectrum_tex.len() <= TEXTURE_INDEX_LIMIT,
        ensures
            final(self)@ == (crate::scene::SceneView {
                constant_spectrum_tex: old(self)@.constant_spectrum_tex.push(
                    ConstantSpectrumTexture { spectrum },
                ),
                ..old(self)@
            }),
            r.spec_ty() == TextureType::ConstantSpectrum,
            r.spec_idx() == old(self)@.constant_spectrum_tex.len(),
    {
        let id = TextureId::new(TextureType::ConstantSpectrum, self.constant_spectrum_tex.len());
        self.constant_spectrum_tex.push(ConstantSpectrumTexture { spectrum });
        id
    }

    /// Appends an image texture over an image slot and returns its handle.
    pub fn add_image_texture(&mut self, image: u32) -> (r: TextureId)
        requires
            old(self)@.image_rgb_tex.len() <= TEXTURE_INDEX_LIMIT,
        ensures
            final(self)@ == (crate::scene::SceneView {
                image_rgb_tex: old(self)@.image_rgb_tex.push(ImageRgbTexture { image }),
                ..old(self)@
            }),
            r.spec_ty() == TextureType::ImageRgb,
            r.spec_idx() == old(self)@.image_rgb_tex.len(),
    {
        let id = TextureId::new(TextureType::ImageRgb, self.image_rgb_tex.len());
        self.image_rgb_tex.push(ImageRgbTexture { image });
        id
    }

    /// Appends a scale texture and returns its handle.
    pub fn add_scale_texture(&mut self, left: TextureId, right: TextureId) -> (r: TextureId)
        requires
            old(self)@.scale_tex.len() <= TEXTURE_INDEX_LIMIT,
        ensures
            final(self)@ == (crate::scene::SceneView {
                scale_tex: old(self)@.scale_tex.push(ScaleTexture { left, right }),
                ..old(self)@
            }),
            r.spec_ty() == TextureType::Scale,
            r.spec_idx() == old(self)@.scale_tex.len(),
    {
        let id = TextureId::new(TextureType::Scale, self.scale_tex.len());
        self.scale_tex.push(ScaleTexture { left, right });
        id
    }

    /// Appends a mix texture and returns its handle.
    pub fn add_mix_texture(&mut self, tex1: TextureId, tex2: TextureId, amount: TextureId) -> (r:
        TextureId)
        requires
            old(self)@.mix_tex.len() <= TEXTURE_INDEX_LIMIT,
        ensures
            final(self)@ == (crate::scene::SceneView {
                mix_tex: old(self)@.mix_tex.push(MixTexture { tex1, tex2, amount }),
                ..old(self)@
            }),
            r.spec_ty() == TextureType::Mix,
            r.spec_idx() == old(self)@.mix_tex.len(),
    {
        let id = TextureId::new(TextureType::Mix, self.mix_tex.len());
        self.mix_tex.push(MixTexture { tex1, tex2, amount });
        id
    }

    /// Appends a checkerboard texture and returns its handle.
    pub fn add_checkerboard_texture(&mut self, even: TextureId, odd: TextureId) -> (r: TextureId)
        requires
            old(self)@.checkerboard_tex.len() <= TEXTURE_INDEX_LIMIT,
        ensures
            final(self)@ == (crate::scene::SceneView {
                checkerboard_tex: old(self)@.checkerboard_tex.push(
                    CheckerboardTexture { even, odd },
                ),
                ..old(self)@
            }),
            r.spec_ty() == TextureType::Checkerboard,
            r.spec_idx() == old(self)@.checkerboard_tex.len(),
    {
        let id = TextureId::new(TextureType::Checkerboard, self.checkerboard_tex.len());
        self.checkerboard_tex.push(CheckerboardTexture { even, odd });
        id
    }
}

/// A constant scalar texture, fixed point.
#[derive(Clone, Copy, Debug, PartialEq, Eq, Hash, Structural)]
pub struct ConstantFloatTexture {
    pub value: i64,
}

/// A constant color texture, fixed point.
#[derive(Clone, Copy, Debug, PartialEq, Eq, Hash, Structural)]
pub struct ConstantRgbTexture {
    pub rgb: Vec3,
}

/// A constant texture that evaluates a spectrum slot.
#[derive(Clone, Copy, Debug, PartialEq, Eq, Hash, Structural)]
pub struct ConstantSpectrumTexture {
    pub spectrum: u32,
}

/// A texture sampling an image slot.
#[derive(Clone, Copy, Debug, PartialEq, Eq, Hash, Structural)]
pub struct ImageRgbTexture {
    pub image: u32,
}

/// The product of two textures.
#[derive(Clone, Copy, Debug, PartialEq, Eq, Hash, Structural)]
pub struct ScaleTexture {
    pub left: TextureId,
    pub right: TextureId,
}

/// A blend of two textures by a third.
#[derive(Clone, Copy, Debug, PartialEq, Eq, Hash, Structural)]
pub struct MixTexture {
    pub tex1: TextureId,
    pub tex2: TextureId,
    pub amount: TextureId,
}

/// A checkerboard alternating two textures.
#[derive(Clone, Copy, Debug, PartialEq, Eq, Hash, Structural)]
pub struct CheckerboardTexture {
    pub even: TextureId,
    pub odd: TextureId,
}

} // verus!
