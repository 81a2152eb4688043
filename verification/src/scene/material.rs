//! Materials and their handles.

use vstd::prelude::*;
use crate::handle::{index_limit, index_of, pack, tag_of, unpack_index, unpack_tag};
use crate::scene::spectra::SpectrumId;
use crate::scene::texture::TextureId;

verus! {

pub const MATERIAL_TAG_BITS: u32 = 3;

/// Largest index a `MaterialId` can carry.
pub const MATERIAL_INDEX_LIMIT: u32 = 0x1fff_ffff;

/// The material variants.
#[derive(Clone, Copy, Debug, PartialEq, Eq, Hash, Structural)]
pub enum MaterialType {
    Diffuse,
    DiffuseTransmit,
    Conductor,
    Dielectric,
    ThinDielectric,
    MetallicWorkflow,
    Mix,
}

impl MaterialType {
    /// The tag value packed into a handle for this variant.
    pub open spec fn tag(self) -> u32 {
        match self {
            MaterialType::Diffuse => 0,
            MaterialType::DiffuseTransmit => 1,
            MaterialType::Conductor => 2,
            MaterialType::Dielectric => 3,
            MaterialType::ThinDielectric => 4,
            MaterialType::MetallicWorkflow => 5,
            MaterialType::Mix => 6,
        }
    }
}

/// Packed handle of a material: three tag bits selecting the variant,
/// twenty-nine index bits into that variant's array.
#[derive(Clone, Copy, Debug, PartialEq, Eq, Hash, Structural)]
pub struct MaterialId(u32);

/// The packed constants of `MaterialId` agree with the generic handle scheme.
proof fn lemma_material_id_limits()
    ensures
        MATERIAL_INDEX_LIMIT == index_limit(MATERIAL_TAG_BITS),
        7u32 < (1u32 << MATERIAL_TAG_BITS),
{
    assert(0xffff_ffffu32 >> 3 == 0x1fff_ffffu32 && 7u32 < (1u32 << 3)) by (bit_vector);
}

impl MaterialId {
    /// The variant this handle refers to. The unused eighth tag value
    /// decodes as `Mix`; `new` never produces it.
    pub closed spec fn spec_ty(self) -> MaterialType {
        if tag_of(MATERIAL_TAG_BITS, self.0) == 0 {
            MaterialType::Diffuse
        } else if tag_of(MATERIAL_TAG_BITS, self.0) == 1 {
            MaterialType::DiffuseTransmit
        } else if tag_of(MATERIAL_TAG_BITS, self.0) == 2 {
            MaterialType::Conductor
        } else if tag_of(MATERIAL_TAG_BITS, self.0) == 3 {
            MaterialType::Dielectric
        } else if tag_of(MATERIAL_TAG_BITS, self.0) == 4 {
            MaterialType::ThinDielectric
        } else if tag_of(MATERIAL_TAG_BITS, self.0) == 5 {
            MaterialType::MetallicWorkflow
        } else {
            MaterialType::Mix
        }
    }

    /// The index into the variant's array.
    pub closed spec fn spec_idx(self) -> u32 {
        index_of(MATERIAL_TAG_BITS, self.0)
    }

    /// Packs a variant and an in-range index into a handle; both unpack to
    /// exactly the values given.
    pub fn new(ty: MaterialType, idx: usize) -> (r: MaterialId)
        requires
            idx <= MATERIAL_INDEX_LIMIT,
        ensures
            r.spec_ty() == ty,
            r.spec_idx() == idx,
    {
        proof {
            lemma_material_id_limits();
        }
        let tag: u32 = match ty {
            MaterialType::Diffuse => 0,
            MaterialType::DiffuseTransmit => 1,
            MaterialType::Conductor => 2,
            MaterialType::Dielectric => 3,
            MaterialType::ThinDielectric => 4,
            MaterialType::MetallicWorkflow => 5,
            MaterialType::Mix => 6,
        };
        MaterialId(pack(MATERIAL_TAG_BITS, tag, idx as u32))
    }

    /// The variant this handle refers to.
    pub fn ty(self) -> (r: MaterialType)
        ensures
            r == self.spec_ty(),
    {
        match unpack_tag(MATERIAL_TAG_BITS, self.0) {
            0 => MaterialType::Diffuse,
            1 => MaterialType::DiffuseTransmit,
            2 => MaterialType::Conductor,
            3 => MaterialType::Dielectric,
            4 => MaterialType::ThinDielectric,
            5 => MaterialType::MetallicWorkflow,
            _ => MaterialType::Mix,
        }
    }

    /// The index into the variant's array.
    pub fn idx(self) -> (r: usize)
        ensures
            r == self.spec_idx(),
    {
        unpack_index(MATERIAL_TAG_BITS, self.0) as usize
    }
}

impl crate::scene::Scene {
    /// Appends a diffuse material and returns its handle.
    pub fn add_diffuse_material(&mut self, texture: TextureId, normal_map: Option<u32>) -> (r:
        MaterialId)
        requires
            old(self)@.diffuse_mat.len() <= MATERIAL_INDEX_LIMIT,
        ensures
            final(self)@ == (crate::scene::SceneView {
                diffuse_mat: old(self)@.diffuse_mat.push(
                    DiffuseMaterial { normal_map: spec_normal_slot(normal_map), texture },
                ),
                ..old(self)@
            }),
            r.spec_ty() == MaterialType::Diffuse,
            r.spec_idx() == old(self)@.diffuse_mat.len(),
    {
        let id = MaterialId::new(MaterialType::Diffuse, self.diffuse_mat.len());
        self.diffuse_mat.push(DiffuseMaterial { normal_map: normal_slot(normal_map), texture });
        id
    }

    /// Appends a diffuse-transmit material and returns its handle.
    pub fn add_diffuse_transmit_material(
        &mut self,
        reflectance: TextureId,
        transmittance: TextureId,
        scale: TextureId,
        normal_map: Option<u32>,
    ) -> (r: MaterialId)
        requires
            old(self)@.diffuse_transmit_mat.len() <= MATERIAL_INDEX_LIMIT,
        ensures
            final(self)@ == (crate::scene::SceneView {
                diffuse_transmit_mat: old(self)@.diffuse_transmit_mat.push(
                    DiffuseTransmitMaterial {
                        normal_map: spec_normal_slot(normal_map),
                        reflectance,
                        transmittance,
                        scale,
                    },
                ),
                ..old(self)@
            }),
            r.spec_ty() == MaterialType::DiffuseTransmit,
            r.spec_idx() == old(self)@.diffuse_transmit_mat.len(),
    {
        let id = MaterialId::new(MaterialType::DiffuseTransmit, self.diffuse_transmit_mat.len());
        self.diffuse_transmit_mat.push(
            DiffuseTransmitMaterial {
                normal_map: normal_slot(normal_map),
                reflectance,
                transmittance,
                scale,
            },
        );
        id
    }

    /// Appends a conductor material and returns its handle.
    pub fn add_conductor_material(
        &mut self,
        ior_re: TextureId,
        ior_im: TextureId,
        u_roughness: TextureId,
        v_roughness: TextureId,
        normal_map: Option<u32>,
    ) -> (r: MaterialId)
        requires
            old(self)@.conductor_mat.len() <= MATERIAL_INDEX_LIMIT,
        ensures
            final(self)@ == (crate::scene::SceneView {
                conductor_mat: old(self)@.conductor_mat.push(
                    ConductorMaterial {
                        normal_map: spec_normal_slot(normal_map),
                        ior_re,
                        ior_im,
                        u_roughness,
                        v_roughness,
                    },
                ),
                ..old(self)@
            }),
            r.spec_ty() == MaterialType::Conductor,
            r.spec_idx() == old(self)@.conductor_mat.len(),
    {
        let id = MaterialId::new(MaterialType::Conductor, self.conductor_mat.len());
        self.conductor_mat.push(
            ConductorMaterial {
                normal_map: normal_slot(normal_map),
                ior_re,
                ior_im,
                u_roughness,
                v_roughness,
            },
        );
        id
    }

    /// Appends a dielectric material and returns its handle.
    pub fn add_dielectric_material(
        &mut self,
        ior: SpectrumId,
        u_roughness: TextureId,
        v_roughness: TextureId,
        normal_map: Option<u32>,
    ) -> (r: MaterialId)
        requires
            old(self)@.dielectric_mat.len() <= MATERIAL_INDEX_LIMIT,
        ensures
            final(self)@ == (crate::scene::SceneView {
                dielectric_mat: old(self)@.dielectric_mat.push(
                    DielectricMaterial {
                        normal_map: spec_normal_slot(normal_map),
                        ior,
                        u_roughness,
                        v_roughness,
                    },
                ),
                ..old(self)@
            }),
            r.spec_ty() == MaterialType::Dielectric,
            r.spec_idx() == old(self)@.dielectric_mat.len(),
    {
        let id = MaterialId::new(MaterialType::Dielectric, self.dielectric_mat.len());
        self.dielectric_mat.push(
            DielectricMaterial {
                normal_map: normal_slot(normal_map),
                ior,
                u_roughness,
                v_roughness,
            },
        );
        id
    }

    /// Appends a thin-dielectric material and returns its handle.
    pub fn add_thin_dielectric_material(&mut self, ior: SpectrumId, normal_map: Option<u32>) -> (r:
        MaterialId)
        requires
            old(self)@.thin_dielectric_mat.len() <= MATERIAL_INDEX_LIMIT,
        ensures
            final(self)@ == (crate::scene::SceneView {
                thin_dielectric_mat: old(self)@.thin_dielectric_mat.push(
                    ThinDielectricMaterial { normal_map: spec_normal_slot(normal_map), ior },
                ),
                ..old(self)@
            }),
            r.spec_ty() == MaterialType::ThinDielectric,
            r.spec_idx() == old(self)@.thin_dielectric_mat.len(),
    {
        let id = MaterialId::new(MaterialType::ThinDielectric, self.thin_dielectric_mat.len());
        self.thin_dielectric_mat.push(
            ThinDielectricMaterial { normal_map: normal_slot(normal_map), ior },
        );
        id
    }

    /// Appends a metallic-workflow material and returns its handle.
    pub fn add_metallic_workflow_material(
        &mut self,
        base_color: TextureId,
        metallic: TextureId,
        u_roughness: TextureId,
        v_roughness: TextureId,
        normal_map: Option<u32>,
    ) -> (r: MaterialId)
        requires
            old(self)@.metallic_workflow_mat.len() <= MATERIAL_INDEX_LIMIT,
        ensures
            final(self)@ == (crate::scene::SceneView {
                metallic_workflow_mat: old(self)@.metallic_workflow_mat.push(
                    MetallicWorkflowMaterial {
                        normal_map: spec_normal_slot(normal_map),
                        base_color,
                        metallic,
                        u_roughness,
                        v_roughness,
                    },
                ),
                ..old(self)@
            }),
            r.spec_ty() == MaterialType::MetallicWorkflow,
            r.spec_idx() == old(self)@.metallic_workflow_mat.len(),
    {
        let id = MaterialId::new(MaterialType::MetallicWorkflow, self.metallic_workflow_mat.len());
        self.metallic_workflow_mat.push(
            MetallicWorkflowMaterial {
                normal_map: normal_slot(normal_map),
                base_color,
                metallic,
                u_roughness,
                v_roughness,
            },
        );
        id
    }

    /// Appends a mix material and returns its handle.
    pub fn add_mix_material(&mut self, m1: MaterialId, m2: MaterialId, amount: TextureId) -> (r:
        MaterialId)
        requires
            old(self)@.mix_mat.len() <= MATERIAL_INDEX_LIMIT,
        ensures
            final(self)@ == (crate::scene::SceneView {
                mix_mat: old(self)@.mix_mat.push(MixMaterial { m1, m2, amount }),
                ..old(self)@
            }),
            r.spec_ty() == MaterialType::Mix,
            r.spec_idx() == old(self)@.mix_mat.len(),
    {
        let id = MaterialId::new(MaterialType::Mix, self.mix_mat.len());
        self.mix_mat.push(MixMaterial { m1, m2, amount });
        id
    }
}

/// The image slot stored for an optional normal map: the slot itself, or
/// `u32::MAX` when absent.
pub open spec fn spec_normal_slot(normal_map: Option<u32>) -> u32 {
    match normal_map {
        Some(v) => v,
        None => u32::MAX,
    }
}

/// The image slot stored for an optional normal map.
pub fn normal_slot(normal_map: Option<u32>) -> (r: u32)
    ensures
        r == spec_normal_slot(normal_map),
{
    match normal_map {
        Some(v) => v,
        None => u32::MAX,
    }
}

/// A matte material. `normal_map` is an image slot, `u32::MAX` when absent.
#[derive(Clone, Copy, Debug, PartialEq, Eq, Hash, Structural)]
pub struct DiffuseMaterial {
    pub normal_map: u32,
    pub texture: TextureId,
}

/// A matte material that also transmits light.
#[derive(Clone, Copy, Debug, PartialEq, Eq, Hash, Structural)]
pub struct DiffuseTransmitMaterial {
    pub normal_map: u32,
    pub reflectance: TextureId,
    pub transmittance: TextureId,
    pub scale: TextureId,
}

/// A metal described by its complex index of refraction.
#[derive(Clone, Copy, Debug, PartialEq, Eq, Hash, Structural)]
pub struct ConductorMaterial {
    pub normal_map: u32,
    pub ior_re: TextureId,
    pub ior_im: TextureId,
    pub u_roughness: TextureId,
    pub v_roughness: TextureId,
}

/// A smooth or rough glass-like material.
#[derive(Clone, Copy, Debug, PartialEq, Eq, Hash, Structural)]
pub struct DielectricMaterial {
    pub normal_map: u32,
    pub ior: SpectrumId,
    pub u_roughness: TextureId,
    pub v_roughness: TextureId,
}

/// A thin dielectric slab.
#[derive(Clone, Copy, Debug, PartialEq, Eq, Hash, Structural)]
pub struct ThinDielectricMaterial {
    pub normal_map: u32,
    pub ior: SpectrumId,
}

/// A base-color / metallic / roughness material.
#[derive(Clone, Copy, Debug, PartialEq, Eq, Hash, Structural)]
pub struct MetallicWorkflowMaterial {
    pub normal_map: u32,
    pub base_color: TextureId,
    pub metallic: TextureId,
    pub u_roughness: TextureId,
    pub v_roughness: TextureId,
}

/// A blend of two other materials.
#[derive(Clone, Copy, Debug, PartialEq, Eq, Hash, Structural)]
pub struct MixMaterial {
    pub m1: MaterialId,
    pub m2: MaterialId,
    pub amount: TextureId,
}

} // verus!
