//! Spectra and their handles.

use vstd::prelude::*;
use crate::handle::{index_limit, index_of, pack, tag_of, unpack_index, unpack_tag};
use crate::scene::Vec3;

verus! {

pub const SPECTRUM_TAG_BITS: u32 = 3;

/// Largest index a `SpectrumId` can carry.
pub const SPECTRUM_INDEX_LIMIT: u32 = 0x1fff_ffff;

/// Number of samples of a densely tabulated spectrum (one per nanometre
/// over the visible range).
pub const TABLE_SPECTRUM_LEN: usize = 471;

/// The spectrum variants.
#[derive(Clone, Copy, Debug, PartialEq, Eq, Hash, Structural)]
pub enum SpectrumType {
    Table,
    Constant,
    RgbAlbedo,
    RgbIlluminant,
    Blackbody,
    PiecewiseLinear,
    RgbIorIm,
}

impl SpectrumType {
    /// The tag value packed into a handle for this variant.
    pub open spec fn tag(self) -> u32 {
        match self {
            SpectrumType::Table => 0,
            SpectrumType::Constant => 1,
            SpectrumType::RgbAlbedo => 2,
            SpectrumType::RgbIlluminant => 3,
            SpectrumType::Blackbody => 4,
            SpectrumType::PiecewiseLinear => 5,
            SpectrumType::RgbIorIm => 6,
        }
    }
}

/// Packed handle of a spectrum: three tag bits selecting the variant,
/// twenty-nine index bits into that variant's array.
#[derive(Clone, Copy, Debug, PartialEq, Eq, Hash, Structural)]
pub struct SpectrumId(u32);

/// The packed constants of `SpectrumId` agree with the generic handle scheme.
proof fn lemma_spectrum_id_limits()
    ensures
        SPECTRUM_INDEX_LIMIT == index_limit(SPECTRUM_TAG_BITS),
        7u32 < (1u32 << SPECTRUM_TAG_BITS),
{
    assert(0xffff_ffffu32 >> 3 == 0x1fff_ffffu32 && 7u32 < (1u32 << 3)) by (bit_vector);
}

impl SpectrumId {
    /// The variant this handle refers to. The unused eighth tag value
    /// decodes as `RgbIorIm`; `new` never produces it.
    pub closed spec fn spec_ty(self) -> SpectrumType {
        if tag_of(SPECTRUM_TAG_BITS, self.0) == 0 {
            SpectrumType::Table
        } else if tag_of(SPECTRUM_TAG_BITS, self.0) == 1 {
            SpectrumType::Constant
        } else if tag_of(SPECTRUM_TAG_BITS, self.0) == 2 {
            SpectrumType::RgbAlbedo
        } else if tag_of(SPECTRUM_TAG_BITS, self.0) == 3 {
            SpectrumType::RgbIlluminant
        } else if tag_of(SPECTRUM_TAG_BITS, self.0) == 4 {
            SpectrumType::Blackbody
        } else if tag_of(SPECTRUM_TAG_BITS, self.0) == 5 {
            SpectrumType::PiecewiseLinear
        } else {
            SpectrumType::RgbIorIm
        }
    }

    /// The index into the variant's array.
    pub closed spec fn spec_idx(self) -> u32 {
        index_of(SPECTRUM_TAG_BITS, self.0)
    }

    /// Packs a variant and an in-range index into a handle; both unpack to
    /// exactly the values given.
    pub fn new(ty: SpectrumType, idx: usize) -> (r: SpectrumId)
        requires
            idx <= SPECTRUM_INDEX_LIMIT,
        ensures
            r.spec_ty() == ty,
            r.spec_idx() == idx,
    {
        proof {
            lemma_spectrum_id_limits();
        }
        let tag: u32 = match ty {
            SpectrumType::Table => 0,
            SpectrumType::Constant => 1,
            SpectrumType::RgbAlbedo => 2,
            SpectrumType::RgbIlluminant => 3,
            SpectrumType::Blackbody => 4,
            SpectrumType::PiecewiseLinear => 5,
            SpectrumType::RgbIorIm => 6,
        };
        SpectrumId(pack(SPECTRUM_TAG_BITS, tag, idx as u32))
    }

    /// The variant this handle refers to.
    pub fn ty(self) -> (r: SpectrumType)
        ensures
            r == self.spec_ty(),
    {
        match unpack_tag(SPECTRUM_TAG_BITS, self.0) {
            0 => SpectrumType::Table,
            1 => SpectrumType::Constant,
            2 => SpectrumType::RgbAlbedo,
            3 => SpectrumType::RgbIlluminant,
            4 => SpectrumType::Blackbody,
            5 => SpectrumType::PiecewiseLinear,
            _ => SpectrumType::RgbIorIm,
        }
    }

    /// The index into the variant's array.
    pub fn idx(self) -> (r: usize)
        ensures
            r == self.spec_idx(),
    {
        unpack_index(SPECTRUM_TAG_BITS, self.0) as usize
    }
}

/// The scalar-blob image of a piecewise table: wavelengths and values
/// alternating.
pub open spec fn flatten_pairs(s: Seq<(i64, i64)>) -> Seq<i64> {
    Seq::new(2 * s.len(), |i: int| if i % 2 == 0 {
        s[i / 2].0
    } else {
        s[i / 2].1
    })
}

impl crate::scene::Scene {
    /// Appends a tabulated spectrum and returns its handle.
    pub fn add_table_spectrum(&mut self, spectrum: TableSpectrum) -> (r: SpectrumId)
        requires
            old(self)@.table_spectra.len() <= SPECTRUM_INDEX_LIMIT,
        ensures
            final(self)@ == (crate::scene::SceneView {
                table_spectra: old(self)@.table_spectra.push(spectrum),
                ..old(self)@
            }),
            r.spec_ty() == SpectrumType::Table,
            r.spec_idx() == old(self)@.table_spectra.len(),
    {
        let id = SpectrumId::new(SpectrumType::Table, self.table_spectra.len());
        self.table_spectra.push(spectrum);
        id
    }

    /// Appends a constant spectrum and returns its handle.
    pub fn add_constant_spectrum(&mut self, value: i64) -> (r: SpectrumId)
        requires
            old(self)@.constant_spectra.len() <= SPECTRUM_INDEX_LIMIT,
        ensures
            final(self)@ == (crate::scene::SceneView {
                constant_spectra: old(self)@.constant_spectra.push(ConstantSpectrum { value }),
                ..old(self)@
            }),
            r.spec_ty() == SpectrumType::Constant,
            r.spec_idx() == old(self)@.constant_spectra.len(),
    {
        let id = SpectrumId::new(SpectrumType::Constant, self.constant_spectra.len());
        self.constant_spectra.push(ConstantSpectrum { value });
        id
    }

    /// Appends an RGB reflectance spectrum and returns its handle.
    pub fn add_rgb_albedo_spectrum(&mut self, rgb: Vec3) -> (r: SpectrumId)
        requires
            old(self)@.rgb_albedo_spectra.len() <= SPECTRUM_INDEX_LIMIT,
        ensures
            final(self)@ == (crate::scene::SceneView {
                rgb_albedo_spectra: old(self)@.rgb_albedo_spectra.push(RgbAlbedoSpectrum { rgb }),
                ..old(self)@
            }),
            r.spec_ty() == SpectrumType::RgbAlbedo,
            r.spec_idx() == old(self)@.rgb_albedo_spectra.len(),
    {
        let id = SpectrumId::new(SpectrumType::RgbAlbedo, self.rgb_albedo_spectra.len());
        self.rgb_albedo_spectra.push(RgbAlbedoSpectrum { rgb });
        id
    }

    /// Appends an RGB imaginary-index spectrum and returns its handle.
    pub fn add_rgb_ior_im_spectrum(&mut self, rgb: Vec3) -> (r: SpectrumId)
        requires
            old(self)@.rgb_ior_im_spectra.len() <= SPECTRUM_INDEX_LIMIT,
        ensures
            final(self)@ == (crate::scene::SceneView {
                rgb_ior_im_spectra: old(self)@.rgb_ior_im_spectra.push(RgbIorImSpectrum { rgb }),
                ..old(self)@
            }),
            r.spec_ty() == SpectrumType::RgbIorIm,
            r.spec_idx() == old(self)@.rgb_ior_im_spectra.len(),
    {
        let id = SpectrumId::new(SpectrumType::RgbIorIm, self.rgb_ior_im_spectra.len());
        self.rgb_ior_im_spectra.push(RgbIorImSpectrum { rgb });
        id
    }

    /// Appends an RGB illuminant spectrum scaled by a tabulated illuminant
    /// and returns its handle. The illuminant must be a table spectrum.
    pub fn add_rgb_illuminant_spectrum(&mut self, rgb: Vec3, illuminant: SpectrumId) -> (r:
        SpectrumId)
        requires
            old(self)@.rgb_illuminant_spectra.len() <= SPECTRUM_INDEX_LIMIT,
            illuminant.spec_ty() == SpectrumType::Table,
        ensures
            final(self)@ == (crate::scene::SceneView {
                rgb_illuminant_spectra: old(self)@.rgb_illuminant_spectra.push(
                    RgbIlluminantSpectrum { rgb, illuminant },
                ),
                ..old(self)@
            }),
            r.spec_ty() == SpectrumType::RgbIlluminant,
            r.spec_idx() == old(self)@.rgb_illuminant_spectra.len(),
    {
        let id = SpectrumId::new(SpectrumType::RgbIlluminant, self.rgb_illuminant_spectra.len());
        self.rgb_illuminant_spectra.push(RgbIlluminantSpectrum { rgb, illuminant });
        id
    }

    /// Appends a blackbody spectrum and returns its handle. The scale is
    /// stored as given; any normalization against a luminosity table is the
    /// caller's business.
    pub fn add_blackbody_spectrum(&mut self, temperature: i64, scale: i64) -> (r: SpectrumId)
        requires
            old(self)@.blackbody_spectra.len() <= SPECTRUM_INDEX_LIMIT,
        ensures
            final(self)@ == (crate::scene::SceneView {
                blackbody_spectra: old(self)@.blackbody_spectra.push(
                    BlackbodySpectrum { temperature, scale },
                ),
                ..old(self)@
            }),
            r.spec_ty() == SpectrumType::Blackbody,
            r.spec_idx() == old(self)@.blackbody_spectra.len(),
    {
        let id = SpectrumId::new(SpectrumType::Blackbody, self.blackbody_spectra.len());
        self.blackbody_spectra.push(BlackbodySpectrum { temperature, scale });
        id
    }

    /// Appends a piecewise-linear spectrum: its breakpoints go into the
    /// shared scalar blob, wavelengths and values alternating, and the
    /// record keeps their offset and count.
    pub fn add_piecewise_linear_spectrum(&mut self, data: &Vec<(i64, i64)>) -> (r: SpectrumId)
        requires
            old(self)@.piecewise_linear_spectra.len() <= SPECTRUM_INDEX_LIMIT,
            old(self)@.float_data.len() + 2 * data@.len() <= u32::MAX,
        ensures
            final(self)@ == (crate::scene::SceneView {
                float_data: old(self)@.float_data + flatten_pairs(data@),
                piecewise_linear_spectra: old(self)@.piecewise_linear_spectra.push(
                    PiecewiseLinearSpectrum {
                        ptr: old(self)@.float_data.len() as u32,
                        entries: data@.len() as u32,
                    },
                ),
                ..old(self)@
            }),
            r.spec_ty() == SpectrumType::PiecewiseLinear,
            r.spec_idx() == old(self)@.piecewise_linear_spectra.len(),
    {
        let ptr = self.float_data.len() as u32;
        let entries = data.len() as u32;
        let mut i: usize = 0;
        while i < data.len()
            invariant
                i <= data@.len(),
                old(self)@.float_data.len() + 2 * data@.len() <= u32::MAX,
                self@ == (crate::scene::SceneView {
                    float_data: old(self)@.float_data + flatten_pairs(data@.take(i as int)),
                    ..old(self)@
                }),
            decreases data@.len() - i,
        {
            let (wl, value) = data[i];
            self.float_data.push(wl);
            self.float_data.push(value);
            proof {
                assert(old(self)@.float_data + flatten_pairs(data@.take(i + 1)) =~= (old(
                    self,
                )@.float_data + flatten_pairs(data@.take(i as int))).push(data@[i as int].0).push(
                    data@[i as int].1,
                ));
            }
            i += 1;
        }
        proof {
            assert(flatten_pairs(data@.take(data@.len() as int)) =~= flatten_pairs(data@));
        }
        let id = SpectrumId::new(SpectrumType::PiecewiseLinear, self.piecewise_linear_spectra.len());
        self.piecewise_linear_spectra.push(PiecewiseLinearSpectrum { ptr, entries });
        id
    }
}

/// The built-in colorimetric tables the arena is seeded with: the three
/// standard observer curves, the standard daylight illuminant, and the
/// named refractive-index tables, all in fixed point.
pub struct SpectrumData {
    pub cie_x: TableSpectrum,
    pub cie_y: TableSpectrum,
    pub cie_z: TableSpectrum,
    pub d65: TableSpectrum,
    pub iors: Vec<(String, Vec<(i64, i64)>)>,
}

impl SpectrumData {
    /// All tables densely sampled and the named data small enough to land
    /// in the scalar blob.
    pub open spec fn wf(self) -> bool {
        &&& self.cie_x.wf()
        &&& self.cie_y.wf()
        &&& self.cie_z.wf()
        &&& self.d65.wf()
        &&& self.iors@.len() <= 0x1000
        &&& forall|i: int| 0 <= i < self.iors@.len() ==> (#[trigger] self.iors@[i]).1@.len() <= 0x1_0000
    }
}

/// A spectrum densely tabulated over the visible range, fixed point.
#[derive(Clone, Debug, PartialEq, Eq)]
pub struct TableSpectrum {
    pub data: Vec<i64>,
}

impl TableSpectrum {
    /// A table carries exactly one sample per nanometre.
    pub open spec fn wf(self) -> bool {
        self.data@.len() == TABLE_SPECTRUM_LEN
    }
}

/// A spectrum with one constant value.
#[derive(Clone, Copy, Debug, PartialEq, Eq, Hash, Structural)]
pub struct ConstantSpectrum {
    pub value: i64,
}

/// A reflectance spectrum fitted from an RGB color.
#[derive(Clone, Copy, Debug, PartialEq, Eq, Hash, Structural)]
pub struct RgbAlbedoSpectrum {
    pub rgb: Vec3,
}

/// An emission spectrum fitted from an RGB color, scaled by a tabulated
/// illuminant.
#[derive(Clone, Copy, Debug, PartialEq, Eq, Hash, Structural)]
pub struct RgbIlluminantSpectrum {
    pub rgb: Vec3,
    pub illuminant: SpectrumId,
}

/// A blackbody emitter at a fixed temperature.
#[derive(Clone, Copy, Debug, PartialEq, Eq, Hash, Structural)]
pub struct BlackbodySpectrum {
    pub temperature: i64,
    pub scale: i64,
}

/// A spectrum given as a piecewise-linear table stored in the shared
/// scalar blob.
#[derive(Clone, Copy, Debug, PartialEq, Eq, Hash, Structural)]
pub struct PiecewiseLinearSpectrum {
    pub ptr: u32,
    pub entries: u32,
}

/// An imaginary-index spectrum fitted from an RGB color.
#[derive(Clone, Copy, Debug, PartialEq, Eq, Hash, Structural)]
pub struct RgbIorImSpectrum {
    pub rgb: Vec3,
}

} // verus!
