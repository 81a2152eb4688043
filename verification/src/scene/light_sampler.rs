//! Light samplers and their handles.

use vstd::prelude::*;
use crate::handle::{index_limit, index_of, pack, tag_of, unpack_index, unpack_tag};
use crate::scene::light::LightId;

verus! {

pub const LIGHT_SAMPLER_TAG_BITS: u32 = 1;

/// Largest index a `LightSamplerId` can carry.
pub const LIGHT_SAMPLER_INDEX_LIMIT: u32 = 0x7fff_ffff;

/// The light-sampler variants.
#[derive(Clone, Copy, Debug, PartialEq, Eq, Hash, Structural)]
pub enum LightSamplerType {
    Uniform,
    Power,
}

impl LightSamplerType {
    /// The tag value packed into a handle for this variant.
    pub open spec fn tag(self) -> u32 {
        match self {
            LightSamplerType::Uniform => 0,
            LightSamplerType::Power => 1,
        }
    }
}

/// Packed handle of a light sampler: one tag bit selecting the variant,
/// thirty-one index bits into that variant's array.
#[derive(Clone, Copy, Debug, PartialEq, Eq, Hash, Structural)]
pub struct LightSamplerId(u32);

/// The packed constants of `LightSamplerId` agree with the generic handle
/// scheme.
proof fn lemma_light_sampler_id_limits()
    ensures
        LIGHT_SAMPLER_INDEX_LIMIT == index_limit(LIGHT_SAMPLER_TAG_BITS),
        1u32 < (1u32 << LIGHT_SAMPLER_TAG_BITS),
{
    assert(0xffff_ffffu32 >> 1 == 0x7fff_ffffu32 && 1u32 < (1u32 << 1)) by (bit_vector);
}

impl LightSamplerId {
    /// The variant this handle refers to.
    pub closed spec fn spec_ty(self) -> LightSamplerType {
        if tag_of(LIGHT_SAMPLER_TAG_BITS, self.0) == 0 {
            LightSamplerType::Uniform
        } else {
            LightSamplerType::Power
        }
    }

    /// The index into the variant's array.
    pub closed spec fn spec_idx(self) -> u32 {
        index_of(LIGHT_SAMPLER_TAG_BITS, self.0)
    }

    /// Packs a variant and an in-range index into a handle; both unpack to
    /// exactly the values given.
    pub fn new(ty: LightSamplerType, idx: usize) -> (r: LightSamplerId)
        requires
            idx <= LIGHT_SAMPLER_INDEX_LIMIT,
        ensures
            r.spec_ty() == ty,
            r.spec_idx() == idx,
    {
        proof {
            lemma_light_sampler_id_limits();
        }
        let tag: u32 = match ty {
            LightSamplerType::Uniform => 0,
            LightSamplerType::Power => 1,
        };
        LightSamplerId(pack(LIGHT_SAMPLER_TAG_BITS, tag, idx as u32))
    }

    /// The variant this handle refers to.
    pub fn ty(self) -> (r: LightSamplerType)
        ensures
            r == self.spec_ty(),
    {
        match unpack_tag(LIGHT_SAMPLER_TAG_BITS, self.0) {
            0 => LightSamplerType::Uniform,
            _ => LightSamplerType::Power,
        }
    }

    /// The index into the variant's array.
    pub fn idx(self) -> (r: usize)
        ensures
            r == self.spec_idx(),
    {
        unpack_index(LIGHT_SAMPLER_TAG_BITS, self.0) as usize
    }
}

/// A light handle resolves to a stored light record of the view `s`.
pub open spec fn light_valid(s: crate::scene::SceneView, light: LightId) -> bool {
    if light.spec_ty() == crate::scene::light::LightType::Uniform {
        light.spec_idx() < s.uniform_lights.len()
    } else if light.spec_ty() == crate::scene::light::LightType::Image {
        light.spec_idx() < s.image_lights.len()
    } else {
        light.spec_idx() < s.area_lights.len()
    }
}

/// The view after recording sampler slot `path` on the light's record.
pub open spec fn with_path(
    s: crate::scene::SceneView,
    light: LightId,
    path: u32,
) -> crate::scene::SceneView {
    if light.spec_ty() == crate::scene::light::LightType::Uniform {
        crate::scene::SceneView {
            uniform_lights: s.uniform_lights.update(
                light.spec_idx() as int,
                crate::scene::light::UniformLight {
                    light_sampling_path: path,
                    ..s.uniform_lights[light.spec_idx() as int]
                },
            ),
            ..s
        }
    } else if light.spec_ty() == crate::scene::light::LightType::Image {
        crate::scene::SceneView {
            image_lights: s.image_lights.update(
                light.spec_idx() as int,
                crate::scene::light::ImageLight {
                    light_sampling_path: path,
                    ..s.image_lights[light.spec_idx() as int]
                },
            ),
            ..s
        }
    } else {
        crate::scene::SceneView {
            area_lights: s.area_lights.update(
                light.spec_idx() as int,
                crate::scene::light::AreaLight {
                    light_sampling_path: path,
                    ..s.area_lights[light.spec_idx() as int]
                },
            ),
            ..s
        }
    }
}

/// The view after recording, in order, slot `i` on each of the first `k`
/// lights of the list.
pub open spec fn with_paths(
    s: crate::scene::SceneView,
    lights: Seq<LightId>,
    k: int,
) -> crate::scene::SceneView
    decreases k,
{
    if k <= 0 {
        s
    } else {
        with_path(with_paths(s, lights, k - 1), lights[k - 1], (k - 1) as u32)
    }
}

/// Recording sampler slots touches only the three light arrays, and it
/// never changes their lengths.
pub proof fn lemma_with_paths_frame(s: crate::scene::SceneView, lights: Seq<LightId>, k: int)
    requires
        forall|j: int| 0 <= j < k ==> light_valid(s, #[trigger] lights[j]),
    ensures
        with_paths(s, lights, k) == (crate::scene::SceneView {
            uniform_lights: with_paths(s, lights, k).uniform_lights,
            image_lights: with_paths(s, lights, k).image_lights,
            area_lights: with_paths(s, lights, k).area_lights,
            ..s
        }),
        with_paths(s, lights, k).uniform_lights.len() == s.uniform_lights.len(),
        with_paths(s, lights, k).image_lights.len() == s.image_lights.len(),
        with_paths(s, lights, k).area_lights.len() == s.area_lights.len(),
    decreases k,
{
    if k > 0 {
        lemma_with_paths_frame(s, lights, k - 1);
        let prev = with_paths(s, lights, k - 1);
        let l = lights[k - 1];
        assert(with_paths(s, lights, k) == with_path(prev, l, (k - 1) as u32));
        assert(with_path(prev, l, (k - 1) as u32).uniform_lights.len()
            == prev.uniform_lights.len());
        assert(with_path(prev, l, (k - 1) as u32).image_lights.len() == prev.image_lights.len());
        assert(with_path(prev, l, (k - 1) as u32).area_lights.len() == prev.area_lights.len());
    }
}

impl crate::scene::Scene {
    /// Builds a sampler that draws each listed light with the same
    /// probability: the list is stored verbatim and every light's sampling
    /// path becomes its position in the list.
    pub fn add_uniform_light_sampler(&mut self, lights: &Vec<LightId>) -> (r: LightSamplerId)
        requires
            old(self)@.uniform_light_samplers.len() <= LIGHT_SAMPLER_INDEX_LIMIT,
            old(self)@.uniform_light_sampler_data.len() + lights@.len() <= u32::MAX,
            lights@.len() <= u32::MAX,
            forall|i: int|
                0 <= i < lights@.len() ==> light_valid(old(self)@, #[trigger] lights@[i]),
        ensures
            final(self)@ == (crate::scene::SceneView {
                uniform_light_samplers: old(self)@.uniform_light_samplers.push(
                    UniformLightSampler {
                        ptr: old(self)@.uniform_light_sampler_data.len() as u32,
                        count: lights@.len() as u32,
                    },
                ),
                uniform_light_sampler_data: old(self)@.uniform_light_sampler_data + lights@,
                ..with_paths(old(self)@, lights@, lights@.len() as int)
            }),
            r.spec_ty() == LightSamplerType::Uniform,
            r.spec_idx() == old(self)@.uniform_light_samplers.len(),
    {
        let id = LightSamplerId::new(
            LightSamplerType::Uniform,
            self.uniform_light_samplers.len(),
        );
        let ptr = self.uniform_light_sampler_data.len() as u32;
        let count = lights.len() as u32;
        let mut i: usize = 0;
        while i < lights.len()
            invariant
                i <= lights@.len(),
                lights@.len() <= u32::MAX,
                forall|j: int|
                    0 <= j < lights@.len() ==> light_valid(old(self)@, #[trigger] lights@[j]),
                old(self)@.uniform_light_sampler_data.len() + lights@.len() <= u32::MAX,
                ptr == old(self)@.uniform_light_sampler_data.len(),
                self@ == (crate::scene::SceneView {
                    uniform_light_sampler_data: old(self)@.uniform_light_sampler_data
                        + lights@.take(i as int),
                    ..with_paths(old(self)@, lights@, i as int)
                }),
            decreases lights@.len() - i,
        {
            proof {
                lemma_with_paths_frame(old(self)@, lights@, i as int);
                assert(light_valid(self@, lights@[i as int]));
            }
            self.uniform_light_sampler_data.push(lights[i]);
            self.set_light_sampling_path(lights[i], i as u32);
            proof {
                assert(old(self)@.uniform_light_sampler_data + lights@.take(i + 1) =~= (old(
                    self,
                )@.uniform_light_sampler_data + lights@.take(i as int)).push(lights@[i as int]));
            }
            i += 1;
        }
        proof {
            assert(lights@.take(lights@.len() as int) =~= lights@);
            lemma_with_paths_frame(old(self)@, lights@, lights@.len() as int);
        }
        self.uniform_light_samplers.push(UniformLightSampler { ptr, count });
        id
    }
}

/// Sum of the powers of the non-infinite lights among the first `k`.
pub open spec fn finite_power_total(lights: Seq<LightId>, powers: Seq<u64>, k: int) -> int
    decreases k,
{
    if k <= 0 {
        0
    } else {
        finite_power_total(lights, powers, k - 1) + if lights[k - 1].spec_is_infinite() {
            0
        } else {
            powers[k - 1] as int
        }
    }
}

/// The power the sampler assigns light `i`: its own power or, for an
/// infinite light, the total power of all non-infinite lights, so that each
/// infinite light is as likely as the entire rest of the scene combined.
pub open spec fn effective_power(lights: Seq<LightId>, powers: Seq<u64>, i: int) -> int {
    if lights[i].spec_is_infinite() {
        finite_power_total(lights, powers, lights.len() as int)
    } else {
        powers[i] as int
    }
}

/// Sum of the effective powers of the first `k` lights.
pub open spec fn effective_total(lights: Seq<LightId>, powers: Seq<u64>, k: int) -> int
    decreases k,
{
    if k <= 0 {
        0
    } else {
        effective_total(lights, powers, k - 1) + effective_power(lights, powers, k - 1)
    }
}

/// The exact normalization denominator of a power sampler over these
/// lights: every probability is a bucket numerator over this value.
pub open spec fn spec_power_total(lights: Seq<LightId>, powers: Seq<u64>) -> int {
    effective_total(lights, powers, lights.len() as int)
}

/// Non-infinite power sums only grow with their range.
proof fn lemma_finite_total_mono(lights: Seq<LightId>, powers: Seq<u64>, k1: int, k2: int)
    requires
        0 <= k1 <= k2,
    ensures
        finite_power_total(lights, powers, k1) <= finite_power_total(lights, powers, k2),
    decreases k2,
{
    if k1 < k2 {
        lemma_finite_total_mono(lights, powers, k1, k2 - 1);
    }
}

proof fn lemma_finite_total_nonneg(lights: Seq<LightId>, powers: Seq<u64>, k: int)
    ensures
        0 <= finite_power_total(lights, powers, k),
    decreases k,
{
    if k > 0 {
        lemma_finite_total_nonneg(lights, powers, k - 1);
    }
}

/// No light has a negative effective power.
proof fn lemma_effective_nonneg(lights: Seq<LightId>, powers: Seq<u64>, i: int)
    requires
        0 <= i < lights.len(),
    ensures
        0 <= effective_power(lights, powers, i),
{
    lemma_finite_total_nonneg(lights, powers, lights.len() as int);
}

/// Effective power sums only grow with their range.
proof fn lemma_effective_total_mono(lights: Seq<LightId>, powers: Seq<u64>, k1: int, k2: int)
    requires
        0 <= k1 <= k2 <= lights.len(),
    ensures
        effective_total(lights, powers, k1) <= effective_total(lights, powers, k2),
    decreases k2,
{
    if k1 < k2 {
        lemma_effective_total_mono(lights, powers, k1, k2 - 1);
        lemma_effective_nonneg(lights, powers, k2 - 1);
    }
}

/// Each light's effective power is at most the effective total.
proof fn lemma_effective_le_total(lights: Seq<LightId>, powers: Seq<u64>, i: int)
    requires
        0 <= i < lights.len(),
    ensures
        effective_power(lights, powers, i) <= spec_power_total(lights, powers),
{
    lemma_effective_total_mono(lights, powers, 0, i);
    lemma_effective_total_mono(lights, powers, i + 1, lights.len() as int);
    assert(effective_total(lights, powers, i + 1) == effective_total(lights, powers, i)
        + effective_power(lights, powers, i));
    assert(0 <= effective_total(lights, powers, i)) by {
        lemma_effective_total_mono(lights, powers, 0, i);
    }
}

/// The draw mass the buckets donate to index `i`: every bucket hands the
/// share of its slot above `q_num` to the bucket its `alias` names.
pub open spec fn donated(table: Seq<PlsAliasBucket>, i: int, total: int) -> int
    decreases table.len(),
{
    if table.len() == 0 {
        0
    } else {
        donated(table.drop_last(), i, total) + if table.last().alias == i {
            total - table.last().q_num
        } else {
            0
        }
    }
}

/// The total draw mass the `(q, alias)` rule routes to index `i`, over a
/// denominator of `table.len() * total`: the bucket's own kept share plus
/// everything donated to it.
pub open spec fn bucket_credit(table: Seq<PlsAliasBucket>, i: int, total: int) -> int {
    table[i].q_num + donated(table, i, total)
}

/// How replacing one bucket moves the donated mass.
proof fn lemma_donated_update(
    table: Seq<PlsAliasBucket>,
    j: int,
    nb: PlsAliasBucket,
    i: int,
    total: int,
)
    requires
        0 <= j < table.len(),
    ensures
        donated(table.update(j, nb), i, total) == donated(table, i, total) - (
        if table[j].alias == i {
            total - table[j].q_num
        } else {
            0
        }) + (if nb.alias == i {
            total - nb.q_num
        } else {
            0
        }),
    decreases table.len(),
{
    if j == table.len() - 1 {
        assert(table.update(j, nb).drop_last() =~= table.drop_last());
        assert(table.update(j, nb).last() == nb);
    } else {
        lemma_donated_update(table.drop_last(), j, nb, i, total);
        assert(table.update(j, nb).drop_last() =~= table.drop_last().update(j, nb));
        assert(table.update(j, nb).last() == table.last());
    }
}

/// A table whose aliases are all unset donates nothing to any real index.
proof fn lemma_donated_unset(table: Seq<PlsAliasBucket>, i: int, total: int)
    requires
        forall|k: int| 0 <= k < table.len() ==> (#[trigger] table[k]).alias == u32::MAX,
        0 <= i < 0xffff_ffff,
    ensures
        donated(table, i, total) == 0,
    decreases table.len(),
{
    if table.len() > 0 {
        lemma_donated_unset(table.drop_last(), i, total);
    }
}

/// How many stack entries carry index `i`.
pub open spec fn stack_count(s: Seq<(usize, u64)>, i: int) -> int
    decreases s.len(),
{
    if s.len() == 0 {
        0
    } else {
        stack_count(s.drop_last(), i) + if s.last().0 == i {
            1int
        } else {
            0int
        }
    }
}

/// The mass the stack holds for index `i`.
pub open spec fn stack_mass(s: Seq<(usize, u64)>, i: int) -> int
    decreases s.len(),
{
    if s.len() == 0 {
        0
    } else {
        stack_mass(s.drop_last(), i) + if s.last().0 == i {
            s.last().1 as int
        } else {
            0
        }
    }
}

/// The total mass the stack holds.
pub open spec fn stack_sum(s: Seq<(usize, u64)>) -> int
    decreases s.len(),
{
    if s.len() == 0 {
        0
    } else {
        stack_sum(s.drop_last()) + s.last().1
    }
}

proof fn lemma_stack_sum_nonneg(s: Seq<(usize, u64)>)
    ensures
        0 <= stack_sum(s),
    decreases s.len(),
{
    if s.len() > 0 {
        lemma_stack_sum_nonneg(s.drop_last());
    }
}

/// A stack whose entries all hold less than `t` and whose total mass is
/// exactly its length times `t` must be empty (for positive `t`).
proof fn lemma_small_masses_empty(s: Seq<(usize, u64)>, t: int)
    requires
        t > 0,
        forall|k: int| 0 <= k < s.len() ==> (#[trigger] s[k]).1 < t,
        stack_sum(s) == s.len() * t,
    ensures
        s.len() == 0,
    decreases s.len(),
{
    if s.len() > 0 {
        lemma_stack_sum_upper(s, t - 1);
        assert(s.len() * t > s.len() * (t - 1)) by (nonlinear_arith)
            requires
                t > 0,
                s.len() > 0,
        ;
    }
}

proof fn lemma_stack_sum_upper(s: Seq<(usize, u64)>, bound: int)
    requires
        forall|k: int| 0 <= k < s.len() ==> (#[trigger] s[k]).1 <= bound,
    ensures
        stack_sum(s) <= s.len() * bound,
    decreases s.len(),
{
    if s.len() > 0 {
        lemma_stack_sum_upper(s.drop_last(), bound);
        assert(s.len() * bound == (s.len() - 1) * bound + bound) by (nonlinear_arith);
    }
}

/// A stack whose entries all hold at least `t` and whose total mass is
/// exactly its length times `t` holds exactly `t` in every entry.
proof fn lemma_large_masses_exact(s: Seq<(usize, u64)>, t: int)
    requires
        forall|k: int| 0 <= k < s.len() ==> (#[trigger] s[k]).1 >= t,
        stack_sum(s) == s.len() * t,
    ensures
        forall|k: int| 0 <= k < s.len() ==> (#[trigger] s[k]).1 == t,
    decreases s.len(),
{
    if s.len() > 0 {
        lemma_stack_sum_lower(s.drop_last(), t);
        assert(s.len() * t == (s.len() - 1) * t + t) by (nonlinear_arith);
        assert(s.last().1 == t);
        lemma_large_masses_exact(s.drop_last(), t);
        assert(forall|k: int|
            0 <= k < s.len() - 1 ==> (#[trigger] s[k]) == s.drop_last()[k]);
    }
}

proof fn lemma_stack_sum_lower(s: Seq<(usize, u64)>, bound: int)
    requires
        forall|k: int| 0 <= k < s.len() ==> (#[trigger] s[k]).1 >= bound,
    ensures
        stack_sum(s) >= s.len() * bound,
    decreases s.len(),
{
    if s.len() > 0 {
        lemma_stack_sum_lower(s.drop_last(), bound);
        assert(s.len() * bound == (s.len() - 1) * bound + bound) by (nonlinear_arith);
    }
}

/// A stack holding no entry for an index holds no mass for it either.
proof fn lemma_mass_zero(s: Seq<(usize, u64)>, i: int)
    requires
        stack_count(s, i) == 0,
    ensures
        stack_mass(s, i) == 0,
    decreases s.len(),
{
    if s.len() > 0 {
        lemma_count_nonneg(s.drop_last(), i);
        lemma_mass_zero(s.drop_last(), i);
    }
}

proof fn lemma_count_nonneg(s: Seq<(usize, u64)>, i: int)
    ensures
        stack_count(s, i) >= 0,
    decreases s.len(),
{
    if s.len() > 0 {
        lemma_count_nonneg(s.drop_last(), i);
    }
}

/// The last entry's mass never exceeds the stack's total mass.
proof fn lemma_last_le_sum(s: Seq<(usize, u64)>)
    requires
        s.len() > 0,
    ensures
        s.last().1 <= stack_sum(s),
{
    lemma_stack_sum_nonneg(s.drop_last());
}

/// Builds the alias table over the lights' effective powers with the
/// two-work-queue construction, in exact integer arithmetic over the
/// common denominator `total`: indices whose scaled share is below the
/// mean pair up with indices above it, handing their leftover share over
/// until every bucket holds exactly one mean share. Returns the table and
/// `total`.
pub fn build_alias_table(lights: &Vec<LightId>, powers: &Vec<u64>) -> (r: (
    Vec<PlsAliasBucket>,
    u64,
))
    requires
        lights@.len() == powers@.len(),
        0 < lights@.len() <= 0x4000_0000,
        spec_power_total(lights@, powers@) > 0,
        spec_power_total(lights@, powers@) * lights@.len() <= u64::MAX,
    ensures
        r.1 == spec_power_total(lights@, powers@),
        r.0@.len() == lights@.len(),
        forall|i: int| 0 <= i < lights@.len() ==> (#[trigger] r.0@[i]).light == lights@[i],
        forall|i: int|
            0 <= i < lights@.len() ==> (#[trigger] r.0@[i]).pmf_num == effective_power(
                lights@,
                powers@,
                i,
            ),
        forall|i: int| 0 <= i < lights@.len() ==> (#[trigger] r.0@[i]).q_num <= r.1,
        forall|i: int|
            0 <= i < lights@.len() ==> ((#[trigger] r.0@[i]).alias < lights@.len()
                || r.0@[i].q_num == r.1),
        forall|i: int|
            0 <= i < lights@.len() ==> bucket_credit(r.0@, i, r.1 as int) == lights@.len()
                * effective_power(lights@, powers@, i),
{
    let n = lights.len();
    let ghost lg = lights@;
    let ghost pw = powers@;
    let ghost t = spec_power_total(lg, pw);

    let mut t0: u64 = 0;
    let mut i: usize = 0;
    while i < n
        invariant
            i <= n,
            n == lg.len(),
            lg.len() == pw.len(),
            lg == lights@,
            pw == powers@,
            t == spec_power_total(lg, pw),
            t > 0,
            t * n <= u64::MAX,
            t0 == finite_power_total(lg, pw, i as int),
        decreases n - i,
    {
        proof {
            lemma_finite_le_effective(lg, pw, i + 1);
            lemma_finite_total_nonneg(lg, pw, i + 1);
            vstd::arithmetic::mul::lemma_mul_upper_bound(1, n as int, t, t);
            assert(t <= t * n) by (nonlinear_arith)
                requires
                    t > 0,
                    n >= 1,
            ;
        }
        if !lights[i].is_infinite() {
            t0 = t0 + powers[i];
        }
        i += 1;
    }

    let mut total: u64 = 0;
    let mut i2: usize = 0;
    while i2 < n
        invariant
            i2 <= n,
            n == lg.len(),
            lg.len() == pw.len(),
            lg == lights@,
            pw == powers@,
            t == spec_power_total(lg, pw),
            t > 0,
            t * n <= u64::MAX,
            t0 == finite_power_total(lg, pw, n as int),
            total == effective_total(lg, pw, i2 as int),
        decreases n - i2,
    {
        proof {
            lemma_effective_total_mono(lg, pw, i2 + 1, n as int);
            lemma_effective_total_mono(lg, pw, 0, i2 as int);
            lemma_effective_nonneg(lg, pw, i2 as int);
            assert(t <= t * n) by (nonlinear_arith)
                requires
                    t > 0,
                    n >= 1,
            ;
        }
        if lights[i2].is_infinite() {
            total = total + t0;
        } else {
            total = total + powers[i2];
        }
        i2 += 1;
    }

    let mut table: Vec<PlsAliasBucket> = Vec::new();
    let mut under: Vec<(usize, u64)> = Vec::new();
    let mut over: Vec<(usize, u64)> = Vec::new();
    let mut k: usize = 0;
    while k < n
        invariant
            k <= n,
            n == lg.len(),
            lg.len() == pw.len(),
            lg == lights@,
            pw == powers@,
            t == spec_power_total(lg, pw),
            t > 0,
            t * n <= u64::MAX,
            total == t,
            t0 == finite_power_total(lg, pw, n as int),
            table@.len() == k,
            forall|j: int|
                0 <= j < k ==> (#[trigger] table@[j]).light == lg[j] && table@[j].pmf_num
                    == effective_power(lg, pw, j) && table@[j].q_num == 0 && table@[j].alias
                    == u32::MAX,
            forall|j: int| 0 <= j < under@.len() ==> (#[trigger] under@[j]).0 < k && under@[j].1 < total,
            forall|j: int| 0 <= j < over@.len() ==> (#[trigger] over@[j]).0 < k && over@[j].1 >= total,
            forall|j: int|
                0 <= j < n ==> stack_count(under@, j) + stack_count(over@, j) == (
                if j < k {
                    1int
                } else {
                    0int
                }),
            forall|j: int|
                0 <= j < n ==> stack_mass(under@, j) + stack_mass(over@, j) == (
                if j < k {
                    n * effective_power(lg, pw, j)
                } else {
                    0int
                }),
            stack_sum(under@) + stack_sum(over@) == n * effective_total(lg, pw, k as int),
            under@.len() + over@.len() == k,
        decreases n - k,
    {
        let p: u64 = if lights[k].is_infinite() {
            t0
        } else {
            powers[k]
        };
        proof {
            assert(p == effective_power(lg, pw, k as int));
            lemma_effective_nonneg(lg, pw, k as int);
            lemma_effective_le_total(lg, pw, k as int);
            vstd::arithmetic::mul::lemma_mul_inequality(p as int, t, n as int);
        }
        let m: u64 = p * (n as u64);
        let ghost u0 = under@;
        let ghost o0 = over@;
        let ghost tb0 = table@;
        table.push(PlsAliasBucket { light: lights[k], pmf_num: p, q_num: 0, alias: u32::MAX });
        if m < total {
            under.push((k, m));
        } else {
            over.push((k, m));
        }
        proof {
            let e = (k, m);
            assert forall|j: int| 0 <= j < n implies stack_count(under@, j) + stack_count(
                over@,
                j,
            ) == (if j < k + 1 {
                1int
            } else {
                0int
            }) && stack_mass(under@, j) + stack_mass(over@, j) == (if j < k + 1 {
                n * effective_power(lg, pw, j)
            } else {
                0int
            }) by {
                if m < total {
                    assert(under@.drop_last() =~= u0);
                    assert(under@.last() == e);
                } else {
                    assert(over@.drop_last() =~= o0);
                    assert(over@.last() == e);
                }
            }
            if m < total {
                assert(under@.drop_last() =~= u0);
            } else {
                assert(over@.drop_last() =~= o0);
            }
            assert(stack_sum(under@) + stack_sum(over@) == n * effective_total(lg, pw, k as int)
                + m);
            assert(n * effective_total(lg, pw, k + 1) == n * effective_total(lg, pw, k as int) + n
                * effective_power(lg, pw, k as int)) by (nonlinear_arith);
        }
        k += 1;
    }
    proof {
        assert forall|j: int| 0 <= j < n implies donated(table@, j, t) == 0 by {
            lemma_donated_unset(table@, j, t);
        }
    }

    while !under.is_empty() && !over.is_empty()
        invariant
            n == lg.len(),
            lg.len() == pw.len(),
            lg == lights@,
            pw == powers@,
            t == spec_power_total(lg, pw),
            t > 0,
            t * n <= u64::MAX,
            total == t,
            n <= 0x4000_0000,
            table@.len() == n,
            forall|j: int|
                0 <= j < n ==> (#[trigger] table@[j]).light == lg[j] && table@[j].pmf_num
                    == effective_power(lg, pw, j),
            forall|j: int| 0 <= j < under@.len() ==> (#[trigger] under@[j]).0 < n && under@[j].1 < total,
            forall|j: int| 0 <= j < over@.len() ==> (#[trigger] over@[j]).0 < n && over@[j].1 >= total,
            forall|j: int|
                0 <= j < n ==> 0 <= #[trigger] stack_count(under@, j) + stack_count(over@, j)
                    <= 1,
            forall|j: int|
                0 <= j < n ==> (if stack_count(under@, j) + stack_count(over@, j) == 1 {
                    (#[trigger] table@[j]).q_num == 0 && table@[j].alias == u32::MAX
                } else {
                    table@[j].q_num <= total && (table@[j].alias < n || table@[j].q_num == total)
                }),
            forall|j: int|
                0 <= j < n ==> bucket_credit(table@, j, t) + stack_mass(under@, j) + stack_mass(
                    over@,
                    j,
                ) == n * effective_power(lg, pw, j),
            stack_sum(under@) + stack_sum(over@) == (under@.len() + over@.len()) * t,
            under@.len() + over@.len() <= n,
        decreases under@.len() + over@.len(),
    {
        let ghost u0 = under@;
        let ghost o0 = over@;
        let ghost tb0 = table@;
        let (low, low_m) = under.pop().unwrap();
        let (high, high_m) = over.pop().unwrap();
        proof {
            assert(u0.last() == (low, low_m));
            assert(o0.last() == (high, high_m));
            assert(under@ =~= u0.drop_last());
            assert(over@ =~= o0.drop_last());
            lemma_count_nonneg(under@, low as int);
            lemma_count_nonneg(over@, low as int);
            lemma_count_nonneg(under@, high as int);
            lemma_count_nonneg(over@, high as int);
            lemma_count_nonneg(u0, high as int);
            lemma_count_nonneg(o0, low as int);
            // each popped index was in the queues exactly once
            assert(stack_count(u0, low as int) == stack_count(under@, low as int) + 1);
            assert(stack_count(o0, high as int) == stack_count(over@, high as int) + 1);
            assert(stack_count(u0, low as int) + stack_count(o0, low as int) <= 1);
            assert(stack_count(u0, high as int) + stack_count(o0, high as int) <= 1);
            assert(stack_count(o0, low as int) == 0);
            assert(stack_count(u0, high as int) == 0);
            assert(low != high);
            assert(stack_count(under@, low as int) == 0);
            assert(stack_count(over@, low as int) == 0);
            assert(stack_count(under@, high as int) == 0);
            assert(stack_count(over@, high as int) == 0);
            lemma_mass_zero(under@, low as int);
            lemma_mass_zero(over@, low as int);
            lemma_mass_zero(under@, high as int);
            lemma_mass_zero(over@, high as int);
            assert(stack_mass(u0, low as int) == low_m);
            assert(stack_mass(o0, high as int) == high_m);
            // both masses fit under the queues' joint mass
            lemma_last_le_sum(u0);
            lemma_last_le_sum(o0);
            lemma_stack_sum_nonneg(under@);
            lemma_stack_sum_nonneg(over@);
            vstd::arithmetic::mul::lemma_mul_inequality(
                (u0.len() + o0.len()) as int,
                n as int,
                t,
            );
            assert(low_m + high_m <= (u0.len() + o0.len()) * t);
        }
        let mut b = table[low];
        b.q_num = low_m;
        b.alias = high as u32;
        table.set(low, b);
        let nm: u64 = high_m + low_m - total;
        if nm < total {
            under.push((high, nm));
        } else {
            over.push((high, nm));
        }
        proof {
            let u_pop = u0.drop_last();
            let o_pop = o0.drop_last();
            if nm < total {
                assert(under@.drop_last() =~= u_pop);
                assert(under@.last() == (high, nm));
                assert(over@ =~= o_pop);
            } else {
                assert(over@.drop_last() =~= o_pop);
                assert(over@.last() == (high, nm));
                assert(under@ =~= u_pop);
            }
            assert forall|j: int| 0 <= j < n implies bucket_credit(table@, j, t) + #[trigger] stack_mass(
                under@,
                j,
            ) + stack_mass(over@, j) == n * effective_power(lg, pw, j) by {
                lemma_donated_update(tb0, low as int, b, j, t);
                assert(stack_mass(u0, j) == stack_mass(u_pop, j) + (if low == j {
                    low_m as int
                } else {
                    0int
                }));
                assert(stack_mass(o0, j) == stack_mass(o_pop, j) + (if high == j {
                    high_m as int
                } else {
                    0int
                }));
                if nm < total {
                    assert(stack_mass(under@, j) == stack_mass(u_pop, j) + (if high == j {
                        nm as int
                    } else {
                        0int
                    }));
                    assert(stack_mass(over@, j) == stack_mass(o_pop, j));
                } else {
                    assert(stack_mass(over@, j) == stack_mass(o_pop, j) + (if high == j {
                        nm as int
                    } else {
                        0int
                    }));
                    assert(stack_mass(under@, j) == stack_mass(u_pop, j));
                }
                assert(bucket_credit(tb0, j, t) + stack_mass(u0, j) + stack_mass(o0, j) == n
                    * effective_power(lg, pw, j));
                assert(table@[j].q_num == (if j == low {
                    low_m as int
                } else {
                    tb0[j].q_num as int
                }));
                assert(b.alias == high as u32);
                assert(high as u32 as int == high as int);
                assert(tb0[low as int].alias == u32::MAX);
                assert(j < 0x4000_0000 && u32::MAX as int == 0xffff_ffff);
            }
            assert forall|j: int|
                0 <= j < n implies 0 <= #[trigger] stack_count(under@, j) + stack_count(over@, j)
                <= 1 by {
                lemma_count_nonneg(under@, j);
                lemma_count_nonneg(over@, j);
                let u_pop = u0.drop_last();
                let o_pop = o0.drop_last();
                assert(stack_count(u0, j) == stack_count(u_pop, j) + (if low == j {
                    1int
                } else {
                    0int
                }));
                assert(stack_count(o0, j) == stack_count(o_pop, j) + (if high == j {
                    1int
                } else {
                    0int
                }));
                if nm < total {
                    assert(stack_count(under@, j) == stack_count(u_pop, j) + (if high == j {
                        1int
                    } else {
                        0int
                    }));
                    assert(stack_count(over@, j) == stack_count(o_pop, j));
                } else {
                    assert(stack_count(over@, j) == stack_count(o_pop, j) + (if high == j {
                        1int
                    } else {
                        0int
                    }));
                    assert(stack_count(under@, j) == stack_count(u_pop, j));
                }
            }
            assert((u0.len() + o0.len() - 1) * t == (u0.len() + o0.len()) * t - t)
                by (nonlinear_arith);
            assert(stack_sum(u0) == stack_sum(u0.drop_last()) + low_m);
            assert(stack_sum(o0) == stack_sum(o0.drop_last()) + high_m);
            if nm < total {
                assert(stack_sum(under@) == stack_sum(u0.drop_last()) + nm);
            } else {
                assert(stack_sum(over@) == stack_sum(o0.drop_last()) + nm);
            }
        }
    }
    proof {
        if over@.len() == 0 {
            assert(stack_sum(over@) == 0);
            assert(stack_sum(under@) == under@.len() * t);
            lemma_small_masses_empty(under@, t);
        }
        assert(under@.len() == 0);
        assert(stack_sum(under@) == 0);
        assert(stack_sum(over@) == over@.len() * t);
        lemma_large_masses_exact(over@, t);
        assert forall|j: int| 0 <= j < n implies 0 <= #[trigger] stack_count(over@, j) <= 1 by {
            assert(stack_count(under@, j) == 0);
            lemma_count_nonneg(over@, j);
        }
        assert forall|j: int|
            0 <= j < n implies bucket_credit(table@, j, t) + #[trigger] stack_mass(over@, j) == n
            * effective_power(lg, pw, j) by {
            assert(stack_mass(under@, j) == 0);
        }
        assert forall|j: int|
            0 <= j < n implies (if stack_count(over@, j) == 1 {
                (#[trigger] table@[j]).q_num == 0 && table@[j].alias == u32::MAX
            } else {
                table@[j].q_num <= total && (table@[j].alias < n || table@[j].q_num == total)
            }) by {
            assert(stack_count(under@, j) == 0);
        }
    }

    while !over.is_empty()
        invariant
            n == lg.len(),
            lg == lights@,
            pw == powers@,
            t == spec_power_total(lg, pw),
            t > 0,
            total == t,
            n <= 0x4000_0000,
            table@.len() == n,
            under@.len() == 0,
            forall|j: int|
                0 <= j < n ==> (#[trigger] table@[j]).light == lg[j] && table@[j].pmf_num
                    == effective_power(lg, pw, j),
            forall|j: int| 0 <= j < over@.len() ==> (#[trigger] over@[j]).0 < n && over@[j].1 == total,
            forall|j: int| 0 <= j < n ==> 0 <= #[trigger] stack_count(over@, j) <= 1,
            forall|j: int|
                0 <= j < n ==> (if stack_count(over@, j) == 1 {
                    (#[trigger] table@[j]).q_num == 0 && table@[j].alias == u32::MAX
                } else {
                    table@[j].q_num <= total && (table@[j].alias < n || table@[j].q_num == total)
                }),
            forall|j: int|
                0 <= j < n ==> bucket_credit(table@, j, t) + stack_mass(over@, j) == n
                    * effective_power(lg, pw, j),
        decreases over@.len(),
    {
        let ghost o0 = over@;
        let ghost tb0 = table@;
        let (idx0, m) = over.pop().unwrap();
        proof {
            assert(o0.last() == (idx0, m));
            assert(over@ =~= o0.drop_last());
            lemma_count_nonneg(over@, idx0 as int);
            assert(stack_count(o0, idx0 as int) == stack_count(over@, idx0 as int) + 1);
            assert(stack_count(o0, idx0 as int) <= 1);
            assert(stack_count(over@, idx0 as int) == 0);
            lemma_mass_zero(over@, idx0 as int);
            assert(stack_mass(o0, idx0 as int) == m);
        }
        let mut b = table[idx0];
        b.q_num = m;
        table.set(idx0, b);
        proof {
            assert forall|j: int| 0 <= j < n implies bucket_credit(table@, j, t) + #[trigger] stack_mass(
                over@,
                j,
            ) == n * effective_power(lg, pw, j) by {
                lemma_donated_update(tb0, idx0 as int, b, j, t);
                assert(stack_mass(o0, j) == stack_mass(over@, j) + (if idx0 == j {
                    m as int
                } else {
                    0int
                }));
                assert(bucket_credit(tb0, j, t) + stack_mass(o0, j) == n * effective_power(
                    lg,
                    pw,
                    j,
                ));
                assert((b.alias == j) == (tb0[idx0 as int].alias == j));
            }
            assert forall|j: int| 0 <= j < n implies 0 <= #[trigger] stack_count(over@, j)
                <= 1 by {
                lemma_count_nonneg(over@, j);
                assert(stack_count(o0, j) == stack_count(over@, j) + (if idx0 == j {
                    1int
                } else {
                    0int
                }));
            }
        }
    }
    proof {
        assert forall|j: int| 0 <= j < n implies #[trigger] stack_count(over@, j) != 1 by {
            lemma_count_nonneg(over@, j);
        }
        assert forall|j: int| 0 <= j < n implies bucket_credit(table@, j, t) == n
            * effective_power(lg, pw, j) by {
            lemma_mass_zero(over@, j);
        }
    }
    (table, total)
}

/// Sum of the bucket probability numerators.
pub open spec fn bucket_pmf_sum(table: Seq<PlsAliasBucket>) -> int
    decreases table.len(),
{
    if table.len() == 0 {
        0
    } else {
        bucket_pmf_sum(table.drop_last()) + table.last().pmf_num
    }
}

/// A table whose buckets carry exactly the lights' effective powers sums
/// to exactly the normalization total: the bucket probabilities add up to
/// one, with no residue.
pub proof fn lemma_alias_pmf_sum(table: Seq<PlsAliasBucket>, lights: Seq<LightId>, powers: Seq<u64>)
    requires
        table.len() == lights.len(),
        lights.len() == powers.len(),
        forall|i: int|
            0 <= i < table.len() ==> (#[trigger] table[i]).pmf_num == effective_power(
                lights,
                powers,
                i,
            ),
    ensures
        bucket_pmf_sum(table) == spec_power_total(lights, powers),
{
    lemma_alias_pmf_sum_partial(table, lights, powers, table.len() as int);
    assert(table.take(table.len() as int) =~= table);
}

proof fn lemma_alias_pmf_sum_partial(
    table: Seq<PlsAliasBucket>,
    lights: Seq<LightId>,
    powers: Seq<u64>,
    k: int,
)
    requires
        0 <= k <= table.len(),
        table.len() == lights.len(),
        lights.len() == powers.len(),
        forall|i: int|
            0 <= i < table.len() ==> (#[trigger] table[i]).pmf_num == effective_power(
                lights,
                powers,
                i,
            ),
    ensures
        bucket_pmf_sum(table.take(k)) == effective_total(lights, powers, k),
    decreases k,
{
    if k > 0 {
        lemma_alias_pmf_sum_partial(table, lights, powers, k - 1);
        assert(table.take(k).drop_last() =~= table.take(k - 1));
        assert(table.take(k).last() == table[k - 1]);
    }
}

/// When every light is a non-infinite one of the same positive power, the
/// power sampler's distribution is the uniform sampler's: every bucket
/// holds exactly one mean share of probability, and the draw mass routed
/// to every light is the same.
pub proof fn lemma_equal_power_uniform(
    table: Seq<PlsAliasBucket>,
    lights: Seq<LightId>,
    powers: Seq<u64>,
    total: int,
)
    requires
        0 < lights.len(),
        lights.len() == powers.len(),
        table.len() == lights.len(),
        forall|i: int| 0 <= i < lights.len() ==> !(#[trigger] lights[i]).spec_is_infinite(),
        forall|i: int| 0 <= i < powers.len() ==> (#[trigger] powers[i]) == powers[0],
        total == spec_power_total(lights, powers),
        forall|i: int|
            0 <= i < table.len() ==> bucket_credit(table, i, total) == lights.len()
                * effective_power(lights, powers, i),
    ensures
        forall|i: int|
            0 <= i < lights.len() ==> lights.len() * #[trigger] effective_power(
                lights,
                powers,
                i,
            ) == total,
        forall|i: int, j: int|
            0 <= i < table.len() && 0 <= j < table.len() ==> bucket_credit(table, i, total)
                == bucket_credit(table, j, total),
{
    lemma_equal_power_total(lights, powers, lights.len() as int);
    assert forall|i: int|
        0 <= i < lights.len() implies lights.len() * #[trigger] effective_power(
        lights,
        powers,
        i,
    ) == total by {
        assert(effective_power(lights, powers, i) == powers[0]);
        assert(lights.len() * (powers[0] as int) == (lights.len() as int) * powers[0]);
    }
}

/// With equal non-infinite powers, the partial effective totals are exact
/// multiples of the shared power.
proof fn lemma_equal_power_total(lights: Seq<LightId>, powers: Seq<u64>, k: int)
    requires
        0 <= k <= lights.len(),
        lights.len() == powers.len(),
        0 < lights.len(),
        forall|i: int| 0 <= i < lights.len() ==> !(#[trigger] lights[i]).spec_is_infinite(),
        forall|i: int| 0 <= i < powers.len() ==> (#[trigger] powers[i]) == powers[0],
    ensures
        effective_total(lights, powers, k) == k * powers[0],
    decreases k,
{
    if k > 0 {
        lemma_equal_power_total(lights, powers, k - 1);
        assert(effective_total(lights, powers, k) == effective_total(lights, powers, k - 1)
            + effective_power(lights, powers, k - 1));
        assert(effective_power(lights, powers, k - 1) == powers[k - 1] as int);
        assert(powers[k - 1] == powers[0]);
        assert(k * (powers[0] as int) == (k - 1) * (powers[0] as int) + (powers[0] as int))
            by (nonlinear_arith);
        assert(effective_total(lights, powers, k) == k * powers[0]);
    } else {
        assert(k == 0);
        assert(effective_total(lights, powers, k) == 0);
        assert(k * (powers[0] as int) == 0) by (nonlinear_arith)
            requires
                k == 0,
        ;
    }
}

/// The light the alias table yields for the unit draw `u_num / u_den`:
/// scaling the draw by the bucket count selects a bucket, and the scaled
/// draw's remainder decides between the bucket's own light and its alias.
pub open spec fn spec_alias_draw(
    data: Seq<PlsAliasBucket>,
    ptr: int,
    count: int,
    total: int,
    u_num: int,
    u_den: int,
) -> LightId {
    let k = (u_num * count) / u_den;
    let frac = (u_num * count) % u_den;
    let b = data[ptr + k];
    if frac * total < b.q_num * u_den {
        b.light
    } else {
        data[ptr + b.alias].light
    }
}

/// Each finite partial power sum sits below the full effective total.
proof fn lemma_finite_le_effective(lights: Seq<LightId>, powers: Seq<u64>, k: int)
    requires
        0 <= k <= lights.len(),
        lights.len() == powers.len(),
    ensures
        finite_power_total(lights, powers, k) <= spec_power_total(lights, powers),
    decreases k,
{
    lemma_finite_le_effective_partial(lights, powers, k);
    lemma_effective_total_mono(lights, powers, k, lights.len() as int);
}

proof fn lemma_finite_le_effective_partial(lights: Seq<LightId>, powers: Seq<u64>, k: int)
    requires
        0 <= k <= lights.len(),
        lights.len() == powers.len(),
    ensures
        finite_power_total(lights, powers, k) <= effective_total(lights, powers, k),
    decreases k,
{
    if k > 0 {
        lemma_finite_le_effective_partial(lights, powers, k - 1);
        lemma_finite_total_nonneg(lights, powers, lights.len() as int);
    }
}

impl crate::scene::Scene {
    /// Builds a sampler that draws lights in proportion to their power:
    /// the alias table over the lights' effective powers goes into the
    /// shared bucket array and every light's sampling path becomes its
    /// bucket slot. `powers` gives each non-infinite light's radiant power
    /// in fixed point; infinite lights are weighted by the whole
    /// non-infinite total instead.
    pub fn add_power_light_sampler(&mut self, lights: &Vec<LightId>, powers: &Vec<u64>) -> (r:
        LightSamplerId)
        requires
            old(self)@.power_light_samplers.len() <= LIGHT_SAMPLER_INDEX_LIMIT,
            old(self)@.power_light_sampler_data.len() + lights@.len() <= u32::MAX,
            lights@.len() == powers@.len(),
            0 < lights@.len() <= 0x4000_0000,
            spec_power_total(lights@, powers@) > 0,
            spec_power_total(lights@, powers@) * lights@.len() <= u64::MAX,
            forall|i: int|
                0 <= i < lights@.len() ==> light_valid(old(self)@, #[trigger] lights@[i]),
        ensures
            final(self)@ == (crate::scene::SceneView {
                power_light_samplers: old(self)@.power_light_samplers.push(
                    PowerLightSampler {
                        ptr: old(self)@.power_light_sampler_data.len() as u32,
                        count: lights@.len() as u32,
                        total: spec_power_total(lights@, powers@) as u64,
                    },
                ),
                power_light_sampler_data: final(self)@.power_light_sampler_data,
                ..with_paths(old(self)@, lights@, lights@.len() as int)
            }),
            final(self)@.power_light_sampler_data.len() == old(
                self,
            )@.power_light_sampler_data.len() + lights@.len(),
            final(self)@.power_light_sampler_data.subrange(
                0,
                old(self)@.power_light_sampler_data.len() as int,
            ) == old(self)@.power_light_sampler_data,
            ({
                let base = old(self)@.power_light_sampler_data.len() as int;
                let n = lights@.len() as int;
                let t = spec_power_total(lights@, powers@);
                let slice = final(self)@.power_light_sampler_data.subrange(base, base + n);
                &&& forall|i: int| 0 <= i < n ==> (#[trigger] slice[i]).light == lights@[i]
                &&& forall|i: int|
                    0 <= i < n ==> (#[trigger] slice[i]).pmf_num == effective_power(
                        lights@,
                        powers@,
                        i,
                    )
                &&& forall|i: int| 0 <= i < n ==> (#[trigger] slice[i]).q_num <= t
                &&& forall|i: int|
                    0 <= i < n ==> ((#[trigger] slice[i]).alias < n || slice[i].q_num == t)
                &&& forall|i: int|
                    0 <= i < n ==> bucket_credit(slice, i, t) == n * effective_power(
                        lights@,
                        powers@,
                        i,
                    )
            }),
            r.spec_ty() == LightSamplerType::Power,
            r.spec_idx() == old(self)@.power_light_samplers.len(),
    {
        let id = LightSamplerId::new(LightSamplerType::Power, self.power_light_samplers.len());
        let (table, total) = build_alias_table(lights, powers);
        let ptr = self.power_light_sampler_data.len() as u32;
        let count = lights.len() as u32;
        let mut i: usize = 0;
        while i < table.len()
            invariant
                i <= table@.len(),
                table@.len() == lights@.len(),
                old(self)@.power_light_sampler_data.len() + lights@.len() <= u32::MAX,
                self@ == (crate::scene::SceneView {
                    power_light_sampler_data: old(self)@.power_light_sampler_data + table@.take(
                        i as int,
                    ),
                    ..old(self)@
                }),
            decreases table@.len() - i,
        {
            self.power_light_sampler_data.push(table[i]);
            proof {
                assert(old(self)@.power_light_sampler_data + table@.take(i + 1) =~= (old(
                    self,
                )@.power_light_sampler_data + table@.take(i as int)).push(table@[i as int]));
            }
            i += 1;
        }
        proof {
            assert(table@.take(table@.len() as int) =~= table@);
        }
        let mut k: usize = 0;
        while k < lights.len()
            invariant
                k <= lights@.len(),
                lights@.len() <= 0x4000_0000,
                forall|j: int|
                    0 <= j < lights@.len() ==> light_valid(old(self)@, #[trigger] lights@[j]),
                self@ == (crate::scene::SceneView {
                    power_light_sampler_data: old(self)@.power_light_sampler_data + table@,
                    ..with_paths(old(self)@, lights@, k as int)
                }),
            decreases lights@.len() - k,
        {
            proof {
                lemma_with_paths_frame(old(self)@, lights@, k as int);
                assert(light_valid(self@, lights@[k as int]));
            }
            self.set_light_sampling_path(lights[k], k as u32);
            k += 1;
        }
        proof {
            lemma_with_paths_frame(old(self)@, lights@, lights@.len() as int);
        }
        self.power_light_samplers.push(PowerLightSampler { ptr, count, total });
        proof {
            let base = old(self)@.power_light_sampler_data.len() as int;
            let n = lights@.len() as int;
            assert(self@.power_light_sampler_data.subrange(0, base) =~= old(
                self,
            )@.power_light_sampler_data);
            assert(self@.power_light_sampler_data.subrange(base, base + n) =~= table@);
        }
        id
    }

    /// Draws a light from a power sampler using the unit random draw
    /// `u_num / u_den`: the draw scaled by the bucket count picks a bucket,
    /// and the remainder keeps the bucket's own light when it falls below
    /// the bucket's kept share, otherwise the alias's light.
    pub fn sample_power_light(&self, sampler: LightSamplerId, u_num: u64, u_den: u64) -> (r:
        LightId)
        requires
            sampler.spec_ty() == LightSamplerType::Power,
            sampler.spec_idx() < self@.power_light_samplers.len(),
            0 < u_den <= 0x1_0000_0000,
            u_num < u_den,
            ({
                let ps = self@.power_light_samplers[sampler.spec_idx() as int];
                &&& 0 < ps.count <= 0x4000_0000
                &&& ps.ptr + ps.count <= self@.power_light_sampler_data.len()
                &&& ps.total > 0
                &&& forall|i: int|
                    ps.ptr <= i < ps.ptr + ps.count ==> (#[trigger] self@.power_light_sampler_data[i]).q_num
                        <= ps.total
                &&& forall|i: int|
                    ps.ptr <= i < ps.ptr + ps.count ==> ((#[trigger] self@.power_light_sampler_data[i]).alias
                        < ps.count || self@.power_light_sampler_data[i].q_num == ps.total)
            }),
        ensures
            ({
                let ps = self@.power_light_samplers[sampler.spec_idx() as int];
                r == spec_alias_draw(
                    self@.power_light_sampler_data,
                    ps.ptr as int,
                    ps.count as int,
                    ps.total as int,
                    u_num as int,
                    u_den as int,
                )
            }),
    {
        let ps = self.power_light_samplers[sampler.idx()];
        proof {
            vstd::arithmetic::mul::lemma_mul_nonnegative(u_num as int, ps.count as int);
            vstd::arithmetic::mul::lemma_mul_upper_bound(
                u_num as int,
                0xffff_ffff_ffff_ffff,
                ps.count as int,
                0x4000_0000,
            );
        }
        let scaled: u128 = (u_num as u128) * (ps.count as u128);
        let k: u128 = scaled / (u_den as u128);
        let frac: u128 = scaled % (u_den as u128);
        proof {
            assert((u_num as int) * (ps.count as int) < (u_den as int) * (ps.count as int))
                by (nonlinear_arith)
                requires
                    u_num < u_den,
                    ps.count > 0,
            ;
            vstd::arithmetic::div_mod::lemma_multiply_divide_lt(
                scaled as int,
                u_den as int,
                ps.count as int,
            );
            vstd::arithmetic::div_mod::lemma_mod_bound(scaled as int, u_den as int);
            assert((scaled as int) / (u_den as int) >= 0) by {
                vstd::arithmetic::div_mod::lemma_div_pos_is_pos(scaled as int, u_den as int);
            }
            assert(k as int == (scaled as int) / (u_den as int));
            assert(k < ps.count);
            assert(frac as int == (scaled as int) % (u_den as int));
            assert(frac < u_den);
            vstd::arithmetic::mul::lemma_mul_nonnegative(frac as int, ps.total as int);
            vstd::arithmetic::mul::lemma_mul_upper_bound(
                frac as int,
                0x1_0000_0000,
                ps.total as int,
                0xffff_ffff_ffff_ffff,
            );
        }
        let dlen = self.power_light_sampler_data.len();
        proof {
            assert(ps.ptr as int + ps.count as int <= dlen as int);
        }
        let b = self.power_light_sampler_data[ps.ptr as usize + k as usize];
        proof {
            // the remainder stays below the divisor while a full kept share
            // does not, so a bucket keeping everything never follows its alias
            if !((frac as int) * (ps.total as int) < (b.q_num as int) * (u_den as int)) {
                assert((b.q_num as int) * (u_den as int) <= (frac as int) * (ps.total as int));
                if b.q_num == ps.total {
                    assert(frac < u_den);
                    assert((frac as int) * (ps.total as int) < (u_den as int) * (ps.total as int))
                        by (nonlinear_arith)
                        requires
                            (frac as int) < (u_den as int),
                            ps.total > 0,
                    ;
                    assert((ps.total as int) * (u_den as int) == (u_den as int) * (
                    ps.total as int)) by (nonlinear_arith);
                    assert(false);
                }
                assert(b.alias < ps.count);
            }
        }
        proof {
            vstd::arithmetic::mul::lemma_mul_nonnegative(b.q_num as int, u_den as int);
            vstd::arithmetic::mul::lemma_mul_upper_bound(
                b.q_num as int,
                0xffff_ffff_ffff_ffff,
                u_den as int,
                0x1_0000_0000,
            );
        }
        if (frac as u128) * (ps.total as u128) < (b.q_num as u128) * (u_den as u128) {
            b.light
        } else {
            self.power_light_sampler_data[ps.ptr as usize + b.alias as usize].light
        }
    }
}

/// A sampler that draws each of `count` lights with equal probability;
/// `ptr` is the offset of its light list in the shared sampler data array.
#[derive(Clone, Copy, Debug, PartialEq, Eq, Hash, Structural)]
pub struct UniformLightSampler {
    pub ptr: u32,
    pub count: u32,
}

/// A sampler that draws lights in proportion to their power through an
/// alias table; `ptr` is the offset of its `count` buckets in the shared
/// bucket array, and `total` the exact denominator all bucket masses are
/// expressed over.
#[derive(Clone, Copy, Debug, PartialEq, Eq, Hash, Structural)]
pub struct PowerLightSampler {
    pub ptr: u32,
    pub count: u32,
    pub total: u64,
}

/// One alias-table bucket. `pmf_num / total` is the probability of the
/// bucket's own light; `q_num / total` the share of the bucket that keeps
/// it, the rest going to the light of bucket `alias`.
#[derive(Clone, Copy, Debug, PartialEq, Eq, Hash, Structural)]
pub struct PlsAliasBucket {
    pub light: LightId,
    pub pmf_num: u64,
    pub q_num: u64,
    pub alias: u32,
}

} // verus!
