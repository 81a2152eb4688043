//! Tabulated distribution samplers built from scalar tables.

use vstd::prelude::*;

verus! {

/// The magnitude of a table value.
pub open spec fn abs_i64(v: i64) -> int {
    if v < 0 {
        -(v as int)
    } else {
        v as int
    }
}

/// The cumulative magnitude of the first `k` table values.
pub open spec fn abs_prefix_sum(s: Seq<i64>, k: int) -> int
    decreases k,
{
    if k <= 0 {
        0
    } else {
        abs_prefix_sum(s, k - 1) + abs_i64(s[k - 1])
    }
}

/// Cumulative magnitudes only grow.
pub proof fn lemma_abs_prefix_sum_mono(s: Seq<i64>, k1: int, k2: int)
    requires
        0 <= k1 <= k2,
    ensures
        0 <= abs_prefix_sum(s, k1) <= abs_prefix_sum(s, k2),
    decreases k2,
{
    if k1 < k2 {
        lemma_abs_prefix_sum_mono(s, k1, k2 - 1);
    } else if k2 > 0 {
        lemma_abs_prefix_sum_mono(s, 0, k2 - 1);
    }
}

impl crate::scene::Scene {
    /// Builds a one-dimensional tabulated sampler over `f`: the cumulative
    /// magnitudes of the table, one leading zero included, go into the
    /// shared scalar blob.
    pub fn add_1d_table_sampler(&mut self, min_x: i64, max_x: i64, f: &Vec<i64>) -> (r:
        TableSampler1d)
        requires
            old(self)@.float_data.len() + f@.len() + 1 <= u32::MAX,
            f@.len() <= u32::MAX,
            abs_prefix_sum(f@, f@.len() as int) <= i64::MAX,
        ensures
            final(self)@ == (crate::scene::SceneView {
                float_data: old(self)@.float_data + Seq::new(
                    f@.len() + 1,
                    |k: int| abs_prefix_sum(f@, k) as i64,
                ),
                ..old(self)@
            }),
            r.min_x == min_x,
            r.max_x == max_x,
            r.cdf_ptr == old(self)@.float_data.len(),
            r.len == f@.len(),
    {
        let cdf_ptr = self.float_data.len() as u32;
        let len = f.len() as u32;
        self.float_data.push(0);
        proof {
            assert(old(self)@.float_data + Seq::new(1, |k: int| abs_prefix_sum(f@, k) as i64)
                =~= old(self)@.float_data.push(0i64));
        }
        let mut acc: i64 = 0;
        let mut i: usize = 0;
        while i < f.len()
            invariant
                i <= f@.len(),
                old(self)@.float_data.len() + f@.len() + 1 <= u32::MAX,
                abs_prefix_sum(f@, f@.len() as int) <= i64::MAX,
                acc == abs_prefix_sum(f@, i as int),
                self@ == (crate::scene::SceneView {
                    float_data: old(self)@.float_data + Seq::new(
                        (i + 1) as nat,
                        |k: int| abs_prefix_sum(f@, k) as i64,
                    ),
                    ..old(self)@
                }),
            decreases f@.len() - i,
        {
            proof {
                lemma_abs_prefix_sum_mono(f@, i + 1, f@.len() as int);
                lemma_abs_prefix_sum_mono(f@, 0, i as int);
            }
            let v = f[i];
            let a: i64 = if v < 0 {
                if v == i64::MIN {
                    proof {
                        assert(abs_i64(v) > i64::MAX);
                        lemma_abs_prefix_sum_mono(f@, 0, i as int);
                        assert(abs_prefix_sum(f@, i + 1) > i64::MAX);
                        assert(false);
                    }
                    0
                } else {
                    -v
                }
            } else {
                v
            };
            acc = acc + a;
            self.float_data.push(acc);
            proof {
                assert(old(self)@.float_data + Seq::new(
                    (i + 2) as nat,
                    |k: int| abs_prefix_sum(f@, k) as i64,
                ) =~= (old(self)@.float_data + Seq::new(
                    (i + 1) as nat,
                    |k: int| abs_prefix_sum(f@, k) as i64,
                )).push(acc));
            }
            i += 1;
        }
        TableSampler1d { min_x, max_x, cdf_ptr, len }
    }
}

/// Row `y` of a table stored row-major with `w` columns.
pub open spec fn table_row(f: Seq<i64>, w: int, y: int) -> Seq<i64> {
    f.subrange(y * w, (y + 1) * w)
}

/// The cumulative-magnitude row for row `y`: `w + 1` values, a leading
/// zero included.
pub open spec fn row_cdf(f: Seq<i64>, w: int, y: int) -> Seq<i64> {
    Seq::new((w + 1) as nat, |k: int| abs_prefix_sum(table_row(f, w, y), k) as i64)
}

/// The cumulative rows of the first `y` table rows, one after another.
pub open spec fn rows_cdfs(f: Seq<i64>, w: int, y: int) -> Seq<i64>
    decreases y,
{
    if y <= 0 {
        Seq::empty()
    } else {
        rows_cdfs(f, w, y - 1) + row_cdf(f, w, y - 1)
    }
}

/// The total magnitude of the first `y` rows.
pub open spec fn rows_total(f: Seq<i64>, w: int, y: int) -> int
    decreases y,
{
    if y <= 0 {
        0
    } else {
        rows_total(f, w, y - 1) + abs_prefix_sum(table_row(f, w, y - 1), w)
    }
}

/// The marginal column: the cumulative row totals, a leading zero included.
pub open spec fn marginal_cdf(f: Seq<i64>, w: int, h: int) -> Seq<i64> {
    Seq::new((h + 1) as nat, |y: int| rows_total(f, w, y) as i64)
}

/// Cumulative row totals only grow.
proof fn lemma_rows_total_mono(f: Seq<i64>, w: int, y1: int, y2: int)
    requires
        0 <= y1 <= y2,
        w >= 0,
    ensures
        0 <= rows_total(f, w, y1) <= rows_total(f, w, y2),
    decreases y2,
{
    if y1 < y2 {
        lemma_rows_total_mono(f, w, y1, y2 - 1);
        lemma_abs_prefix_sum_mono(table_row(f, w, y2 - 1), 0, w);
    } else if y2 > 0 {
        lemma_rows_total_mono(f, w, 0, y2 - 1);
        lemma_abs_prefix_sum_mono(table_row(f, w, y2 - 1), 0, w);
    }
}

impl crate::scene::Scene {
    /// Builds a two-dimensional tabulated sampler over a `width` by
    /// `height` table stored row-major in `f`: one cumulative-magnitude
    /// row per table row goes into the shared scalar blob, then the
    /// cumulative row totals as the marginal column.
    pub fn add_2d_table_sampler(
        &mut self,
        min_x: i64,
        max_x: i64,
        min_y: i64,
        max_y: i64,
        width: u32,
        height: u32,
        f: &Vec<i64>,
    ) -> (r: TableSampler2d)
        requires
            f@.len() == width * height,
            width < 0x1_0000,
            height < 0x1_0000,
            rows_total(f@, width as int, height as int) <= i64::MAX,
            old(self)@.float_data.len() + (width + 1) * height + height + 1 <= u32::MAX,
        ensures
            final(self)@ == (crate::scene::SceneView {
                float_data: old(self)@.float_data + rows_cdfs(f@, width as int, height as int)
                    + marginal_cdf(f@, width as int, height as int),
                ..old(self)@
            }),
            r.min_x == min_x,
            r.max_x == max_x,
            r.min_y == min_y,
            r.max_y == max_y,
            r.cdf_ptr == old(self)@.float_data.len(),
            r.width == width,
            r.height == height,
    {
        let cdf_ptr = self.float_data.len() as u32;
        let w = width as usize;
        let h = height as usize;
        let flen = f.len();
        let ghost fv = f@;
        let ghost wi = width as int;
        let mut row_totals: Vec<i64> = Vec::new();
        let mut y: usize = 0;
        while y < h
            invariant
                y <= h,
                w == width,
                h == height,
                fv == f@,
                wi == width as int,
                flen == fv.len(),
                f@.len() == width * height,
                width < 0x1_0000,
                height < 0x1_0000,
                rows_total(fv, wi, height as int) <= i64::MAX,
                old(self)@.float_data.len() + (width + 1) * height + height + 1 <= u32::MAX,
                self@ == (crate::scene::SceneView {
                    float_data: old(self)@.float_data + rows_cdfs(fv, wi, y as int),
                    ..old(self)@
                }),
                rows_cdfs(fv, wi, y as int).len() == (w + 1) * y,
                row_totals@.len() == y,
                forall|j: int|
                    0 <= j < y ==> #[trigger] row_totals@[j] == abs_prefix_sum(
                        table_row(fv, wi, j),
                        wi,
                    ),
            decreases h - y,
        {
            let ghost row = table_row(fv, wi, y as int);
            proof {
                vstd::arithmetic::mul::lemma_mul_inequality(y + 1, height as int, wi);
                assert((y + 1) * wi == y * wi + wi) by (nonlinear_arith);
                assert((y as int) * wi >= 0) by (nonlinear_arith)
                    requires
                        y >= 0,
                        wi >= 0,
                ;
                assert(height as int * wi == wi * height) by (nonlinear_arith);
            }
            self.float_data.push(0);
            proof {
                lemma_rows_total_mono(fv, wi, y as int, height as int);
                assert(old(self)@.float_data + rows_cdfs(fv, wi, y as int) + row_cdf(
                    fv,
                    wi,
                    y as int,
                ).take(1) =~= (old(self)@.float_data + rows_cdfs(fv, wi, y as int)).push(0i64));
            }
            let mut acc: i64 = 0;
            let mut k: usize = 0;
            while k < w
                invariant
                    k <= w,
                    y < h,
                    w == width,
                    h == height,
                    fv == f@,
                    wi == width as int,
                    f@.len() == width * height,
                    width < 0x1_0000,
                    height < 0x1_0000,
                    row == table_row(fv, wi, y as int),
                    flen == fv.len(),
                    rows_total(fv, wi, height as int) <= i64::MAX,
                    old(self)@.float_data.len() + (width + 1) * height + height + 1 <= u32::MAX,
                    rows_cdfs(fv, wi, y as int).len() == (w + 1) * y,
                    (y as int) * wi >= 0,
                    (y + 1) * wi <= fv.len(),
                    acc == abs_prefix_sum(row, k as int),
                    self@ == (crate::scene::SceneView {
                        float_data: old(self)@.float_data + rows_cdfs(fv, wi, y as int) + row_cdf(
                            fv,
                            wi,
                            y as int,
                        ).take(k + 1),
                        ..old(self)@
                    }),
                decreases w - k,
            {
                proof {
                    lemma_abs_prefix_sum_mono(row, k + 1, wi);
                    lemma_abs_prefix_sum_mono(row, 0, k as int);
                    lemma_rows_total_mono(fv, wi, y as int, height as int);
                    assert(rows_total(fv, wi, y + 1) == rows_total(fv, wi, y as int)
                        + abs_prefix_sum(row, wi));
                    lemma_rows_total_mono(fv, wi, y + 1, height as int);
                    lemma_rows_total_mono(fv, wi, 0, y as int);
                    assert((y + 1) * wi == (y as int) * wi + wi) by (nonlinear_arith);
                    assert(row.len() == wi);
                    assert(row[k as int] == fv[(y as int) * wi + k]);
                    assert((y as int) * wi + k < fv.len());
                    assert((y as int) * wi < 0x1_0000_0000) by (nonlinear_arith)
                        requires
                            0 <= y < 0x1_0000,
                            0 <= wi < 0x1_0000,
                    ;
                }
                let v = f[y * w + k];
                let a: i64 = if v < 0 {
                    if v == i64::MIN {
                        proof {
                            assert(abs_i64(v) > i64::MAX);
                            assert(abs_prefix_sum(row, k + 1) > i64::MAX);
                            assert(false);
                        }
                        0
                    } else {
                        -v
                    }
                } else {
                    v
                };
                acc = acc + a;
                self.float_data.push(acc);
                proof {
                    assert(old(self)@.float_data + rows_cdfs(fv, wi, y as int) + row_cdf(
                        fv,
                        wi,
                        y as int,
                    ).take(k + 2) =~= (old(self)@.float_data + rows_cdfs(fv, wi, y as int)
                        + row_cdf(fv, wi, y as int).take(k + 1)).push(acc));
                }
                k += 1;
            }
            row_totals.push(acc);
            proof {
                assert(row_cdf(fv, wi, y as int).take(wi + 1) =~= row_cdf(fv, wi, y as int));
                assert(old(self)@.float_data + rows_cdfs(fv, wi, y + 1) =~= old(
                    self,
                )@.float_data + rows_cdfs(fv, wi, y as int) + row_cdf(fv, wi, y as int));
                assert((w + 1) * (y + 1) == (w + 1) * y + (w + 1)) by (nonlinear_arith);
            }
            y += 1;
        }
        let ghost base = old(self)@.float_data + rows_cdfs(fv, wi, height as int);
        let mut marg: i64 = 0;
        self.float_data.push(0);
        proof {
            assert(base + marginal_cdf(fv, wi, height as int).take(1) =~= base.push(0i64));
        }
        let mut y2: usize = 0;
        while y2 < h
            invariant
                y2 <= h,
                w == width,
                h == height,
                fv == f@,
                wi == width as int,
                width < 0x1_0000,
                height < 0x1_0000,
                rows_total(fv, wi, height as int) <= i64::MAX,
                old(self)@.float_data.len() + (width + 1) * height + height + 1 <= u32::MAX,
                base == old(self)@.float_data + rows_cdfs(fv, wi, height as int),
                base.len() == old(self)@.float_data.len() + (w + 1) * h,
                row_totals@.len() == h,
                forall|j: int|
                    0 <= j < h ==> #[trigger] row_totals@[j] == abs_prefix_sum(
                        table_row(fv, wi, j),
                        wi,
                    ),
                marg == rows_total(fv, wi, y2 as int),
                self@ == (crate::scene::SceneView {
                    float_data: base + marginal_cdf(fv, wi, height as int).take(y2 + 1),
                    ..old(self)@
                }),
            decreases h - y2,
        {
            proof {
                lemma_rows_total_mono(fv, wi, y2 + 1, height as int);
                lemma_rows_total_mono(fv, wi, 0, y2 as int);
                lemma_abs_prefix_sum_mono(table_row(fv, wi, y2 as int), 0, wi);
            }
            marg = marg + row_totals[y2];
            self.float_data.push(marg);
            proof {
                assert(base + marginal_cdf(fv, wi, height as int).take(y2 + 2) =~= (base
                    + marginal_cdf(fv, wi, height as int).take(y2 + 1)).push(marg));
            }
            y2 += 1;
        }
        proof {
            assert(marginal_cdf(fv, wi, height as int).take(height as int + 1) =~= marginal_cdf(
                fv,
                wi,
                height as int,
            ));
        }
        TableSampler2d { min_x, max_x, min_y, max_y, cdf_ptr, width, height }
    }
}

impl crate::scene::Scene {
    /// Builds the sampling distribution over an image's luminance table:
    /// a two-dimensional tabulated sampler over the unit square.
    pub fn image_sampling_distribution(&mut self, width: u32, height: u32, luminance: &Vec<i64>)
        -> (r: TableSampler2d)
        requires
            luminance@.len() == width * height,
            width < 0x1_0000,
            height < 0x1_0000,
            rows_total(luminance@, width as int, height as int) <= i64::MAX,
            old(self)@.float_data.len() + (width + 1) * height + height + 1 <= u32::MAX,
        ensures
            final(self)@ == (crate::scene::SceneView {
                float_data: old(self)@.float_data + rows_cdfs(
                    luminance@,
                    width as int,
                    height as int,
                ) + marginal_cdf(luminance@, width as int, height as int),
                ..old(self)@
            }),
            r.min_x == 0,
            r.max_x == crate::scene::shapes::FP_ONE,
            r.min_y == 0,
            r.max_y == crate::scene::shapes::FP_ONE,
            r.cdf_ptr == old(self)@.float_data.len(),
            r.width == width,
            r.height == height,
    {
        self.add_2d_table_sampler(
            0,
            crate::scene::shapes::FP_ONE,
            0,
            crate::scene::shapes::FP_ONE,
            width,
            height,
            luminance,
        )
    }
}

/// A one-dimensional tabulated sampler: `cdf_ptr` points at `len + 1`
/// cumulative values in the shared scalar blob.
#[derive(Clone, Copy, Debug, PartialEq, Eq, Hash, Structural)]
pub struct TableSampler1d {
    pub min_x: i64,
    pub max_x: i64,
    pub cdf_ptr: u32,
    pub len: u32,
}

/// A two-dimensional tabulated sampler: one cumulative row per image row,
/// then one marginal column, all in the shared scalar blob.
#[derive(Clone, Copy, Debug, PartialEq, Eq, Hash, Structural)]
pub struct TableSampler2d {
    pub min_x: i64,
    pub max_x: i64,
    pub min_y: i64,
    pub max_y: i64,
    pub cdf_ptr: u32,
    pub width: u32,
    pub height: u32,
}

} // verus!
