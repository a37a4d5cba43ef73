use vstd::prelude::*;
use vstd::std_specs::cmp::{PartialEqSpec, PartialOrdSpec};
use vstd::std_specs::convert::FromSpec;
use vstd::std_specs::ops::{AddSpec, DivSpec, MulSpec, SubSpec};
use vstd::arithmetic::div_mod::{
    lemma_fundamental_div_mod, lemma_fundamental_div_mod_converse, lemma_mod_pos_bound,
};
use core::cmp::Ordering;
use core::ops::{Add, Div, Mul, Sub};
use crate::kernel::{
    diffusion_target, grid_offset, grid_offsets, offsets_fit, spec_grid_offsets, spec_target,
};
use crate::matrix::{flat_index, lemma_flat_index_in_range, Matrix};

verus! {

/// Addition, subtraction and multiplication of `T` are defined on every pair
/// of values, as they are for floating-point numbers.
pub open spec fn total_arithmetic<T>() -> bool where
    T: Add<Output = T> + Sub<Output = T> + Mul<Output = T>,
 {
    &&& forall|x: T, y: T| #[trigger] x.add_req(y)
    &&& forall|x: T, y: T| #[trigger] x.sub_req(y)
    &&& forall|x: T, y: T| #[trigger] x.mul_req(y)
}

/// Division of `T` is defined on every pair of values, as it is for
/// floating-point numbers.
pub open spec fn total_division<T>() -> bool where T: Div<Output = T> {
    forall|x: T, y: T| #[trigger] x.div_req(y)
}

/// Comparison, equality, addition, subtraction, multiplication and the
/// conversion from `u8` of `T` are functions of their operands, given by
/// their spec counterparts.
pub open spec fn exact_operations<T>() -> bool where
    T: PartialOrd + Add<Output = T> + Sub<Output = T> + Mul<Output = T> + From<u8>,
 {
    &&& T::obeys_partial_cmp_spec()
    &&& T::obeys_eq_spec()
    &&& T::obeys_add_spec()
    &&& T::obeys_sub_spec()
    &&& T::obeys_mul_spec()
    &&& <T as FromSpec<u8>>::obeys_from_spec()
}

/// `source` after the first `m` offsets of `weights` have spread `error`
/// from `(row, col)`: an offset with a non-zero weight that lands inside the
/// `height` x `width` buffer adds `error * weight` to the cell it reaches.
pub open spec fn diffused<T>(
    source: Seq<T>,
    weights: Seq<(i32, i32, T)>,
    m: int,
    row: int,
    col: int,
    height: int,
    width: int,
    error: T,
) -> Seq<T> where
    T: PartialOrd + Add<Output = T> + Sub<Output = T> + Mul<Output = T> + From<u8>,

    decreases m,
{
    if m <= 0 {
        source
    } else {
        let prev = diffused(source, weights, m - 1, row, col, height, width, error);
        let (dx, dy, factor) = weights[m - 1];
        if factor.eq_spec(&<T as FromSpec<u8>>::from_spec(0u8)) {
            prev
        } else {
            match spec_target(row, col, dx as int, dy as int, height, width) {
                Some(t) => {
                    let k = flat_index(t.0 as int, t.1 as int, width);
                    prev.update(k, prev[k].add_spec(error.mul_spec(factor)))
                },
                None => prev,
            }
        }
    }
}

/// No offset of `weights` taken from `(row, col)` lands on `(r, c)`.
pub open spec fn untouched<T>(
    weights: Seq<(i32, i32, T)>,
    row: int,
    col: int,
    height: int,
    width: int,
    r: int,
    c: int,
) -> bool {
    forall|m: int|
        0 <= m < weights.len() ==> #[trigger] spec_target(
            row,
            col,
            weights[m].0 as int,
            weights[m].1 as int,
            height,
            width,
        ) != Some((r as u32, c as u32))
}

proof fn lemma_flat_index_injective(r1: int, c1: int, r2: int, c2: int, width: int)
    requires
        0 <= r1,
        0 <= r2,
        0 <= c1 < width,
        0 <= c2 < width,
        flat_index(r1, c1, width) == flat_index(r2, c2, width),
    ensures
        r1 == r2,
        c1 == c2,
{
    if r1 < r2 {
        assert(r1 * width + c1 < r2 * width) by (nonlinear_arith)
            requires
                r1 < r2,
                0 <= c1 < width,
        ;
    } else if r2 < r1 {
        assert(r2 * width + c2 < r1 * width) by (nonlinear_arith)
            requires
                r2 < r1,
                0 <= c2 < width,
        ;
    }
}

/// Adds `error * weight` to every cell of `source` that an offset of
/// `weights` with a non-zero weight reaches from `(row, col)`; offsets that
/// leave the buffer are skipped.
fn diffuse<T>(source: &mut Matrix<T>, weights: &Vec<(i32, i32, T)>, row: u32, col: u32, error: T) where
    T: Copy + PartialOrd + Add<Output = T> + Sub<Output = T> + Mul<Output = T> + From<u8>,

    requires
        old(source).wf(),
        total_arithmetic::<T>(),
    ensures
        final(source).wf(),
        final(source).spec_width() == old(source).spec_width(),
        final(source).spec_height() == old(source).spec_height(),
        forall|r: int, c: int|
            old(source).in_range(r, c) && untouched(
                weights@,
                row as int,
                col as int,
                old(source).spec_height() as int,
                old(source).spec_width() as int,
                r,
                c,
            ) ==> #[trigger] final(source).cell(r, c) == old(source).cell(r, c),
        exact_operations::<T>() ==> final(source)@ == diffused(
            old(source)@,
            weights@,
            weights@.len() as int,
            row as int,
            col as int,
            old(source).spec_height() as int,
            old(source).spec_width() as int,
            error,
        ),
{
    let height = source.get_height();
    let width = source.get_width();
    let zero = T::from(0u8);
    let ghost first = *source;
    let mut m: usize = 0;
    while m < weights.len()
        invariant
            source.wf(),
            first.wf(),
            height == source.spec_height() == first.spec_height(),
            width == source.spec_width() == first.spec_width(),
            total_arithmetic::<T>(),
            m <= weights@.len(),
            forall|r: int, c: int|
                first.in_range(r, c) && (forall|mm: int|
                    0 <= mm < m ==> #[trigger] spec_target(
                        row as int,
                        col as int,
                        weights@[mm].0 as int,
                        weights@[mm].1 as int,
                        height as int,
                        width as int,
                    ) != Some((r as u32, c as u32))) ==> #[trigger] source.cell(r, c) == first.cell(r, c),
            exact_operations::<T>() ==> zero == <T as FromSpec<u8>>::from_spec(0u8),
            exact_operations::<T>() ==> source@ == diffused(
                first@,
                weights@,
                m as int,
                row as int,
                col as int,
                height as int,
                width as int,
                error,
            ),
        decreases weights@.len() - m,
    {
        let (dx, dy, factor) = weights[m];
        if !(factor == zero) {
            match diffusion_target(row, col, dx, dy, height, width) {
                Some((tr, tc)) => {
                    let value = source.get(tr, tc).unwrap();
                    let ghost before = *source;
                    let sum = value + error * factor;
                    let _ = source.set(tr, tc, sum);
                    proof {
                        lemma_flat_index_in_range(tr as int, tc as int, width as int, height as int);
                        assert forall|r: int, c: int|
                            first.in_range(r, c) && (forall|mm: int|
                                0 <= mm < m + 1 ==> #[trigger] spec_target(
                                    row as int,
                                    col as int,
                                    weights@[mm].0 as int,
                                    weights@[mm].1 as int,
                                    height as int,
                                    width as int,
                                ) != Some((r as u32, c as u32))) implies #[trigger] source.cell(r, c)
                            == first.cell(r, c) by {
                            assert(spec_target(
                                row as int,
                                col as int,
                                weights@[m as int].0 as int,
                                weights@[m as int].1 as int,
                                height as int,
                                width as int,
                            ) != Some((r as u32, c as u32)));
                            assert(dx == weights@[m as int].0 && dy == weights@[m as int].1);
                            if flat_index(r, c, width as int) == flat_index(tr as int, tc as int, width as int) {
                                lemma_flat_index_injective(r, c, tr as int, tc as int, width as int);
                                assert(false);
                            }
                            lemma_flat_index_in_range(r, c, width as int, height as int);
                            assert(before.cell(r, c) == first.cell(r, c));
                        }
                    }
                },
                None => {},
            }
        }
        m = m + 1;
    }
    proof {
        assert forall|r: int, c: int|
            first.in_range(r, c) && untouched(
                weights@,
                row as int,
                col as int,
                height as int,
                width as int,
                r,
                c,
            ) implies #[trigger] source.cell(r, c) == first.cell(r, c) by {
            assert(forall|mm: int|
                0 <= mm < m ==> #[trigger] spec_target(
                    row as int,
                    col as int,
                    weights@[mm].0 as int,
                    weights@[mm].1 as int,
                    height as int,
                    width as int,
                ) != Some((r as u32, c as u32)));
        }
    }
}

/// The on/off level of a sample whose comparison with the threshold is
/// `Greater` where it lies above it: 1 above the threshold, else 0.
pub open spec fn on_off_level<T: PartialOrd>(value: T, threshold: T) -> i64 {
    if value.partial_cmp_spec(&threshold) == Some(Ordering::Greater) {
        1
    } else {
        0
    }
}

/// The source plane and the levels after the first `k` cells, in raster
/// order, of a `height` x `width` buffer of samples `input` have been
/// dithered on/off against `threshold` with offsets `weights`.
pub open spec fn on_off_run<T>(
    threshold: T,
    weights: Seq<(i32, i32, T)>,
    input: Seq<T>,
    height: int,
    width: int,
    k: int,
) -> (Seq<T>, Seq<i64>) where
    T: PartialOrd + Add<Output = T> + Sub<Output = T> + Mul<Output = T> + From<u8>,

    decreases k,
{
    if k <= 0 {
        (input, Seq::empty())
    } else {
        let (source, levels) = on_off_run(threshold, weights, input, height, width, k - 1);
        let value = source[k - 1];
        let on = value.partial_cmp_spec(&threshold) == Some(Ordering::Greater);
        let quantized = if on {
            <T as FromSpec<u8>>::from_spec(1u8)
        } else {
            <T as FromSpec<u8>>::from_spec(0u8)
        };
        (
            diffused(
                source,
                weights,
                weights.len() as int,
                (k - 1) / width,
                (k - 1) % width,
                height,
                width,
                value.sub_spec(quantized),
            ),
            levels.push(
                if on {
                    1
                } else {
                    0
                },
            ),
        )
    }
}

/// Cell `row * width + col` of the raster order is `(row, col)`.
proof fn lemma_raster_cell(row: int, col: int, width: int)
    requires
        0 <= row,
        0 <= col < width,
    ensures
        flat_index(row, col, width) / width == row,
        flat_index(row, col, width) % width == col,
{
    lemma_fundamental_div_mod_converse(flat_index(row, col, width), width, row, col);
}

/// Binary error-diffusion dithering: a cell is on where its sample, with
/// the error diffused into it, lies above the threshold.
pub struct OnOffKernelDitherer<T> {
    threshold: T,
    weights: Vec<(i32, i32, T)>,
}

impl<T> OnOffKernelDitherer<T> where
    T: Copy + PartialOrd + Add<Output = T> + Sub<Output = T> + Mul<Output = T> + From<u8>,
 {
    pub closed spec fn spec_threshold(&self) -> T {
        self.threshold
    }

    /// The diffusion offsets `(dx, dy, weight)`.
    pub closed spec fn spec_weights(&self) -> Seq<(i32, i32, T)> {
        self.weights@
    }

    /// A ditherer whose offsets are the cells of `factors` taken relative to
    /// `origin`: the one `new` builds from `grid_offsets(origin, &factors)`.
    pub fn from(threshold: T, origin: (i32, i32), factors: Matrix<T>) -> (r: OnOffKernelDitherer<T>)
        requires
            factors.wf(),
            offsets_fit(origin, factors.spec_width() as int, factors.spec_height() as int),
        ensures
            r.spec_threshold() == threshold,
            r.spec_weights() == spec_grid_offsets(origin, factors),
            r.spec_weights().len() == factors@.len(),
            forall|row: int, col: int|
                factors.in_range(row, col) ==> #[trigger] r.spec_weights()[flat_index(
                    row,
                    col,
                    factors.spec_width() as int,
                )] == grid_offset(origin, row, col, factors.cell(row, col)),
    {
        OnOffKernelDitherer { threshold, weights: grid_offsets(origin, &factors) }
    }

    /// A ditherer with the given offsets `(dx, dy, weight)`.
    pub fn new(threshold: T, weights: Vec<(i32, i32, T)>) -> (r: OnOffKernelDitherer<T>)
        ensures
            r.spec_threshold() == threshold,
            r.spec_weights() == weights@,
    {
        OnOffKernelDitherer { threshold, weights }
    }

    /// Dithers `input` in raster order, row by row and left to right: each
    /// cell is quantized from its sample plus the error diffused into it so
    /// far, to 1 above the threshold and to 0 otherwise, and the difference
    /// between the sample and that level is spread over the cells the offsets
    /// reach. The result holds the levels; `input` is left as it was.
    /// Without offsets each cell is thresholded on its own.
    pub fn dither_levels(&self, input: &Matrix<T>) -> (r: Matrix<i64>)
        requires
            input.wf(),
            total_arithmetic::<T>(),
        ensures
            r.wf(),
            r.spec_width() == input.spec_width(),
            r.spec_height() == input.spec_height(),
            forall|i: int, j: int| r.in_range(i, j) ==> #[trigger] r.cell(i, j) == 0 || r.cell(i, j) == 1,
            self.spec_weights().len() == 0 && T::obeys_partial_cmp_spec() ==> forall|i: int, j: int|
                r.in_range(i, j) ==> #[trigger] r.cell(i, j) == on_off_level(
                    input.cell(i, j),
                    self.spec_threshold(),
                ),
            exact_operations::<T>() ==> r@ == on_off_run(
                self.spec_threshold(),
                self.spec_weights(),
                input@,
                input.spec_height() as int,
                input.spec_width() as int,
                input@.len() as int,
            ).1,
    {
        let width = input.get_width();
        let height = input.get_height();
        let ghost w = width as int;
        let one = T::from(1u8);
        let zero = T::from(0u8);
        let mut source = input.duplicate();
        let mut levels: Vec<i64> = Vec::new();
        let mut row: u32 = 0;
        while row < height
            invariant
                input.wf(),
                source.wf(),
                total_arithmetic::<T>(),
                w == width == input.spec_width() == source.spec_width(),
                height == input.spec_height() == source.spec_height(),
                row <= height,
                levels@.len() == row * w,
                forall|k: int| 0 <= k < levels@.len() ==> #[trigger] levels@[k] == 0 || levels@[k] == 1,
                self.weights@.len() == 0 ==> forall|r: int, c: int|
                    input.in_range(r, c) ==> #[trigger] source.cell(r, c) == input.cell(r, c),
                self.weights@.len() == 0 && T::obeys_partial_cmp_spec() ==> forall|r: int, c: int|
                    0 <= r < row && 0 <= c < w ==> #[trigger] levels@[flat_index(r, c, w)]
                        == on_off_level(input.cell(r, c), self.threshold),
                exact_operations::<T>() ==> one == <T as FromSpec<u8>>::from_spec(1u8) && zero == <T as FromSpec<u8>>::from_spec(0u8),
                exact_operations::<T>() ==> (source@, levels@) == on_off_run(
                    self.threshold,
                    self.weights@,
                    input@,
                    height as int,
                    w,
                    row * w,
                ),
            decreases height - row,
        {
            let mut col: u32 = 0;
            while col < width
                invariant
                    input.wf(),
                    source.wf(),
                    total_arithmetic::<T>(),
                    w == width == input.spec_width() == source.spec_width(),
                    height == input.spec_height() == source.spec_height(),
                    row < height,
                    col <= width,
                    levels@.len() == row * w + col,
                    forall|k: int| 0 <= k < levels@.len() ==> #[trigger] levels@[k] == 0 || levels@[k] == 1,
                    self.weights@.len() == 0 ==> forall|r: int, c: int|
                        input.in_range(r, c) ==> #[trigger] source.cell(r, c) == input.cell(r, c),
                    self.weights@.len() == 0 && T::obeys_partial_cmp_spec() ==> forall|r: int, c: int|
                        0 <= r <= row && 0 <= c < w && (r < row || c < col) ==> #[trigger] levels@[flat_index(
                            r,
                            c,
                            w,
                        )] == on_off_level(input.cell(r, c), self.threshold),
                    exact_operations::<T>() ==> one == <T as FromSpec<u8>>::from_spec(1u8) && zero == <T as FromSpec<u8>>::from_spec(0u8),
                    exact_operations::<T>() ==> (source@, levels@) == on_off_run(
                        self.threshold,
                        self.weights@,
                        input@,
                        height as int,
                        w,
                        row * w + col,
                    ),
                decreases width - col,
            {
                let value = source.get(row, col).unwrap();
                let on = value > self.threshold;
                let quantized = if on {
                    one
                } else {
                    zero
                };
                let ghost before = levels@;
                levels.push(if on {
                    1
                } else {
                    0
                });
                proof {
                    if self.weights@.len() == 0 && T::obeys_partial_cmp_spec() {
                        assert forall|r: int, c: int|
                            0 <= r <= row && 0 <= c < w && (r < row || c <= col) implies #[trigger] levels@[flat_index(
                                r,
                                c,
                                w,
                            )] == on_off_level(input.cell(r, c), self.threshold) by {
                            if r < row || c < col {
                                if r < row {
                                    assert(r * w + c < row * w) by (nonlinear_arith)
                                        requires
                                            0 <= r < row,
                                            0 <= c < w,
                                    ;
                                }
                                assert(levels@[flat_index(r, c, w)] == before[flat_index(r, c, w)]);
                            }
                        }
                    }
                }
                proof {
                    lemma_raster_cell(row as int, col as int, w);
                    lemma_flat_index_in_range(row as int, col as int, w, height as int);
                }
                diffuse(&mut source, &self.weights, row, col, value - quantized);
                col = col + 1;
            }
            proof {
                assert((row + 1) * w == row * w + w) by (nonlinear_arith);
            }
            row = row + 1;
        }
        proof {
            assert(height * w == w * height) by (nonlinear_arith);
            assert forall|i: int, j: int| 0 <= i < height && 0 <= j < w implies #[trigger] levels@[flat_index(
                i,
                j,
                w,
            )] == 0 || levels@[flat_index(i, j, w)] == 1 by {
                lemma_flat_index_in_range(i, j, w, height as int);
            }
        }
        Matrix::from(levels, width, height)
    }
}

/// How many breakpoints, from `points[i]` on, `value` reaches one after the
/// other (compares `Greater` or `Equal` to) before the first it stays below.
pub open spec fn passed_from<T: PartialOrd>(value: T, points: Seq<T>, i: int) -> int
    decreases points.len() - i,
{
    if i < 0 || i >= points.len() {
        0
    } else if value.partial_cmp_spec(&points[i]) matches Some(Ordering::Greater | Ordering::Equal) {
        1 + passed_from(value, points, i + 1)
    } else {
        0
    }
}

/// The midpoints of the buckets that `points` bound within 0 .. 1:
/// `p[0] / 2`, then `(p[i] + p[i - 1]) / 2`, and `(1 + p[n - 1]) / 2` last;
/// `(1 + 0) / 2` alone when there are no breakpoints.
pub open spec fn spec_midpoints_of<T>(points: Seq<T>) -> Seq<T> where
    T: Add<Output = T> + Div<Output = T> + From<u8>,
 {
    let n = points.len() as int;
    let one = <T as FromSpec<u8>>::from_spec(1u8);
    let two = <T as FromSpec<u8>>::from_spec(2u8);
    if n == 0 {
        seq![one.add_spec(<T as FromSpec<u8>>::from_spec(0u8)).div_spec(two)]
    } else {
        Seq::new(
            (n + 1) as nat,
            |i: int|
                if i == 0 {
                    points[0].div_spec(two)
                } else if i < n {
                    points[i].add_spec(points[i - 1]).div_spec(two)
                } else {
                    one.add_spec(points[n - 1]).div_spec(two)
                },
        )
    }
}

/// The source plane and the levels after the first `k` cells, in raster
/// order, of a `height` x `width` buffer of samples `input` have been
/// dithered into the buckets of `points`, with `mids` the buckets'
/// reconstruction values and offsets `weights`.
pub open spec fn interpolating_run<T>(
    points: Seq<T>,
    mids: Seq<T>,
    weights: Seq<(i32, i32, T)>,
    input: Seq<T>,
    height: int,
    width: int,
    k: int,
) -> (Seq<T>, Seq<i64>) where
    T: PartialOrd + Add<Output = T> + Sub<Output = T> + Mul<Output = T> + From<u8>,

    decreases k,
{
    if k <= 0 {
        (input, Seq::empty())
    } else {
        let (source, levels) = interpolating_run(points, mids, weights, input, height, width, k - 1);
        let value = source[k - 1];
        let passed = passed_from(value, points, 0);
        (
            diffused(
                source,
                weights,
                weights.len() as int,
                (k - 1) / width,
                (k - 1) % width,
                height,
                width,
                value.sub_spec(mids[passed]),
            ),
            levels.push((passed - 1) as i64),
        )
    }
}

/// Multi-level error-diffusion dithering: a cell's level is the index of the
/// last breakpoint its sample reaches (-1 below the first), and the error is
/// taken against the midpoint of the bucket the sample fell into.
pub struct InterpolatingKernelDitherer<T> {
    inter_points: Vec<T>,
    mid_points: Vec<T>,
    weights: Vec<(i32, i32, T)>,
}

impl<T> InterpolatingKernelDitherer<T> where
    T: Copy + PartialOrd + Add<Output = T> + Sub<Output = T> + Mul<Output = T> + Div<Output = T> + From<
        u8,
    >,
 {
    /// The breakpoints, in increasing order.
    pub closed spec fn spec_points(&self) -> Seq<T> {
        self.inter_points@
    }

    /// The reconstruction value of each bucket, one more than breakpoints.
    pub closed spec fn spec_midpoints(&self) -> Seq<T> {
        self.mid_points@
    }

    /// The diffusion offsets `(dx, dy, weight)`.
    pub closed spec fn spec_weights(&self) -> Seq<(i32, i32, T)> {
        self.weights@
    }

    pub open spec fn wf(&self) -> bool {
        self.spec_midpoints().len() == self.spec_points().len() + 1
    }

    /// The midpoints of the buckets that `points` bound within 0 .. 1:
    /// `p[0] / 2`, then `(p[i] + p[i - 1]) / 2`, and `(1 + p[n - 1]) / 2` last
    /// (`1 / 2` when there are no breakpoints).
    fn midpoints(points: &Vec<T>) -> (r: Vec<T>)
        requires
            total_arithmetic::<T>(),
            total_division::<T>(),
        ensures
            r@.len() == points@.len() + 1,
            exact_operations::<T>() && T::obeys_div_spec() ==> r@ == spec_midpoints_of(points@),
    {
        let one = T::from(1u8);
        let two = T::from(2u8);
        let n = points.len();
        let mut mids: Vec<T> = Vec::new();
        if n == 0 {
            mids.push((one + T::from(0u8)) / two);
            return mids;
        }
        mids.push(points[0] / two);
        let ghost all = spec_midpoints_of(points@);
        let mut i: usize = 1;
        while i < n
            invariant
                total_arithmetic::<T>(),
                total_division::<T>(),
                n == points@.len(),
                1 <= i <= n,
                mids@.len() == i,
                all == spec_midpoints_of(points@),
                exact_operations::<T>() && T::obeys_div_spec() ==> one == <T as FromSpec<
                    u8,
                >>::from_spec(1u8) && two == <T as FromSpec<u8>>::from_spec(2u8) && mids@ =~= all.subrange(
                    0,
                    i as int,
                ),
            decreases n - i,
        {
            mids.push((points[i] + points[i - 1]) / two);
            i = i + 1;
        }
        mids.push((one + points[n - 1]) / two);
        proof {
            if exact_operations::<T>() && T::obeys_div_spec() {
                assert(mids@ =~= all);
            }
        }
        mids
    }

    /// A ditherer with breakpoints `inter_points` whose offsets are the cells
    /// of `factors` taken relative to `origin`: what `new` gives on
    /// `grid_offsets(origin, &factors)`. Breakpoints that are not strictly
    /// increasing within 0 .. 1 are refused, as `check_points` refuses them.
    pub fn from(inter_points: Vec<T>, origin: (i32, i32), factors: Matrix<T>) -> (r: Result<
        InterpolatingKernelDitherer<T>,
        PointsError,
    >)
        requires
            factors.wf(),
            offsets_fit(origin, factors.spec_width() as int, factors.spec_height() as int),
            total_arithmetic::<T>(),
            total_division::<T>(),
        ensures
            exact_comparison::<T>() ==> (r is Err <==> points_verdict(inter_points@, 0) is Err),
            r matches Err(e) ==> exact_comparison::<T>() ==> points_verdict(inter_points@, 0) == Err::<
                (),
                PointsError,
            >(e),
            r matches Ok(d) ==> {
                &&& d.wf()
                &&& d.spec_points() == inter_points@
                &&& exact_operations::<T>() && T::obeys_div_spec() ==> d.spec_midpoints()
                    == spec_midpoints_of(inter_points@)
                &&& d.spec_weights() == spec_grid_offsets(origin, factors)
                &&& d.spec_weights().len() == factors@.len()
                &&& forall|row: int, col: int|
                    factors.in_range(row, col) ==> #[trigger] d.spec_weights()[flat_index(
                        row,
                        col,
                        factors.spec_width() as int,
                    )] == grid_offset(origin, row, col, factors.cell(row, col))
            },
    {
        let weights = grid_offsets(origin, &factors);
        InterpolatingKernelDitherer::new(inter_points, weights)
    }

    /// A ditherer with breakpoints `inter_points` and the given offsets
    /// `(dx, dy, weight)`. Breakpoints that are not strictly increasing
    /// within 0 .. 1 are refused, as `check_points` refuses them, before
    /// anything is built.
    pub fn new(inter_points: Vec<T>, weights: Vec<(i32, i32, T)>) -> (r: Result<
        InterpolatingKernelDitherer<T>,
        PointsError,
    >)
        requires
            total_arithmetic::<T>(),
            total_division::<T>(),
        ensures
            exact_comparison::<T>() ==> (r is Err <==> points_verdict(inter_points@, 0) is Err),
            r matches Err(e) ==> exact_comparison::<T>() ==> points_verdict(inter_points@, 0) == Err::<
                (),
                PointsError,
            >(e),
            r matches Ok(d) ==> {
                &&& d.wf()
                &&& d.spec_points() == inter_points@
                &&& d.spec_weights() == weights@
                &&& exact_operations::<T>() && T::obeys_div_spec() ==> d.spec_midpoints()
                    == spec_midpoints_of(inter_points@)
            },
    {
        match check_points(&inter_points) {
            Err(e) => Err(e),
            Ok(()) => {
                let mid_points = Self::midpoints(&inter_points);
                Ok(InterpolatingKernelDitherer { inter_points, mid_points, weights })
            },
        }
    }

    /// The bucket `value` falls into: how many breakpoints it reaches before
    /// the first it stays below.
    fn bucket(&self, value: T) -> (r: usize)
        ensures
            r <= self.spec_points().len(),
            T::obeys_partial_cmp_spec() ==> r == passed_from(value, self.spec_points(), 0),
    {
        let n = self.inter_points.len();
        let mut passed: usize = 0;
        while passed < n
            invariant
                n == self.inter_points@.len(),
                passed <= n,
                T::obeys_partial_cmp_spec() ==> passed_from(value, self.inter_points@, 0) == passed
                    + passed_from(value, self.inter_points@, passed as int),
            ensures
                passed <= n,
                T::obeys_partial_cmp_spec() ==> passed_from(value, self.inter_points@, passed as int)
                    == 0,
            decreases n - passed,
        {
            if value >= self.inter_points[passed] {
                passed = passed + 1;
            } else {
                break;
            }
        }
        passed
    }

    /// Dithers `input` in raster order, row by row and left to right: each
    /// cell gets the level of the bucket its sample, plus the error diffused
    /// into it so far, falls into (-1 below the first breakpoint, up to
    /// `n - 1` for `n` breakpoints), and the difference between the sample
    /// and that bucket's midpoint is spread over the cells the offsets reach.
    /// The result holds the levels; `input` is left as it was.
    pub fn dither_levels(&self, input: &Matrix<T>) -> (r: Matrix<i64>)
        requires
            self.wf(),
            input.wf(),
            total_arithmetic::<T>(),
            self.spec_points().len() < i64::MAX,
        ensures
            r.wf(),
            r.spec_width() == input.spec_width(),
            r.spec_height() == input.spec_height(),
            forall|i: int, j: int|
                r.in_range(i, j) ==> -1 <= #[trigger] r.cell(i, j) <= self.spec_points().len() - 1,
            self.spec_weights().len() == 0 && T::obeys_partial_cmp_spec() ==> forall|i: int, j: int|
                r.in_range(i, j) ==> #[trigger] r.cell(i, j) == passed_from(
                    input.cell(i, j),
                    self.spec_points(),
                    0,
                ) - 1,
            exact_operations::<T>() ==> r@ == interpolating_run(
                self.spec_points(),
                self.spec_midpoints(),
                self.spec_weights(),
                input@,
                input.spec_height() as int,
                input.spec_width() as int,
                input@.len() as int,
            ).1,
    {
        let width = input.get_width();
        let height = input.get_height();
        let ghost w = width as int;
        let ghost n = self.inter_points@.len() as int;
        let mut source = input.duplicate();
        let mut levels: Vec<i64> = Vec::new();
        let mut row: u32 = 0;
        while row < height
            invariant
                self.wf(),
                n == self.inter_points@.len() < i64::MAX,
                input.wf(),
                source.wf(),
                total_arithmetic::<T>(),
                w == width == input.spec_width() == source.spec_width(),
                height == input.spec_height() == source.spec_height(),
                row <= height,
                levels@.len() == row * w,
                forall|k: int| 0 <= k < levels@.len() ==> -1 <= #[trigger] levels@[k] <= n - 1,
                self.weights@.len() == 0 ==> forall|r: int, c: int|
                    input.in_range(r, c) ==> #[trigger] source.cell(r, c) == input.cell(r, c),
                self.weights@.len() == 0 && T::obeys_partial_cmp_spec() ==> forall|r: int, c: int|
                    0 <= r < row && 0 <= c < w ==> #[trigger] levels@[flat_index(r, c, w)]
                        == passed_from(input.cell(r, c), self.inter_points@, 0) - 1,
                exact_operations::<T>() ==> (source@, levels@) == interpolating_run(
                    self.inter_points@,
                    self.mid_points@,
                    self.weights@,
                    input@,
                    height as int,
                    w,
                    row * w,
                ),
            decreases height - row,
        {
            let mut col: u32 = 0;
            while col < width
                invariant
                    self.wf(),
                    n == self.inter_points@.len() < i64::MAX,
                    input.wf(),
                    source.wf(),
                    total_arithmetic::<T>(),
                    w == width == input.spec_width() == source.spec_width(),
                    height == input.spec_height() == source.spec_height(),
                    row < height,
                    col <= width,
                    levels@.len() == row * w + col,
                    forall|k: int| 0 <= k < levels@.len() ==> -1 <= #[trigger] levels@[k] <= n - 1,
                    self.weights@.len() == 0 ==> forall|r: int, c: int|
                        input.in_range(r, c) ==> #[trigger] source.cell(r, c) == input.cell(r, c),
                    self.weights@.len() == 0 && T::obeys_partial_cmp_spec() ==> forall|r: int, c: int|
                        0 <= r <= row && 0 <= c < w && (r < row || c < col) ==> #[trigger] levels@[flat_index(
                            r,
                            c,
                            w,
                        )] == passed_from(input.cell(r, c), self.inter_points@, 0) - 1,
                    exact_operations::<T>() ==> (source@, levels@) == interpolating_run(
                        self.inter_points@,
                        self.mid_points@,
                        self.weights@,
                        input@,
                        height as int,
                        w,
                        row * w + col,
                    ),
                decreases width - col,
            {
                let value = source.get(row, col).unwrap();
                let passed = self.bucket(value);
                let quantized = self.mid_points[passed];
                let ghost before = levels@;
                levels.push(passed as i64 - 1);
                proof {
                    if self.weights@.len() == 0 && T::obeys_partial_cmp_spec() {
                        assert forall|r: int, c: int|
                            0 <= r <= row && 0 <= c < w && (r < row || c <= col) implies #[trigger] levels@[flat_index(
                                r,
                                c,
                                w,
                            )] == passed_from(input.cell(r, c), self.inter_points@, 0) - 1 by {
                            if r < row || c < col {
                                if r < row {
                                    assert(r * w + c < row * w) by (nonlinear_arith)
                                        requires
                                            0 <= r < row,
                                            0 <= c < w,
                                    ;
                                }
                                assert(levels@[flat_index(r, c, w)] == before[flat_index(r, c, w)]);
                            }
                        }
                    }
                }
                proof {
                    lemma_raster_cell(row as int, col as int, w);
                    lemma_flat_index_in_range(row as int, col as int, w, height as int);
                }
                diffuse(&mut source, &self.weights, row, col, value - quantized);
                col = col + 1;
            }
            proof {
                assert((row + 1) * w == row * w + w) by (nonlinear_arith);
            }
            row = row + 1;
        }
        proof {
            assert(height * w == w * height) by (nonlinear_arith);
            assert forall|i: int, j: int| 0 <= i < height && 0 <= j < w implies -1 <= #[trigger] levels@[flat_index(
                i,
                j,
                w,
            )] <= n - 1 by {
                lemma_flat_index_in_range(i, j, w, height as int);
            }
        }
        Matrix::from(levels, width, height)
    }
}

/// An on/off ditherer built from a weight grid (`from`) and one built from
/// the grid's offsets (`new` on `grid_offsets`) hold the same threshold and
/// offsets, so they dither every buffer alike: where the operations of `T`
/// are exact, both give the levels of the same run.
pub proof fn lemma_on_off_grid_matches_offsets<T>(
    from_grid: OnOffKernelDitherer<T>,
    from_offsets: OnOffKernelDitherer<T>,
    origin: (i32, i32),
    grid: Matrix<T>,
    input: Matrix<T>,
) where T: Copy + PartialOrd + Add<Output = T> + Sub<Output = T> + Mul<Output = T> + From<u8>,

    requires
        from_grid.spec_threshold() == from_offsets.spec_threshold(),
        from_grid.spec_weights() == spec_grid_offsets(origin, grid),
        from_offsets.spec_weights() == spec_grid_offsets(origin, grid),
    ensures
        on_off_run(
            from_grid.spec_threshold(),
            from_grid.spec_weights(),
            input@,
            input.spec_height() as int,
            input.spec_width() as int,
            input@.len() as int,
        ) == on_off_run(
            from_offsets.spec_threshold(),
            from_offsets.spec_weights(),
            input@,
            input.spec_height() as int,
            input.spec_width() as int,
            input@.len() as int,
        ),
{
}

/// An interpolating ditherer built from a weight grid (`from`) and one built
/// from the grid's offsets (`new` on `grid_offsets`) with the same
/// breakpoints dither every buffer alike: where the operations of `T` are
/// exact, both give the levels of the same run.
pub proof fn lemma_interpolating_grid_matches_offsets<T>(
    from_grid: InterpolatingKernelDitherer<T>,
    from_offsets: InterpolatingKernelDitherer<T>,
    origin: (i32, i32),
    grid: Matrix<T>,
    input: Matrix<T>,
) where
    T: Copy + PartialOrd + Add<Output = T> + Sub<Output = T> + Mul<Output = T> + Div<Output = T> + From<
        u8,
    >,

    requires
        from_grid.spec_points() == from_offsets.spec_points(),
        from_grid.spec_midpoints() == spec_midpoints_of(from_grid.spec_points()),
        from_offsets.spec_midpoints() == spec_midpoints_of(from_offsets.spec_points()),
        from_grid.spec_weights() == spec_grid_offsets(origin, grid),
        from_offsets.spec_weights() == spec_grid_offsets(origin, grid),
    ensures
        interpolating_run(
            from_grid.spec_points(),
            from_grid.spec_midpoints(),
            from_grid.spec_weights(),
            input@,
            input.spec_height() as int,
            input.spec_width() as int,
            input@.len() as int,
        ) == interpolating_run(
            from_offsets.spec_points(),
            from_offsets.spec_midpoints(),
            from_offsets.spec_weights(),
            input@,
            input.spec_height() as int,
            input.spec_width() as int,
            input@.len() as int,
        ),
{
}

/// Why a list of breakpoints was refused, with the index of the first
/// breakpoint at fault.
#[derive(Clone, Copy, Debug, PartialEq, Eq, Structural)]
pub enum PointsError {
    /// The breakpoint does not lie strictly above the one before it.
    NotIncreasing(usize),
    /// The breakpoint lies outside 0 .. 1.
    OutOfUnitRange(usize),
}

/// `a` compares `Less` to `b`.
pub open spec fn spec_below<T: PartialOrd>(a: T, b: T) -> bool {
    a.partial_cmp_spec(&b) == Some(Ordering::Less)
}

/// Comparison of `T` and its conversion from `u8` are functions of their
/// operands, given by their spec counterparts.
pub open spec fn exact_comparison<T: PartialOrd + From<u8>>() -> bool {
    T::obeys_partial_cmp_spec() && <T as FromSpec<u8>>::obeys_from_spec()
}

/// Breakpoint `i` of `points` is at fault: not strictly above the one
/// before it, or outside 0 .. 1.
pub open spec fn point_at_fault<T: PartialOrd + From<u8>>(points: Seq<T>, i: int) -> bool {
    ||| (i > 0 && !spec_below(points[i - 1], points[i]))
    ||| spec_below(points[i], <T as FromSpec<u8>>::from_spec(0u8))
    ||| spec_below(<T as FromSpec<u8>>::from_spec(1u8), points[i])
}

/// The verdict on `points` from breakpoint `i` on: the first breakpoint at
/// fault, as out of order where it is not strictly above its predecessor,
/// else as out of range; `Ok` where none is.
pub open spec fn points_verdict<T: PartialOrd + From<u8>>(points: Seq<T>, i: int) -> Result<
    (),
    PointsError,
>
    decreases points.len() - i,
{
    if i < 0 || i >= points.len() {
        Ok(())
    } else if i > 0 && !spec_below(points[i - 1], points[i]) {
        Err(PointsError::NotIncreasing(i as usize))
    } else if point_at_fault(points, i) {
        Err(PointsError::OutOfUnitRange(i as usize))
    } else {
        points_verdict(points, i + 1)
    }
}

proof fn lemma_verdict_ok<T: PartialOrd + From<u8>>(points: Seq<T>, i: int)
    requires
        0 <= i <= points.len(),
    ensures
        points_verdict(points, i) is Ok <==> forall|k: int|
            i <= k < points.len() ==> !#[trigger] point_at_fault(points, k),
    decreases points.len() - i,
{
    if i < points.len() {
        lemma_verdict_ok(points, i + 1);
        if !point_at_fault(points, i) {
            assert forall|k: int| i <= k < points.len() && (forall|m: int|
                i + 1 <= m < points.len() ==> !#[trigger] point_at_fault(points, m)) implies !#[trigger] point_at_fault(
                points,
                k,
            ) by {
                if k > i {
                    assert(!point_at_fault(points, k));
                }
            }
        }
    }
}

/// Checks a list of breakpoints before any dithering: each must lie in
/// 0 .. 1, strictly above the one before it. The first breakpoint at fault
/// is reported (see `points_verdict`).
pub fn check_points<T: Copy + PartialOrd + From<u8>>(points: &Vec<T>) -> (r: Result<(), PointsError>)
    ensures
        exact_comparison::<T>() ==> r == points_verdict(points@, 0),
        exact_comparison::<T>() ==> (r is Ok <==> forall|i: int|
            0 <= i < points@.len() ==> !#[trigger] point_at_fault(points@, i)),
{
    proof {
        lemma_verdict_ok(points@, 0);
    }
    let zero = T::from(0u8);
    let one = T::from(1u8);
    let mut i: usize = 0;
    while i < points.len()
        invariant
            i <= points@.len(),
            exact_comparison::<T>() ==> zero == <T as FromSpec<u8>>::from_spec(0u8) && one
                == <T as FromSpec<u8>>::from_spec(1u8) && points_verdict(points@, 0)
                == points_verdict(points@, i as int),
        decreases points@.len() - i,
    {
        if i > 0 && !(points[i - 1] < points[i]) {
            proof {
                if exact_comparison::<T>() {
                    assert(point_at_fault(points@, i as int));
                }
            }
            return Err(PointsError::NotIncreasing(i));
        }
        if points[i] < zero || one < points[i] {
            proof {
                if exact_comparison::<T>() {
                    assert(point_at_fault(points@, i as int));
                }
            }
            return Err(PointsError::OutOfUnitRange(i));
        }
        i = i + 1;
    }
    Ok(())
}

/// Offset `(dx, dy)` points at the cell itself, left of it in its row, or
/// at an earlier row: at a cell with a negative coordinate or one already
/// visited in raster order.
pub open spec fn points_backward<T>(offset: (i32, i32, T)) -> bool {
    offset.1 < 0 || (offset.1 == 0 && offset.0 <= 0)
}

proof fn lemma_diffused_keeps_later<T>(
    source: Seq<T>,
    weights: Seq<(i32, i32, T)>,
    m: int,
    row: int,
    col: int,
    height: int,
    width: int,
    error: T,
) where T: PartialOrd + Add<Output = T> + Sub<Output = T> + Mul<Output = T> + From<u8>,

    requires
        0 <= row < height <= u32::MAX,
        0 <= col < width <= u32::MAX,
        source.len() == height * width,
        forall|n: int| 0 <= n < weights.len() ==> #[trigger] points_backward(weights[n]),
        m <= weights.len(),
    ensures
        diffused(source, weights, m, row, col, height, width, error).len() == source.len(),
        forall|idx: int|
            flat_index(row, col, width) < idx < source.len() ==> #[trigger] diffused(
                source,
                weights,
                m,
                row,
                col,
                height,
                width,
                error,
            )[idx] == source[idx],
    decreases m,
{
    if m > 0 {
        lemma_diffused_keeps_later(source, weights, m - 1, row, col, height, width, error);
        let (dx, dy, factor) = weights[m - 1];
        assert(points_backward(weights[m - 1]));
        match spec_target(row, col, dx as int, dy as int, height, width) {
            Some(t) => {
                let tr = t.0 as int;
                let tc = t.1 as int;
                assert(tr == row + dy && tc == col + dx);
                if dy < 0 {
                    assert(tr * width + tc < row * width) by (nonlinear_arith)
                        requires
                            0 <= tr < row,
                            0 <= tc < width,
                    ;
                }
                lemma_flat_index_in_range(tr, tc, width, height);
                assert(height * width == width * height) by (nonlinear_arith);
                let prev = diffused(source, weights, m - 1, row, col, height, width, error);
                let k = flat_index(tr, tc, width);
                if !factor.eq_spec(&<T as FromSpec<u8>>::from_spec(0u8)) {
                    assert(diffused(source, weights, m, row, col, height, width, error) == prev.update(
                        k,
                        prev[k].add_spec(error.mul_spec(factor)),
                    ));
                }
            },
            None => {},
        }
    }
}

/// The run after `k` cells, where every offset points backward: the
/// samples of the cells not yet visited are still the input's, and each
/// visited cell got the level of its own input sample.
proof fn lemma_backward_run<T>(
    threshold: T,
    weights: Seq<(i32, i32, T)>,
    input: Seq<T>,
    height: int,
    width: int,
    k: int,
) where T: PartialOrd + Add<Output = T> + Sub<Output = T> + Mul<Output = T> + From<u8>,

    requires
        0 <= k <= input.len(),
        0 <= height <= u32::MAX,
        0 <= width <= u32::MAX,
        input.len() == height * width,
        forall|n: int| 0 <= n < weights.len() ==> #[trigger] points_backward(weights[n]),
    ensures
        on_off_run(threshold, weights, input, height, width, k).0.len() == input.len(),
        on_off_run(threshold, weights, input, height, width, k).1.len() == k,
        forall|idx: int|
            k <= idx < input.len() ==> #[trigger] on_off_run(
                threshold,
                weights,
                input,
                height,
                width,
                k,
            ).0[idx] == input[idx],
        forall|j: int|
            0 <= j < k ==> #[trigger] on_off_run(threshold, weights, input, height, width, k).1[j]
                == on_off_level(input[j], threshold),
    decreases k,
{
    if k > 0 {
        lemma_backward_run(threshold, weights, input, height, width, k - 1);
        let (source, levels) = on_off_run(threshold, weights, input, height, width, k - 1);
        assert(width > 0) by (nonlinear_arith)
            requires
                0 < k <= height * width,
                height >= 0,
                width >= 0,
        ;
        lemma_fundamental_div_mod(k - 1, width);
        lemma_mod_pos_bound(k - 1, width);
        let row = (k - 1) / width;
        let col = (k - 1) % width;
        assert(0 <= row < height) by (nonlinear_arith)
            requires
                k - 1 == width * row + col,
                0 <= col < width,
                0 <= k - 1 < height * width,
        ;
        assert(width * row == row * width) by (nonlinear_arith);
        let value = source[k - 1];
        let on = value.partial_cmp_spec(&threshold) == Some(Ordering::Greater);
        let quantized = if on {
            <T as FromSpec<u8>>::from_spec(1u8)
        } else {
            <T as FromSpec<u8>>::from_spec(0u8)
        };
        lemma_diffused_keeps_later(
            source,
            weights,
            weights.len() as int,
            row,
            col,
            height,
            width,
            value.sub_spec(quantized),
        );
    }
}

/// Error aimed at a cell with a negative coordinate, or at a cell already
/// visited, is dropped and never lands on a later cell: where every offset
/// points backward, on/off dithering gives each cell the level of its own
/// input sample, as plain thresholding does.
pub proof fn lemma_backward_offsets_threshold<T>(threshold: T, weights: Seq<(i32, i32, T)>, input: Matrix<T>) where
    T: Copy + PartialOrd + Add<Output = T> + Sub<Output = T> + Mul<Output = T> + From<u8>,

    requires
        input.wf(),
        forall|n: int| 0 <= n < weights.len() ==> #[trigger] points_backward(weights[n]),
    ensures
        forall|i: int, j: int|
            input.in_range(i, j) ==> #[trigger] on_off_run(
                threshold,
                weights,
                input@,
                input.spec_height() as int,
                input.spec_width() as int,
                input@.len() as int,
            ).1[flat_index(i, j, input.spec_width() as int)] == on_off_level(input.cell(i, j), threshold),
{
    let h = input.spec_height() as int;
    let w = input.spec_width() as int;
    assert(input@.len() == h * w);
    lemma_backward_run(threshold, weights, input@, h, w, input@.len() as int);
    assert forall|i: int, j: int| input.in_range(i, j) implies #[trigger] on_off_run(
        threshold,
        weights,
        input@,
        h,
        w,
        input@.len() as int,
    ).1[flat_index(i, j, w)] == on_off_level(input.cell(i, j), threshold) by {
        lemma_flat_index_in_range(i, j, w, h);
    }
}

} // verus!
