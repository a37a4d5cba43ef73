use vstd::prelude::*;
use vstd::arithmetic::div_mod::{lemma_fundamental_div_mod, lemma_mod_pos_bound};
use crate::matrix::{flat_index, Matrix};

verus! {

/// Size of block `i` when `total` units are cut into `parts` blocks: the
/// first `total % parts` blocks take one unit more than the others.
pub open spec fn block_size(total: int, parts: int, i: int) -> int {
    if i < total % parts {
        total / parts + 1
    } else {
        total / parts
    }
}

/// Offset of the first unit of block `i`.
pub open spec fn block_start(total: int, parts: int, i: int) -> int {
    let q = total / parts;
    let r = total % parts;
    if i < r {
        i * (q + 1)
    } else {
        r * (q + 1) + (i - r) * q
    }
}

/// Unit `x` lies in block `i`.
pub open spec fn in_block(total: int, parts: int, i: int, x: int) -> bool {
    block_start(total, parts, i) <= x < block_start(total, parts, i) + block_size(total, parts, i)
}

/// Unit `x` lies in one of the first `n` blocks.
pub open spec fn in_some_block(total: int, parts: int, n: int, x: int) -> bool {
    exists|j: int| 0 <= j < n && #[trigger] in_block(total, parts, j, x)
}

proof fn lemma_div_mod_facts(total: int, parts: int)
    requires
        total >= 0,
        parts > 0,
    ensures
        total == parts * (total / parts) + total % parts,
        0 <= total % parts < parts,
        total / parts >= 0,
        block_start(total, parts, 0) == 0,
{
    lemma_fundamental_div_mod(total, parts);
    lemma_mod_pos_bound(total, parts);
    assert(total / parts >= 0) by (nonlinear_arith)
        requires
            total >= 0,
            parts > 0,
            total == parts * (total / parts) + total % parts,
            0 <= total % parts < parts,
    ;
    let q = total / parts;
    assert(0 * (q + 1) == 0);
    assert((0 - 0) * q == 0);
}

/// Each block starts where the one before it ends.
pub proof fn lemma_block_step(total: int, parts: int, i: int)
    requires
        total >= 0,
        parts > 0,
        0 <= i,
    ensures
        block_start(total, parts, i + 1) == block_start(total, parts, i) + block_size(
            total,
            parts,
            i,
        ),
{
    lemma_div_mod_facts(total, parts);
    let q = total / parts;
    let r = total % parts;
    if i + 1 < r {
        assert((i + 1) * (q + 1) == i * (q + 1) + (q + 1)) by (nonlinear_arith);
        assert(block_start(total, parts, i) == i * (q + 1));
        assert(block_start(total, parts, i + 1) == (i + 1) * (q + 1));
    } else if i + 1 == r {
        assert(r * (q + 1) == (r - 1) * (q + 1) + (q + 1)) by (nonlinear_arith);
        assert((r - r) * q == 0) by (nonlinear_arith);
        assert(block_start(total, parts, i) == i * (q + 1));
        assert(block_start(total, parts, i + 1) == r * (q + 1));
    } else {
        assert((i + 1 - r) * q == (i - r) * q + q) by (nonlinear_arith);
        assert(block_start(total, parts, i) == r * (q + 1) + (i - r) * q);
        assert(block_start(total, parts, i + 1) == r * (q + 1) + (i + 1 - r) * q);
    }
}

proof fn lemma_block_start_monotone(total: int, parts: int, i: int, k: int)
    requires
        total >= 0,
        parts > 0,
        0 <= i <= k,
    ensures
        block_start(total, parts, i) <= block_start(total, parts, k),
    decreases k - i,
{
    if i < k {
        lemma_block_start_monotone(total, parts, i, k - 1);
        lemma_block_step(total, parts, k - 1);
        lemma_div_mod_facts(total, parts);
    }
}

/// The last block ends exactly at `total`.
pub proof fn lemma_block_end(total: int, parts: int)
    requires
        total >= 0,
        parts > 0,
    ensures
        block_start(total, parts, parts) == total,
{
    lemma_div_mod_facts(total, parts);
    let q = total / parts;
    let r = total % parts;
    assert(r * (q + 1) + (parts - r) * q == parts * q + r) by (nonlinear_arith);
}

proof fn lemma_cover_prefix(total: int, parts: int, n: int)
    requires
        total >= 0,
        parts > 0,
        0 <= n <= parts,
    ensures
        forall|x: int|
            0 <= x < block_start(total, parts, n) ==> #[trigger] in_some_block(total, parts, n, x),
    decreases n,
{
    lemma_div_mod_facts(total, parts);
    if n > 0 {
        lemma_cover_prefix(total, parts, n - 1);
        lemma_block_step(total, parts, n - 1);
        assert forall|x: int| 0 <= x < block_start(total, parts, n) implies #[trigger] in_some_block(
            total,
            parts,
            n,
            x,
        ) by {
            if x >= block_start(total, parts, n - 1) {
                assert(in_block(total, parts, n - 1, x));
            } else {
                assert(in_some_block(total, parts, n - 1, x));
            }
        }
    }
}

/// Cutting `total` units into `parts` blocks partitions them: blocks are
/// contiguous from 0 to `total`, every unit lies in exactly one block, and
/// any two block sizes differ by at most one.
pub proof fn lemma_blocks_partition(total: int, parts: int)
    requires
        total >= 0,
        parts > 0,
    ensures
        block_start(total, parts, 0) == 0,
        block_start(total, parts, parts) == total,
        forall|i: int|
            0 <= i < parts ==> #[trigger] block_start(total, parts, i + 1) == block_start(
                total,
                parts,
                i,
            ) + block_size(total, parts, i),
        forall|x: int| 0 <= x < total ==> #[trigger] in_some_block(total, parts, parts, x),
        forall|i: int, k: int, x: int|
            0 <= i < parts && 0 <= k < parts && #[trigger] in_block(total, parts, i, x)
                && #[trigger] in_block(total, parts, k, x) ==> i == k,
        forall|i: int, k: int|
            0 <= i < parts && 0 <= k < parts ==> -1 <= #[trigger] block_size(total, parts, i)
                - #[trigger] block_size(total, parts, k) <= 1,
{
    lemma_div_mod_facts(total, parts);
    lemma_block_end(total, parts);
    lemma_cover_prefix(total, parts, parts);
    assert forall|i: int| 0 <= i < parts implies #[trigger] block_start(total, parts, i + 1)
        == block_start(total, parts, i) + block_size(total, parts, i) by {
        lemma_block_step(total, parts, i);
    }
    assert forall|i: int, k: int, x: int|
        0 <= i < parts && 0 <= k < parts && #[trigger] in_block(total, parts, i, x)
            && #[trigger] in_block(total, parts, k, x) implies i == k by {
        if i < k {
            lemma_block_step(total, parts, i);
            lemma_block_start_monotone(total, parts, i + 1, k);
        } else if k < i {
            lemma_block_step(total, parts, k);
            lemma_block_start_monotone(total, parts, k + 1, i);
        }
    }
}

/// Each block ends within the source.
pub proof fn lemma_block_within(total: int, parts: int, i: int)
    requires
        total >= 0,
        parts > 0,
        0 <= i < parts,
    ensures
        0 <= block_start(total, parts, i),
        0 <= block_size(total, parts, i),
        block_start(total, parts, i) + block_size(total, parts, i) <= total,
{
    lemma_div_mod_facts(total, parts);
    lemma_block_step(total, parts, i);
    lemma_block_start_monotone(total, parts, 0, i);
    lemma_block_start_monotone(total, parts, i + 1, parts);
    lemma_block_end(total, parts);
}

/// Sum of the samples of row `y` in columns `x1 .. x2` of a row-major
/// buffer `width` wide.
pub open spec fn row_sum(cells: Seq<u8>, width: int, y: int, x1: int, x2: int) -> int
    decreases x2 - x1,
{
    if x2 <= x1 {
        0
    } else {
        row_sum(cells, width, y, x1, x2 - 1) + cells[flat_index(y, x2 - 1, width)] as int
    }
}

/// Sum of the samples in columns `x1 .. x2` and rows `y1 .. y2`.
pub open spec fn rect_sum(cells: Seq<u8>, width: int, x1: int, x2: int, y1: int, y2: int) -> int
    decreases y2 - y1,
{
    if y2 <= y1 {
        0
    } else {
        rect_sum(cells, width, x1, x2, y1, y2 - 1) + row_sum(cells, width, y2 - 1, x1, x2)
    }
}

proof fn lemma_row_sum_bound(cells: Seq<u8>, width: int, y: int, x1: int, x2: int)
    requires
        x1 <= x2,
    ensures
        0 <= row_sum(cells, width, y, x1, x2) <= 255 * (x2 - x1),
    decreases x2 - x1,
{
    if x2 > x1 {
        lemma_row_sum_bound(cells, width, y, x1, x2 - 1);
    }
}

/// Sum of the samples of `image` in columns `x1 .. x2` and rows `y1 .. y2`.
pub fn block_total(image: &Matrix<u8>, x1: u32, x2: u32, y1: u32, y2: u32) -> (r: u64)
    requires
        image.wf(),
        x1 <= x2 <= image.spec_width(),
        y1 <= y2 <= image.spec_height(),
        255 * ((x2 - x1) as int) * ((y2 - y1) as int) <= u64::MAX,
    ensures
        r == rect_sum(image@, image.spec_width() as int, x1 as int, x2 as int, y1 as int, y2 as int),
{
    let ghost width = image.spec_width() as int;
    let ghost span = (x2 - x1) as int;
    let mut total: u64 = 0;
    let mut y: u32 = y1;
    while y < y2
        invariant
            image.wf(),
            width == image.spec_width(),
            span == x2 - x1,
            x1 <= x2 <= image.spec_width(),
            y1 <= y <= y2 <= image.spec_height(),
            255 * span * ((y2 - y1) as int) <= u64::MAX,
            total == rect_sum(image@, width, x1 as int, x2 as int, y1 as int, y as int),
            total <= 255 * span * ((y - y1) as int),
        decreases y2 - y,
    {
        let mut x: u32 = x1;
        let ghost before = total as int;
        while x < x2
            invariant
                image.wf(),
                width == image.spec_width(),
                span == x2 - x1,
                x1 <= x <= x2 <= image.spec_width(),
                y1 <= y < y2 <= image.spec_height(),
                255 * span * ((y2 - y1) as int) <= u64::MAX,
                before == rect_sum(image@, width, x1 as int, x2 as int, y1 as int, y as int),
                before <= 255 * span * ((y - y1) as int),
                total == before + row_sum(image@, width, y as int, x1 as int, x as int),
            decreases x2 - x,
        {
            let sample: u8 = image.get(y, x).unwrap();
            proof {
                lemma_row_sum_bound(image@, width, y as int, x1 as int, x as int);
                assert(255 * span * ((y - y1) as int) + 255 * span <= 255 * span * ((y2 - y1) as int))
                    by (nonlinear_arith)
                    requires
                        y < y2,
                        span >= 0,
                ;
            }
            total = total + sample as u64;
            x = x + 1;
        }
        proof {
            lemma_row_sum_bound(image@, width, y as int, x1 as int, x2 as int);
            assert(255 * span * ((y - y1) as int) + 255 * span == 255 * span * ((y + 1 - y1) as int))
                by (nonlinear_arith);
        }
        y = y + 1;
    }
    total
}

/// How a `in_width` x `in_height` source is cut into `out_width` x
/// `out_height` blocks.
pub struct SegmentInfo {
    in_width: Ghost<nat>,
    in_height: Ghost<nat>,
    out_width: u32,
    out_height: u32,
    w_quotient: u32,
    w_remainder: u32,
    h_quotient: u32,
    h_remainder: u32,
}

impl SegmentInfo {
    pub closed spec fn spec_in_width(&self) -> nat {
        self.in_width@
    }

    pub closed spec fn spec_in_height(&self) -> nat {
        self.in_height@
    }

    pub closed spec fn spec_out_width(&self) -> nat {
        self.out_width as nat
    }

    pub closed spec fn spec_out_height(&self) -> nat {
        self.out_height as nat
    }

    pub closed spec fn wf(&self) -> bool {
        &&& self.out_width > 0
        &&& self.out_height > 0
        &&& self.in_width@ <= u32::MAX
        &&& self.in_height@ <= u32::MAX
        &&& self.w_quotient == self.in_width@ / (self.out_width as nat)
        &&& self.w_remainder == self.in_width@ % (self.out_width as nat)
        &&& self.h_quotient == self.in_height@ / (self.out_height as nat)
        &&& self.h_remainder == self.in_height@ % (self.out_height as nat)
    }

    /// Width of the blocks in column `j`.
    pub open spec fn spec_block_width(&self, j: int) -> int {
        block_size(self.spec_in_width() as int, self.spec_out_width() as int, j)
    }

    /// Height of the blocks in row `i`.
    pub open spec fn spec_block_height(&self, i: int) -> int {
        block_size(self.spec_in_height() as int, self.spec_out_height() as int, i)
    }

    /// Source column where the blocks of column `j` start.
    pub open spec fn spec_block_x(&self, j: int) -> int {
        block_start(self.spec_in_width() as int, self.spec_out_width() as int, j)
    }

    /// Source row where the blocks of row `i` start.
    pub open spec fn spec_block_y(&self, i: int) -> int {
        block_start(self.spec_in_height() as int, self.spec_out_height() as int, i)
    }

    /// The cut of a `in_width` x `in_height` source into `out_width` x
    /// `out_height` blocks.
    pub fn generate(in_width: u32, in_height: u32, out_width: u32, out_height: u32) -> (r:
        SegmentInfo)
        requires
            out_width > 0,
            out_height > 0,
        ensures
            r.wf(),
            r.spec_in_width() == in_width,
            r.spec_in_height() == in_height,
            r.spec_out_width() == out_width,
            r.spec_out_height() == out_height,
    {
        let w_quotient = in_width / out_width;
        let w_remainder = in_width % out_width;
        let h_quotient = in_height / out_height;
        let h_remainder = in_height % out_height;
        SegmentInfo {
            in_width: Ghost(in_width as nat),
            in_height: Ghost(in_height as nat),
            out_width,
            out_height,
            w_quotient,
            w_remainder,
            h_quotient,
            h_remainder,
        }
    }

    /// `(width, height)` of block `(i, j)` (row, column).
    pub fn get_block_dims(&self, i: u32, j: u32) -> (r: (u32, u32))
        requires
            self.wf(),
        ensures
            r.0 == self.spec_block_width(j as int),
            r.1 == self.spec_block_height(i as int),
    {
        proof {
            lemma_div_mod_facts(self.in_width@ as int, self.out_width as int);
            lemma_div_mod_facts(self.in_height@ as int, self.out_height as int);
            lemma_quotient_has_room(self.in_width@ as int, self.out_width as int);
            lemma_quotient_has_room(self.in_height@ as int, self.out_height as int);
        }
        let mut w = self.w_quotient;
        let mut h = self.h_quotient;
        if i < self.h_remainder {
            h += 1;
        }
        if j < self.w_remainder {
            w += 1;
        }
        (w, h)
    }

    /// `(x, y)`: the source column and row where block `(i, j)` (row,
    /// column) starts.
    pub fn get_block_start_index(&self, i: u32, j: u32) -> (r: (u32, u32))
        requires
            self.wf(),
            i < self.spec_out_height(),
            j < self.spec_out_width(),
        ensures
            r.0 == self.spec_block_x(j as int),
            r.1 == self.spec_block_y(i as int),
    {
        (self.get_j_index(j), self.get_i_index(i))
    }

    /// Source row where block row `i` starts; `i == out_height` gives the
    /// source height.
    fn get_i_index(&self, i: u32) -> (r: u32)
        requires
            self.wf(),
            i <= self.spec_out_height(),
        ensures
            r == self.spec_block_y(i as int),
    {
        proof {
            let total = self.in_height@ as int;
            let parts = self.out_height as int;
            lemma_start_fits(total, parts, i as int);
            lemma_quotient_has_room(total, parts);
            assert(self.h_quotient as int == total / parts);
            assert(self.h_remainder as int == total % parts);
        }
        if i < self.h_remainder {
            i * (self.h_quotient + 1)
        } else {
            // equal to remainder * (quotient + 1) + (i - remainder) * quotient
            i * self.h_quotient + self.h_remainder
        }
    }

    /// Source column where block column `j` starts; `j == out_width` gives
    /// the source width.
    fn get_j_index(&self, j: u32) -> (r: u32)
        requires
            self.wf(),
            j <= self.spec_out_width(),
        ensures
            r == self.spec_block_x(j as int),
    {
        proof {
            let total = self.in_width@ as int;
            let parts = self.out_width as int;
            lemma_start_fits(total, parts, j as int);
            lemma_quotient_has_room(total, parts);
            assert(self.w_quotient as int == total / parts);
            assert(self.w_remainder as int == total % parts);
        }
        if j < self.w_remainder {
            j * (self.w_quotient + 1)
        } else {
            // equal to remainder * (quotient + 1) + (j - remainder) * quotient
            j * self.w_quotient + self.w_remainder
        }
    }

    pub fn get_width(&self) -> (r: u32)
        ensures
            r == self.spec_out_width(),
    {
        self.out_width
    }

    pub fn get_height(&self) -> (r: u32)
        ensures
            r == self.spec_out_height(),
    {
        self.out_height
    }
}

impl SegmentInfo {
    /// The sum of the samples of block `(i, j)` and their number.
    pub open spec fn spec_block_value(&self, image: Seq<u8>, i: int, j: int) -> (int, int) {
        let x = self.spec_block_x(j);
        let y = self.spec_block_y(i);
        let w = self.spec_block_width(j);
        let h = self.spec_block_height(i);
        (rect_sum(image, self.spec_in_width() as int, x, x + w, y, y + h), w * h)
    }
}

/// For every block of `info`, in a matrix of the block grid's shape, the sum
/// of its samples in `image` and how many samples it holds; their quotient,
/// over 255, is the block's mean brightness.
pub fn block_totals(image: &Matrix<u8>, info: &SegmentInfo) -> (r: Matrix<(u64, u64)>)
    requires
        image.wf(),
        info.wf(),
        image.spec_width() == info.spec_in_width(),
        image.spec_height() == info.spec_in_height(),
        255 * (image.spec_width() as int) * (image.spec_height() as int) <= u64::MAX,
    ensures
        r.wf(),
        r.spec_width() == info.spec_out_width(),
        r.spec_height() == info.spec_out_height(),
        forall|i: int, j: int|
            r.in_range(i, j) ==> (#[trigger] r.cell(i, j)).0 == info.spec_block_value(image@, i, j).0
                && r.cell(i, j).1 == info.spec_block_value(image@, i, j).1,
{
    let out_width = info.get_width();
    let out_height = info.get_height();
    let ghost in_w = image.spec_width() as int;
    let ghost in_h = image.spec_height() as int;
    let mut cells: Vec<(u64, u64)> = Vec::new();
    let mut i: u32 = 0;
    while i < out_height
        invariant
            image.wf(),
            info.wf(),
            in_w == image.spec_width() == info.spec_in_width(),
            in_h == image.spec_height() == info.spec_in_height(),
            255 * in_w * in_h <= u64::MAX,
            out_width == info.spec_out_width(),
            out_height == info.spec_out_height(),
            i <= out_height,
            cells@.len() == i * out_width,
            forall|ii: int, jj: int|
                0 <= ii < i && 0 <= jj < out_width ==> (#[trigger] cells@[flat_index(
                    ii,
                    jj,
                    out_width as int,
                )]).0 == info.spec_block_value(image@, ii, jj).0 && cells@[flat_index(
                    ii,
                    jj,
                    out_width as int,
                )].1 == info.spec_block_value(image@, ii, jj).1,
        decreases out_height - i,
    {
        let mut j: u32 = 0;
        while j < out_width
            invariant
                image.wf(),
                info.wf(),
                in_w == image.spec_width() == info.spec_in_width(),
                in_h == image.spec_height() == info.spec_in_height(),
                255 * in_w * in_h <= u64::MAX,
                out_width == info.spec_out_width(),
                out_height == info.spec_out_height(),
                i < out_height,
                j <= out_width,
                cells@.len() == i * out_width + j,
                forall|ii: int, jj: int|
                    0 <= ii <= i && 0 <= jj < out_width && (ii < i || jj < j) ==> (
                    #[trigger] cells@[flat_index(ii, jj, out_width as int)]).0
                        == info.spec_block_value(image@, ii, jj).0 && cells@[flat_index(
                        ii,
                        jj,
                        out_width as int,
                    )].1 == info.spec_block_value(image@, ii, jj).1,
            decreases out_width - j,
        {
            let (block_width, block_height) = info.get_block_dims(i, j);
            let (x_index, y_index) = info.get_block_start_index(i, j);
            proof {
                lemma_block_within(in_w, out_width as int, j as int);
                lemma_block_within(in_h, out_height as int, i as int);
                assert(255 * (block_width as int) * (block_height as int) <= 255 * in_w * in_h)
                    by (nonlinear_arith)
                    requires
                        0 <= block_width <= in_w,
                        0 <= block_height <= in_h,
                ;
                assert((block_width as int) * (block_height as int) <= 255 * (block_width as int)
                    * (block_height as int)) by (nonlinear_arith)
                    requires
                        0 <= block_width,
                        0 <= block_height,
                ;
            }
            let total = block_total(
                image,
                x_index,
                x_index + block_width,
                y_index,
                y_index + block_height,
            );
            let count = (block_width as u64) * (block_height as u64);
            proof {
                let n = out_width as int;
                assert forall|ii: int, jj: int|
                    0 <= ii <= i && 0 <= jj < out_width && (ii < i || jj < j) implies flat_index(
                    ii,
                    jj,
                    n,
                ) < cells@.len() by {
                    if ii < i {
                        assert(ii * n + jj < i * n) by (nonlinear_arith)
                            requires
                                0 <= ii < i,
                                0 <= jj < n,
                        ;
                    }
                }
            }
            cells.push((total, count));
            j = j + 1;
        }
        proof {
            assert((i + 1) * out_width == i * out_width + out_width) by (nonlinear_arith);
        }
        i = i + 1;
    }
    proof {
        assert(out_height * out_width == out_width * out_height) by (nonlinear_arith);
    }
    Matrix::from(cells, out_width, out_height)
}

/// Where a block gets the extra unit there are at least two blocks, so the
/// enlarged size still fits.
proof fn lemma_quotient_has_room(total: int, parts: int)
    requires
        0 <= total <= u32::MAX,
        parts > 0,
    ensures
        total % parts > 0 ==> total / parts + 1 <= u32::MAX,
{
    lemma_div_mod_facts(total, parts);
    let q = total / parts;
    if total % parts > 0 {
        assert(2 * q <= parts * q) by (nonlinear_arith)
            requires
                parts >= 2,
                q >= 0,
        ;
    }
}

/// Every partial term of the start of block `i` stays within `total`.
proof fn lemma_start_fits(total: int, parts: int, i: int)
    requires
        0 <= total <= u32::MAX,
        parts > 0,
        0 <= i <= parts,
    ensures
        i < total % parts ==> i * (total / parts + 1) <= total,
        i >= total % parts ==> i * (total / parts) + total % parts == block_start(total, parts, i),
        i >= total % parts ==> i * (total / parts) + total % parts <= total,
{
    lemma_div_mod_facts(total, parts);
    let q = total / parts;
    let r = total % parts;
    lemma_block_end(total, parts);
    lemma_block_start_monotone(total, parts, i, parts);
    if i >= r {
        assert(block_start(total, parts, i) == r * (q + 1) + (i - r) * q);
        assert(r * (q + 1) + (i - r) * q == i * q + r) by (nonlinear_arith);
    }
}

} // verus!
