use vstd::prelude::*;
use vstd::arithmetic::div_mod::{lemma_fundamental_div_mod, lemma_mod_pos_bound};
use crate::keyword::{lower_of, same_text, to_lowercase, to_uppercase, trim, trimmed, upper_of};
use crate::matrix::{flat_index, Matrix};

verus! {

/// An exact fraction `num / den`: how much of a cell's quantization error
/// one neighbour receives.
#[derive(Clone, Copy, Debug, PartialEq, Eq, Structural)]
pub struct Weight {
    pub num: u32,
    pub den: u32,
}

/// A diffusion stencil: a grid of weights and the grid cell that stands for
/// the cell being quantized.
pub struct Kernel<W: Copy> {
    pub matrix: Matrix<W>,
    pub origin: (i32, i32),
}

pub open spec fn fits_i32(x: int) -> bool {
    i32::MIN <= x <= i32::MAX
}

/// Every offset `(col - origin.0, row - origin.1)` of a `width` x `height`
/// grid fits in an `i32`.
pub open spec fn offsets_fit(origin: (i32, i32), width: int, height: int) -> bool {
    &&& width > 0 ==> fits_i32(0 - origin.0) && fits_i32(width - 1 - origin.0)
    &&& height > 0 ==> fits_i32(0 - origin.1) && fits_i32(height - 1 - origin.1)
}

/// The offset triple that grid cell `(row, col)` becomes.
pub open spec fn grid_offset<W>(origin: (i32, i32), row: int, col: int, weight: W) -> (i32, i32, W) {
    ((col - origin.0) as i32, (row - origin.1) as i32, weight)
}

/// The offsets of all cells of `grid`, row by row.
pub open spec fn spec_grid_offsets<W: Copy>(origin: (i32, i32), grid: Matrix<W>) -> Seq<(i32, i32, W)> {
    let w = grid.spec_width() as int;
    Seq::new(grid@.len(), |k: int| grid_offset(origin, k / w, k % w, grid@[k]))
}

/// The cells of `grid`, row by row, as offsets relative to `origin`: cell
/// `(row, col)` with weight `w` becomes `(col - origin.0, row - origin.1, w)`.
pub fn grid_offsets<W: Copy>(origin: (i32, i32), grid: &Matrix<W>) -> (r: Vec<(i32, i32, W)>)
    requires
        grid.wf(),
        offsets_fit(origin, grid.spec_width() as int, grid.spec_height() as int),
    ensures
        r@.len() == grid@.len(),
        forall|row: int, col: int|
            grid.in_range(row, col) ==> #[trigger] r@[flat_index(row, col, grid.spec_width() as int)]
                == grid_offset(origin, row, col, grid.cell(row, col)),
        r@ == spec_grid_offsets(origin, *grid),
{
    let width = grid.get_width();
    let height = grid.get_height();
    let ghost w = width as int;
    let mut weights: Vec<(i32, i32, W)> = Vec::new();
    let mut row: u32 = 0;
    while row < height
        invariant
            grid.wf(),
            offsets_fit(origin, w, height as int),
            w == width == grid.spec_width(),
            height == grid.spec_height(),
            row <= height,
            weights@.len() == row * w,
            forall|rr: int, cc: int|
                0 <= rr < row && 0 <= cc < w ==> #[trigger] weights@[flat_index(rr, cc, w)]
                    == grid_offset(origin, rr, cc, grid.cell(rr, cc)),
        decreases height - row,
    {
        let mut col: u32 = 0;
        while col < width
            invariant
                grid.wf(),
                offsets_fit(origin, w, height as int),
                w == width == grid.spec_width(),
                height == grid.spec_height(),
                row < height,
                col <= width,
                weights@.len() == row * w + col,
                forall|rr: int, cc: int|
                    0 <= rr <= row && 0 <= cc < w && (rr < row || cc < col) ==> #[trigger] weights@[flat_index(
                        rr,
                        cc,
                        w,
                    )] == grid_offset(origin, rr, cc, grid.cell(rr, cc)),
            decreases width - col,
        {
            let val = grid.get(row, col).unwrap();
            let dx = (col as i64 - origin.0 as i64) as i32;
            let dy = (row as i64 - origin.1 as i64) as i32;
            proof {
                assert forall|rr: int, cc: int|
                    0 <= rr <= row && 0 <= cc < w && (rr < row || cc < col) implies flat_index(
                    rr,
                    cc,
                    w,
                ) < weights@.len() by {
                    if rr < row {
                        assert(rr * w + cc < row * w) by (nonlinear_arith)
                            requires
                                0 <= rr < row,
                                0 <= cc < w,
                        ;
                    }
                }
            }
            weights.push((dx, dy, val));
            col = col + 1;
        }
        proof {
            assert((row + 1) * w == row * w + w) by (nonlinear_arith);
        }
        row = row + 1;
    }
    proof {
        assert(height * w == w * height) by (nonlinear_arith);
        assert forall|k: int| 0 <= k < weights@.len() implies weights@[k] == #[trigger] spec_grid_offsets(
            origin,
            *grid,
        )[k] by {
            lemma_fundamental_div_mod(k, w);
            lemma_mod_pos_bound(k, w);
            let rr = k / w;
            let cc = k % w;
            assert(0 <= rr < height) by (nonlinear_arith)
                requires
                    k == w * rr + cc,
                    0 <= cc < w,
                    0 <= k < w * height,
            ;
            assert(w * rr == rr * w) by (nonlinear_arith);
            assert(flat_index(rr, cc, w) == k);
        }
        assert(weights@ =~= spec_grid_offsets(origin, *grid));
    }
    weights
}

/// Where an offset `(dx, dy)` from cell `(row, col)` lands in a `height` x
/// `width` buffer, or `None` where it would leave the buffer.
pub open spec fn spec_target(row: int, col: int, dx: int, dy: int, height: int, width: int) -> Option<(u32, u32)> {
    if 0 <= row + dy < height && 0 <= col + dx < width {
        Some(((row + dy) as u32, (col + dx) as u32))
    } else {
        None
    }
}

/// The cell `(row + dy, col + dx)` that error diffused from `(row, col)`
/// reaches, or `None` where that cell has a negative coordinate or lies past
/// the buffer's bounds: such a target is skipped, it is no error.
pub fn diffusion_target(row: u32, col: u32, dx: i32, dy: i32, height: u32, width: u32) -> (r: Option<(u32, u32)>)
    ensures
        r == spec_target(row as int, col as int, dx as int, dy as int, height as int, width as int),
        row + dy < 0 || col + dx < 0 ==> r is None,
        r matches Some(t) ==> t.0 == row + dy && t.1 == col + dx && t.0 < height && t.1 < width,
{
    let target_row: i64 = row as i64 + dy as i64;
    let target_col: i64 = col as i64 + dx as i64;
    if target_row < 0 || target_col < 0 || target_row >= height as i64 || target_col >= width as i64 {
        None
    } else {
        Some((target_row as u32, target_col as u32))
    }
}

/// The built-in stencils.
#[derive(Clone, Copy, Debug, PartialEq, Eq, Structural)]
pub enum KernelKind {
    /// No diffusion: every cell is quantized on its own.
    NONE,
    /// Floyd-Steinberg.
    FS,
    /// Stucki.
    STUCKI,
    /// Atkinson: spreads only three quarters of the error.
    ATKINSON,
}

impl KernelKind {
    pub open spec fn spec_name(self) -> Seq<char> {
        match self {
            KernelKind::NONE => seq!['N', 'O', 'N', 'E'],
            KernelKind::FS => seq!['F', 'S'],
            KernelKind::STUCKI => seq!['S', 'T', 'U', 'C', 'K', 'I'],
            KernelKind::ATKINSON => seq!['A', 'T', 'K', 'I', 'N', 'S', 'O', 'N'],
        }
    }

    pub open spec fn spec_origin(self) -> (i32, i32) {
        match self {
            KernelKind::NONE => (0, 0),
            KernelKind::FS => (1, 0),
            KernelKind::STUCKI => (2, 0),
            KernelKind::ATKINSON => (1, 0),
        }
    }

    /// `(width, height)` of the weight grid.
    pub open spec fn spec_dims(self) -> (nat, nat) {
        match self {
            KernelKind::NONE => (0, 0),
            KernelKind::FS => (3, 2),
            KernelKind::STUCKI => (5, 3),
            KernelKind::ATKINSON => (4, 3),
        }
    }

    /// The common denominator of the weights.
    pub open spec fn spec_denominator(self) -> u32 {
        match self {
            KernelKind::NONE => 1,
            KernelKind::FS => 16,
            KernelKind::STUCKI => 42,
            KernelKind::ATKINSON => 8,
        }
    }

    /// The numerators of the weights, row by row.
    pub open spec fn spec_numerators(self) -> Seq<u32> {
        match self {
            KernelKind::NONE => seq![],
            KernelKind::FS => seq![0, 0, 7, 3, 5, 1],
            KernelKind::STUCKI => seq![0, 0, 0, 8, 4, 2, 4, 8, 4, 2, 1, 2, 4, 2, 1],
            KernelKind::ATKINSON => seq![0, 0, 1, 1, 1, 1, 1, 0, 0, 1, 0, 0],
        }
    }

    /// The name the stencil is looked up by.
    pub fn name(self) -> (r: &'static str)
        ensures
            r@ == self.spec_name(),
    {
        match self {
            KernelKind::NONE => {
                proof {
                    reveal_strlit("NONE");
                }
                "NONE"
            },
            KernelKind::FS => {
                proof {
                    reveal_strlit("FS");
                }
                "FS"
            },
            KernelKind::STUCKI => {
                proof {
                    reveal_strlit("STUCKI");
                }
                "STUCKI"
            },
            KernelKind::ATKINSON => {
                proof {
                    reveal_strlit("ATKINSON");
                }
                "ATKINSON"
            },
        }
    }

    /// The stencil whose name is `word` exactly (names are upper case).
    pub fn from_upper(word: &str) -> (r: Option<KernelKind>)
        ensures
            r == kind_named(word@),
    {
        let kinds = get_kernels();
        let mut i: usize = 0;
        while i < kinds.len()
            invariant
                kinds@ == seq![KernelKind::NONE, KernelKind::FS, KernelKind::STUCKI, KernelKind::ATKINSON],
                i <= kinds@.len(),
                forall|k: int| 0 <= k < i ==> word@ != #[trigger] kinds@[k].spec_name(),
            decreases kinds@.len() - i,
        {
            if same_text(word, kinds[i].name()) {
                return Some(kinds[i]);
            }
            i = i + 1;
        }
        proof {
            assert(word@ != kinds@[0].spec_name());
            assert(word@ != kinds@[1].spec_name());
            assert(word@ != kinds@[2].spec_name());
            assert(word@ != kinds@[3].spec_name());
        }
        None
    }

    /// The stencil an option value names: trimmed, taken to lower case and
    /// then to upper case, it must be the stencil's name.
    pub fn parse(name: &str) -> (r: Option<KernelKind>)
        ensures
            r == kind_named(upper_of(lower_of(trimmed(name@)))),
    {
        let lower = to_lowercase(trim(name));
        let upper = to_uppercase(lower.as_str());
        KernelKind::from_upper(upper.as_str())
    }

    /// The stencil, its weights as exact fractions.
    pub fn kernel(self) -> (r: Kernel<Weight>)
        ensures
            r.origin == self.spec_origin(),
            r.matrix.wf(),
            r.matrix.spec_width() == self.spec_dims().0,
            r.matrix.spec_height() == self.spec_dims().1,
            r.matrix@.len() == self.spec_numerators().len(),
            forall|k: int|
                0 <= k < r.matrix@.len() ==> #[trigger] r.matrix@[k] == (Weight {
                    num: self.spec_numerators()[k],
                    den: self.spec_denominator(),
                }),
    {
        match self {
            KernelKind::NONE => Kernel { matrix: Matrix::from(Vec::new(), 0, 0), origin: (0, 0) },
            KernelKind::FS => {
                let d: u32 = 16;
                let grid = vec![
                    Weight { num: 0, den: d },
                    Weight { num: 0, den: d },
                    Weight { num: 7, den: d },
                    Weight { num: 3, den: d },
                    Weight { num: 5, den: d },
                    Weight { num: 1, den: d },
                ];
                Kernel { matrix: Matrix::from(grid, 3, 2), origin: (1, 0) }
            },
            KernelKind::STUCKI => {
                let d: u32 = 42;
                let grid = vec![
                    Weight { num: 0, den: d },
                    Weight { num: 0, den: d },
                    Weight { num: 0, den: d },
                    Weight { num: 8, den: d },
                    Weight { num: 4, den: d },
                    Weight { num: 2, den: d },
                    Weight { num: 4, den: d },
                    Weight { num: 8, den: d },
                    Weight { num: 4, den: d },
                    Weight { num: 2, den: d },
                    Weight { num: 1, den: d },
                    Weight { num: 2, den: d },
                    Weight { num: 4, den: d },
                    Weight { num: 2, den: d },
                    Weight { num: 1, den: d },
                ];
                Kernel { matrix: Matrix::from(grid, 5, 3), origin: (2, 0) }
            },
            KernelKind::ATKINSON => {
                let d: u32 = 8;
                let grid = vec![
                    Weight { num: 0, den: d },
                    Weight { num: 0, den: d },
                    Weight { num: 1, den: d },
                    Weight { num: 1, den: d },
                    Weight { num: 1, den: d },
                    Weight { num: 1, den: d },
                    Weight { num: 1, den: d },
                    Weight { num: 0, den: d },
                    Weight { num: 0, den: d },
                    Weight { num: 1, den: d },
                    Weight { num: 0, den: d },
                    Weight { num: 0, den: d },
                ];
                Kernel { matrix: Matrix::from(grid, 4, 3), origin: (1, 0) }
            },
        }
    }
}

/// The built-in stencil named `word`.
pub open spec fn kind_named(word: Seq<char>) -> Option<KernelKind> {
    if word == KernelKind::NONE.spec_name() {
        Some(KernelKind::NONE)
    } else if word == KernelKind::FS.spec_name() {
        Some(KernelKind::FS)
    } else if word == KernelKind::STUCKI.spec_name() {
        Some(KernelKind::STUCKI)
    } else if word == KernelKind::ATKINSON.spec_name() {
        Some(KernelKind::ATKINSON)
    } else {
        None
    }
}

/// The built-in stencils, in the order they are offered.
pub fn get_kernels() -> (r: Vec<KernelKind>)
    ensures
        r@ == seq![KernelKind::NONE, KernelKind::FS, KernelKind::STUCKI, KernelKind::ATKINSON],
{
    vec![KernelKind::NONE, KernelKind::FS, KernelKind::STUCKI, KernelKind::ATKINSON]
}

} // verus!
