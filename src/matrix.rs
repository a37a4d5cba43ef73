use vstd::prelude::*;

verus! {

/// The index that a cell of a `width`-wide row-major buffer is stored at.
pub open spec fn flat_index(row: int, col: int, width: int) -> int {
    row * width + col
}

pub proof fn lemma_flat_index_in_range(row: int, col: int, width: int, height: int)
    requires
        0 <= row < height,
        0 <= col < width,
    ensures
        0 <= flat_index(row, col, width) < width * height,
{
    assert(row * width + col < width * height) by (nonlinear_arith)
        requires
            0 <= row < height,
            0 <= col < width,
    ;
    assert(0 <= row * width) by (nonlinear_arith)
        requires
            0 <= row,
            0 <= col < width,
    ;
}

/// A cell address that lies outside a matrix.
#[derive(Clone, Copy, Debug, PartialEq, Eq, Structural)]
pub struct OutOfRange {
    pub row: u32,
    pub col: u32,
    pub height: u32,
    pub width: u32,
}

/// A dense `width` x `height` buffer stored row by row.
#[derive(Clone)]
pub struct Matrix<T: Copy> {
    storage: Vec<T>,
    width: u32,
    height: u32,
}

impl<T: Copy> View for Matrix<T> {
    type V = Seq<T>;

    /// The cells in row-major order.
    closed spec fn view(&self) -> Seq<T> {
        self.storage@
    }
}

impl<T: Copy> Matrix<T> {
    pub closed spec fn spec_width(&self) -> nat {
        self.width as nat
    }

    pub closed spec fn spec_height(&self) -> nat {
        self.height as nat
    }

    /// Every cell has exactly one storage slot.
    pub open spec fn wf(&self) -> bool {
        &&& self@.len() == self.spec_width() * self.spec_height()
        &&& self@.len() <= usize::MAX
        &&& self.spec_width() <= u32::MAX
        &&& self.spec_height() <= u32::MAX
    }

    pub open spec fn in_range(&self, row: int, col: int) -> bool {
        0 <= row < self.spec_height() && 0 <= col < self.spec_width()
    }

    /// The value at `(row, col)`.
    pub open spec fn cell(&self, row: int, col: int) -> T {
        self@[flat_index(row, col, self.spec_width() as int)]
    }

    pub open spec fn out_of_range(&self, row: u32, col: u32) -> OutOfRange {
        OutOfRange {
            row,
            col,
            height: self.spec_height() as u32,
            width: self.spec_width() as u32,
        }
    }

    /// A `width` x `height` matrix with every cell set to `filler`.
    pub fn new(width: u32, height: u32, filler: T) -> (r: Matrix<T>)
        requires
            width as int * height as int <= usize::MAX,
        ensures
            r.wf(),
            r.spec_width() == width,
            r.spec_height() == height,
            forall|k: int| 0 <= k < r@.len() ==> #[trigger] r@[k] == filler,
    {
        let n: usize = (width as usize) * (height as usize);
        let mut storage: Vec<T> = Vec::with_capacity(n);
        let mut k: usize = 0;
        while k < n
            invariant
                k <= n,
                storage@.len() == k,
                forall|m: int| 0 <= m < k ==> #[trigger] storage@[m] == filler,
            decreases n - k,
        {
            storage.push(filler);
            k = k + 1;
        }
        Matrix { storage, width, height }
    }

    /// A matrix over `input`, read row by row.
    pub fn from(input: Vec<T>, width: u32, height: u32) -> (r: Matrix<T>)
        requires
            input@.len() == width as int * height as int,
        ensures
            r.wf(),
            r.spec_width() == width,
            r.spec_height() == height,
            r@ == input@,
    {
        let len: usize = input.len();
        proof {
            assert(len as int == width as int * height as int);
        }
        Matrix { storage: input, width, height }
    }

    /// The value at `(i, j)` (row, column), or `OutOfRange` when either index
    /// is past its bound.
    pub fn get(&self, i: u32, j: u32) -> (r: Result<T, OutOfRange>)
        requires
            self.wf(),
        ensures
            self.in_range(i as int, j as int) ==> r == Ok::<T, OutOfRange>(
                self.cell(i as int, j as int),
            ),
            !self.in_range(i as int, j as int) ==> r == Err::<T, OutOfRange>(
                self.out_of_range(i, j),
            ),
    {
        if i >= self.height || j >= self.width {
            return Err(OutOfRange { row: i, col: j, height: self.height, width: self.width });
        }
        proof {
            lemma_flat_index_in_range(i as int, j as int, self.width as int, self.height as int);
        }
        let index: usize = (i as usize) * (self.width as usize) + (j as usize);
        Ok(self.storage[index])
    }

    /// Writes `val` at `(i, j)` (row, column), or returns `OutOfRange` and
    /// leaves the matrix as it was.
    pub fn set(&mut self, i: u32, j: u32, val: T) -> (r: Result<(), OutOfRange>)
        requires
            old(self).wf(),
        ensures
            final(self).wf(),
            final(self).spec_width() == old(self).spec_width(),
            final(self).spec_height() == old(self).spec_height(),
            old(self).in_range(i as int, j as int) ==> r == Ok::<(), OutOfRange>(())
                && final(self)@ == old(self)@.update(
                flat_index(i as int, j as int, old(self).spec_width() as int),
                val,
            ),
            !old(self).in_range(i as int, j as int) ==> r == Err::<(), OutOfRange>(
                old(self).out_of_range(i, j),
            ) && final(self)@ == old(self)@,
    {
        if i >= self.height || j >= self.width {
            return Err(OutOfRange { row: i, col: j, height: self.height, width: self.width });
        }
        proof {
            lemma_flat_index_in_range(i as int, j as int, self.width as int, self.height as int);
        }
        let index: usize = (i as usize) * (self.width as usize) + (j as usize);
        self.storage.set(index, val);
        Ok(())
    }

    /// A copy of the matrix that can change apart from it.
    pub fn duplicate(&self) -> (r: Matrix<T>)
        requires
            self.wf(),
        ensures
            r.wf(),
            r.spec_width() == self.spec_width(),
            r.spec_height() == self.spec_height(),
            r@ == self@,
    {
        let n = self.storage.len();
        let mut storage: Vec<T> = Vec::with_capacity(n);
        let mut k: usize = 0;
        while k < n
            invariant
                n == self.storage@.len(),
                k <= n,
                storage@ == self.storage@.subrange(0, k as int),
            decreases n - k,
        {
            storage.push(self.storage[k]);
            k = k + 1;
            proof {
                assert(storage@ =~= self.storage@.subrange(0, k as int));
            }
        }
        proof {
            assert(storage@ =~= self.storage@);
        }
        Matrix { storage, width: self.width, height: self.height }
    }

    pub fn get_width(&self) -> (r: u32)
        ensures
            r == self.spec_width(),
    {
        self.width
    }

    pub fn get_height(&self) -> (r: u32)
        ensures
            r == self.spec_height(),
    {
        self.height
    }
}

} // verus!
