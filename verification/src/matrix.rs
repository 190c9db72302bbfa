//! An owned, row-major, fixed-shape two-dimensional container of scalars.
//!
//! The invariant `data.len() == rows * cols` holds for every matrix, always;
//! cell `(r, c)` lives at the unique storage slot `r * cols + c`.  Bounds
//! lookups (`get`, `get_row`, `get_col`) report an absent result for an
//! out-of-range index; every other operation demands valid shapes up front.

use crate::scalar::Scalar;
use vstd::prelude::*;

verus! {

/// The mathematical value of a matrix: its shape and the row-major sequence
/// of its cells.
#[verifier::ext_equal]
pub ghost struct MatrixView<T> {
    pub rows: nat,
    pub cols: nat,
    pub data: Seq<T>,
}

impl<T> MatrixView<T> {
    /// The shape invariant: the backing sequence holds exactly one slot per
    /// logical cell.
    pub open spec fn wf(self) -> bool {
        self.data.len() == self.rows * self.cols
    }

    pub open spec fn in_bounds(self, r: int, c: int) -> bool {
        0 <= r < self.rows && 0 <= c < self.cols
    }

    /// The cell at row `r`, column `c`.
    pub open spec fn cell(self, r: int, c: int) -> T {
        self.data[r * self.cols + c]
    }

    pub open spec fn same_shape(self, other: MatrixView<T>) -> bool {
        self.rows == other.rows && self.cols == other.cols
    }

    /// Row `r` as a sequence of `cols` cells.
    pub open spec fn row_seq(self, r: int) -> Seq<T> {
        Seq::new(self.cols, |c: int| self.cell(r, c))
    }

    /// Column `c` as a sequence of `rows` cells.
    pub open spec fn col_seq(self, c: int) -> Seq<T> {
        Seq::new(self.rows, |r: int| self.cell(r, c))
    }
}

/// A row-major index stays inside the backing storage.
pub proof fn lemma_flat_index(r: int, c: int, rows: int, cols: int)
    requires
        0 <= r < rows,
        0 <= c < cols,
    ensures
        0 <= r * cols + c < rows * cols,
{
    assert(0 <= r * cols + c < rows * cols) by (nonlinear_arith)
        requires
            0 <= r < rows,
            0 <= c < cols,
    ;
}

/// Distinct in-bounds cells occupy distinct storage slots.
pub proof fn lemma_flat_index_injective(r1: int, c1: int, r2: int, c2: int, cols: int)
    requires
        0 <= r1,
        0 <= r2,
        0 <= c1 < cols,
        0 <= c2 < cols,
        r1 * cols + c1 == r2 * cols + c2,
    ensures
        r1 == r2,
        c1 == c2,
{
    assert(r1 == r2 && c1 == c2) by (nonlinear_arith)
        requires
            0 <= r1,
            0 <= r2,
            0 <= c1 < cols,
            0 <= c2 < cols,
            r1 * cols + c1 == r2 * cols + c2,
    ;
}

/// The sum of the first `n` terms of the dot product of row `r` of `a` with
/// column `c` of `b`, accumulated from zero in strictly increasing index
/// order; the order is part of the contract because downstream scalars need
/// not be associative.
pub open spec fn dot_prefix<T: Scalar>(
    a: MatrixView<T>,
    b: MatrixView<T>,
    r: int,
    c: int,
    n: int,
) -> T
    decreases n,
{
    if n <= 0 {
        T::zero_spec()
    } else {
        dot_prefix(a, b, r, c, n - 1).add_spec(a.cell(r, n - 1).mul_spec(b.cell(n - 1, c)))
    }
}

/// Cell `(r, c)` of the matrix product `a * b`: the full dot product of row
/// `r` of `a` with column `c` of `b`.
pub open spec fn product_cell<T: Scalar>(a: MatrixView<T>, b: MatrixView<T>, r: int, c: int) -> T {
    dot_prefix(a, b, r, c, a.cols as int)
}

/// The elementwise sum of two same-shape matrices.
pub open spec fn matrix_add<T: Scalar>(a: MatrixView<T>, b: MatrixView<T>) -> MatrixView<T> {
    MatrixView {
        rows: a.rows,
        cols: a.cols,
        data: Seq::new(a.data.len(), |i: int| a.data[i].add_spec(b.data[i])),
    }
}

/// The elementwise difference of two same-shape matrices.
pub open spec fn matrix_sub<T: Scalar>(a: MatrixView<T>, b: MatrixView<T>) -> MatrixView<T> {
    MatrixView {
        rows: a.rows,
        cols: a.cols,
        data: Seq::new(a.data.len(), |i: int| a.data[i].sub_spec(b.data[i])),
    }
}

/// Additive round trip: over any scalar whose subtraction cancels its
/// addition, the elementwise `(a + b) - b` restores `a` exactly.  For scalars
/// where cancellation is only approximate, such as floating point, the law
/// holds up to that approximation and is exercised by tests instead.
pub proof fn lemma_add_sub_roundtrip<T: Scalar>(a: MatrixView<T>, b: MatrixView<T>)
    requires
        a.wf(),
        b.wf(),
        a.same_shape(b),
        forall|x: T, y: T| (#[trigger] x.add_spec(y)).sub_spec(y) == x,
    ensures
        matrix_sub(matrix_add(a, b), b) == a,
{
    assert(matrix_sub(matrix_add(a, b), b) =~= a);
}

/// For the crate's integer scalar the cancellation hypothesis holds outright
/// (wrapping arithmetic is addition modulo a power of two), so the additive
/// round trip is unconditional.
pub proof fn lemma_add_sub_roundtrip_wrapping(a: MatrixView<i64>, b: MatrixView<i64>)
    requires
        a.wf(),
        b.wf(),
        a.same_shape(b),
    ensures
        matrix_sub(matrix_add(a, b), b) == a,
{
    assert forall|x: i64, y: i64| (#[trigger] x.add_spec(y)).sub_spec(y) == x by {
        crate::scalar::lemma_i64_sub_cancels_add(x, y);
    }
    lemma_add_sub_roundtrip(a, b);
}

/// An owned dense matrix over the scalar `T`.
#[derive(Clone, Debug, PartialEq)]
pub struct Matrix<T> {
    data: Vec<T>,
    rows: usize,
    cols: usize,
}

impl<T> View for Matrix<T> {
    type V = MatrixView<T>;

    closed spec fn view(&self) -> MatrixView<T> {
        MatrixView { rows: self.rows as nat, cols: self.cols as nat, data: self.data@ }
    }
}

impl<T: Scalar> Matrix<T> {
    /// The storage slot of cell `(row, col)`.
    fn flat_index(&self, row: usize, col: usize) -> (idx: usize)
        requires
            self@.wf(),
            self@.in_bounds(row as int, col as int),
        ensures
            idx == row * self@.cols + col,
            idx < self@.data.len(),
    {
        proof {
            lemma_flat_index(row as int, col as int, self.rows as int, self.cols as int);
        }
        let n: usize = self.data.len();
        assert(row * self.cols + col < n);
        row * self.cols + col
    }

    /// Builds a `rows x cols` matrix from the first `rows * cols` values of
    /// `values`; constructing from fewer values than cells is a contract
    /// violation.
    pub fn from_iter(rows: usize, cols: usize, values: &Vec<T>) -> (m: Self)
        requires
            rows * cols <= values.len(),
        ensures
            m@.wf(),
            m@.rows == rows,
            m@.cols == cols,
            m@.data == values@.take((rows * cols) as int),
    {
        let n: usize = rows * cols;
        let mut data: Vec<T> = Vec::new();
        let mut i: usize = 0;
        while i < n
            invariant
                i <= n,
                n == rows * cols,
                n <= values@.len(),
                data@ == values@.take(i as int),
            decreases n - i,
        {
            data.push(values[i]);
            proof {
                assert(data@ =~= values@.take(i + 1));
            }
            i = i + 1;
        }
        Matrix { data, rows, cols }
    }

    /// Builds a `rows x cols` matrix with every cell zero.
    pub fn new(rows: usize, cols: usize) -> (m: Self)
        requires
            rows * cols <= usize::MAX,
        ensures
            m@.wf(),
            m@.rows == rows,
            m@.cols == cols,
            forall|i: int| 0 <= i < m@.data.len() ==> m@.data[i] == T::zero_spec(),
    {
        let n: usize = rows * cols;
        let mut data: Vec<T> = Vec::new();
        let mut i: usize = 0;
        while i < n
            invariant
                i <= n,
                data@.len() == i,
                forall|j: int| 0 <= j < i ==> data@[j] == T::zero_spec(),
            decreases n - i,
        {
            data.push(T::zero());
            i = i + 1;
        }
        Matrix { data, rows, cols }
    }

    pub fn rows(&self) -> (r: usize)
        ensures
            r == self@.rows,
    {
        self.rows
    }

    pub fn cols(&self) -> (r: usize)
        ensures
            r == self@.cols,
    {
        self.cols
    }

    /// The cell at `(row, col)`, or absent when the index is out of range.
    pub fn get(&self, row: usize, col: usize) -> (r: Option<T>)
        requires
            self@.wf(),
        ensures
            self@.in_bounds(row as int, col as int) ==> r == Some(self@.cell(
                row as int,
                col as int,
            )),
            !self@.in_bounds(row as int, col as int) ==> r is None,
    {
        if row < self.rows && col < self.cols {
            let idx: usize = self.flat_index(row, col);
            Some(self.data[idx])
        } else {
            None
        }
    }

    /// A mutable borrow of the cell at `(row, col)`; the index must be in
    /// range.
    pub fn get_mut(&mut self, row: usize, col: usize) -> (r: &mut T)
        requires
            old(self)@.wf(),
            old(self)@.in_bounds(row as int, col as int),
        ensures
            *r == old(self)@.cell(row as int, col as int),
            final(self)@.rows == old(self)@.rows,
            final(self)@.cols == old(self)@.cols,
            final(self)@.data == old(self)@.data.update(
                row * old(self)@.cols + col,
                *final(r),
            ),
            final(self)@.wf(),
    {
        let idx: usize = self.flat_index(row, col);
        &mut self.data[idx]
    }

    /// Overwrites the cell at `(row, col)` and returns the previous value;
    /// the index must be in range.
    pub fn set(&mut self, row: usize, col: usize, value: T) -> (r: Option<T>)
        requires
            old(self)@.wf(),
            old(self)@.in_bounds(row as int, col as int),
        ensures
            final(self)@.wf(),
            final(self)@.rows == old(self)@.rows,
            final(self)@.cols == old(self)@.cols,
            final(self)@.data == old(self)@.data.update(row * old(self)@.cols + col, value),
            r == Some(old(self)@.cell(row as int, col as int)),
    {
        let idx: usize = self.flat_index(row, col);
        let previous: T = self.data[idx];
        self.data[idx] = value;
        Some(previous)
    }

    /// Row `row` as a fresh vector of its cells in column order, or absent
    /// when the index is out of range.
    pub fn get_row(&self, row: usize) -> (r: Option<Vec<T>>)
        requires
            self@.wf(),
        ensures
            row < self@.rows ==> (r matches Some(v) && v@ == self@.row_seq(row as int)),
            row >= self@.rows ==> r is None,
    {
        if row < self.rows {
            let mut v: Vec<T> = Vec::new();
            let mut c: usize = 0;
            while c < self.cols
                invariant
                    self@.wf(),
                    row < self@.rows,
                    c <= self@.cols,
                    v@.len() == c,
                    forall|j: int| 0 <= j < c ==> v@[j] == self@.cell(row as int, j),
                decreases self@.cols - c,
            {
                let idx: usize = self.flat_index(row, c);
                v.push(self.data[idx]);
                c = c + 1;
            }
            proof {
                assert(v@ =~= self@.row_seq(row as int));
            }
            Some(v)
        } else {
            None
        }
    }

    /// Column `col` as a fresh vector of its cells in row order (each read
    /// strides by `cols` through the backing storage), or absent when the
    /// index is out of range.
    pub fn get_col(&self, col: usize) -> (r: Option<Vec<T>>)
        requires
            self@.wf(),
        ensures
            col < self@.cols ==> (r matches Some(v) && v@ == self@.col_seq(col as int)),
            col >= self@.cols ==> r is None,
    {
        if col < self.cols {
            let mut v: Vec<T> = Vec::new();
            let mut rw: usize = 0;
            while rw < self.rows
                invariant
                    self@.wf(),
                    col < self@.cols,
                    rw <= self@.rows,
                    v@.len() == rw,
                    forall|j: int| 0 <= j < rw ==> v@[j] == self@.cell(j, col as int),
                decreases self@.rows - rw,
            {
                let idx: usize = self.flat_index(rw, col);
                v.push(self.data[idx]);
                rw = rw + 1;
            }
            proof {
                assert(v@ =~= self@.col_seq(col as int));
            }
            Some(v)
        } else {
            None
        }
    }

    /// Row `row` copied into a freshly owned `1 x cols` matrix, or absent
    /// when the index is out of range.
    pub fn get_row_matrix(&self, row: usize) -> (r: Option<Self>)
        requires
            self@.wf(),
        ensures
            row < self@.rows ==> (r matches Some(m) && m@.wf() && m@.rows == 1 && m@.cols
                == self@.cols && m@.data == self@.row_seq(row as int)),
            row >= self@.rows ==> r is None,
    {
        match self.get_row(row) {
            None => None,
            Some(v) => {
                let m = Matrix::from_iter(1, self.cols, &v);
                proof {
                    assert(m@.data =~= self@.row_seq(row as int));
                }
                Some(m)
            },
        }
    }

    /// Column `col` copied into a freshly owned `rows x 1` matrix, or absent
    /// when the index is out of range.
    pub fn get_col_matrix(&self, col: usize) -> (r: Option<Self>)
        requires
            self@.wf(),
        ensures
            col < self@.cols ==> (r matches Some(m) && m@.wf() && m@.rows == self@.rows
                && m@.cols == 1 && m@.data == self@.col_seq(col as int)),
            col >= self@.cols ==> r is None,
    {
        match self.get_col(col) {
            None => None,
            Some(v) => {
                let m = Matrix::from_iter(self.rows, 1, &v);
                proof {
                    assert(m@.data =~= self@.col_seq(col as int));
                }
                Some(m)
            },
        }
    }

    /// Applies the scalar's logistic activation to every cell in place.
    pub fn sigmoid(&mut self)
        requires
            old(self)@.wf(),
        ensures
            final(self)@.wf(),
            final(self)@.rows == old(self)@.rows,
            final(self)@.cols == old(self)@.cols,
            final(self)@.data.len() == old(self)@.data.len(),
            forall|i: int| 0 <= i < final(self)@.data.len() ==> final(self)@.data[i] == old(
                self,
            )@.data[i].sigmoid_spec(),
    {
        let ghost orig = self@;
        let n: usize = self.data.len();
        let mut i: usize = 0;
        while i < n
            invariant
                i <= n,
                n == orig.data.len(),
                self@.rows == orig.rows,
                self@.cols == orig.cols,
                self@.data.len() == orig.data.len(),
                forall|j: int| 0 <= j < i ==> self@.data[j] == orig.data[j].sigmoid_spec(),
                forall|j: int| i <= j < n ==> self@.data[j] == orig.data[j],
            decreases n - i,
        {
            let x: T = self.data[i];
            self.data[i] = x.sigmoid();
            i = i + 1;
        }
    }

    /// Applies the scalar's rectifier activation to every cell in place.
    pub fn relu(&mut self)
        requires
            old(self)@.wf(),
        ensures
            final(self)@.wf(),
            final(self)@.rows == old(self)@.rows,
            final(self)@.cols == old(self)@.cols,
            final(self)@.data.len() == old(self)@.data.len(),
            forall|i: int| 0 <= i < final(self)@.data.len() ==> final(self)@.data[i] == old(
                self,
            )@.data[i].relu_spec(),
    {
        let ghost orig = self@;
        let n: usize = self.data.len();
        let mut i: usize = 0;
        while i < n
            invariant
                i <= n,
                n == orig.data.len(),
                self@.rows == orig.rows,
                self@.cols == orig.cols,
                self@.data.len() == orig.data.len(),
                forall|j: int| 0 <= j < i ==> self@.data[j] == orig.data[j].relu_spec(),
                forall|j: int| i <= j < n ==> self@.data[j] == orig.data[j],
            decreases n - i,
        {
            let x: T = self.data[i];
            self.data[i] = x.relu();
            i = i + 1;
        }
    }

    /// Bulk overwrite from a matrix of the same shape, reusing the existing
    /// storage.
    pub fn copy_from(&mut self, other: &Self)
        requires
            old(self)@.wf(),
            other@.wf(),
            old(self)@.same_shape(other@),
        ensures
            final(self)@.wf(),
            final(self)@.rows == old(self)@.rows,
            final(self)@.cols == old(self)@.cols,
            final(self)@.data == other@.data,
    {
        let ghost orig = self@;
        let n: usize = self.data.len();
        let mut i: usize = 0;
        while i < n
            invariant
                i <= n,
                n == orig.data.len(),
                self@.rows == orig.rows,
                self@.cols == orig.cols,
                self@.data.len() == orig.data.len(),
                other@.data.len() == orig.data.len(),
                forall|j: int| 0 <= j < i ==> self@.data[j] == other@.data[j],
            decreases n - i,
        {
            self.data[i] = other.data[i];
            i = i + 1;
        }
        proof {
            assert(self@.data =~= other@.data);
        }
    }

    /// Bulk accumulate from a matrix of the same shape: each cell becomes
    /// the sum of the old cell and `other`'s cell.
    pub fn add_from(&mut self, other: &Self)
        requires
            old(self)@.wf(),
            other@.wf(),
            old(self)@.same_shape(other@),
        ensures
            final(self)@.wf(),
            final(self)@.rows == old(self)@.rows,
            final(self)@.cols == old(self)@.cols,
            final(self)@.data.len() == old(self)@.data.len(),
            forall|i: int| 0 <= i < final(self)@.data.len() ==> final(self)@.data[i] == old(
                self,
            )@.data[i].add_spec(other@.data[i]),
    {
        let ghost orig = self@;
        let n: usize = self.data.len();
        let mut i: usize = 0;
        while i < n
            invariant
                i <= n,
                n == orig.data.len(),
                self@.rows == orig.rows,
                self@.cols == orig.cols,
                self@.data.len() == orig.data.len(),
                other@.data.len() == orig.data.len(),
                forall|j: int| 0 <= j < i ==> self@.data[j] == orig.data[j].add_spec(
                    other@.data[j],
                ),
                forall|j: int| i <= j < n ==> self@.data[j] == orig.data[j],
            decreases n - i,
        {
            let x: T = self.data[i];
            let y: T = other.data[i];
            self.data[i] = x.add(y);
            i = i + 1;
        }
    }

    /// Writes the product `a * b` into this matrix's existing storage: cell
    /// `(r, c)` becomes the dot product of row `r` of `a` and column `c` of
    /// `b`, summed in strictly increasing index order.  This is the
    /// allocation-free product used by forward propagation; the receiver must
    /// already have the product's shape.
    pub fn dot_from(&mut self, a: &Self, b: &Self)
        requires
            old(self)@.wf(),
            a@.wf(),
            b@.wf(),
            old(self)@.rows == a@.rows,
            old(self)@.cols == b@.cols,
            a@.cols == b@.rows,
        ensures
            final(self)@.wf(),
            final(self)@.rows == old(self)@.rows,
            final(self)@.cols == old(self)@.cols,
            forall|r: int, c: int|
                final(self)@.in_bounds(r, c) ==> final(self)@.cell(r, c) == product_cell(
                    a@,
                    b@,
                    r,
                    c,
                ),
    {
        let ghost orig = self@;
        let rows: usize = self.rows;
        let cols: usize = self.cols;
        let mut row: usize = 0;
        while row < rows
            invariant
                self@.wf(),
                a@.wf(),
                b@.wf(),
                self@.rows == orig.rows,
                self@.cols == orig.cols,
                self@.data.len() == orig.data.len(),
                rows == orig.rows,
                cols == orig.cols,
                orig.rows == a@.rows,
                orig.cols == b@.cols,
                a@.cols == b@.rows,
                row <= rows,
                forall|r2: int, c2: int|
                    0 <= r2 < row && 0 <= c2 < cols ==> self@.cell(r2, c2) == product_cell(
                        a@,
                        b@,
                        r2,
                        c2,
                    ),
            decreases rows - row,
        {
            let mut col: usize = 0;
            while col < cols
                invariant
                    self@.wf(),
                    a@.wf(),
                    b@.wf(),
                    self@.rows == orig.rows,
                    self@.cols == orig.cols,
                    self@.data.len() == orig.data.len(),
                    rows == orig.rows,
                    cols == orig.cols,
                    orig.rows == a@.rows,
                    orig.cols == b@.cols,
                    a@.cols == b@.rows,
                    row < rows,
                    col <= cols,
                    forall|r2: int, c2: int|
                        0 <= r2 < row && 0 <= c2 < cols ==> self@.cell(r2, c2) == product_cell(
                            a@,
                            b@,
                            r2,
                            c2,
                        ),
                    forall|c2: int|
                        0 <= c2 < col ==> self@.cell(row as int, c2) == product_cell(
                            a@,
                            b@,
                            row as int,
                            c2,
                        ),
                decreases cols - col,
            {
                let ghost before = self@;
                let k: usize = a.cols;
                let mut sum: T = T::zero();
                let mut i: usize = 0;
                while i < k
                    invariant
                        self@ == before,
                        a@.wf(),
                        b@.wf(),
                        k == a@.cols,
                        a@.cols == b@.rows,
                        row < a@.rows,
                        col < b@.cols,
                        i <= k,
                        sum == dot_prefix(a@, b@, row as int, col as int, i as int),
                    decreases k - i,
                {
                    let ai: usize = a.flat_index(row, i);
                    let bi: usize = b.flat_index(i, col);
                    let x: T = a.data[ai];
                    let y: T = b.data[bi];
                    sum = sum.add(x.mul(y));
                    i = i + 1;
                }
                let idx: usize = self.flat_index(row, col);
                self.data[idx] = sum;
                proof {
                    assert(self@.cell(row as int, col as int) == sum);
                    assert(sum == product_cell(a@, b@, row as int, col as int));
                    assert forall|r2: int, c2: int|
                        0 <= r2 < self@.rows && 0 <= c2 < self@.cols && !(r2 == row && c2 == col)
                            implies self@.cell(r2, c2) == before.cell(r2, c2) by {
                        lemma_flat_index(r2, c2, self@.rows as int, self@.cols as int);
                        if r2 * self@.cols + c2 == row * self@.cols + col {
                            lemma_flat_index_injective(
                                r2,
                                c2,
                                row as int,
                                col as int,
                                self@.cols as int,
                            );
                        }
                    }
                    assert forall|r2: int, c2: int| 0 <= r2 < row && 0 <= c2 < cols
                        implies self@.cell(r2, c2) == product_cell(a@, b@, r2, c2) by {
                        assert(before.cell(r2, c2) == product_cell(a@, b@, r2, c2));
                        assert(self@.cell(r2, c2) == before.cell(r2, c2));
                    }
                    assert forall|c2: int| 0 <= c2 <= col implies self@.cell(row as int, c2)
                        == product_cell(a@, b@, row as int, c2) by {
                        if c2 < col {
                            assert(before.cell(row as int, c2) == product_cell(
                                a@,
                                b@,
                                row as int,
                                c2,
                            ));
                            assert(self@.cell(row as int, c2) == before.cell(row as int, c2));
                        }
                    }
                }
                col = col + 1;
            }
            row = row + 1;
        }
    }

    /// The elementwise sum of this matrix and `rhs` as a fresh matrix; both
    /// operands must share a shape.
    pub fn add(&self, rhs: &Self) -> (m: Self)
        requires
            self@.wf(),
            rhs@.wf(),
            self@.same_shape(rhs@),
        ensures
            m@.wf(),
            m@ == matrix_add(self@, rhs@),
    {
        let n: usize = self.data.len();
        let mut data: Vec<T> = Vec::new();
        let mut i: usize = 0;
        while i < n
            invariant
                self@.wf(),
                rhs@.wf(),
                self@.same_shape(rhs@),
                n == self@.data.len(),
                rhs@.data.len() == n,
                i <= n,
                data@.len() == i,
                forall|j: int| 0 <= j < i ==> data@[j] == self@.data[j].add_spec(rhs@.data[j]),
            decreases n - i,
        {
            let x: T = self.data[i];
            let y: T = rhs.data[i];
            data.push(x.add(y));
            i = i + 1;
        }
        let m = Matrix { data, rows: self.rows, cols: self.cols };
        proof {
            assert(m@ =~= matrix_add(self@, rhs@));
        }
        m
    }

    /// The elementwise difference of this matrix and `rhs` as a fresh
    /// matrix; both operands must share a shape.
    pub fn sub(&self, rhs: &Self) -> (m: Self)
        requires
            self@.wf(),
            rhs@.wf(),
            self@.same_shape(rhs@),
        ensures
            m@.wf(),
            m@ == matrix_sub(self@, rhs@),
    {
        let n: usize = self.data.len();
        let mut data: Vec<T> = Vec::new();
        let mut i: usize = 0;
        while i < n
            invariant
                self@.wf(),
                rhs@.wf(),
                self@.same_shape(rhs@),
                n == self@.data.len(),
                rhs@.data.len() == n,
                i <= n,
                data@.len() == i,
                forall|j: int| 0 <= j < i ==> data@[j] == self@.data[j].sub_spec(rhs@.data[j]),
            decreases n - i,
        {
            let x: T = self.data[i];
            let y: T = rhs.data[i];
            data.push(x.sub(y));
            i = i + 1;
        }
        let m = Matrix { data, rows: self.rows, cols: self.cols };
        proof {
            assert(m@ =~= matrix_sub(self@, rhs@));
        }
        m
    }

    /// Elementwise accumulation in place: `self += rhs`; both operands must
    /// share a shape.
    pub fn add_assign(&mut self, rhs: &Self)
        requires
            old(self)@.wf(),
            rhs@.wf(),
            old(self)@.same_shape(rhs@),
        ensures
            final(self)@.wf(),
            final(self)@ == matrix_add(old(self)@, rhs@),
    {
        self.add_from(rhs);
        proof {
            assert(self@ =~= matrix_add(old(self)@, rhs@));
        }
    }

    /// Elementwise subtraction in place: `self -= rhs`; both operands must
    /// share a shape.
    pub fn sub_assign(&mut self, rhs: &Self)
        requires
            old(self)@.wf(),
            rhs@.wf(),
            old(self)@.same_shape(rhs@),
        ensures
            final(self)@.wf(),
            final(self)@ == matrix_sub(old(self)@, rhs@),
    {
        let ghost orig = self@;
        let n: usize = self.data.len();
        let mut i: usize = 0;
        while i < n
            invariant
                i <= n,
                n == orig.data.len(),
                self@.rows == orig.rows,
                self@.cols == orig.cols,
                self@.data.len() == orig.data.len(),
                rhs@.data.len() == orig.data.len(),
                forall|j: int| 0 <= j < i ==> self@.data[j] == orig.data[j].sub_spec(
                    rhs@.data[j],
                ),
                forall|j: int| i <= j < n ==> self@.data[j] == orig.data[j],
            decreases n - i,
        {
            let x: T = self.data[i];
            let y: T = rhs.data[i];
            self.data[i] = x.sub(y);
            i = i + 1;
        }
        proof {
            assert(self@ =~= matrix_sub(orig, rhs@));
        }
    }

    /// The matrix product `self * rhs` as a fresh matrix: a `rows_a x cols_a`
    /// matrix times a `rows_b x cols_b` matrix (with `cols_a == rows_b`)
    /// yields a `rows_a x cols_b` matrix whose cell `(r, c)` is the dot
    /// product of row `r` and column `c`, summed in increasing index order.
    pub fn mul(&self, rhs: &Self) -> (m: Self)
        requires
            self@.wf(),
            rhs@.wf(),
            self@.cols == rhs@.rows,
            self@.rows * rhs@.cols <= usize::MAX,
        ensures
            m@.wf(),
            m@.rows == self@.rows,
            m@.cols == rhs@.cols,
            forall|r: int, c: int|
                m@.in_bounds(r, c) ==> m@.cell(r, c) == product_cell(self@, rhs@, r, c),
    {
        let mut m: Matrix<T> = Matrix::new(self.rows, rhs.cols);
        m.dot_from(self, rhs);
        m
    }

    /// The matrix product in place: `self *= rhs`.  The product's column
    /// count generally differs from the receiver's, so this is the one
    /// mutator that must reallocate the backing storage rather than reuse it.
    pub fn mul_assign(&mut self, rhs: &Self)
        requires
            old(self)@.wf(),
            rhs@.wf(),
            old(self)@.cols == rhs@.rows,
            old(self)@.rows * rhs@.cols <= usize::MAX,
        ensures
            final(self)@.wf(),
            final(self)@.rows == old(self)@.rows,
            final(self)@.cols == rhs@.cols,
            forall|r: int, c: int|
                final(self)@.in_bounds(r, c) ==> final(self)@.cell(r, c) == product_cell(
                    old(self)@,
                    rhs@,
                    r,
                    c,
                ),
    {
        let m = self.mul(rhs);
        *self = m;
    }

    /// Gradient-descent step in place: each cell becomes
    /// `cell - rate * other_cell`; both operands must share a shape.
    pub(crate) fn sub_scaled_from(&mut self, rate: T, other: &Self)
        requires
            old(self)@.wf(),
            other@.wf(),
            old(self)@.same_shape(other@),
        ensures
            final(self)@.wf(),
            final(self)@.rows == old(self)@.rows,
            final(self)@.cols == old(self)@.cols,
            final(self)@.data.len() == old(self)@.data.len(),
            forall|i: int|
                0 <= i < final(self)@.data.len() ==> (#[trigger] final(self)@.data[i]) == old(
                    self,
                )@.data[i].sub_spec(rate.mul_spec(other@.data[i])),
    {
        let ghost orig = self@;
        let n: usize = self.data.len();
        let mut i: usize = 0;
        while i < n
            invariant
                i <= n,
                n == orig.data.len(),
                self@.rows == orig.rows,
                self@.cols == orig.cols,
                self@.data.len() == orig.data.len(),
                other@.data.len() == orig.data.len(),
                forall|j: int|
                    0 <= j < i ==> (#[trigger] self@.data[j]) == orig.data[j].sub_spec(
                        rate.mul_spec(other@.data[j]),
                    ),
                forall|j: int| i <= j < n ==> self@.data[j] == orig.data[j],
            decreases n - i,
        {
            let x: T = self.data[i];
            let y: T = other.data[i];
            self.data[i] = x.sub(rate.mul(y));
            i = i + 1;
        }
    }

    /// Overwrites every cell with `value`.
    pub fn fill(&mut self, value: T)
        requires
            old(self)@.wf(),
        ensures
            final(self)@.wf(),
            final(self)@.rows == old(self)@.rows,
            final(self)@.cols == old(self)@.cols,
            final(self)@.data.len() == old(self)@.data.len(),
            forall|i: int| 0 <= i < final(self)@.data.len() ==> final(self)@.data[i] == value,
    {
        let ghost orig = self@;
        let n: usize = self.data.len();
        let mut i: usize = 0;
        while i < n
            invariant
                i <= n,
                self@.rows == orig.rows,
                self@.cols == orig.cols,
                self@.data.len() == orig.data.len(),
                n == orig.data.len(),
                forall|j: int| 0 <= j < i ==> self@.data[j] == value,
            decreases n - i,
        {
            self.data[i] = value;
            i = i + 1;
        }
    }
}

} // verus!
