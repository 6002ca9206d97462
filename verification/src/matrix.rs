//! Two-dimensional arrays of scalars.
//!
//! The storage is an `ndarray` array of bit patterns. Verus sees none of it:
//! what a matrix holds is named by two uninterpreted functions, and the few
//! `ndarray` operations used here are stated over those names.

use vstd::prelude::*;

verus! {

/// Mathematical model of a matrix: its shape and its entries in row-major
/// order (all columns of row 0, then all columns of row 1, and so on).
pub struct Grid {
    pub rows: nat,
    pub cols: nat,
    pub cells: Seq<u32>,
}

impl Grid {
    /// The entries fill the shape exactly.
    pub open spec fn wf(self) -> bool {
        self.cells.len() == self.rows * self.cols
    }

    /// The entry in row `i`, column `j`.
    pub open spec fn at(self, i: int, j: int) -> u32 {
        self.cells[i * self.cols + j]
    }

    /// Whether a matrix can hold this grid: the entries fill the shape, both
    /// axis lengths are machine sizes, and the shape is within the size limit.
    pub open spec fn storable(self) -> bool {
        &&& self.wf()
        &&& self.rows <= usize::MAX
        &&& self.cols <= usize::MAX
        &&& shape_fits(self.rows, self.cols)
    }

    /// The transpose: the entry at `(j, i)` is this grid's entry at `(i, j)`.
    pub open spec fn transposed(self) -> Grid {
        Grid {
            rows: self.cols,
            cols: self.rows,
            cells: Seq::new(
                self.cells.len(),
                |k: int| self.at(k % (self.rows as int), k / (self.rows as int)),
            ),
        }
    }

    /// The grid of the same shape whose every entry is `f` of this grid's
    /// entry at the same position.
    pub open spec fn map(self, f: spec_fn(u32) -> u32) -> Grid {
        Grid { rows: self.rows, cols: self.cols, cells: self.cells.map_values(f) }
    }
}

/// An axis length as it counts towards the size limit: a zero-length axis
/// counts as one.
pub open spec fn axis_weight(n: nat) -> nat {
    if n == 0 {
        1
    } else {
        n
    }
}

/// Whether a shape is within the size limit of the array storage: the product
/// of its non-zero axis lengths does not exceed `isize::MAX`.
pub open spec fn shape_fits(rows: nat, cols: nat) -> bool {
    axis_weight(rows) * axis_weight(cols) <= isize::MAX
}

/// The shape `(rows, cols)` of the array inside a matrix.
pub uninterp spec fn matrix_shape(m: Matrix) -> (nat, nat);

/// The entries of the array inside a matrix, in row-major index order.
pub uninterp spec fn matrix_cells(m: Matrix) -> Seq<u32>;

/// A matrix of scalars, stored as an `ndarray::Array2<u32>` of bit patterns.
///
/// The array is hidden from the verifier; `matrix_shape` and `matrix_cells`
/// stand for its contents.
#[verifier::external_body]
pub struct Matrix {
    inner: ndarray::Array2<u32>,
}

/// The error type of `ndarray`'s shape checks.
#[verifier::external_type_specification]
#[verifier::external_body]
pub struct ExShapeError(ndarray::ShapeError);

impl View for Matrix {
    type V = Grid;

    open spec fn view(&self) -> Grid {
        Grid {
            rows: matrix_shape(*self).0,
            cols: matrix_shape(*self).1,
            cells: matrix_cells(*self),
        }
    }
}

/// Position `(i, j)` of a `rows` by `cols` grid lies inside its row-major
/// sequence.
pub proof fn lemma_cell_index(rows: nat, cols: nat, i: int, j: int)
    requires
        0 <= i < rows,
        0 <= j < cols,
    ensures
        0 <= i * cols + j < rows * cols,
        i * cols + j < (i + 1) * cols,
{
    assert(i * cols >= 0) by (nonlinear_arith)
        requires
            i >= 0,
            cols >= 0,
    ;
    assert((i + 1) * cols <= rows * cols) by (nonlinear_arith)
        requires
            i + 1 <= rows,
            cols >= 0,
    ;
    assert((i + 1) * cols == i * cols + cols) by (nonlinear_arith);
}

/// `ndarray::Array2::from_shape_vec` with the shape `(rows, cols)`.
///
/// It succeeds exactly when the shape is within the size limit and `cells`
/// has `rows * cols` elements; the array then has that shape and holds
/// `cells` in row-major order.
#[verifier::external_body]
fn array_from_shape_vec(rows: usize, cols: usize, cells: Vec<u32>) -> (r: Result<Matrix, ndarray::ShapeError>)
    ensures
        r is Ok <==> (shape_fits(rows as nat, cols as nat) && cells@.len() == rows * cols),
        r matches Ok(m) ==> matrix_shape(m) == (rows as nat, cols as nat),
        r matches Ok(m) ==> matrix_cells(m) == cells@,
{
    ndarray::Array2::from_shape_vec((rows, cols), cells).map(|inner| Matrix { inner })
}

/// `ndarray`'s `dim` on a two-dimensional array.
///
/// It returns the shape. Every array has as many entries as its shape says,
/// and a shape within the size limit.
#[verifier::external_body]
fn array_dim(m: &Matrix) -> (r: (usize, usize))
    ensures
        matrix_shape(*m) == (r.0 as nat, r.1 as nat),
        matrix_cells(*m).len() == r.0 * r.1,
        shape_fits(r.0 as nat, r.1 as nat),
{
    m.inner.dim()
}

/// `ndarray`'s `get` with the index `(i, j)`.
///
/// It returns the entry at that position, or nothing where the position lies
/// outside the shape.
#[verifier::external_body]
fn array_get(m: &Matrix, i: usize, j: usize) -> (r: Option<u32>)
    ensures
        i < m@.rows && j < m@.cols ==> r == Some(m@.at(i as int, j as int)),
        !(i < m@.rows && j < m@.cols) ==> r is None,
{
    m.inner.get((i, j)).copied()
}

/// `ndarray`'s `reversed_axes` on a two-dimensional array.
///
/// The result is the transpose: the two axis lengths change places and the
/// entry at `(j, i)` is the former entry at `(i, j)`.
#[verifier::external_body]
fn array_reversed_axes(m: Matrix) -> (r: Matrix)
    ensures
        r@.rows == m@.cols,
        r@.cols == m@.rows,
        r@.cells.len() == m@.cells.len(),
        forall|i: int, j: int|
            0 <= i < m@.rows && 0 <= j < m@.cols ==> #[trigger] r@.at(j, i) == m@.at(i, j),
{
    Matrix { inner: m.inner.reversed_axes() }
}

/// `ndarray`'s `map`.
///
/// The result has the shape of `m`, and each entry is what `f` returned for
/// the entry of `m` at the same position.
#[verifier::external_body]
pub(crate) fn array_map<F: Fn(u32) -> u32>(m: &Matrix, f: F) -> (r: Matrix)
    requires
        forall|z: u32| call_requires(f, (z,)),
    ensures
        r@.rows == m@.rows,
        r@.cols == m@.cols,
        r@.cells.len() == m@.cells.len(),
        forall|k: int|
            0 <= k < m@.cells.len() ==> call_ensures(f, (m@.cells[k],), #[trigger] r@.cells[k]),
{
    Matrix { inner: m.inner.map(|z| f(*z)) }
}

impl Matrix {
    /// What holds of every matrix: its grid is one that a matrix can hold.
    pub open spec fn wf(&self) -> bool {
        self@.storable()
    }

    /// Builds the `rows` by `cols` matrix that holds `cells` in row-major
    /// order. There is no such matrix when `cells` has another length than
    /// `rows * cols`, or when the shape is beyond the size limit.
    pub fn from_shape_vec(rows: usize, cols: usize, cells: Vec<u32>) -> (r: Option<Matrix>)
        ensures
            r is Some <==> (shape_fits(rows as nat, cols as nat) && cells@.len() == rows * cols),
            r matches Some(m) ==> m.wf() && m@ == (Grid {
                rows: rows as nat,
                cols: cols as nat,
                cells: cells@,
            }),
    {
        match array_from_shape_vec(rows, cols, cells) {
            Ok(m) => Some(m),
            Err(_) => None,
        }
    }

    /// The shape as `(rows, cols)`.
    pub fn dim(&self) -> (r: (usize, usize))
        ensures
            r.0 == self@.rows,
            r.1 == self@.cols,
            self.wf(),
    {
        array_dim(self)
    }

    /// The number of rows.
    pub fn rows(&self) -> (r: usize)
        ensures
            r == self@.rows,
            self.wf(),
    {
        array_dim(self).0
    }

    /// The number of columns.
    pub fn cols(&self) -> (r: usize)
        ensures
            r == self@.cols,
            self.wf(),
    {
        array_dim(self).1
    }

    /// The entry in row `i`, column `j`, if the matrix has that position.
    pub fn get(&self, i: usize, j: usize) -> (r: Option<u32>)
        ensures
            r == (if i < self@.rows && j < self@.cols {
                Some(self@.at(i as int, j as int))
            } else {
                None
            }),
    {
        array_get(self, i, j)
    }

    /// All entries in row-major order.
    pub fn to_vec(&self) -> (cells: Vec<u32>)
        ensures
            cells@ == self@.cells,
            self.wf(),
    {
        let (rows, cols) = array_dim(self);
        let mut cells: Vec<u32> = Vec::new();
        let mut i: usize = 0;
        while i < rows
            invariant
                i <= rows,
                rows == self@.rows,
                cols == self@.cols,
                self@.wf(),
                i * cols <= rows * cols,
                cells@ == self@.cells.take(i * cols),
            decreases rows - i,
        {
            let mut j: usize = 0;
            while j < cols
                invariant
                    i < rows,
                    j <= cols,
                    rows == self@.rows,
                    cols == self@.cols,
                    self@.wf(),
                    i * cols + j <= rows * cols,
                    cells@ == self@.cells.take(i * cols + j),
                decreases cols - j,
            {
                proof {
                    lemma_cell_index(rows as nat, cols as nat, i as int, j as int);
                }
                match array_get(self, i, j) {
                    Some(x) => {
                        cells.push(x);
                    },
                    None => {},
                }
                assert(cells@ =~= self@.cells.take(i * cols + j + 1));
                j += 1;
            }
            proof {
                assert((i + 1) * cols == i * cols + cols) by (nonlinear_arith);
                assert((i + 1) * cols <= rows * cols) by (nonlinear_arith)
                    requires
                        i + 1 <= rows,
                        cols >= 0,
                ;
            }
            i += 1;
        }
        assert(cells@ =~= self@.cells);
        cells
    }

    /// The transpose of this matrix.
    pub fn transposed(self) -> (r: Matrix)
        ensures
            r.wf(),
            r@ == self@.transposed(),
            forall|i: int, j: int|
                0 <= i < self@.rows && 0 <= j < self@.cols ==> #[trigger] r@.at(j, i) == self@.at(
                    i,
                    j,
                ),
    {
        let ghost before = self@;
        let _ = array_dim(&self);
        let r = array_reversed_axes(self);
        proof {
            assert(before.rows * before.cols == before.cols * before.rows) by (nonlinear_arith);
            assert(axis_weight(before.rows) * axis_weight(before.cols) == axis_weight(before.cols)
                * axis_weight(before.rows)) by (nonlinear_arith);
            lemma_transposed_cells(before, r@);
        }
        r
    }
}

/// A grid whose shape is that of `g` with the axes exchanged and whose entry at
/// `(j, i)` is always `g`'s entry at `(i, j)` is the transpose of `g`.
pub proof fn lemma_transposed_cells(g: Grid, t: Grid)
    requires
        g.wf(),
        t.rows == g.cols,
        t.cols == g.rows,
        t.cells.len() == g.cells.len(),
        forall|i: int, j: int| 0 <= i < g.rows && 0 <= j < g.cols ==> #[trigger] t.at(j, i) == g.at(i, j),
    ensures
        t == g.transposed(),
{
    let rows = g.rows as int;
    let cols = g.cols as int;
    assert forall|k: int| 0 <= k < t.cells.len() implies t.cells[k] == g.transposed().cells[k] by {
        assert(rows > 0) by (nonlinear_arith)
            requires
                0 <= k < rows * cols,
                rows >= 0,
                cols >= 0,
        ;
        let i = k % rows;
        let j = k / rows;
        vstd::arithmetic::div_mod::lemma_fundamental_div_mod(k, rows);
        vstd::arithmetic::div_mod::lemma_mod_bound(k, rows);
        assert(k == rows * j + i);
        assert(0 <= j < cols) by (nonlinear_arith)
            requires
                k == rows * j + i,
                0 <= i < rows,
                0 <= k < rows * cols,
        ;
        assert(j * rows + i == k) by (nonlinear_arith)
            requires
                k == rows * j + i,
        ;
        assert(t.at(j, i) == g.at(i, j));
    }
    assert(t.cells =~= g.transposed().cells);
}

} // verus!
