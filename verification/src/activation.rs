//! Elementwise activations and the cache that the backward pass reads.

use vstd::prelude::*;
use crate::matrix::{array_map, Grid, Matrix};
use crate::scalar::{
    relu, relu_gradient, relu_gradient_of, relu_of, relu_prime, relu_prime_of, ONE,
};

verus! {

/// What a forward activation leaves behind for the backward pass: the
/// pre-activation matrix it was applied to.
///
/// The derivative of the rectifier depends on the sign of the pre-activation,
/// which the activated matrix no longer shows, so it is the input that is kept.
pub struct ActivationCache {
    pub z: Matrix,
}

/// The rectifier applied to every entry of a grid.
pub open spec fn relu_grid(z: Grid) -> Grid {
    z.map(|x: u32| relu_of(x))
}

/// The rectifier's derivative taken at every entry of a grid.
pub open spec fn relu_prime_grid(z: Grid) -> Grid {
    z.map(|x: u32| relu_prime_of(x))
}

/// The rectifier applied to every entry of `z`, as a new matrix of the same
/// shape. No entry depends on another.
pub fn relu_elementwise(z: &Matrix) -> (a: Matrix)
    ensures
        a.wf(),
        a@ == relu_grid(z@),
        a@.rows == z@.rows && a@.cols == z@.cols,
        forall|i: int, j: int|
            0 <= i < z@.rows && 0 <= j < z@.cols ==> #[trigger] a@.at(i, j) == relu_of(
                z@.at(i, j),
            ),
{
    let _ = z.dim();
    let a = array_map(z, relu);
    proof {
        assert(a@.cells =~= z@.cells.map_values(|x: u32| relu_of(x)));
        lemma_map_entries(z@, |x: u32| relu_of(x));
    }
    a
}

/// The rectifier's derivative taken at every entry of `z`, as a new matrix of
/// the same shape.
pub fn relu_prime_elementwise(z: &Matrix) -> (d: Matrix)
    ensures
        d.wf(),
        d@ == relu_prime_grid(z@),
        d@.rows == z@.rows && d@.cols == z@.cols,
        forall|i: int, j: int|
            0 <= i < z@.rows && 0 <= j < z@.cols ==> #[trigger] d@.at(i, j) == relu_prime_of(
                z@.at(i, j),
            ),
{
    let _ = z.dim();
    let d = array_map(z, relu_prime);
    proof {
        assert(d@.cells =~= z@.cells.map_values(|x: u32| relu_prime_of(x)));
        lemma_map_entries(z@, |x: u32| relu_prime_of(x));
    }
    d
}

/// Forward pass of a rectifier layer: the activated matrix, and a cache that
/// takes ownership of the pre-activation matrix `z`.
pub fn relu_activation(z: Matrix) -> (r: (Matrix, ActivationCache))
    ensures
        r.0.wf(),
        r.0@ == relu_grid(z@),
        r.1.z == z,
{
    let a = relu_elementwise(&z);
    (a, ActivationCache { z })
}

/// The gradient that flows back through a rectifier layer, as a grid: at each
/// position the upstream gradient times the derivative at the pre-activation.
pub open spec fn relu_backward_grid(da: Grid, z: Grid) -> Grid {
    Grid {
        rows: da.rows,
        cols: da.cols,
        cells: Seq::new(da.cells.len(), |k: int| relu_gradient_of(da.cells[k], z.cells[k])),
    }
}

/// The grid of the shape of `z` whose every entry is one.
pub open spec fn ones_like(z: Grid) -> Grid {
    Grid { rows: z.rows, cols: z.cols, cells: Seq::new(z.cells.len(), |k: int| ONE) }
}

/// Backward pass of a rectifier layer: the upstream gradient `da` times, entry
/// by entry, the rectifier's derivative at the pre-activation `z`. The two
/// matrices must have the same shape; `z` is used up.
pub fn relu_backward(da: &Matrix, z: Matrix) -> (dz: Matrix)
    requires
        da@.rows == z@.rows,
        da@.cols == z@.cols,
    ensures
        dz.wf(),
        dz@ == relu_backward_grid(da@, z@),
        dz@.rows == da@.rows && dz@.cols == da@.cols,
        forall|i: int, j: int|
            0 <= i < da@.rows && 0 <= j < da@.cols ==> #[trigger] dz@.at(i, j) == relu_gradient_of(
                da@.at(i, j),
                z@.at(i, j),
            ),
{
    let (rows, cols) = da.dim();
    let _ = z.dim();
    let mut cells: Vec<u32> = Vec::new();
    let mut i: usize = 0;
    while i < rows
        invariant
            i <= rows,
            rows == da@.rows,
            cols == da@.cols,
            rows == z@.rows,
            cols == z@.cols,
            da@.wf(),
            z@.wf(),
            i * cols <= rows * cols,
            cells@ == relu_backward_grid(da@, z@).cells.take(i * cols),
        decreases rows - i,
    {
        let mut j: usize = 0;
        while j < cols
            invariant
                i < rows,
                j <= cols,
                rows == da@.rows,
                cols == da@.cols,
                rows == z@.rows,
                cols == z@.cols,
                da@.wf(),
                z@.wf(),
                i * cols + j <= rows * cols,
                cells@ == relu_backward_grid(da@, z@).cells.take(i * cols + j),
            decreases cols - j,
        {
            proof {
                crate::matrix::lemma_cell_index(rows as nat, cols as nat, i as int, j as int);
            }
            match (da.get(i, j), z.get(i, j)) {
                (Some(g), Some(x)) => {
                    cells.push(relu_gradient(g, x));
                },
                _ => {},
            }
            assert(cells@ =~= relu_backward_grid(da@, z@).cells.take(i * cols + j + 1));
            j += 1;
        }
        proof {
            assert((i + 1) * cols == i * cols + cols) by (nonlinear_arith);
            assert((i + 1) * cols <= rows * cols) by (nonlinear_arith)
                requires
                    i + 1 <= rows,
                    cols >= 0,
            ;
        }
        i += 1;
    }
    assert(cells@ =~= relu_backward_grid(da@, z@).cells);
    let dz = Matrix::from_shape_vec(rows, cols, cells).unwrap();
    proof {
        assert forall|i: int, j: int| 0 <= i < da@.rows && 0 <= j < da@.cols implies #[trigger] dz@.at(
            i,
            j,
        ) == relu_gradient_of(da@.at(i, j), z@.at(i, j)) by {
            crate::matrix::lemma_cell_index(rows as nat, cols as nat, i, j);
        }
    }
    dz
}

/// Forward and backward agree: with an upstream gradient of ones, what flows
/// back through a rectifier layer is the rectifier's derivative at the
/// pre-activation, entry by entry.
pub proof fn lemma_backward_of_ones(z: Grid)
    ensures
        relu_backward_grid(ones_like(z), z) == relu_prime_grid(z),
{
    assert(relu_backward_grid(ones_like(z), z).cells =~= relu_prime_grid(z).cells);
}

/// In a well-formed grid, mapping a function over the entries changes the
/// entry at each position to the function's value there.
pub proof fn lemma_map_entries(g: Grid, f: spec_fn(u32) -> u32)
    requires
        g.wf(),
    ensures
        g.map(f).wf(),
        forall|i: int, j: int|
            0 <= i < g.rows && 0 <= j < g.cols ==> #[trigger] g.map(f).at(i, j) == f(g.at(i, j)),
{
    assert forall|i: int, j: int| 0 <= i < g.rows && 0 <= j < g.cols implies #[trigger] g.map(f).at(
        i,
        j,
    ) == f(g.at(i, j)) by {
        crate::matrix::lemma_cell_index(g.rows, g.cols, i, j);
    }
}

} // verus!
