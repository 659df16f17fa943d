//! The dense arrays of `ndarray` that hold the walker's amplitudes and the
//! coin matrix.
//!
//! Nothing in this file is proved. An array is opaque to the verifier; what it
//! holds is named by [`lattice_cells`] and [`matrix_entries`], and each method
//! below says over those names what the indexing of `ndarray` does.

use ndarray::Array2;
use ndarray::Array3;
use num::complex::Complex;
use num::BigInt;
use vstd::prelude::*;

use crate::number::complex_parts;

verus! {

/// An upper bound on the bytes that one `Complex<BigInt>` takes inside an
/// array (on a 64-bit target it takes exactly this many).
pub const AMPLITUDE_BYTES: usize = 64;

/// An `Array3<Complex<BigInt>>` of shape `(n, n, 2)`.
#[verifier::external_body]
pub struct Lattice {
    cells: Array3<Complex<BigInt>>,
}

/// A two-dimensional `Array2<Complex<BigInt>>`.
#[verifier::external_body]
pub struct Matrix {
    entries: Array2<Complex<BigInt>>,
}

/// The length `n` of the first two axes of a lattice.
pub uninterp spec fn lattice_side(l: Lattice) -> nat;

/// What a lattice holds: at the index `(i, j, k)` the real and the imaginary
/// part of the element `[[i, j, k]]`.
pub uninterp spec fn lattice_cells(l: Lattice) -> Map<(int, int, int), (int, int)>;

/// What a matrix holds: at the index `(r, c)` the real and the imaginary part
/// of the element `[[r, c]]`.
pub uninterp spec fn matrix_entries(m: Matrix) -> Map<(int, int), (int, int)>;

/// The indices of an array of shape `(n, n, 2)`.
pub open spec fn in_grid(n: nat, s: (int, int, int)) -> bool {
    0 <= s.0 < n && 0 <= s.1 < n && 0 <= s.2 < 2
}

/// An array of shape `(n, n, 2)` can be allocated: its bytes fit in `isize`.
pub open spec fn grid_fits(n: nat) -> bool {
    2 * n * n * AMPLITUDE_BYTES <= isize::MAX
}

/// The entries of the 2×2 matrix with the rows `[a, b]` and `[c, d]`.
pub open spec fn square_entries(a: (int, int), b: (int, int), c: (int, int), d: (int, int)) -> Map<
    (int, int),
    (int, int),
> {
    Map::new(
        |p: (int, int)| 0 <= p.0 < 2 && 0 <= p.1 < 2,
        |p: (int, int)|
            if p.0 == 0 {
                if p.1 == 0 {
                    a
                } else {
                    b
                }
            } else {
                if p.1 == 0 {
                    c
                } else {
                    d
                }
            },
    )
}

impl Lattice {
    /// `Array3::zeros` with the shape `(n, n, 2)`: every element is `0`.
    /// The bound keeps the allocation of `ndarray` from panicking.
    #[verifier::external_body]
    pub(crate) fn zeros(n: usize) -> (r: Lattice)
        requires
            grid_fits(n as nat),
        ensures
            lattice_side(r) == n,
            lattice_cells(r) == Map::new(
                |s: (int, int, int)| in_grid(n as nat, s),
                |s: (int, int, int)| (0int, 0int),
            ),
    {
        Lattice { cells: Array3::zeros((n, n, 2)) }
    }

    /// `Array3::ones` with the shape `(n, n, 2)`: every element is `1`.
    /// The bound keeps the allocation of `ndarray` from panicking.
    #[verifier::external_body]
    pub(crate) fn ones(n: usize) -> (r: Lattice)
        requires
            grid_fits(n as nat),
        ensures
            lattice_side(r) == n,
            lattice_cells(r) == Map::new(
                |s: (int, int, int)| in_grid(n as nat, s),
                |s: (int, int, int)| (1int, 0int),
            ),
    {
        Lattice { cells: Array3::ones((n, n, 2)) }
    }

    /// `shape()[0]`: the length of the first axis.
    #[verifier::external_body]
    pub(crate) fn side(&self) -> (n: usize)
        ensures
            n == lattice_side(*self),
    {
        self.cells.shape()[0]
    }

    /// A copy of the element `[[i, j, k]]`. The index is within the shape, so
    /// the indexing of `ndarray` does not panic.
    #[verifier::external_body]
    pub(crate) fn at(&self, i: usize, j: usize, k: usize) -> (v: Complex<BigInt>)
        requires
            in_grid(lattice_side(*self), (i as int, j as int, k as int)),
        ensures
            complex_parts(v) == lattice_cells(*self)[(i as int, j as int, k as int)],
    {
        self.cells[[i, j, k]].clone()
    }

    /// Assigns `v` to the element `[[i, j, k]]`: that element changes, no
    /// other does, and the shape stays.
    #[verifier::external_body]
    pub(crate) fn put(&mut self, i: usize, j: usize, k: usize, v: Complex<BigInt>)
        requires
            in_grid(lattice_side(*old(self)), (i as int, j as int, k as int)),
        ensures
            lattice_side(*final(self)) == lattice_side(*old(self)),
            lattice_cells(*final(self)) == lattice_cells(*old(self)).insert(
                (i as int, j as int, k as int),
                complex_parts(v),
            ),
    {
        self.cells[[i, j, k]] = v;
    }
}

impl Matrix {
    /// `Array2::from` on the two rows `[a, b]` and `[c, d]`: the 2×2 matrix
    /// with these four elements.
    #[verifier::external_body]
    pub(crate) fn square(
        a: Complex<BigInt>,
        b: Complex<BigInt>,
        c: Complex<BigInt>,
        d: Complex<BigInt>,
    ) -> (r: Matrix)
        ensures
            matrix_entries(r) == square_entries(
                complex_parts(a),
                complex_parts(b),
                complex_parts(c),
                complex_parts(d),
            ),
    {
        Matrix { entries: Array2::from(vec![[a, b], [c, d]]) }
    }

    /// A copy of the element `[[r, c]]`, for an index that the matrix has.
    #[verifier::external_body]
    pub(crate) fn at(&self, r: usize, c: usize) -> (v: Complex<BigInt>)
        requires
            matrix_entries(*self).dom().contains((r as int, c as int)),
        ensures
            complex_parts(v) == matrix_entries(*self)[(r as int, c as int)],
    {
        self.entries[[r, c]].clone()
    }
}

} // verus!
