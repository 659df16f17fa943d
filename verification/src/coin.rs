//! The coin matrices of the walk.
//!
//! A coin is a 2×2 complex matrix with a factor `1/√2` in front. The matrix
//! is held without that factor, so that its entries are Gaussian integers;
//! the operator that applies a coin accounts for the factor in the scale of
//! the state.

use num::complex::Complex;
use num::BigInt;
use vstd::prelude::*;

use crate::lattice::matrix_entries;
use crate::lattice::Matrix;
use crate::number::complex_neg;
use crate::number::complex_new;
use crate::number::complex_parts;
use crate::wave::kernel_x;
use crate::wave::kernel_y;
use crate::wave::Kernel;

verus! {

impl View for Matrix {
    type V = Kernel;

    /// The four entries of a 2×2 matrix, read as a coin times `√2`.
    open spec fn view(&self) -> Kernel {
        Kernel {
            k00: matrix_entries(*self)[(0, 0)],
            k01: matrix_entries(*self)[(0, 1)],
            k10: matrix_entries(*self)[(1, 0)],
            k11: matrix_entries(*self)[(1, 1)],
        }
    }
}

impl Matrix {
    /// The matrix has the four entries of a coin.
    pub open spec fn is_coin(&self) -> bool {
        &&& matrix_entries(*self).dom().contains((0, 0))
        &&& matrix_entries(*self).dom().contains((0, 1))
        &&& matrix_entries(*self).dom().contains((1, 0))
        &&& matrix_entries(*self).dom().contains((1, 1))
    }

    /// The entry in row `r` and column `c` of a coin, times `√2`.
    pub fn entry(&self, r: usize, c: usize) -> (v: Complex<BigInt>)
        requires
            self.is_coin(),
            r < 2,
            c < 2,
        ensures
            complex_parts(v) == (if r == 0 {
                if c == 0 {
                    self@.k00
                } else {
                    self@.k01
                }
            } else {
                if c == 0 {
                    self@.k10
                } else {
                    self@.k11
                }
            }),
    {
        self.at(r, c)
    }
}

/// The coin of the X axis, `1/√2 · [[1, i], [i, 1]]`.
pub fn coin_x() -> (c: Matrix)
    ensures
        c.is_coin(),
        c@ == kernel_x(),
{
    Matrix::square(complex_new(1, 0), complex_new(0, 1), complex_new(0, 1), complex_new(1, 0))
}

/// The coin of the Y axis, `1/√2 · [[1, −i], [−i, 1]]`.
pub fn coin_y() -> (c: Matrix)
    ensures
        c.is_coin(),
        c@ == kernel_y(),
{
    let i = complex_new(0, 1);
    Matrix::square(complex_new(1, 0), complex_neg(&i), complex_neg(&i), complex_new(1, 0))
}

} // verus!
