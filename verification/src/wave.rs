//! The mathematical model of the walk.
//!
//! A [`Wave`] is the walker's state in exact form: a Gaussian integer at each
//! of the `2·n²` sites `(row, column, component)`, over one real scale shared
//! by all of them. The amplitude at a site is its Gaussian integer divided by
//! the square root of the scale, so a squared modulus is a ratio of integers.

use vstd::prelude::*;

use crate::lattice::in_grid;
use crate::sums::sum_below;
use crate::sums::sum_over;
use crate::torus::cell_col;
use crate::torus::cell_row;
use crate::torus::down;
use crate::torus::marked;
use crate::torus::up;

verus! {

/// `a + b` for Gaussian integers given as `(re, im)`.
pub open spec fn gauss_sum(a: (int, int), b: (int, int)) -> (int, int) {
    (a.0 + b.0, a.1 + b.1)
}

/// `a · b` for Gaussian integers given as `(re, im)`.
pub open spec fn gauss_product(a: (int, int), b: (int, int)) -> (int, int) {
    (a.0 * b.0 - a.1 * b.1, a.0 * b.1 + a.1 * b.0)
}

/// `−a` for a Gaussian integer given as `(re, im)`.
pub open spec fn gauss_negated(a: (int, int)) -> (int, int) {
    (-a.0, -a.1)
}

/// The complex conjugate of a Gaussian integer given as `(re, im)`.
pub open spec fn gauss_conjugate(a: (int, int)) -> (int, int) {
    (a.0, -a.1)
}

/// The squared modulus `re² + im²`.
pub open spec fn gauss_norm(a: (int, int)) -> int {
    a.0 * a.0 + a.1 * a.1
}

/// A 2×2 coin matrix, given by its entries times `√2`: the coin that is
/// applied is `1/√2 · [[k00, k01], [k10, k11]]`.
pub struct Kernel {
    pub k00: (int, int),
    pub k01: (int, int),
    pub k10: (int, int),
    pub k11: (int, int),
}

impl Kernel {
    /// The coin is unitary: the columns of `K` are orthogonal and each has
    /// the squared length 2, so that `K†·K = 2·I`.
    pub open spec fn unitary(self) -> bool {
        &&& gauss_norm(self.k00) + gauss_norm(self.k10) == 2
        &&& gauss_norm(self.k01) + gauss_norm(self.k11) == 2
        &&& gauss_sum(
            gauss_product(gauss_conjugate(self.k00), self.k01),
            gauss_product(gauss_conjugate(self.k10), self.k11),
        ) == (0int, 0int)
    }
}

/// The coin of the X axis, `1/√2 · [[1, i], [i, 1]]`.
pub open spec fn kernel_x() -> Kernel {
    Kernel { k00: (1, 0), k01: (0, 1), k10: (0, 1), k11: (1, 0) }
}

/// The coin of the Y axis, `1/√2 · [[1, −i], [−i, 1]]`.
pub open spec fn kernel_y() -> Kernel {
    Kernel { k00: (1, 0), k01: (0, -1), k10: (0, -1), k11: (1, 0) }
}

/// A probability as an exact ratio `num / den`, not reduced.
pub struct Chance {
    pub num: int,
    pub den: int,
}

/// The walker's state on the `side × side` torus: the amplitude at the site
/// `s` is `amp[s] / √scale`.
pub struct Wave {
    pub side: nat,
    pub amp: Map<(int, int, int), (int, int)>,
    pub scale: int,
}

impl Wave {
    /// The grid is not empty, every site of it has an amplitude, and the
    /// scale is positive.
    pub open spec fn wf(self) -> bool {
        &&& self.side >= 1
        &&& self.scale >= 1
        &&& self.amp.dom() =~= Set::new(|s: (int, int, int)| in_grid(self.side, s))
    }

    /// The coin applied to the two components of every cell: each pair
    /// `(ψ0, ψ1)` becomes `C · (ψ0, ψ1)`. The factor `1/√2` of the coin
    /// doubles the scale.
    pub open spec fn coin(self, c: Kernel) -> Wave {
        Wave {
            side: self.side,
            amp: Map::new(
                |s: (int, int, int)| in_grid(self.side, s),
                |s: (int, int, int)|
                    if s.2 == 0 {
                        gauss_sum(
                            gauss_product(self.amp[(s.0, s.1, 0)], c.k00),
                            gauss_product(self.amp[(s.0, s.1, 1)], c.k01),
                        )
                    } else {
                        gauss_sum(
                            gauss_product(self.amp[(s.0, s.1, 0)], c.k10),
                            gauss_product(self.amp[(s.0, s.1, 1)], c.k11),
                        )
                    },
            ),
            scale: 2 * self.scale,
        }
    }

    /// The cyclic shift along the rows: component 0 of a cell comes from the
    /// row after it, component 1 from the row before it.
    pub open spec fn scatter_x(self) -> Wave {
        Wave {
            side: self.side,
            amp: Map::new(
                |s: (int, int, int)| in_grid(self.side, s),
                |s: (int, int, int)|
                    if s.2 == 0 {
                        self.amp[(up(s.0, self.side), s.1, 0)]
                    } else {
                        self.amp[(down(s.0, self.side), s.1, 1)]
                    },
            ),
            scale: self.scale,
        }
    }

    /// The cyclic shift along the columns: component 0 of a cell comes from
    /// the column after it, component 1 from the column before it.
    pub open spec fn scatter_y(self) -> Wave {
        Wave {
            side: self.side,
            amp: Map::new(
                |s: (int, int, int)| in_grid(self.side, s),
                |s: (int, int, int)|
                    if s.2 == 0 {
                        self.amp[(s.0, up(s.1, self.side), 0)]
                    } else {
                        self.amp[(s.0, down(s.1, self.side), 1)]
                    },
            ),
            scale: self.scale,
        }
    }

    /// The oracle: at every marked cell the two components are swapped and
    /// negated; every other cell stays as it is.
    pub open spec fn oracle(self, search: Seq<usize>) -> Wave {
        Wave {
            side: self.side,
            amp: Map::new(
                |s: (int, int, int)| in_grid(self.side, s),
                |s: (int, int, int)|
                    if marked(search, self.side, s.0, s.1) {
                        gauss_negated(self.amp[(s.0, s.1, 1 - s.2)])
                    } else {
                        self.amp[s]
                    },
            ),
            scale: self.scale,
        }
    }

    /// One step of the walk: oracle, X coin, X scatter, Y coin, Y scatter.
    pub open spec fn tick(self, search: Seq<usize>) -> Wave {
        self.oracle(search).coin(kernel_x()).scatter_x().coin(kernel_y()).scatter_y()
    }

    /// The squared modulus of component `c` at the cell with the flattened
    /// index `k`, in units of `1 / scale`.
    pub open spec fn part_weight(self, c: int, k: int) -> int {
        gauss_norm(self.amp[(cell_row(k, self.side), cell_col(k, self.side), c)])
    }

    /// The squared moduli of both components at the cell with the flattened
    /// index `k`, in units of `1 / scale`.
    pub open spec fn weight_at(self, k: int) -> int {
        self.part_weight(0, k) + self.part_weight(1, k)
    }

    /// The squared moduli of all amplitudes, in units of `1 / scale`.
    pub open spec fn total_weight(self) -> int {
        sum_below(|k: int| self.weight_at(k), (self.side * self.side) as int)
    }

    /// The squared moduli at the listed cells, in units of `1 / scale`; a
    /// cell listed twice counts twice.
    pub open spec fn hit_weight(self, search: Seq<usize>) -> int {
        sum_over(|k: int| self.weight_at(k), search)
    }

    /// The probability of finding the walker at one of the listed cells.
    pub open spec fn measure(self, search: Seq<usize>) -> Chance {
        Chance { num: self.hit_weight(search), den: self.scale }
    }

    /// The squared moduli of all amplitudes add up to one.
    pub open spec fn normalized(self) -> bool {
        self.total_weight() == self.scale
    }
}

/// The uniform superposition on the `n × n` torus: every one of the `2·n²`
/// amplitudes is `1 / √(2·n²)`.
pub open spec fn uniform(n: nat) -> Wave {
    Wave {
        side: n,
        amp: Map::new(|s: (int, int, int)| in_grid(n, s), |s: (int, int, int)| (1int, 0int)),
        scale: (2 * n * n) as int,
    }
}

/// The state after `t` steps of the walk from the uniform superposition.
pub open spec fn walk(n: nat, t: nat, search: Seq<usize>) -> Wave
    decreases t,
{
    if t == 0 {
        uniform(n)
    } else {
        walk(n, (t - 1) as nat, search).tick(search)
    }
}

/// The probability of success after exactly `t` steps.
pub open spec fn success(n: nat, t: nat, search: Seq<usize>) -> Chance {
    walk(n, t, search).measure(search)
}

/// The probabilities of success after `0`, `1`, …, `m` steps.
pub open spec fn trajectory(n: nat, m: nat, search: Seq<usize>) -> Seq<Chance> {
    Seq::new(m + 1, |t: int| success(n, t as nat, search))
}

} // verus!
