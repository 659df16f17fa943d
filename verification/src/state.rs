//! The walker's state in memory, and the operators that advance it.
//!
//! A [`State`] holds one `Complex<BigInt>` per site in an `ndarray` array of
//! shape `(n, n, 2)`, and the integer scale they share. Every operator reads
//! a snapshot of the state taken before it writes, and its contract gives the
//! new state as the matching operator of [`Wave`] applied to the old one.

use num::complex::Complex;
use num::BigInt;
use vstd::prelude::*;

use crate::coin::coin_x;
use crate::coin::coin_y;
use crate::lattice::grid_fits;
use crate::lattice::AMPLITUDE_BYTES;
use crate::lattice::in_grid;
use crate::lattice::lattice_cells;
use crate::lattice::lattice_side;
use crate::lattice::Lattice;
use crate::lattice::Matrix;
use crate::number::big_add;
use crate::number::big_clone;
use crate::number::big_from;
use crate::number::big_value;
use crate::number::complex_add;
use crate::number::complex_mul;
use crate::number::complex_neg;
use crate::number::complex_new;
use crate::number::complex_norm_sqr;
use crate::number::complex_parts;
use crate::torus::cell_col;
use crate::torus::cell_row;
use crate::torus::lemma_cell_of_index;
use crate::torus::lemma_index_of_cell;
use crate::torus::lemma_step;
use crate::torus::marked;
use crate::torus::targets_valid;
use crate::unitarity::lemma_coin_weight;
use crate::unitarity::lemma_measure_bounded;
use crate::unitarity::lemma_oracle_weight;
use crate::unitarity::lemma_scatter_x_weight;
use crate::unitarity::lemma_scatter_y_weight;
use crate::unitarity::lemma_tick_normalized;
use crate::unitarity::lemma_uniform_normalized;
use crate::wave::uniform;
use crate::wave::Chance;
use crate::wave::Wave;

verus! {

/// The walker's state: an amplitude for each site of the torus.
pub struct State {
    cells: Lattice,
    scale: BigInt,
}

/// A probability as an exact ratio of two integers, `num / den`. The ratio
/// is not reduced: `den` is the scale of the state that was measured.
pub struct Probability {
    pub num: BigInt,
    pub den: BigInt,
}

impl View for Probability {
    type V = Chance;

    open spec fn view(&self) -> Chance {
        Chance { num: big_value(self.num), den: big_value(self.den) }
    }
}

impl View for State {
    type V = Wave;

    closed spec fn view(&self) -> Wave {
        Wave {
            side: lattice_side(self.cells),
            amp: lattice_cells(self.cells),
            scale: big_value(self.scale),
        }
    }
}

impl State {
    /// The state is well formed, and an array of its shape can be allocated.
    pub open spec fn wf(&self) -> bool {
        self@.wf() && grid_fits(self@.side)
    }

    /// Whether a state on the `n × n` torus can be allocated.
    pub fn fits(n: usize) -> (b: bool)
        ensures
            b == grid_fits(n as nat),
    {
        if n > 0xFFFF_FFFF {
            assert(!grid_fits(n as nat)) by (nonlinear_arith)
                requires
                    n > 0xFFFF_FFFF,
                    isize::MAX <= 0x7FFF_FFFF_FFFF_FFFF,
            ;
            false
        } else {
            assert(n * n <= 0xFFFF_FFFF * 0xFFFF_FFFF) by (nonlinear_arith)
                requires
                    0 <= n <= 0xFFFF_FFFF,
            ;
            let cells: u128 = (n as u128) * (n as u128);
            assert(2 * n * n * AMPLITUDE_BYTES == 2 * cells * AMPLITUDE_BYTES) by (nonlinear_arith)
                requires
                    cells == n * n,
            ;
            2 * cells * (AMPLITUDE_BYTES as u128) <= isize::MAX as u128
        }
    }

    /// The uniform superposition on the `n × n` torus: every amplitude is
    /// `1 / √(2·n²)`, and the squared moduli add up to one.
    pub fn new(n: usize) -> (psi: State)
        requires
            n >= 1,
            grid_fits(n as nat),
        ensures
            psi.wf(),
            psi@ == uniform(n as nat),
            psi@.normalized(),
    {
        proof {
            lemma_uniform_normalized(n as nat);
            lemma_grid_size(n as nat);
            assert(2 * n * n >= 1) by (nonlinear_arith)
                requires
                    n >= 1,
            ;
        }
        let cells = Lattice::ones(n);
        let scale = big_from(2 * n * n);
        let psi = State { cells, scale };
        assert(psi@.amp =~= uniform(n as nat).amp);
        psi
    }

    /// The state on the `n × n` torus with the given amplitudes over the
    /// given scale: the amplitude at the site `(i, j, k)` is the Gaussian
    /// integer `values[2·(i·n + j) + k]`, as `(re, im)`, divided by `√scale`.
    /// Whether the squared moduli add up to one is left to the caller.
    pub fn from_amplitudes(n: usize, values: &Vec<(i64, i64)>, scale: usize) -> (psi: State)
        requires
            n >= 1,
            grid_fits(n as nat),
            values@.len() == 2 * n * n,
            scale >= 1,
        ensures
            psi.wf(),
            psi@.side == n,
            psi@.scale == scale,
            forall|i: int, j: int, k: int|
                in_grid(n as nat, (i, j, k)) ==> #[trigger] psi@.amp[(i, j, k)] == (
                    values@[2 * (i * n + j) + k].0 as int,
                    values@[2 * (i * n + j) + k].1 as int,
                ),
    {
        proof {
            lemma_grid_size(n as nat);
        }
        let mut cells = Lattice::zeros(n);
        let ghost grid = lattice_cells(cells).dom();
        let mut i: usize = 0;
        while i < n
            invariant
                i <= n,
                2 * n * n <= isize::MAX,
                values@.len() == 2 * n * n,
                lattice_side(cells) == n,
                grid =~= Set::new(|s: (int, int, int)| in_grid(n as nat, s)),
                lattice_cells(cells).dom() =~= grid,
                forall|s: (int, int, int)|
                    in_grid(n as nat, s) && s.0 < i ==> #[trigger] lattice_cells(cells)[s]
                        == given(values@, n as nat, s),
            decreases n - i,
        {
            let mut j: usize = 0;
            while j < n
                invariant
                    i < n,
                    j <= n,
                    2 * n * n <= isize::MAX,
                    values@.len() == 2 * n * n,
                    lattice_side(cells) == n,
                    grid =~= Set::new(|s: (int, int, int)| in_grid(n as nat, s)),
                    lattice_cells(cells).dom() =~= grid,
                    forall|s: (int, int, int)|
                        in_grid(n as nat, s) && passed(s, i as int, j as int)
                            ==> #[trigger] lattice_cells(cells)[s] == given(values@, n as nat, s),
                decreases n - j,
            {
                proof {
                    lemma_index_of_cell(i as int, j as int, n as nat);
                    assert(0 <= i * n) by (nonlinear_arith)
                        requires
                            0 <= i,
                            0 <= n,
                    ;
                    assert(2 * (i * n + j) + 1 < 2 * (n * n));
                    assert(2 * (n * n) == 2 * n * n) by (nonlinear_arith);
                }
                let at = 2 * (i * n + j);
                let v0 = complex_new(values[at].0, values[at].1);
                let v1 = complex_new(values[at + 1].0, values[at + 1].1);
                assert(in_grid(n as nat, (i as int, j as int, 0int)));
                assert(in_grid(n as nat, (i as int, j as int, 1int)));
                cells.put(i, j, 0, v0);
                cells.put(i, j, 1, v1);
                j += 1;
            }
            i += 1;
        }
        let psi = State { cells, scale: big_from(scale) };
        assert forall|i: int, j: int, k: int|
            in_grid(n as nat, (i, j, k)) implies #[trigger] psi@.amp[(i, j, k)] == (
                values@[2 * (i * n + j) + k].0 as int,
                values@[2 * (i * n + j) + k].1 as int,
            ) by {
            lemma_index_of_cell(i, j, n as nat);
            assert(2 * (n * n) == 2 * n * n) by (nonlinear_arith);
            assert(lattice_cells(psi.cells)[(i, j, k)] == given(values@, n as nat, (i, j, k)));
        }
        psi
    }

    /// The side `n` of the torus.
    pub fn side(&self) -> (n: usize)
        ensures
            n == self@.side,
    {
        self.cells.side()
    }

    /// The Gaussian integer at the site `(i, j, k)`.
    pub fn amplitude(&self, i: usize, j: usize, k: usize) -> (v: Complex<BigInt>)
        requires
            in_grid(self@.side, (i as int, j as int, k as int)),
        ensures
            complex_parts(v) == self@.amp[(i as int, j as int, k as int)],
    {
        self.cells.at(i, j, k)
    }

    /// The scale that the amplitudes share.
    pub fn scale(&self) -> (v: BigInt)
        ensures
            big_value(v) == self@.scale,
    {
        big_clone(&self.scale)
    }
}

/// A grid that fits has a cell count, and twice that, within `usize`.
pub proof fn lemma_grid_size(n: nat)
    requires
        grid_fits(n),
    ensures
        2 * n * n <= isize::MAX,
        n * n <= isize::MAX,
        n <= isize::MAX,
        2 * n <= isize::MAX,
{
    assert(2 * n * n <= 2 * n * n * 64 && n * n <= 2 * n * n && n <= 2 * n * n * 64)
        by (nonlinear_arith);
    assert(2 * n <= 2 * n * n * 64) by (nonlinear_arith);
}

/// The Gaussian integer that a list of amplitudes gives for the site `s`.
spec fn given(values: Seq<(i64, i64)>, n: nat, s: (int, int, int)) -> (int, int) {
    (values[2 * (s.0 * n + s.1) + s.2].0 as int, values[2 * (s.0 * n + s.1) + s.2].1 as int)
}

/// The site `s` comes before the cell `(i, j)` in row-major order.
spec fn passed(s: (int, int, int), i: int, j: int) -> bool {
    s.0 < i || (s.0 == i && s.1 < j)
}

/// A copy of the amplitudes, taken before an operator writes.
fn snapshot(psi: &State) -> (phi: Lattice)
    requires
        psi.wf(),
    ensures
        lattice_side(phi) == psi@.side,
        lattice_cells(phi) == psi@.amp,
{
    let n = psi.side();
    let mut phi = Lattice::zeros(n);
    let mut i: usize = 0;
    while i < n
        invariant
            psi.wf(),
            n == psi@.side,
            i <= n,
            lattice_side(phi) == n,
            lattice_cells(phi).dom() =~= psi@.amp.dom(),
            forall|s: (int, int, int)|
                in_grid(n as nat, s) && s.0 < i ==> #[trigger] lattice_cells(phi)[s] == psi@.amp[s],
        decreases n - i,
    {
        let mut j: usize = 0;
        while j < n
            invariant
                psi.wf(),
                n == psi@.side,
                i < n,
                j <= n,
                lattice_side(phi) == n,
                lattice_cells(phi).dom() =~= psi@.amp.dom(),
                forall|s: (int, int, int)|
                    in_grid(n as nat, s) && passed(s, i as int, j as int)
                        ==> #[trigger] lattice_cells(phi)[s] == psi@.amp[s],
            decreases n - j,
        {
            let mut k: usize = 0;
            while k < 2
                invariant
                    psi.wf(),
                    n == psi@.side,
                    i < n,
                    j < n,
                    k <= 2,
                    lattice_side(phi) == n,
                    lattice_cells(phi).dom() =~= psi@.amp.dom(),
                    forall|s: (int, int, int)|
                        in_grid(n as nat, s) && (passed(s, i as int, j as int) || (s.0 == i && s.1
                            == j && s.2 < k)) ==> #[trigger] lattice_cells(phi)[s] == psi@.amp[s],
                decreases 2 - k,
            {
                phi.put(i, j, k, psi.cells.at(i, j, k));
                k += 1;
            }
            j += 1;
        }
        i += 1;
    }
    assert(lattice_cells(phi) =~= psi@.amp);
    phi
}

/// Applies the coin `c` to the two components of every cell: the pair
/// `(ψ0, ψ1)` becomes `C · (ψ0, ψ1)`. A unitary coin keeps the state
/// normalized.
pub fn coin(psi: &mut State, c: &Matrix)
    requires
        old(psi).wf(),
        c.is_coin(),
    ensures
        final(psi).wf(),
        final(psi)@ == old(psi)@.coin(c@),
        c@.unitary() && old(psi)@.normalized() ==> final(psi)@.normalized(),
{
    proof {
        if c@.unitary() {
            lemma_coin_weight(psi@, c@);
        }
    }
    let n = psi.side();
    let phi = snapshot(psi);
    let c00 = c.at(0, 0);
    let c01 = c.at(0, 1);
    let c10 = c.at(1, 0);
    let c11 = c.at(1, 1);
    let ghost before = psi@;
    let ghost goal = before.coin(c@);
    let mut i: usize = 0;
    while i < n
        invariant
            before.wf(),
            n == before.side,
            i <= n,
            lattice_side(phi) == n,
            lattice_cells(phi) == before.amp,
            goal == before.coin(c@),
            complex_parts(c00) == c@.k00,
            complex_parts(c01) == c@.k01,
            complex_parts(c10) == c@.k10,
            complex_parts(c11) == c@.k11,
            lattice_side(psi.cells) == n,
            big_value(psi.scale) == before.scale,
            lattice_cells(psi.cells).dom() =~= before.amp.dom(),
            forall|s: (int, int, int)|
                in_grid(n as nat, s) && s.0 < i ==> #[trigger] lattice_cells(psi.cells)[s]
                    == goal.amp[s],
        decreases n - i,
    {
        let mut j: usize = 0;
        while j < n
            invariant
                before.wf(),
                n == before.side,
                i < n,
                j <= n,
                lattice_side(phi) == n,
                lattice_cells(phi) == before.amp,
                goal == before.coin(c@),
                complex_parts(c00) == c@.k00,
                complex_parts(c01) == c@.k01,
                complex_parts(c10) == c@.k10,
                complex_parts(c11) == c@.k11,
                lattice_side(psi.cells) == n,
                big_value(psi.scale) == before.scale,
                lattice_cells(psi.cells).dom() =~= before.amp.dom(),
                forall|s: (int, int, int)|
                    in_grid(n as nat, s) && passed(s, i as int, j as int)
                        ==> #[trigger] lattice_cells(psi.cells)[s] == goal.amp[s],
            decreases n - j,
        {
            let a = phi.at(i, j, 0);
            let b = phi.at(i, j, 1);
            let v0 = complex_add(&complex_mul(&a, &c00), &complex_mul(&b, &c01));
            let v1 = complex_add(&complex_mul(&a, &c10), &complex_mul(&b, &c11));
            assert(in_grid(n as nat, (i as int, j as int, 0int)));
            assert(in_grid(n as nat, (i as int, j as int, 1int)));
            psi.cells.put(i, j, 0, v0);
            psi.cells.put(i, j, 1, v1);
            j += 1;
        }
        i += 1;
    }
    psi.scale = big_add(&psi.scale, &psi.scale);
    assert(psi@.amp =~= goal.amp);
}

/// Shifts the amplitudes cyclically along the rows: component 0 of the cell
/// `(i, j)` comes from row `i + 1`, component 1 from row `i − 1`, both
/// modulo `n`.
pub fn scatter_x(psi: &mut State)
    requires
        old(psi).wf(),
    ensures
        final(psi).wf(),
        final(psi)@ == old(psi)@.scatter_x(),
        old(psi)@.normalized() ==> final(psi)@.normalized(),
{
    proof {
        lemma_scatter_x_weight(psi@);
    }
    let n = psi.side();
    let phi = snapshot(psi);
    let ghost before = psi@;
    let ghost goal = before.scatter_x();
    proof {
        lemma_grid_size(n as nat);
    }
    let mut i: usize = 0;
    while i < n
        invariant
            before.wf(),
            2 * n <= isize::MAX,
            n == before.side,
            i <= n,
            lattice_side(phi) == n,
            lattice_cells(phi) == before.amp,
            goal == before.scatter_x(),
            lattice_side(psi.cells) == n,
            big_value(psi.scale) == before.scale,
            lattice_cells(psi.cells).dom() =~= before.amp.dom(),
            forall|s: (int, int, int)|
                in_grid(n as nat, s) && s.0 < i ==> #[trigger] lattice_cells(psi.cells)[s]
                    == goal.amp[s],
        decreases n - i,
    {
        let mut j: usize = 0;
        while j < n
            invariant
                before.wf(),
                2 * n <= isize::MAX,
                n == before.side,
                i < n,
                j <= n,
                lattice_side(phi) == n,
                lattice_cells(phi) == before.amp,
                goal == before.scatter_x(),
                lattice_side(psi.cells) == n,
                big_value(psi.scale) == before.scale,
                lattice_cells(psi.cells).dom() =~= before.amp.dom(),
                forall|s: (int, int, int)|
                    in_grid(n as nat, s) && passed(s, i as int, j as int)
                        ==> #[trigger] lattice_cells(psi.cells)[s] == goal.amp[s],
            decreases n - j,
        {
            proof {
                lemma_step(i as int, n as nat);
            }
            let v0 = phi.at((i + 1) % n, j, 0);
            let v1 = phi.at((i + n - 1) % n, j, 1);
            assert(in_grid(n as nat, (i as int, j as int, 0int)));
            assert(in_grid(n as nat, (i as int, j as int, 1int)));
            psi.cells.put(i, j, 0, v0);
            psi.cells.put(i, j, 1, v1);
            j += 1;
        }
        i += 1;
    }
    assert(psi@.amp =~= goal.amp);
}

/// Shifts the amplitudes cyclically along the columns: component 0 of the
/// cell `(i, j)` comes from column `j + 1`, component 1 from column `j − 1`,
/// both modulo `n`.
pub fn scatter_y(psi: &mut State)
    requires
        old(psi).wf(),
    ensures
        final(psi).wf(),
        final(psi)@ == old(psi)@.scatter_y(),
        old(psi)@.normalized() ==> final(psi)@.normalized(),
{
    proof {
        lemma_scatter_y_weight(psi@);
    }
    let n = psi.side();
    let phi = snapshot(psi);
    let ghost before = psi@;
    let ghost goal = before.scatter_y();
    proof {
        lemma_grid_size(n as nat);
    }
    let mut i: usize = 0;
    while i < n
        invariant
            before.wf(),
            2 * n <= isize::MAX,
            n == before.side,
            i <= n,
            lattice_side(phi) == n,
            lattice_cells(phi) == before.amp,
            goal == before.scatter_y(),
            lattice_side(psi.cells) == n,
            big_value(psi.scale) == before.scale,
            lattice_cells(psi.cells).dom() =~= before.amp.dom(),
            forall|s: (int, int, int)|
                in_grid(n as nat, s) && s.0 < i ==> #[trigger] lattice_cells(psi.cells)[s]
                    == goal.amp[s],
        decreases n - i,
    {
        let mut j: usize = 0;
        while j < n
            invariant
                before.wf(),
                2 * n <= isize::MAX,
                n == before.side,
                i < n,
                j <= n,
                lattice_side(phi) == n,
                lattice_cells(phi) == before.amp,
                goal == before.scatter_y(),
                lattice_side(psi.cells) == n,
                big_value(psi.scale) == before.scale,
                lattice_cells(psi.cells).dom() =~= before.amp.dom(),
                forall|s: (int, int, int)|
                    in_grid(n as nat, s) && passed(s, i as int, j as int)
                        ==> #[trigger] lattice_cells(psi.cells)[s] == goal.amp[s],
            decreases n - j,
        {
            proof {
                lemma_step(j as int, n as nat);
            }
            let v0 = phi.at(i, (j + 1) % n, 0);
            let v1 = phi.at(i, (j + n - 1) % n, 1);
            assert(in_grid(n as nat, (i as int, j as int, 0int)));
            assert(in_grid(n as nat, (i as int, j as int, 1int)));
            psi.cells.put(i, j, 0, v0);
            psi.cells.put(i, j, 1, v1);
            j += 1;
        }
        i += 1;
    }
    assert(psi@.amp =~= goal.amp);
}

/// Whether every index in `search` names a cell of the `n × n` grid.
pub fn targets_in_grid(search: &Vec<usize>, n: usize) -> (b: bool)
    ensures
        b == targets_valid(search@, n as nat),
{
    assert(n * n <= 0xFFFF_FFFF_FFFF_FFFF * 0xFFFF_FFFF_FFFF_FFFF) by (nonlinear_arith)
        requires
            0 <= n <= 0xFFFF_FFFF_FFFF_FFFF,
    ;
    let cells: u128 = (n as u128) * (n as u128);
    let mut t: usize = 0;
    while t < search.len()
        invariant
            t <= search.len(),
            cells == n * n,
            forall|u: int| 0 <= u < t ==> (#[trigger] search@[u]) < n * n,
        decreases search.len() - t,
    {
        if search[t] as u128 >= cells {
            return false;
        }
        t += 1;
    }
    true
}

/// One more target marks its own cell and no other.
proof fn lemma_marked_next(search: Seq<usize>, t: int, n: nat, i: int, j: int)
    requires
        0 <= t < search.len(),
    ensures
        marked(search.take(t + 1), n, i, j) <==> marked(search.take(t), n, i, j) || (cell_row(
            search[t] as int,
            n,
        ) == i && cell_col(search[t] as int, n) == j),
{
    let more = search.take(t + 1);
    let less = search.take(t);
    if marked(more, n, i, j) {
        let u = choose|u: int|
            0 <= u < more.len() && cell_row(#[trigger] more[u] as int, n) == i && cell_col(
                more[u] as int,
                n,
            ) == j;
        if u < t {
            assert(less[u] == more[u]);
        }
    }
    if marked(less, n, i, j) {
        let u = choose|u: int|
            0 <= u < less.len() && cell_row(#[trigger] less[u] as int, n) == i && cell_col(
                less[u] as int,
                n,
            ) == j;
        assert(more[u] == less[u]);
    }
    if cell_row(search[t] as int, n) == i && cell_col(search[t] as int, n) == j {
        assert(more[t] == search[t]);
    }
}

/// Swaps and negates the two components at every cell that `search` lists;
/// a cell listed twice is treated as one listed once.
pub fn oracle(psi: &mut State, search: &Vec<usize>)
    requires
        old(psi).wf(),
        targets_valid(search@, old(psi)@.side),
    ensures
        final(psi).wf(),
        final(psi)@ == old(psi)@.oracle(search@),
        old(psi)@.normalized() ==> final(psi)@.normalized(),
{
    proof {
        lemma_oracle_weight(psi@, search@);
    }
    let n = psi.side();
    let phi = snapshot(psi);
    let ghost before = psi@;
    let mut t: usize = 0;
    while t < search.len()
        invariant
            before.wf(),
            n == before.side,
            t <= search.len(),
            targets_valid(search@, n as nat),
            lattice_side(phi) == n,
            lattice_cells(phi) == before.amp,
            lattice_side(psi.cells) == n,
            big_value(psi.scale) == before.scale,
            lattice_cells(psi.cells).dom() =~= before.amp.dom(),
            forall|s: (int, int, int)|
                in_grid(n as nat, s) ==> #[trigger] lattice_cells(psi.cells)[s] == before.oracle(
                    search@.take(t as int),
                ).amp[s],
        decreases search.len() - t,
    {
        let k = search[t];
        proof {
            lemma_cell_of_index(k as int, n as nat);
        }
        let i = k / n;
        let j = k % n;
        let v0 = complex_neg(&phi.at(i, j, 1));
        let v1 = complex_neg(&phi.at(i, j, 0));
        psi.cells.put(i, j, 0, v0);
        psi.cells.put(i, j, 1, v1);
        proof {
            assert forall|s: (int, int, int)| in_grid(n as nat, s) implies #[trigger] lattice_cells(
                psi.cells,
            )[s] == before.oracle(search@.take(t + 1)).amp[s] by {
                lemma_marked_next(search@, t as int, n as nat, s.0, s.1);
            }
        }
        t += 1;
    }
    assert(search@.take(t as int) =~= search@);
    assert(psi@.amp =~= before.oracle(search@).amp);
}

/// The probability of finding the walker at one of the cells that `search`
/// lists: the squared moduli of both components at each of them, added up.
/// A cell listed twice counts twice.
pub fn measure(psi: &State, search: &Vec<usize>) -> (p: Probability)
    requires
        psi.wf(),
        targets_valid(search@, psi@.side),
    ensures
        p@ == psi@.measure(search@),
        psi@.normalized() && search@.no_duplicates() ==> 0 <= p@.num <= p@.den,
{
    proof {
        if psi@.normalized() && search@.no_duplicates() {
            lemma_measure_bounded(psi@, search@);
        }
    }
    let n = psi.side();
    let mut acc = big_from(0);
    let mut t: usize = 0;
    while t < search.len()
        invariant
            psi.wf(),
            n == psi@.side,
            t <= search.len(),
            targets_valid(search@, n as nat),
            big_value(acc) == psi@.hit_weight(search@.take(t as int)),
        decreases search.len() - t,
    {
        let k = search[t];
        proof {
            lemma_cell_of_index(k as int, n as nat);
            assert(search@.take(t + 1).drop_last() =~= search@.take(t as int));
            assert(search@.take(t + 1).last() == k);
        }
        let i = k / n;
        let j = k % n;
        let w0 = complex_norm_sqr(&psi.cells.at(i, j, 0));
        let w1 = complex_norm_sqr(&psi.cells.at(i, j, 1));
        let w = big_add(&w0, &w1);
        acc = big_add(&acc, &w);
        t += 1;
    }
    assert(search@.take(t as int) =~= search@);
    Probability { num: acc, den: big_clone(&psi.scale) }
}

/// One step of the walk: the oracle, the X coin, the X scatter, the Y coin
/// and the Y scatter, in this order. A step keeps the squared moduli of all
/// amplitudes adding up to one.
pub fn tick(psi: &mut State, search: &Vec<usize>)
    requires
        old(psi).wf(),
        targets_valid(search@, old(psi)@.side),
    ensures
        final(psi).wf(),
        final(psi)@ == old(psi)@.tick(search@),
        old(psi)@.normalized() ==> final(psi)@.normalized(),
{
    proof {
        lemma_tick_normalized(psi@, search@);
    }
    let cx = coin_x();
    let cy = coin_y();
    oracle(psi, search);
    coin(psi, &cx);
    scatter_x(psi);
    coin(psi, &cy);
    scatter_y(psi);
}

} // verus!
