//! Conservation of probability: every operator of the walk keeps the squared
//! moduli of all amplitudes adding up to one.

use vstd::prelude::*;

use crate::lattice::in_grid;
use crate::sums::lemma_sum_constant;
use crate::sums::lemma_sum_over_all;
use crate::sums::lemma_sum_over_distinct;
use crate::sums::lemma_sum_permuted;
use crate::sums::lemma_sum_same;
use crate::sums::lemma_sum_scaled;
use crate::sums::lemma_sum_split;
use crate::torus::cell_col;
use crate::torus::cell_index;
use crate::torus::cell_row;
use crate::torus::down;
use crate::torus::lemma_cell_of_index;
use crate::torus::lemma_index_of_cell;
use crate::torus::lemma_step;
use crate::torus::targets_valid;
use crate::torus::up;
use crate::wave::gauss_negated;
use crate::wave::gauss_norm;
use crate::wave::gauss_product;
use crate::wave::gauss_sum;
use crate::wave::kernel_x;
use crate::wave::kernel_y;
use crate::wave::success;
use crate::wave::uniform;
use crate::wave::walk;
use crate::wave::Kernel;
use crate::wave::Wave;

verus! {

/// The squared modulus of a product is the product of the squared moduli.
proof fn lemma_norm_of_product(a: (int, int), p: (int, int))
    ensures
        gauss_norm(gauss_product(a, p)) == gauss_norm(a) * gauss_norm(p),
{
    let (a1, a2) = a;
    let (p1, p2) = p;
    let w = a1 * p1;
    let x = a2 * p2;
    let y = a1 * p2;
    let z = a2 * p1;
    assert((w - x) * (w - x) + (y + z) * (y + z) == w * w - 2 * (w * x) + x * x + y * y + 2 * (y
        * z) + z * z) by (nonlinear_arith);
    assert(w * x == y * z) by (nonlinear_arith)
        requires
            w == a1 * p1,
            x == a2 * p2,
            y == a1 * p2,
            z == a2 * p1,
    ;
    assert(w * w == (a1 * a1) * (p1 * p1)) by (nonlinear_arith)
        requires
            w == a1 * p1,
    ;
    assert(x * x == (a2 * a2) * (p2 * p2)) by (nonlinear_arith)
        requires
            x == a2 * p2,
    ;
    assert(y * y == (a1 * a1) * (p2 * p2)) by (nonlinear_arith)
        requires
            y == a1 * p2,
    ;
    assert(z * z == (a2 * a2) * (p1 * p1)) by (nonlinear_arith)
        requires
            z == a2 * p1,
    ;
    let aa = a1 * a1;
    let ab = a2 * a2;
    let pa = p1 * p1;
    let pb = p2 * p2;
    assert((aa + ab) * (pa + pb) == aa * pa + aa * pb + ab * pa + ab * pb) by (nonlinear_arith);
}

/// The squared modulus of a sum, with its mixed term.
proof fn lemma_norm_of_sum(u: (int, int), v: (int, int))
    ensures
        gauss_norm(gauss_sum(u, v)) == gauss_norm(u) + gauss_norm(v) + 2 * (u.0 * v.0 + u.1 * v.1),
{
    let (u1, u2) = u;
    let (v1, v2) = v;
    assert((u1 + v1) * (u1 + v1) + (u2 + v2) * (u2 + v2) == u1 * u1 + u2 * u2 + (v1 * v1 + v2 * v2)
        + 2 * (u1 * v1 + u2 * v2)) by (nonlinear_arith);
}

/// The mixed term of `a·p` and `b·q`, sorted by what depends on the
/// amplitudes and what on the coin.
proof fn lemma_mixed_term(a: (int, int), b: (int, int), p: (int, int), q: (int, int))
    ensures
        gauss_product(a, p).0 * gauss_product(b, q).0 + gauss_product(a, p).1 * gauss_product(
            b,
            q,
        ).1 == (a.0 * b.0 + a.1 * b.1) * (p.0 * q.0 + p.1 * q.1) + (a.0 * b.1 - a.1 * b.0) * (p.1
            * q.0 - p.0 * q.1),
{
    let (a1, a2) = a;
    let (b1, b2) = b;
    let (p1, p2) = p;
    let (q1, q2) = q;
    let ap = a1 * p1;
    let aq = a2 * p2;
    let ar = a1 * p2;
    let at = a2 * p1;
    let bp = b1 * q1;
    let bq = b2 * q2;
    let br = b1 * q2;
    let bt = b2 * q1;
    assert((ap - aq) * (bp - bq) == ap * bp - ap * bq - aq * bp + aq * bq) by (nonlinear_arith);
    assert((ar + at) * (br + bt) == ar * br + ar * bt + at * br + at * bt) by (nonlinear_arith);
    assert(ap * bp == (a1 * b1) * (p1 * q1)) by (nonlinear_arith)
        requires
            ap == a1 * p1,
            bp == b1 * q1,
    ;
    assert(ap * bq == (a1 * b2) * (p1 * q2)) by (nonlinear_arith)
        requires
            ap == a1 * p1,
            bq == b2 * q2,
    ;
    assert(aq * bp == (a2 * b1) * (p2 * q1)) by (nonlinear_arith)
        requires
            aq == a2 * p2,
            bp == b1 * q1,
    ;
    assert(aq * bq == (a2 * b2) * (p2 * q2)) by (nonlinear_arith)
        requires
            aq == a2 * p2,
            bq == b2 * q2,
    ;
    assert(ar * br == (a1 * b1) * (p2 * q2)) by (nonlinear_arith)
        requires
            ar == a1 * p2,
            br == b1 * q2,
    ;
    assert(ar * bt == (a1 * b2) * (p2 * q1)) by (nonlinear_arith)
        requires
            ar == a1 * p2,
            bt == b2 * q1,
    ;
    assert(at * br == (a2 * b1) * (p1 * q2)) by (nonlinear_arith)
        requires
            at == a2 * p1,
            br == b1 * q2,
    ;
    assert(at * bt == (a2 * b2) * (p1 * q1)) by (nonlinear_arith)
        requires
            at == a2 * p1,
            bt == b2 * q1,
    ;
    let x11 = a1 * b1;
    let x12 = a1 * b2;
    let x21 = a2 * b1;
    let x22 = a2 * b2;
    let y11 = p1 * q1;
    let y12 = p1 * q2;
    let y21 = p2 * q1;
    let y22 = p2 * q2;
    assert((x11 + x22) * (y11 + y22) == x11 * y11 + x11 * y22 + x22 * y11 + x22 * y22)
        by (nonlinear_arith);
    assert((x12 - x21) * (y21 - y12) == x12 * y21 - x12 * y12 - x21 * y21 + x21 * y12)
        by (nonlinear_arith);
}

/// The squared modulus of `a·p + b·q`, written out.
proof fn lemma_norm_of_combination(a: (int, int), b: (int, int), p: (int, int), q: (int, int))
    ensures
        gauss_norm(gauss_sum(gauss_product(a, p), gauss_product(b, q))) == gauss_norm(a)
            * gauss_norm(p) + gauss_norm(b) * gauss_norm(q) + 2 * ((a.0 * b.0 + a.1 * b.1) * (p.0
            * q.0 + p.1 * q.1)) + 2 * ((a.0 * b.1 - a.1 * b.0) * (p.1 * q.0 - p.0 * q.1)),
{
    lemma_norm_of_product(a, p);
    lemma_norm_of_product(b, q);
    lemma_norm_of_sum(gauss_product(a, p), gauss_product(b, q));
    lemma_mixed_term(a, b, p, q);
}

/// A unitary coin, held without its factor `1/√2`, doubles the weight of a
/// cell.
pub proof fn lemma_coin_cell(a: (int, int), b: (int, int), c: Kernel)
    requires
        c.unitary(),
    ensures
        gauss_norm(gauss_sum(gauss_product(a, c.k00), gauss_product(b, c.k01))) + gauss_norm(
            gauss_sum(gauss_product(a, c.k10), gauss_product(b, c.k11)),
        ) == 2 * (gauss_norm(a) + gauss_norm(b)),
{
    lemma_norm_of_combination(a, b, c.k00, c.k01);
    lemma_norm_of_combination(a, b, c.k10, c.k11);
    let na = gauss_norm(a);
    let nb = gauss_norm(b);
    let x = a.0 * b.0 + a.1 * b.1;
    let y = a.0 * b.1 - a.1 * b.0;
    let p = gauss_norm(c.k00);
    let q = gauss_norm(c.k01);
    let r = gauss_norm(c.k10);
    let u = gauss_norm(c.k11);
    let s1 = c.k00.0 * c.k01.0 + c.k00.1 * c.k01.1;
    let s2 = c.k00.1 * c.k01.0 - c.k00.0 * c.k01.1;
    let t1 = c.k10.0 * c.k11.0 + c.k10.1 * c.k11.1;
    let t2 = c.k10.1 * c.k11.0 - c.k10.0 * c.k11.1;
    assert(s1 + t1 == 0 && s2 + t2 == 0) by (nonlinear_arith)
        requires
            c.k00.0 * c.k01.0 - (-c.k00.1) * c.k01.1 + (c.k10.0 * c.k11.0 - (-c.k10.1) * c.k11.1)
                == 0,
            c.k00.0 * c.k01.1 + (-c.k00.1) * c.k01.0 + (c.k10.0 * c.k11.1 + (-c.k10.1) * c.k11.0)
                == 0,
            s1 == c.k00.0 * c.k01.0 + c.k00.1 * c.k01.1,
            s2 == c.k00.1 * c.k01.0 - c.k00.0 * c.k01.1,
            t1 == c.k10.0 * c.k11.0 + c.k10.1 * c.k11.1,
            t2 == c.k10.1 * c.k11.0 - c.k10.0 * c.k11.1,
    ;
    assert(na * p + nb * q + 2 * (x * s1) + 2 * (y * s2) + (na * r + nb * u + 2 * (x * t1) + 2 * (y
        * t2)) == 2 * (na + nb)) by (nonlinear_arith)
        requires
            p + r == 2,
            q + u == 2,
            s1 + t1 == 0,
            s2 + t2 == 0,
    ;
}

/// The two coins of the walk are unitary.
pub proof fn lemma_coins_unitary()
    ensures
        kernel_x().unitary(),
        kernel_y().unitary(),
{
}

/// The uniform superposition is well formed and normalized.
pub proof fn lemma_uniform_normalized(n: nat)
    requires
        n >= 1,
    ensures
        uniform(n).wf(),
        uniform(n).normalized(),
{
    let w = uniform(n);
    assert(gauss_norm((1int, 0int)) == 1) by {
        assert(1int * 1int + 0int * 0int == 1);
    }
    assert(n * n >= 1 && 2 * n * n == 2 * (n * n)) by (nonlinear_arith)
        requires
            n >= 1,
    ;
    assert forall|k: int| 0 <= k < n * n implies #[trigger] w.weight_at(k) == 2 by {
        lemma_cell_of_index(k, n);
        let i = cell_row(k, n);
        let j = cell_col(k, n);
        assert(in_grid(n, (i, j, 0int)));
        assert(in_grid(n, (i, j, 1int)));
        assert(w.amp[(i, j, 0int)] == (1int, 0int));
        assert(w.amp[(i, j, 1int)] == (1int, 0int));
    }
    lemma_sum_constant(|k: int| w.weight_at(k), 2, (n * n) as int);
}

/// A unitary coin keeps a state well formed and doubles its total weight
/// along with its scale.
pub proof fn lemma_coin_weight(w: Wave, c: Kernel)
    requires
        w.wf(),
        c.unitary(),
    ensures
        w.coin(c).wf(),
        w.coin(c).total_weight() == 2 * w.total_weight(),
        w.normalized() ==> w.coin(c).normalized(),
{
    let n = w.side;
    let v = w.coin(c);
    assert forall|k: int| 0 <= k < n * n implies #[trigger] v.weight_at(k) == 2 * w.weight_at(
        k,
    ) by {
        lemma_cell_of_index(k, n);
        let i = cell_row(k, n);
        let j = cell_col(k, n);
        assert(in_grid(n, (i, j, 0int)));
        assert(in_grid(n, (i, j, 1int)));
        lemma_coin_cell(w.amp[(i, j, 0)], w.amp[(i, j, 1)], c);
    }
    lemma_sum_scaled(|k: int| v.weight_at(k), |k: int| w.weight_at(k), 2, (n * n) as int);
}

/// The oracle keeps a state well formed and its total weight unchanged.
pub proof fn lemma_oracle_weight(w: Wave, search: Seq<usize>)
    requires
        w.wf(),
    ensures
        w.oracle(search).wf(),
        w.oracle(search).total_weight() == w.total_weight(),
        w.normalized() ==> w.oracle(search).normalized(),
{
    let n = w.side;
    let v = w.oracle(search);
    assert forall|k: int| 0 <= k < n * n implies #[trigger] v.weight_at(k) == w.weight_at(k) by {
        lemma_cell_of_index(k, n);
        let i = cell_row(k, n);
        let j = cell_col(k, n);
        assert(in_grid(n, (i, j, 0int)));
        assert(in_grid(n, (i, j, 1int)));
        lemma_norm_of_negated(w.amp[(i, j, 0)]);
        lemma_norm_of_negated(w.amp[(i, j, 1)]);
    }
    lemma_sum_same(|k: int| v.weight_at(k), |k: int| w.weight_at(k), (n * n) as int);
}

/// Negation keeps the squared modulus, which is never negative.
pub proof fn lemma_norm_of_negated(a: (int, int))
    ensures
        gauss_norm(gauss_negated(a)) == gauss_norm(a),
        gauss_norm(a) >= 0,
{
    let (a1, a2) = a;
    assert((-a1) * (-a1) == a1 * a1 && (-a2) * (-a2) == a2 * a2 && a1 * a1 >= 0 && a2 * a2 >= 0)
        by (nonlinear_arith);
}

/// The flattened index of the cell one row after the cell `k`.
pub open spec fn row_after(k: int, n: nat) -> int {
    cell_index(up(cell_row(k, n), n), cell_col(k, n), n)
}

/// The flattened index of the cell one row before the cell `k`.
pub open spec fn row_before(k: int, n: nat) -> int {
    cell_index(down(cell_row(k, n), n), cell_col(k, n), n)
}

/// The flattened index of the cell one column after the cell `k`.
pub open spec fn col_after(k: int, n: nat) -> int {
    cell_index(cell_row(k, n), up(cell_col(k, n), n), n)
}

/// The flattened index of the cell one column before the cell `k`.
pub open spec fn col_before(k: int, n: nat) -> int {
    cell_index(cell_row(k, n), down(cell_col(k, n), n), n)
}

/// Stepping one cell along an axis and back is a permutation of the cells.
pub proof fn lemma_neighbours(k: int, n: nat)
    requires
        0 <= k < n * n,
    ensures
        0 <= row_after(k, n) < n * n,
        0 <= row_before(k, n) < n * n,
        0 <= col_after(k, n) < n * n,
        0 <= col_before(k, n) < n * n,
        row_before(row_after(k, n), n) == k,
        row_after(row_before(k, n), n) == k,
        col_before(col_after(k, n), n) == k,
        col_after(col_before(k, n), n) == k,
{
    lemma_cell_of_index(k, n);
    let i = cell_row(k, n);
    let j = cell_col(k, n);
    lemma_step(i, n);
    lemma_step(j, n);
    lemma_index_of_cell(up(i, n), j, n);
    lemma_index_of_cell(down(i, n), j, n);
    lemma_index_of_cell(i, up(j, n), n);
    lemma_index_of_cell(i, down(j, n), n);
}

/// The X scatter keeps a state well formed and its total weight unchanged.
pub proof fn lemma_scatter_x_weight(w: Wave)
    requires
        w.wf(),
    ensures
        w.scatter_x().wf(),
        w.scatter_x().total_weight() == w.total_weight(),
        w.normalized() ==> w.scatter_x().normalized(),
{
    let n = w.side;
    let v = w.scatter_x();
    let size = (n * n) as int;
    let fwd = |k: int| row_after(k, n);
    let bwd = |k: int| row_before(k, n);
    let v0 = |k: int| v.part_weight(0, k);
    let v1 = |k: int| v.part_weight(1, k);
    let w0 = |k: int| w.part_weight(0, k);
    let w1 = |k: int| w.part_weight(1, k);
    assert forall|k: int| 0 <= k < size implies 0 <= #[trigger] fwd(k) < size && bwd(fwd(k))
        == k by {
        lemma_neighbours(k, n);
    }
    assert forall|k: int| 0 <= k < size implies 0 <= #[trigger] bwd(k) < size && fwd(bwd(k))
        == k by {
        lemma_neighbours(k, n);
    }
    assert forall|k: int| 0 <= k < size implies #[trigger] v0(k) == w0(fwd(k)) && v1(k) == w1(
        bwd(k),
    ) by {
        lemma_cell_of_index(k, n);
        let i = cell_row(k, n);
        let j = cell_col(k, n);
        lemma_step(i, n);
        lemma_index_of_cell(up(i, n), j, n);
        lemma_index_of_cell(down(i, n), j, n);
        assert(in_grid(n, (i, j, 0int)));
        assert(in_grid(n, (i, j, 1int)));
    }
    assert forall|k: int| 0 <= k < size implies #[trigger] v1(k) == w1(bwd(k)) by {
        assert(v0(k) == w0(fwd(k)));
    }
    lemma_sum_permuted(v0, w0, fwd, bwd, size);
    lemma_sum_permuted(v1, w1, bwd, fwd, size);
    lemma_sum_split(|k: int| w.weight_at(k), w0, w1, size);
    lemma_sum_split(|k: int| v.weight_at(k), v0, v1, size);
}

/// The Y scatter keeps a state well formed and its total weight unchanged.
pub proof fn lemma_scatter_y_weight(w: Wave)
    requires
        w.wf(),
    ensures
        w.scatter_y().wf(),
        w.scatter_y().total_weight() == w.total_weight(),
        w.normalized() ==> w.scatter_y().normalized(),
{
    let n = w.side;
    let v = w.scatter_y();
    let size = (n * n) as int;
    let fwd = |k: int| col_after(k, n);
    let bwd = |k: int| col_before(k, n);
    let v0 = |k: int| v.part_weight(0, k);
    let v1 = |k: int| v.part_weight(1, k);
    let w0 = |k: int| w.part_weight(0, k);
    let w1 = |k: int| w.part_weight(1, k);
    assert forall|k: int| 0 <= k < size implies 0 <= #[trigger] fwd(k) < size && bwd(fwd(k))
        == k by {
        lemma_neighbours(k, n);
    }
    assert forall|k: int| 0 <= k < size implies 0 <= #[trigger] bwd(k) < size && fwd(bwd(k))
        == k by {
        lemma_neighbours(k, n);
    }
    assert forall|k: int| 0 <= k < size implies #[trigger] v0(k) == w0(fwd(k)) && v1(k) == w1(
        bwd(k),
    ) by {
        lemma_cell_of_index(k, n);
        let i = cell_row(k, n);
        let j = cell_col(k, n);
        lemma_step(j, n);
        lemma_index_of_cell(i, up(j, n), n);
        lemma_index_of_cell(i, down(j, n), n);
        assert(in_grid(n, (i, j, 0int)));
        assert(in_grid(n, (i, j, 1int)));
    }
    assert forall|k: int| 0 <= k < size implies #[trigger] v1(k) == w1(bwd(k)) by {
        assert(v0(k) == w0(fwd(k)));
    }
    lemma_sum_permuted(v0, w0, fwd, bwd, size);
    lemma_sum_permuted(v1, w1, bwd, fwd, size);
    lemma_sum_split(|k: int| w.weight_at(k), w0, w1, size);
    lemma_sum_split(|k: int| v.weight_at(k), v0, v1, size);
}

/// One step of the walk keeps a state well formed and normalized: the
/// squared moduli of all amplitudes still add up to one.
pub proof fn lemma_tick_normalized(w: Wave, search: Seq<usize>)
    requires
        w.wf(),
    ensures
        w.tick(search).wf(),
        w.tick(search).side == w.side,
        w.tick(search).scale == 4 * w.scale,
        w.tick(search).total_weight() == 4 * w.total_weight(),
        w.normalized() ==> w.tick(search).normalized(),
{
    lemma_coins_unitary();
    let a = w.oracle(search);
    lemma_oracle_weight(w, search);
    let b = a.coin(kernel_x());
    lemma_coin_weight(a, kernel_x());
    let c = b.scatter_x();
    lemma_scatter_x_weight(b);
    let d = c.coin(kernel_y());
    lemma_coin_weight(c, kernel_y());
    lemma_scatter_y_weight(d);
}

/// Unitarity: after any number of steps from the uniform superposition,
/// for any grid and any targets, the squared moduli of all amplitudes add
/// up to one.
pub proof fn lemma_walk_normalized(n: nat, t: nat, search: Seq<usize>)
    requires
        n >= 1,
    ensures
        walk(n, t, search).wf(),
        walk(n, t, search).side == n,
        walk(n, t, search).normalized(),
    decreases t,
{
    if t == 0 {
        lemma_uniform_normalized(n);
    } else {
        lemma_walk_normalized(n, (t - 1) as nat, search);
        lemma_tick_normalized(walk(n, (t - 1) as nat, search), search);
    }
}

/// A probability read from a normalized state at distinct cells lies
/// between zero and one.
pub proof fn lemma_measure_bounded(w: Wave, search: Seq<usize>)
    requires
        w.wf(),
        w.normalized(),
        targets_valid(search, w.side),
        search.no_duplicates(),
    ensures
        0 <= w.measure(search).num <= w.measure(search).den,
        w.measure(search).den >= 1,
{
    let n = w.side;
    assert forall|k: int| 0 <= k < n * n implies 0 <= #[trigger] w.weight_at(k) by {
        lemma_norm_of_negated(w.amp[(cell_row(k, n), cell_col(k, n), 0)]);
        lemma_norm_of_negated(w.amp[(cell_row(k, n), cell_col(k, n), 1)]);
    }
    let f = |k: int| w.weight_at(k);
    assert forall|k: int| 0 <= k < n * n implies 0 <= #[trigger] f(k) by {
        assert(0 <= w.weight_at(k));
    }
    lemma_sum_over_distinct(f, search, (n * n) as int);
}

/// With distinct targets, the probability of success after any number of
/// steps lies between zero and one.
pub proof fn lemma_success_bounded(n: nat, t: nat, search: Seq<usize>)
    requires
        n >= 1,
        targets_valid(search, n),
        search.no_duplicates(),
    ensures
        0 <= success(n, t, search).num <= success(n, t, search).den,
        success(n, t, search).den >= 1,
{
    lemma_walk_normalized(n, t, search);
    lemma_measure_bounded(walk(n, t, search), search);
}

/// With every cell listed exactly once, the walker is found with certainty
/// after any number of steps: the squared moduli of the whole state add up
/// to one.
pub proof fn lemma_all_cells_certain(n: nat, t: nat, search: Seq<usize>)
    requires
        n >= 1,
        targets_valid(search, n),
        search.no_duplicates(),
        search.len() == n * n,
    ensures
        success(n, t, search).num == success(n, t, search).den,
        success(n, t, search).den >= 1,
{
    lemma_walk_normalized(n, t, search);
    let w = walk(n, t, search);
    lemma_sum_over_all(|k: int| w.weight_at(k), search, (n * n) as int);
}

} // verus!
