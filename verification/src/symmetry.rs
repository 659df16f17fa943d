//! The symmetry of the walk under translations of the torus: moving every
//! target by the same offset, across the periodic boundary, does not change
//! the probability of success.

use vstd::prelude::*;

use crate::lattice::in_grid;
use crate::sums::lemma_sum_over_same;
use crate::torus::ahead;
use crate::torus::cell_col;
use crate::torus::cell_index;
use crate::torus::cell_row;
use crate::torus::down;
use crate::torus::lemma_cell_of_index;
use crate::torus::lemma_index_of_cell;
use crate::torus::lemma_step;
use crate::torus::lemma_wrap;
use crate::torus::marked;
use crate::torus::targets_valid;
use crate::torus::up;
use crate::unitarity::lemma_walk_normalized;
use crate::wave::kernel_x;
use crate::wave::kernel_y;
use crate::wave::success;
use crate::wave::uniform;
use crate::wave::walk;
use crate::wave::Kernel;
use crate::wave::Wave;

verus! {

/// The flattened index of the cell that lies `a` rows and `b` columns after
/// the cell `k`, across the periodic boundary.
pub open spec fn shifted_cell(k: int, a: int, b: int, n: nat) -> int {
    cell_index(ahead(cell_row(k, n), a, n), ahead(cell_col(k, n), b, n), n)
}

/// The targets of `search`, each moved by `a` rows and `b` columns.
pub open spec fn shift_targets(search: Seq<usize>, a: int, b: int, n: nat) -> Seq<usize> {
    Seq::new(search.len(), |t: int| shifted_cell(search[t] as int, a, b, n) as usize)
}

/// The state seen from `a` rows and `b` columns earlier: what it has at a
/// cell is what `w` has `a` rows and `b` columns after that cell.
pub open spec fn translate(w: Wave, a: int, b: int) -> Wave {
    Wave {
        side: w.side,
        amp: Map::new(
            |s: (int, int, int)| in_grid(w.side, s),
            |s: (int, int, int)| w.amp[(ahead(s.0, a, w.side), ahead(s.1, b, w.side), s.2)],
        ),
        scale: w.scale,
    }
}

/// An offset below `n` wraps at most once, is undone by no other start, and
/// commutes with a step along the axis.
pub proof fn lemma_ahead(i: int, d: int, n: nat)
    requires
        0 <= i < n,
        0 <= d < n,
    ensures
        ahead(i, d, n) == (if i + d < n { i + d } else { i + d - n }),
        0 <= ahead(i, d, n) < n,
        ahead(up(i, n), d, n) == up(ahead(i, d, n), n),
        ahead(down(i, n), d, n) == down(ahead(i, d, n), n),
{
    lemma_wrap(i + d, n);
    lemma_step(i, n);
    lemma_wrap(up(i, n) + d, n);
    lemma_wrap(down(i, n) + d, n);
    lemma_step(ahead(i, d, n), n);
}

/// A shifted cell is a cell, in the shifted row and column.
pub proof fn lemma_shifted_cell(k: int, a: int, b: int, n: nat)
    requires
        0 <= k < n * n,
        0 <= a < n,
        0 <= b < n,
    ensures
        0 <= shifted_cell(k, a, b, n) < n * n,
        cell_row(shifted_cell(k, a, b, n), n) == ahead(cell_row(k, n), a, n),
        cell_col(shifted_cell(k, a, b, n), n) == ahead(cell_col(k, n), b, n),
{
    lemma_cell_of_index(k, n);
    lemma_ahead(cell_row(k, n), a, n);
    lemma_ahead(cell_col(k, n), b, n);
    lemma_index_of_cell(ahead(cell_row(k, n), a, n), ahead(cell_col(k, n), b, n), n);
}

/// Shifted targets are targets, as many as before.
pub proof fn lemma_shift_targets(search: Seq<usize>, a: int, b: int, n: nat)
    requires
        n * n <= usize::MAX,
        targets_valid(search, n),
        0 <= a < n,
        0 <= b < n,
    ensures
        shift_targets(search, a, b, n).len() == search.len(),
        targets_valid(shift_targets(search, a, b, n), n),
        forall|t: int|
            0 <= t < search.len() ==> (#[trigger] shift_targets(search, a, b, n)[t]) as int
                == shifted_cell(search[t] as int, a, b, n),
{
    let moved = shift_targets(search, a, b, n);
    assert forall|t: int| 0 <= t < search.len() implies (#[trigger] moved[t]) as int
        == shifted_cell(search[t] as int, a, b, n) && moved[t] < n * n by {
        lemma_shifted_cell(search[t] as int, a, b, n);
    }
}

/// A cell is marked exactly when the shifted cell is marked by the shifted
/// targets.
proof fn lemma_marked_shifted(search: Seq<usize>, a: int, b: int, n: nat, i: int, j: int)
    requires
        n * n <= usize::MAX,
        targets_valid(search, n),
        0 <= a < n,
        0 <= b < n,
        0 <= i < n,
        0 <= j < n,
    ensures
        marked(search, n, i, j) <==> marked(
            shift_targets(search, a, b, n),
            n,
            ahead(i, a, n),
            ahead(j, b, n),
        ),
{
    let moved = shift_targets(search, a, b, n);
    lemma_shift_targets(search, a, b, n);
    lemma_ahead(i, a, n);
    lemma_ahead(j, b, n);
    if marked(search, n, i, j) {
        let t = choose|t: int|
            0 <= t < search.len() && cell_row(#[trigger] search[t] as int, n) == i && cell_col(
                search[t] as int,
                n,
            ) == j;
        lemma_shifted_cell(search[t] as int, a, b, n);
        assert(cell_row(moved[t] as int, n) == ahead(i, a, n));
    }
    if marked(moved, n, ahead(i, a, n), ahead(j, b, n)) {
        let t = choose|t: int|
            0 <= t < moved.len() && cell_row(#[trigger] moved[t] as int, n) == ahead(i, a, n)
                && cell_col(moved[t] as int, n) == ahead(j, b, n);
        lemma_shifted_cell(search[t] as int, a, b, n);
        lemma_cell_of_index(search[t] as int, n);
        lemma_ahead(cell_row(search[t] as int, n), a, n);
        lemma_ahead(cell_col(search[t] as int, n), b, n);
        assert(cell_row(search[t] as int, n) == i);
        assert(cell_col(search[t] as int, n) == j);
    }
}

/// The coin commutes with a translation.
proof fn lemma_translate_coin(w: Wave, c: Kernel, a: int, b: int)
    requires
        w.wf(),
        0 <= a < w.side,
        0 <= b < w.side,
    ensures
        translate(w, a, b).coin(c) == translate(w.coin(c), a, b),
{
    let n = w.side;
    let l = translate(w, a, b).coin(c);
    let r = translate(w.coin(c), a, b);
    assert forall|s: (int, int, int)| in_grid(n, s) implies #[trigger] l.amp[s] == r.amp[s] by {
        lemma_ahead(s.0, a, n);
        lemma_ahead(s.1, b, n);
        assert(in_grid(n, (s.0, s.1, 0int)));
        assert(in_grid(n, (s.0, s.1, 1int)));
        assert(in_grid(n, (ahead(s.0, a, n), ahead(s.1, b, n), s.2)));
    }
    assert(l.amp =~= r.amp);
}

/// The X scatter commutes with a translation.
proof fn lemma_translate_scatter_x(w: Wave, a: int, b: int)
    requires
        w.wf(),
        0 <= a < w.side,
        0 <= b < w.side,
    ensures
        translate(w, a, b).scatter_x() == translate(w.scatter_x(), a, b),
{
    let n = w.side;
    let l = translate(w, a, b).scatter_x();
    let r = translate(w.scatter_x(), a, b);
    assert forall|s: (int, int, int)| in_grid(n, s) implies #[trigger] l.amp[s] == r.amp[s] by {
        lemma_ahead(s.0, a, n);
        lemma_ahead(s.1, b, n);
        lemma_step(s.0, n);
        assert(in_grid(n, (up(s.0, n), s.1, 0int)));
        assert(in_grid(n, (down(s.0, n), s.1, 1int)));
        assert(in_grid(n, (ahead(s.0, a, n), ahead(s.1, b, n), s.2)));
    }
    assert(l.amp =~= r.amp);
}

/// The Y scatter commutes with a translation.
proof fn lemma_translate_scatter_y(w: Wave, a: int, b: int)
    requires
        w.wf(),
        0 <= a < w.side,
        0 <= b < w.side,
    ensures
        translate(w, a, b).scatter_y() == translate(w.scatter_y(), a, b),
{
    let n = w.side;
    let l = translate(w, a, b).scatter_y();
    let r = translate(w.scatter_y(), a, b);
    assert forall|s: (int, int, int)| in_grid(n, s) implies #[trigger] l.amp[s] == r.amp[s] by {
        lemma_ahead(s.0, a, n);
        lemma_ahead(s.1, b, n);
        lemma_step(s.1, n);
        assert(in_grid(n, (s.0, up(s.1, n), 0int)));
        assert(in_grid(n, (s.0, down(s.1, n), 1int)));
        assert(in_grid(n, (ahead(s.0, a, n), ahead(s.1, b, n), s.2)));
    }
    assert(l.amp =~= r.amp);
}

/// The oracle on a translated state is the translation of the oracle with
/// the shifted targets.
proof fn lemma_translate_oracle(w: Wave, search: Seq<usize>, a: int, b: int)
    requires
        w.wf(),
        w.side * w.side <= usize::MAX,
        targets_valid(search, w.side),
        0 <= a < w.side,
        0 <= b < w.side,
    ensures
        translate(w, a, b).oracle(search) == translate(
            w.oracle(shift_targets(search, a, b, w.side)),
            a,
            b,
        ),
{
    let n = w.side;
    let l = translate(w, a, b).oracle(search);
    let r = translate(w.oracle(shift_targets(search, a, b, n)), a, b);
    assert forall|s: (int, int, int)| in_grid(n, s) implies #[trigger] l.amp[s] == r.amp[s] by {
        lemma_ahead(s.0, a, n);
        lemma_ahead(s.1, b, n);
        lemma_marked_shifted(search, a, b, n, s.0, s.1);
        assert(in_grid(n, (s.0, s.1, 1 - s.2)));
        assert(in_grid(n, (ahead(s.0, a, n), ahead(s.1, b, n), s.2)));
        assert(in_grid(n, (ahead(s.0, a, n), ahead(s.1, b, n), 1 - s.2)));
    }
    assert(l.amp =~= r.amp);
}

/// One step on a translated state is the translation of one step with the
/// shifted targets.
proof fn lemma_translate_tick(w: Wave, search: Seq<usize>, a: int, b: int)
    requires
        w.wf(),
        w.side * w.side <= usize::MAX,
        targets_valid(search, w.side),
        0 <= a < w.side,
        0 <= b < w.side,
    ensures
        translate(w, a, b).tick(search) == translate(
            w.tick(shift_targets(search, a, b, w.side)),
            a,
            b,
        ),
{
    let moved = shift_targets(search, a, b, w.side);
    let kx = kernel_x();
    let ky = kernel_y();
    lemma_translate_oracle(w, search, a, b);
    let w1 = w.oracle(moved);
    lemma_translate_coin(w1, kx, a, b);
    let w2 = w1.coin(kx);
    lemma_translate_scatter_x(w2, a, b);
    let w3 = w2.scatter_x();
    lemma_translate_coin(w3, ky, a, b);
    let w4 = w3.coin(ky);
    lemma_translate_scatter_y(w4, a, b);
}

/// The walk towards some targets is the translation of the walk towards
/// the shifted targets.
proof fn lemma_translate_walk(n: nat, t: nat, search: Seq<usize>, a: int, b: int)
    requires
        n >= 1,
        n * n <= usize::MAX,
        targets_valid(search, n),
        0 <= a < n,
        0 <= b < n,
    ensures
        walk(n, t, search) == translate(walk(n, t, shift_targets(search, a, b, n)), a, b),
    decreases t,
{
    let moved = shift_targets(search, a, b, n);
    if t == 0 {
        let l = uniform(n);
        let r = translate(uniform(n), a, b);
        assert forall|s: (int, int, int)| in_grid(n, s) implies #[trigger] l.amp[s] == r.amp[s] by {
            lemma_ahead(s.0, a, n);
            lemma_ahead(s.1, b, n);
            assert(in_grid(n, (ahead(s.0, a, n), ahead(s.1, b, n), s.2)));
        }
        assert(l.amp =~= r.amp);
    } else {
        let before = walk(n, (t - 1) as nat, moved);
        lemma_translate_walk(n, (t - 1) as nat, search, a, b);
        lemma_walk_normalized(n, (t - 1) as nat, moved);
        lemma_translate_tick(before, search, a, b);
    }
}

/// Symmetry under a shift of the torus: moving every target by `a` rows and
/// `b` columns, across the periodic boundary, leaves the probability of
/// success after any number of steps as it was.
pub proof fn lemma_shift_symmetry(n: nat, m: nat, search: Seq<usize>, a: int, b: int)
    requires
        n >= 1,
        n * n <= usize::MAX,
        targets_valid(search, n),
        0 <= a < n,
        0 <= b < n,
    ensures
        success(n, m, shift_targets(search, a, b, n)) == success(n, m, search),
{
    let moved = shift_targets(search, a, b, n);
    let w = walk(n, m, moved);
    let v = walk(n, m, search);
    lemma_translate_walk(n, m, search, a, b);
    lemma_walk_normalized(n, m, moved);
    lemma_shift_targets(search, a, b, n);
    assert forall|t: int| 0 <= t < search.len() implies v.weight_at(#[trigger] search[t] as int)
        == w.weight_at(moved[t] as int) by {
        let k = search[t] as int;
        lemma_cell_of_index(k, n);
        lemma_shifted_cell(k, a, b, n);
        assert(in_grid(n, (cell_row(k, n), cell_col(k, n), 0int)));
        assert(in_grid(n, (cell_row(k, n), cell_col(k, n), 1int)));
    }
    let f = |k: int| v.weight_at(k);
    let g = |k: int| w.weight_at(k);
    assert forall|t: int| 0 <= t < search.len() implies f(#[trigger] search[t] as int) == g(
        moved[t] as int,
    ) by {
        assert(v.weight_at(search[t] as int) == w.weight_at(moved[t] as int));
    }
    lemma_sum_over_same(f, search, g, moved);
}

/// With a single target, the probability of success does not depend on
/// where on the torus the target lies.
pub proof fn lemma_single_target_symmetry(n: nat, m: nat, k: usize, l: usize)
    requires
        n >= 1,
        n * n <= usize::MAX,
        k < n * n,
        l < n * n,
    ensures
        success(n, m, seq![k]) == success(n, m, seq![l]),
{
    lemma_cell_of_index(k as int, n);
    lemma_cell_of_index(l as int, n);
    let a = if cell_row(l as int, n) >= cell_row(k as int, n) {
        cell_row(l as int, n) - cell_row(k as int, n)
    } else {
        cell_row(l as int, n) - cell_row(k as int, n) + n
    };
    let b = if cell_col(l as int, n) >= cell_col(k as int, n) {
        cell_col(l as int, n) - cell_col(k as int, n)
    } else {
        cell_col(l as int, n) - cell_col(k as int, n) + n
    };
    lemma_ahead(cell_row(k as int, n), a, n);
    lemma_ahead(cell_col(k as int, n), b, n);
    let search = seq![k];
    assert(targets_valid(search, n));
    lemma_shift_targets(search, a, b, n);
    assert(shift_targets(search, a, b, n)[0] == l);
    assert(shift_targets(search, a, b, n) =~= seq![l]);
    lemma_shift_symmetry(n, m, search, a, b);
}

} // verus!
