//! Coordinates on the `n × n` torus: cells by row and column, by flattened
//! index, and their neighbours across the periodic boundary.

use vstd::arithmetic::div_mod::lemma_fundamental_div_mod;
use vstd::arithmetic::div_mod::lemma_fundamental_div_mod_converse;
use vstd::arithmetic::div_mod::lemma_mod_bound;
use vstd::arithmetic::div_mod::lemma_small_mod;
use vstd::arithmetic::div_mod::lemma_mod_multiples_vanish;
use vstd::prelude::*;

verus! {

/// The coordinate after `i` on an axis of length `n`, wrapping at the end.
pub open spec fn up(i: int, n: nat) -> int {
    (i + 1) % (n as int)
}

/// The coordinate before `i` on an axis of length `n`, wrapping at the start.
pub open spec fn down(i: int, n: nat) -> int {
    (i - 1) % (n as int)
}

/// The coordinate `d` steps after `i` on an axis of length `n`.
pub open spec fn ahead(i: int, d: int, n: nat) -> int {
    (i + d) % (n as int)
}

/// The flattened index of the cell in row `i` and column `j`.
pub open spec fn cell_index(i: int, j: int, n: nat) -> int {
    i * n + j
}

/// The row of the cell with the flattened index `k`.
pub open spec fn cell_row(k: int, n: nat) -> int {
    k / (n as int)
}

/// The column of the cell with the flattened index `k`.
pub open spec fn cell_col(k: int, n: nat) -> int {
    k % (n as int)
}

/// Every index in `search` names a cell of the `n × n` grid.
pub open spec fn targets_valid(search: Seq<usize>, n: nat) -> bool {
    forall|t: int| 0 <= t < search.len() ==> (#[trigger] search[t]) < n * n
}

/// The cell in row `i` and column `j` is one of the targets.
pub open spec fn marked(search: Seq<usize>, n: nat, i: int, j: int) -> bool {
    exists|t: int|
        0 <= t < search.len() && cell_row(#[trigger] search[t] as int, n) == i && cell_col(
            search[t] as int,
            n,
        ) == j
}

/// `up` and `down` without division: one step, and a wrap at the boundary.
pub proof fn lemma_step(i: int, n: nat)
    requires
        0 <= i < n,
    ensures
        up(i, n) == (if i + 1 == n { 0 } else { i + 1 }),
        down(i, n) == (if i == 0 { n - 1 } else { i - 1 }),
        (i + n - 1) % (n as int) == down(i, n),
        0 <= up(i, n) < n,
        0 <= down(i, n) < n,
        up(down(i, n), n) == i,
        down(up(i, n), n) == i,
{
    let m = n as int;
    lemma_wrap(i + 1, n);
    lemma_wrap(i + n - 1, n);
    if i == 0 {
        lemma_mod_multiples_vanish(-1, m - 1, m);
        lemma_small_mod((m - 1) as nat, n);
    } else {
        lemma_small_mod((i - 1) as nat, n);
    }
    lemma_wrap(down(i, n) + 1, n);
    if up(i, n) == 0 {
        lemma_mod_multiples_vanish(-1, m - 1, m);
        lemma_small_mod((m - 1) as nat, n);
    } else {
        lemma_small_mod((up(i, n) - 1) as nat, n);
    }
}

/// A value below `2n` wraps at most once.
pub proof fn lemma_wrap(x: int, n: nat)
    requires
        0 <= x < 2 * n,
        n > 0,
    ensures
        x % (n as int) == (if x < n { x } else { x - n }),
{
    let m = n as int;
    if x < m {
        lemma_small_mod(x as nat, n);
    } else {
        lemma_mod_multiples_vanish(1, x - m, m);
        lemma_small_mod((x - m) as nat, n);
    }
}

/// Row and column of a flattened index, and back.
pub proof fn lemma_cell_of_index(k: int, n: nat)
    requires
        0 <= k < n * n,
    ensures
        n > 0,
        0 <= cell_row(k, n) < n,
        0 <= cell_col(k, n) < n,
        cell_index(cell_row(k, n), cell_col(k, n), n) == k,
{
    let m = n as int;
    assert(m > 0) by (nonlinear_arith)
        requires
            0 <= k < m * m,
            m >= 0,
    ;
    lemma_fundamental_div_mod(k, m);
    lemma_mod_bound(k, m);
    let q = k / m;
    let r = k % m;
    assert(m * q == q * m) by (nonlinear_arith);
    assert(0 <= q < m) by (nonlinear_arith)
        requires
            0 <= k < m * m,
            k == m * q + r,
            0 <= r < m,
    ;
}

/// The flattened index of a row and a column, and back.
pub proof fn lemma_index_of_cell(i: int, j: int, n: nat)
    requires
        0 <= i < n,
        0 <= j < n,
    ensures
        0 <= cell_index(i, j, n) < n * n,
        cell_row(cell_index(i, j, n), n) == i,
        cell_col(cell_index(i, j, n), n) == j,
{
    let m = n as int;
    lemma_fundamental_div_mod_converse(i * m + j, m, i, j);
    assert(0 <= i * m + j < m * m) by (nonlinear_arith)
        requires
            0 <= i < m,
            0 <= j < m,
    ;
}

} // verus!
