//! The drivers of a single run: the probability of success after a number
//! of steps, and the whole trajectory of probabilities up to it.

use vstd::arithmetic::power::pow;
use vstd::prelude::*;

use crate::lattice::grid_fits;
use crate::state::measure;
use crate::state::tick;
use crate::state::Probability;
use crate::state::State;
use crate::torus::targets_valid;
use crate::unitarity::lemma_all_cells_certain;
use crate::unitarity::lemma_success_bounded;
use crate::unitarity::lemma_tick_normalized;
use crate::unitarity::lemma_walk_normalized;
use crate::wave::success;
use crate::wave::trajectory;
use crate::wave::walk;

verus! {

/// The walk keeps the side of the torus.
pub proof fn lemma_walk_side(n: nat, t: nat, search: Seq<usize>)
    ensures
        walk(n, t, search).side == n,
    decreases t,
{
    if t > 0 {
        lemma_walk_side(n, (t - 1) as nat, search);
    }
}

/// The scale after `t` steps: each step holds two coins, and each coin
/// doubles it.
pub proof fn lemma_walk_scale(n: nat, t: nat, search: Seq<usize>)
    requires
        n >= 1,
    ensures
        walk(n, t, search).scale == 2 * n * n * pow(4, t),
    decreases t,
{
    reveal(pow);
    if t > 0 {
        lemma_walk_scale(n, (t - 1) as nat, search);
        lemma_walk_normalized(n, (t - 1) as nat, search);
        lemma_tick_normalized(walk(n, (t - 1) as nat, search), search);
        let q = pow(4, (t - 1) as nat);
        assert(4 * (2 * n * n * q) == 2 * n * n * (4 * q)) by (nonlinear_arith);
    }
}

/// Trajectory consistency: the entry `t` of the trajectory over `m` steps is
/// the probability of success after exactly `t` steps.
pub proof fn lemma_trajectory_consistent(n: nat, m: nat, search: Seq<usize>, t: nat)
    requires
        t <= m,
    ensures
        trajectory(n, m, search).len() == m + 1,
        trajectory(n, m, search)[t as int] == success(n, t, search),
{
}

/// Without targets the probability of success is zero after any number of
/// steps, on any grid, and so is every entry of a trajectory.
pub proof fn lemma_no_target(n: nat, m: nat, t: nat)
    requires
        t <= m,
    ensures
        success(n, m, Seq::<usize>::empty()).num == 0,
        n >= 1 ==> success(n, m, Seq::<usize>::empty()).den >= 1,
        trajectory(n, m, Seq::<usize>::empty())[t as int].num == 0,
{
    if n >= 1 {
        lemma_walk_normalized(n, m, Seq::<usize>::empty());
    }
}

/// The probability of finding the walker at one of the cells in `search`
/// after exactly `m` steps on the `n × n` torus, from the uniform
/// superposition.
pub fn qw(n: usize, m: usize, search: &Vec<usize>) -> (p: Probability)
    requires
        n >= 1,
        grid_fits(n as nat),
        targets_valid(search@, n as nat),
    ensures
        p@ == success(n as nat, m as nat, search@),
        p@.den == 2 * n * n * pow(4, m as nat),
        p@.den >= 1,
        search@.len() == 0 ==> p@.num == 0,
        search@.no_duplicates() ==> 0 <= p@.num <= p@.den,
        search@.no_duplicates() && search@.len() == n * n ==> p@.num == p@.den,
{
    proof {
        lemma_walk_scale(n as nat, m as nat, search@);
        lemma_walk_normalized(n as nat, m as nat, search@);
        if search@.no_duplicates() {
            lemma_success_bounded(n as nat, m as nat, search@);
            if search@.len() == n * n {
                lemma_all_cells_certain(n as nat, m as nat, search@);
            }
        }
    }
    let mut psi = State::new(n);
    let mut t: usize = 0;
    while t < m
        invariant
            t <= m,
            psi.wf(),
            psi@ == walk(n as nat, t as nat, search@),
            psi@.side == n,
            targets_valid(search@, n as nat),
        decreases m - t,
    {
        tick(&mut psi, search);
        t += 1;
        proof {
            lemma_walk_side(n as nat, t as nat, search@);
        }
    }
    measure(&psi, search)
}

/// The probabilities of success after `0`, `1`, …, `m` steps: the entry at
/// the index `t` is what `qw` returns for `t` steps.
pub fn qw_signal(n: usize, m: usize, search: &Vec<usize>) -> (p: Vec<Probability>)
    requires
        n >= 1,
        grid_fits(n as nat),
        targets_valid(search@, n as nat),
        m < usize::MAX,
    ensures
        p.len() == m + 1,
        forall|t: int|
            0 <= t <= m ==> (#[trigger] p[t])@ == trajectory(n as nat, m as nat, search@)[t],
        forall|t: int|
            0 <= t <= m ==> (#[trigger] p[t])@ == success(n as nat, t as nat, search@),
        forall|t: int| 0 <= t <= m ==> (#[trigger] p[t])@.den >= 1,
        search@.len() == 0 ==> forall|t: int| 0 <= t <= m ==> (#[trigger] p[t])@.num == 0,
        search@.no_duplicates() ==> forall|t: int|
            0 <= t <= m ==> 0 <= (#[trigger] p[t])@.num <= p[t]@.den,
{
    proof {
        assert forall|t: int| 0 <= t <= m implies (#[trigger] success(
            n as nat,
            t as nat,
            search@,
        )).den >= 1 && (search@.no_duplicates() ==> 0 <= success(n as nat, t as nat, search@).num
            <= success(n as nat, t as nat, search@).den) by {
            lemma_walk_normalized(n as nat, t as nat, search@);
            if search@.no_duplicates() {
                lemma_success_bounded(n as nat, t as nat, search@);
            }
        }
    }
    let mut psi = State::new(n);
    let mut p: Vec<Probability> = Vec::new();
    p.push(measure(&psi, search));
    let mut t: usize = 0;
    while t < m
        invariant
            t <= m,
            psi.wf(),
            psi@ == walk(n as nat, t as nat, search@),
            psi@.side == n,
            targets_valid(search@, n as nat),
            p.len() == t + 1,
            forall|u: int|
                0 <= u <= t ==> (#[trigger] p[u])@ == success(n as nat, u as nat, search@),
        decreases m - t,
    {
        tick(&mut psi, search);
        t += 1;
        proof {
            lemma_walk_side(n as nat, t as nat, search@);
        }
        p.push(measure(&psi, search));
    }
    p
}

} // verus!
