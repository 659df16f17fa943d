//! Monte Carlo sampling: runs of the walk on targets drawn at random.
//!
//! The draw comes from `rand` and the trials are spread over threads by
//! `rayon`; what is proved holds for every outcome of the draw.

use rand::seq::SliceRandom;
use rayon::iter::IntoParallelRefIterator;
use rayon::iter::ParallelIterator;
use vstd::prelude::*;

use crate::lattice::grid_fits;
use crate::state::lemma_grid_size;
use crate::state::Probability;
use crate::torus::targets_valid;
use crate::unitarity::lemma_success_bounded;
use crate::walk::qw;
use crate::wave::success;
use crate::wave::Chance;

verus! {

/// `picked` holds the elements of `range` at `amount` distinct positions, or
/// at all of them if `range` has fewer, in some order.
pub open spec fn chosen_from(picked: Seq<usize>, range: Seq<usize>, amount: nat) -> bool {
    &&& picked.len() == (if amount <= range.len() {
        amount
    } else {
        range.len()
    })
    &&& exists|at: Seq<int>|
        at.len() == picked.len() && at.no_duplicates() && forall|t: int|
            0 <= t < at.len() ==> 0 <= #[trigger] at[t] < range.len() && picked[t] == range[at[t]]
}

/// `search` is a possible draw of `count` targets on the `n × n` torus:
/// distinct cells, `count` of them, or all `n²` if `count` is larger.
pub open spec fn is_draw(search: Seq<usize>, n: nat, count: nat) -> bool {
    &&& search.len() == (if count <= n * n {
        count
    } else {
        n * n
    })
    &&& search.no_duplicates()
    &&& targets_valid(search, n)
}

/// `c` is the probability of success after `steps` steps for some draw of
/// `count` targets on the `n × n` torus.
pub open spec fn sampled(n: nat, count: nat, steps: nat, c: Chance) -> bool {
    exists|search: Seq<usize>| #[trigger]
        is_draw(search, n, count) && c == success(n, steps, search)
}

/// `SliceRandom::choose_multiple` on `range`, with the generator of
/// `rand::thread_rng`, collected into a vector: `amount` elements of `range`
/// (all of them if it has fewer) from distinct positions, in random order.
/// Which positions is left open.
///
/// For a slice longer than `u32::MAX`, `rand` samples by rejection, and a
/// build with debug assertions panics there unless fewer elements are asked
/// for than the slice has: the precondition leaves that case out. Apart from
/// it, `thread_rng` panics if the operating system gives it no seed, which
/// no precondition can exclude.
#[verifier::external_body]
fn choose_multiple(range: &Vec<usize>, amount: usize) -> (picked: Vec<usize>)
    requires
        range@.len() <= 0xFFFF_FFFF || amount < range@.len(),
    ensures
        chosen_from(picked@, range@, amount as nat),
{
    range.choose_multiple(&mut rand::thread_rng(), amount).cloned().collect()
}

/// `par_iter().map(..).collect()` of `rayon` over `trials`: one run of
/// [`qw_sample_one`] for each trial, on whichever thread, the results
/// collected in the order of the trials.
#[verifier::external_body]
fn sample_each(trials: &Vec<usize>, n: usize, nb_searched: usize, steps: usize) -> (r: Vec<
    Probability,
>)
    requires
        n >= 1,
        grid_fits(n as nat),
    ensures
        r.len() == trials.len(),
        forall|i: int|
            0 <= i < r.len() ==> sampled(
                n as nat,
                nb_searched as nat,
                steps as nat,
                (#[trigger] r[i])@,
            ),
{
    trials.par_iter().map(|&_i| qw_sample_one(n, nb_searched, steps)).collect()
}

/// The indices `0, 1, …, count − 1`, in this order.
pub fn index_range(count: usize) -> (r: Vec<usize>)
    ensures
        r.len() == count,
        forall|i: int| 0 <= i < count ==> #[trigger] r[i] == i,
{
    let mut r: Vec<usize> = Vec::new();
    let mut i: usize = 0;
    while i < count
        invariant
            i <= count,
            r.len() == i,
            forall|u: int| 0 <= u < i ==> #[trigger] r[u] == u,
        decreases count - i,
    {
        r.push(i);
        i += 1;
    }
    r
}

/// The ratio `x` from which the number of steps of a sampled run is
/// estimated, as numerator and denominator: `n² / nb_searched` if the
/// estimate scales with the number of targets, `n²` if not.
pub fn hitting_ratio(n: usize, nb_searched: usize, scale_hitting_time: bool) -> (x: (usize, usize))
    requires
        grid_fits(n as nat),
    ensures
        x.0 == n * n,
        x.1 == (if scale_hitting_time {
            nb_searched
        } else {
            1
        }),
{
    proof {
        lemma_grid_size(n as nat);
    }
    if scale_hitting_time {
        (n * n, nb_searched)
    } else {
        (n * n, 1)
    }
}

/// What is drawn from the cells `0, …, n² − 1` is a draw of targets.
proof fn lemma_choice_is_draw(picked: Seq<usize>, range: Seq<usize>, n: nat, count: nat)
    requires
        range.len() == n * n,
        forall|i: int| 0 <= i < range.len() ==> #[trigger] range[i] == i,
        chosen_from(picked, range, count),
    ensures
        is_draw(picked, n, count),
{
    let at = choose|at: Seq<int>|
        at.len() == picked.len() && at.no_duplicates() && forall|t: int|
            0 <= t < at.len() ==> 0 <= #[trigger] at[t] < range.len() && picked[t] == range[at[t]];
    assert forall|t: int| 0 <= t < picked.len() implies (#[trigger] picked[t]) == at[t] by {
        assert(0 <= at[t] < range.len());
    }
    assert forall|t: int, u: int|
        0 <= t < picked.len() && 0 <= u < picked.len() && t != u implies picked[t] != picked[u] by {
        assert(picked[t] == at[t] && picked[u] == at[u]);
    }
    assert forall|t: int| 0 <= t < picked.len() implies (#[trigger] picked[t]) < n * n by {
        assert(picked[t] == at[t] && 0 <= at[t] < range.len());
    }
}

/// As many targets as there are cells, or more, leave one draw in substance:
/// every cell, once.
proof fn lemma_all_cells_is_draw(range: Seq<usize>, n: nat, count: nat)
    requires
        range.len() == n * n,
        forall|i: int| 0 <= i < range.len() ==> #[trigger] range[i] == i,
        count >= n * n,
    ensures
        is_draw(range, n, count),
{
}

/// Whatever was drawn, a sampled probability lies between zero and one, and
/// it is zero where no target was asked for.
pub proof fn lemma_sampled_bounded(n: nat, count: nat, steps: nat, c: Chance)
    requires
        n >= 1,
        sampled(n, count, steps, c),
    ensures
        0 <= c.num <= c.den,
        c.den >= 1,
        count == 0 ==> c.num == 0,
{
    let search = choose|search: Seq<usize>| #[trigger]
        is_draw(search, n, count) && c == success(n, steps, search);
    lemma_success_bounded(n, steps, search);
}

/// One sampled run: draws `nb_searched` distinct cells uniformly at random
/// (all `n²` cells if `nb_searched` is larger) and returns the probability
/// of success after `steps` steps with these targets. Whatever the draw,
/// the result lies between zero and one, and it is zero without targets.
///
/// On a grid of more than `u32::MAX` cells of which every one is asked for,
/// nothing is left to chance, and the cells are taken as they are.
pub fn qw_sample_one(n: usize, nb_searched: usize, steps: usize) -> (p: Probability)
    requires
        n >= 1,
        grid_fits(n as nat),
    ensures
        sampled(n as nat, nb_searched as nat, steps as nat, p@),
        0 <= p@.num <= p@.den,
        p@.den >= 1,
        nb_searched == 0 ==> p@.num == 0,
{
    proof {
        lemma_grid_size(n as nat);
    }
    let range = index_range(n * n);
    let search = if range.len() > 0xFFFF_FFFF && nb_searched >= range.len() {
        proof {
            lemma_all_cells_is_draw(range@, n as nat, nb_searched as nat);
        }
        range
    } else {
        let picked = choose_multiple(&range, nb_searched);
        proof {
            lemma_choice_is_draw(picked@, range@, n as nat, nb_searched as nat);
        }
        picked
    };
    let p = qw(n, steps, &search);
    proof {
        assert(is_draw(search@, n as nat, nb_searched as nat) && p@ == success(
            n as nat,
            steps as nat,
            search@,
        ));
        lemma_sampled_bounded(n as nat, nb_searched as nat, steps as nat, p@);
    }
    p
}

/// `nb_iter` sampled runs, each with a draw of its own: the entry at the
/// index `i` is the result of the trial `i`. Every entry lies between zero
/// and one, whatever was drawn.
pub fn qw_sample(n: usize, nb_searched: usize, nb_iter: usize, steps: usize) -> (r: Vec<
    Probability,
>)
    requires
        n >= 1,
        grid_fits(n as nat),
    ensures
        r.len() == nb_iter,
        forall|i: int|
            0 <= i < nb_iter ==> sampled(
                n as nat,
                nb_searched as nat,
                steps as nat,
                (#[trigger] r[i])@,
            ),
        forall|i: int|
            0 <= i < nb_iter ==> 0 <= (#[trigger] r[i])@.num <= r[i]@.den && r[i]@.den >= 1,
        nb_searched == 0 ==> forall|i: int| 0 <= i < nb_iter ==> (#[trigger] r[i])@.num == 0,
{
    let trials = index_range(nb_iter);
    let r = sample_each(&trials, n, nb_searched, steps);
    proof {
        assert forall|i: int| 0 <= i < nb_iter implies 0 <= (#[trigger] r[i])@.num <= r[i]@.den
            && r[i]@.den >= 1 && (nb_searched == 0 ==> r[i]@.num == 0) by {
            lemma_sampled_bounded(n as nat, nb_searched as nat, steps as nat, r[i]@);
        }
    }
    r
}

} // verus!
