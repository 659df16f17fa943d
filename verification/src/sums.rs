//! Finite sums of an integer function, over an initial segment and over a
//! list of indices, with the rearrangement laws the walk's proofs rest on.

use vstd::prelude::*;

verus! {

/// `f(0) + f(1) + … + f(n − 1)`.
pub open spec fn sum_below(f: spec_fn(int) -> int, n: int) -> int
    decreases n,
{
    if n <= 0 {
        0
    } else {
        sum_below(f, n - 1) + f(n - 1)
    }
}

/// `f(s[0]) + f(s[1]) + …`, an index counted as often as the list holds it.
pub open spec fn sum_over(f: spec_fn(int) -> int, s: Seq<usize>) -> int
    decreases s.len(),
{
    if s.len() == 0 {
        0
    } else {
        sum_over(f, s.drop_last()) + f(s.last() as int)
    }
}

/// Functions that agree below `n` have the same sum.
pub proof fn lemma_sum_same(f: spec_fn(int) -> int, g: spec_fn(int) -> int, n: int)
    requires
        forall|k: int| 0 <= k < n ==> #[trigger] f(k) == g(k),
    ensures
        sum_below(f, n) == sum_below(g, n),
    decreases n,
{
    if n > 0 {
        lemma_sum_same(f, g, n - 1);
    }
}

/// A function that is `c` below `n` sums to `c · n`.
pub proof fn lemma_sum_constant(f: spec_fn(int) -> int, c: int, n: int)
    requires
        0 <= n,
        forall|k: int| 0 <= k < n ==> #[trigger] f(k) == c,
    ensures
        sum_below(f, n) == c * n,
    decreases n,
{
    if n > 0 {
        lemma_sum_constant(f, c, n - 1);
        assert(c * (n - 1) + c == c * n) by (nonlinear_arith);
    } else {
        assert(c * 0 == 0);
    }
}

/// The sum of `f + g` is the sum of `f` plus the sum of `g`.
pub proof fn lemma_sum_split(
    h: spec_fn(int) -> int,
    f: spec_fn(int) -> int,
    g: spec_fn(int) -> int,
    n: int,
)
    requires
        forall|k: int| 0 <= k < n ==> #[trigger] h(k) == f(k) + g(k),
    ensures
        sum_below(h, n) == sum_below(f, n) + sum_below(g, n),
    decreases n,
{
    if n > 0 {
        lemma_sum_split(h, f, g, n - 1);
    }
}

/// The sum of `c · f` is `c` times the sum of `f`.
pub proof fn lemma_sum_scaled(g: spec_fn(int) -> int, f: spec_fn(int) -> int, c: int, n: int)
    requires
        forall|k: int| 0 <= k < n ==> #[trigger] g(k) == c * f(k),
    ensures
        sum_below(g, n) == c * sum_below(f, n),
    decreases n,
{
    if n > 0 {
        lemma_sum_scaled(g, f, c, n - 1);
        assert(c * (sum_below(f, n - 1) + f(n - 1)) == c * sum_below(f, n - 1) + c * f(n - 1))
            by (nonlinear_arith);
    } else {
        assert(c * 0 == 0);
    }
}

/// Two functions that differ at `d` alone have sums that differ by as much.
pub proof fn lemma_sum_one_change(f: spec_fn(int) -> int, g: spec_fn(int) -> int, d: int, n: int)
    requires
        0 <= d < n,
        forall|k: int| 0 <= k < n && k != d ==> #[trigger] f(k) == g(k),
    ensures
        sum_below(f, n) - f(d) == sum_below(g, n) - g(d),
    decreases n,
{
    if d == n - 1 {
        lemma_sum_same(f, g, n - 1);
    } else {
        lemma_sum_one_change(f, g, d, n - 1);
    }
}

/// A sum does not depend on the order of its terms: if `p` permutes the
/// indices below `n`, with inverse `q`, then `f ∘ p` sums to what `f` does.
pub proof fn lemma_sum_permuted(
    g: spec_fn(int) -> int,
    f: spec_fn(int) -> int,
    p: spec_fn(int) -> int,
    q: spec_fn(int) -> int,
    n: int,
)
    requires
        forall|k: int| 0 <= k < n ==> 0 <= #[trigger] p(k) < n && q(p(k)) == k,
        forall|k: int| 0 <= k < n ==> 0 <= #[trigger] q(k) < n && p(q(k)) == k,
        forall|k: int| 0 <= k < n ==> #[trigger] g(k) == f(p(k)),
    ensures
        sum_below(g, n) == sum_below(f, n),
    decreases n,
{
    if n > 0 {
        let m = n - 1;
        let c = p(m);
        let d = q(m);
        if c == m {
            assert(d == m);
            assert forall|k: int| 0 <= k < m implies 0 <= #[trigger] p(k) < m && q(p(k))
                == k by {
                assert(q(p(k)) == k);
            }
            assert forall|k: int| 0 <= k < m implies 0 <= #[trigger] q(k) < m && p(q(k))
                == k by {
                assert(p(q(k)) == k);
            }
            lemma_sum_permuted(g, f, p, q, m);
        } else {
            assert(p(d) == m);
            assert(q(c) == m);
            let p1 = |k: int| if k == d { c } else { p(k) };
            let q1 = |k: int| if k == c { d } else { q(k) };
            let g1 = |k: int| f(p1(k));
            assert forall|k: int| 0 <= k < m implies 0 <= #[trigger] p1(k) < m && q1(p1(k))
                == k by {
                assert(q(p(k)) == k);
            }
            assert forall|k: int| 0 <= k < m implies 0 <= #[trigger] q1(k) < m && p1(q1(k))
                == k by {
                assert(p(q(k)) == k);
            }
            lemma_sum_permuted(g1, f, p1, q1, m);
            assert(g1(d) == f(c));
            assert(g(d) == f(m));
            lemma_sum_one_change(g, g1, d, m);
        }
    }
}

/// Two lists of equal length whose terms agree place by place have the same
/// sum.
pub proof fn lemma_sum_over_same(
    f: spec_fn(int) -> int,
    s: Seq<usize>,
    g: spec_fn(int) -> int,
    r: Seq<usize>,
)
    requires
        s.len() == r.len(),
        forall|t: int| 0 <= t < s.len() ==> f(#[trigger] s[t] as int) == g(r[t] as int),
    ensures
        sum_over(f, s) == sum_over(g, r),
    decreases s.len(),
{
    if s.len() > 0 {
        let s0 = s.drop_last();
        let r0 = r.drop_last();
        assert forall|t: int| 0 <= t < s0.len() implies f(#[trigger] s0[t] as int) == g(
            r0[t] as int,
        ) by {
            assert(s0[t] == s[t] && r0[t] == r[t]);
        }
        lemma_sum_over_same(f, s0, g, r0);
        assert(f(s[s.len() - 1] as int) == g(r[s.len() - 1] as int));
    }
}

/// Taking one index out of a list takes its term out of the sum.
pub proof fn lemma_sum_over_remove(f: spec_fn(int) -> int, s: Seq<usize>, t: int)
    requires
        0 <= t < s.len(),
    ensures
        sum_over(f, s.remove(t)) == sum_over(f, s) - f(s[t] as int),
    decreases s.len(),
{
    if t == s.len() - 1 {
        assert(s.remove(t) =~= s.drop_last());
    } else {
        lemma_sum_over_remove(f, s.drop_last(), t);
        assert(s.remove(t).drop_last() =~= s.drop_last().remove(t));
        assert(s.remove(t).last() == s.last());
    }
}

/// The terms at distinct indices below `n` add up to no more than all the
/// terms below `n`, when none is negative.
pub proof fn lemma_sum_over_distinct(f: spec_fn(int) -> int, s: Seq<usize>, n: int)
    requires
        s.no_duplicates(),
        forall|t: int| 0 <= t < s.len() ==> (#[trigger] s[t]) < n,
        forall|k: int| 0 <= k < n ==> 0 <= #[trigger] f(k),
    ensures
        0 <= sum_over(f, s) <= sum_below(f, n),
    decreases n,
{
    if n <= 0 {
        assert(s.len() == 0) by {
            if s.len() > 0 {
                assert(s[0] < n);
            }
        }
    } else if exists|t: int| 0 <= t < s.len() && #[trigger] s[t] == n - 1 {
        let t = choose|t: int| 0 <= t < s.len() && #[trigger] s[t] == n - 1;
        let r = s.remove(t);
        assert forall|u: int| 0 <= u < r.len() implies (#[trigger] r[u]) < n - 1 by {
            if u < t {
                assert(r[u] == s[u]);
            } else {
                assert(r[u] == s[u + 1]);
            }
        }
        assert(r.no_duplicates()) by {
            assert forall|u: int, v: int|
                0 <= u < r.len() && 0 <= v < r.len() && u != v implies r[u] != r[v] by {
                let u0 = if u < t { u } else { u + 1 };
                let v0 = if v < t { v } else { v + 1 };
                assert(r[u] == s[u0] && r[v] == s[v0]);
            }
        }
        lemma_sum_over_remove(f, s, t);
        lemma_sum_over_distinct(f, r, n - 1);
    } else {
        assert forall|t: int| 0 <= t < s.len() implies (#[trigger] s[t]) < n - 1 by {
            assert(s[t] < n);
        }
        lemma_sum_over_distinct(f, s, n - 1);
        assert(0 <= f(n - 1));
    }
}

/// Distinct indices below `n` are at most `n`, and where they are `n`, their
/// terms add up to all the terms below `n`.
pub proof fn lemma_sum_over_all(f: spec_fn(int) -> int, s: Seq<usize>, n: int)
    requires
        0 <= n,
        s.no_duplicates(),
        forall|t: int| 0 <= t < s.len() ==> (#[trigger] s[t]) < n,
    ensures
        s.len() <= n,
        s.len() == n ==> sum_over(f, s) == sum_below(f, n),
    decreases n,
{
    if n == 0 {
        assert(s.len() == 0) by {
            if s.len() > 0 {
                assert(s[0] < n);
            }
        }
    } else if exists|t: int| 0 <= t < s.len() && #[trigger] s[t] == n - 1 {
        let t = choose|t: int| 0 <= t < s.len() && #[trigger] s[t] == n - 1;
        let r = s.remove(t);
        assert forall|u: int| 0 <= u < r.len() implies (#[trigger] r[u]) < n - 1 by {
            if u < t {
                assert(r[u] == s[u]);
            } else {
                assert(r[u] == s[u + 1]);
            }
        }
        assert(r.no_duplicates()) by {
            assert forall|u: int, v: int|
                0 <= u < r.len() && 0 <= v < r.len() && u != v implies r[u] != r[v] by {
                let u0 = if u < t { u } else { u + 1 };
                let v0 = if v < t { v } else { v + 1 };
                assert(r[u] == s[u0] && r[v] == s[v0]);
            }
        }
        lemma_sum_over_remove(f, s, t);
        lemma_sum_over_all(f, r, n - 1);
    } else {
        assert forall|t: int| 0 <= t < s.len() implies (#[trigger] s[t]) < n - 1 by {
            assert(s[t] < n);
        }
        lemma_sum_over_all(f, s, n - 1);
    }
}

} // verus!
