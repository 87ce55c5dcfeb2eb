//! The pair schedule of a force pass.
//!
//! One force computation visits every unordered pair of particles exactly
//! once, as `(i, j)` with `i < j`, and accumulates the pair's contribution
//! into particle `i` only — the engine deliberately applies no reaction
//! force to `j`, which is what lets the driver parallelise the outer loop
//! over `i` with nothing but a read-only snapshot shared between workers.
//! This module pins that schedule down exactly: which pairs are visited, in
//! which order, and which particle each visit writes to.

use vstd::prelude::*;

verus! {

/// The partners a force pass pairs with particle `i` in an ensemble of
/// `n` particles: every index strictly between `i` and `n`, in increasing
/// order.
pub open spec fn partner_seq(i: int, n: int) -> Seq<usize> {
    Seq::new(
        if i + 1 < n {
            (n - i - 1) as nat
        } else {
            0
        },
        |k: int| (i + 1 + k) as usize,
    )
}

/// Row `i` of the pair schedule: particle `i` paired with each of its
/// partners, the pair's write target first.
pub open spec fn pair_row(i: int, n: int) -> Seq<(usize, usize)> {
    Seq::new(
        if i + 1 < n {
            (n - i - 1) as nat
        } else {
            0
        },
        |k: int| ((i as usize), ((i + 1 + k) as usize)),
    )
}

/// The schedule rows of the first `rows` particles, concatenated in row
/// order.
pub open spec fn pairs_below(rows: int, n: int) -> Seq<(usize, usize)>
    decreases rows,
{
    if rows <= 0 {
        Seq::<(usize, usize)>::empty()
    } else {
        pairs_below(rows - 1, n) + pair_row(rows - 1, n)
    }
}

/// The complete pair schedule of an ensemble of `n` particles: every
/// unordered pair exactly once, written `(lower, higher)`, in
/// lexicographic order.
pub open spec fn all_pairs(n: int) -> Seq<(usize, usize)> {
    pairs_below(n, n)
}

/// Strict lexicographic order on scheduled pairs.
pub open spec fn pair_lt(p: (usize, usize), q: (usize, usize)) -> bool {
    p.0 < q.0 || (p.0 == q.0 && p.1 < q.1)
}

/// Build the complete pair schedule of an ensemble of `n` particles.
pub fn pair_schedule(n: usize) -> (r: Vec<(usize, usize)>)
    ensures
        r@ == all_pairs(n as int),
{
    let mut r: Vec<(usize, usize)> = Vec::new();
    let mut i: usize = 0;
    while i < n
        invariant
            i <= n,
            r@ == pairs_below(i as int, n as int),
        decreases n - i,
    {
        let mut j: usize = i + 1;
        while j < n
            invariant
                i < n,
                i + 1 <= j <= n,
                r@ == pairs_below(i as int, n as int)
                    + pair_row(i as int, n as int).take(j as int - i as int - 1),
            decreases n - j,
        {
            r.push((i, j));
            proof {
                let row = pair_row(i as int, n as int);
                assert(row.take(j as int - i as int - 1).push((i, j))
                    =~= row.take(j as int - i as int));
            }
            j = j + 1;
        }
        proof {
            let row = pair_row(i as int, n as int);
            assert(row.take(n as int - i as int - 1) =~= row);
            assert(pairs_below(i as int, n as int) + row
                == pairs_below(i as int + 1, n as int));
        }
        i = i + 1;
    }
    r
}

/// The partners of particle `i` in an ensemble of `n` particles, in the
/// order the force pass visits them. Empty when `i` is the last particle
/// or lies outside the ensemble.
pub fn interaction_partners(i: usize, n: usize) -> (r: Vec<usize>)
    ensures
        r@ == partner_seq(i as int, n as int),
{
    let mut r: Vec<usize> = Vec::new();
    if i >= n {
        assert(r@ =~= partner_seq(i as int, n as int));
        return r;
    }
    let mut j: usize = i + 1;
    while j < n
        invariant
            i < n,
            i + 1 <= j <= n,
            r@ == partner_seq(i as int, n as int).take(j as int - i as int - 1),
        decreases n - j,
    {
        r.push(j);
        proof {
            let ps = partner_seq(i as int, n as int);
            assert(ps.take(j as int - i as int - 1).push(j)
                =~= ps.take(j as int - i as int));
        }
        j = j + 1;
    }
    proof {
        assert(partner_seq(i as int, n as int).take(n as int - i as int - 1)
            =~= partner_seq(i as int, n as int));
    }
    r
}

/// Law: each schedule row is exactly particle `i` tagged onto its partner
/// list — the flattened schedule and the per-particle partner lists
/// describe the same pass.
pub proof fn lemma_row_is_tagged_partners(i: int, n: int)
    ensures
        pair_row(i, n).len() == partner_seq(i, n).len(),
        forall|k: int| 0 <= k < pair_row(i, n).len()
            ==> #[trigger] pair_row(i, n)[k] == ((i as usize), partner_seq(i, n)[k]),
{
}

proof fn lemma_pairs_below_bounds(rows: int, n: int)
    requires
        0 <= rows <= n <= usize::MAX,
    ensures
        forall|k: int| 0 <= k < pairs_below(rows, n).len()
            ==> (#[trigger] pairs_below(rows, n)[k]).0 < pairs_below(rows, n)[k].1
                && pairs_below(rows, n)[k].1 < n
                && pairs_below(rows, n)[k].0 < rows,
    decreases rows,
{
    if rows > 0 {
        lemma_pairs_below_bounds(rows - 1, n);
        let s = pairs_below(rows - 1, n);
        let row = pair_row(rows - 1, n);
        assert forall|k: int| 0 <= k < pairs_below(rows, n).len()
            implies (#[trigger] pairs_below(rows, n)[k]).0 < pairs_below(rows, n)[k].1
                && pairs_below(rows, n)[k].1 < n
                && pairs_below(rows, n)[k].0 < rows by {
            if k < s.len() {
                assert(pairs_below(rows, n)[k] == s[k]);
            } else {
                assert(pairs_below(rows, n)[k] == row[k - s.len()]);
            }
        }
    }
}

/// Law: the schedule writes only to the lower index of each pair — every
/// scheduled entry `(i, j)` has `i < j < n`, and `i` is the particle the
/// pass accumulates into. An interaction therefore never reaches the
/// higher-indexed particle's force.
pub proof fn lemma_schedule_targets_lower_index(n: usize)
    ensures
        forall|k: int| 0 <= k < all_pairs(n as int).len()
            ==> (#[trigger] all_pairs(n as int)[k]).0 < all_pairs(n as int)[k].1
                && all_pairs(n as int)[k].1 < n,
{
    lemma_pairs_below_bounds(n as int, n as int);
}

proof fn lemma_pairs_below_complete(rows: int, n: int)
    requires
        0 <= rows <= n <= usize::MAX,
    ensures
        forall|a: usize, b: usize| a < b && (b as int) < n && (a as int) < rows
            ==> #[trigger] pairs_below(rows, n).contains((a, b)),
    decreases rows,
{
    if rows > 0 {
        lemma_pairs_below_complete(rows - 1, n);
        let s = pairs_below(rows - 1, n);
        let row = pair_row(rows - 1, n);
        assert forall|a: usize, b: usize| a < b && (b as int) < n && (a as int) < rows
            implies #[trigger] pairs_below(rows, n).contains((a, b)) by {
            if (a as int) < rows - 1 {
                assert(s.contains((a, b)));
                let k = choose|k: int| 0 <= k < s.len() && s[k] == (a, b);
                assert(pairs_below(rows, n)[k] == s[k]);
            } else {
                let k = b as int - a as int - 1;
                assert((rows - 1) as usize == a);
                assert((rows - 1 + 1 + k) as usize == b);
                assert(row[k] == (a, b));
                assert(pairs_below(rows, n)[s.len() + k] == row[k]);
            }
        }
    }
}

proof fn lemma_pairs_below_sorted(rows: int, n: int)
    requires
        0 <= rows <= n <= usize::MAX,
    ensures
        forall|k1: int, k2: int| 0 <= k1 < k2 < pairs_below(rows, n).len()
            ==> pair_lt(#[trigger] pairs_below(rows, n)[k1], #[trigger] pairs_below(rows, n)[k2]),
    decreases rows,
{
    if rows > 0 {
        lemma_pairs_below_sorted(rows - 1, n);
        lemma_pairs_below_bounds(rows - 1, n);
        let s = pairs_below(rows - 1, n);
        let row = pair_row(rows - 1, n);
        assert forall|k1: int, k2: int| 0 <= k1 < k2 < pairs_below(rows, n).len()
            implies pair_lt(
                #[trigger] pairs_below(rows, n)[k1],
                #[trigger] pairs_below(rows, n)[k2],
            ) by {
            if k2 < s.len() {
                assert(pairs_below(rows, n)[k1] == s[k1]);
                assert(pairs_below(rows, n)[k2] == s[k2]);
            } else if k1 < s.len() {
                assert(pairs_below(rows, n)[k1] == s[k1]);
                assert(pairs_below(rows, n)[k2] == row[k2 - s.len()]);
                assert(s[k1].0 < rows - 1);
            } else {
                assert(pairs_below(rows, n)[k1] == row[k1 - s.len()]);
                assert(pairs_below(rows, n)[k2] == row[k2 - s.len()]);
            }
        }
    }
}

/// Law: the schedule visits each unordered pair exactly once — every pair
/// `(a, b)` with `a < b < n` appears in the schedule, the schedule is
/// strictly lexicographically increasing, and so holds no pair twice and
/// no pair outside the ensemble.
pub proof fn lemma_schedule_visits_each_pair_once(n: usize)
    ensures
        forall|a: usize, b: usize| a < b && b < n
            ==> #[trigger] all_pairs(n as int).contains((a, b)),
        forall|k1: int, k2: int| 0 <= k1 < k2 < all_pairs(n as int).len()
            ==> pair_lt(#[trigger] all_pairs(n as int)[k1], #[trigger] all_pairs(n as int)[k2]),
        forall|k1: int, k2: int| 0 <= k1 < k2 < all_pairs(n as int).len()
            ==> #[trigger] all_pairs(n as int)[k1] != #[trigger] all_pairs(n as int)[k2],
{
    lemma_pairs_below_complete(n as int, n as int);
    lemma_pairs_below_sorted(n as int, n as int);
}

/// Law: an ensemble with at most one particle has an empty pair schedule,
/// so an isolated particle receives no force contribution from any pass.
pub proof fn lemma_isolated_particle_has_no_pairs(n: usize)
    requires
        n <= 1,
    ensures
        all_pairs(n as int) == Seq::<(usize, usize)>::empty(),
{
    if n == 1 {
        assert(pairs_below(0, 1) == Seq::<(usize, usize)>::empty());
        assert(pair_row(0, 1).len() == 0);
        assert(all_pairs(1) =~= Seq::<(usize, usize)>::empty());
    }
}

proof fn lemma_pairs_below_count(rows: int, n: int)
    requires
        0 <= rows <= n,
    ensures
        2 * pairs_below(rows, n).len() == rows * (2 * n - rows - 1),
    decreases rows,
{
    if rows <= 0 {
        assert(rows * (2 * n - rows - 1) == 0) by (nonlinear_arith)
            requires rows == 0,
        ;
    } else {
        lemma_pairs_below_count(rows - 1, n);
        let lp = pairs_below(rows - 1, n).len() as int;
        let lr = pair_row(rows - 1, n).len() as int;
        assert(pairs_below(rows, n).len() == lp + lr);
        assert(lr == n - rows);
        assert(2 * lp == (rows - 1) * (2 * n - rows));
        assert((rows - 1) * (2 * n - rows) + 2 * (n - rows) == rows * (2 * n - rows - 1))
            by (nonlinear_arith);
        assert(2 * pairs_below(rows, n).len() == rows * (2 * n - rows - 1));
    }
}

/// Law: the schedule of `n` particles holds `n·(n−1)/2` pairs — each
/// unordered pair contributes exactly one entry.
pub proof fn lemma_pair_count(n: usize)
    ensures
        2 * all_pairs(n as int).len() == n * (n - 1),
{
    lemma_pairs_below_count(n as int, n as int);
    assert((n as int) * (2 * (n as int) - (n as int) - 1) == (n as int) * ((n as int) - 1))
        by (nonlinear_arith);
}

} // verus!
