//! The pairing cost.
//!
//! Pairing source particle `p` with target particle `q` costs the Euclidean
//! distance of their positions plus `lambda` times the Euclidean distance of
//! their colors, the latter normalized onto the spatial scale so that the
//! blend is resolution-invariant.  The solver minimizes the sum of this cost
//! over one whole assignment.

use vstd::prelude::*;
use crate::fixed::{sqrt_floor, lemma_sqrt_floor_bounds, lemma_sqrt_floor_le, isqrt, abs_diff, UNIT};
use crate::grid::Particle;

verus! {

/// Largest color weight the settings can produce.
pub const LAMBDA_MAX: i64 = 100;

/// Normalizer taking the color distance onto the spatial scale: the largest
/// possible RGB distance, `floor(sqrt(3 * 255^2))`, rounded up to 442 so that
/// a color cost never exceeds `UNIT`.
pub const COLOR_NORM: i64 = 442;

/// An upper bound on the cost of one pair:
/// `2 * UNIT + LAMBDA_MAX * UNIT == 6684672`.
pub const PAIR_COST_BOUND: i64 = 6684672;

pub open spec fn sq(d: int) -> int {
    d * d
}

/// Euclidean distance of the two positions, in fixed-point units.
pub open spec fn spatial_cost_spec(p: Particle, q: Particle) -> int {
    sqrt_floor(sq(p.x - q.x) + sq(p.y - q.y))
}

/// Euclidean RGB distance scaled into `[0, UNIT)`.
pub open spec fn color_cost_spec(p: Particle, q: Particle) -> int {
    sqrt_floor(sq(p.red - q.red) + sq(p.green - q.green) + sq(p.blue - q.blue)) * (UNIT as int)
        / (COLOR_NORM as int)
}

/// Cost of pairing `p` with `q` under color weight `lambda`.
pub open spec fn pair_cost_spec(p: Particle, q: Particle, lambda: int) -> int {
    spatial_cost_spec(p, q) + lambda * color_cost_spec(p, q)
}

/// The cost of one pair is non-negative and below `PAIR_COST_BOUND`.
pub proof fn lemma_pair_cost_bounds(p: Particle, q: Particle, lambda: int)
    requires
        p.wf(),
        q.wf(),
        0 <= lambda <= LAMBDA_MAX,
    ensures
        0 <= pair_cost_spec(p, q, lambda) <= PAIR_COST_BOUND,
{
    let s2 = sq(p.x - q.x) + sq(p.y - q.y);
    assert(0 <= sq(p.x - q.x) <= (UNIT as int) * (UNIT as int)) by (nonlinear_arith)
        requires 0 <= p.x <= UNIT && 0 <= q.x <= UNIT;
    assert(0 <= sq(p.y - q.y) <= (UNIT as int) * (UNIT as int)) by (nonlinear_arith)
        requires 0 <= p.y <= UNIT && 0 <= q.y <= UNIT;
    assert(s2 < (2 * (UNIT as int) + 1) * (2 * (UNIT as int) + 1)) by (nonlinear_arith)
        requires 0 <= s2 <= 2 * ((UNIT as int) * (UNIT as int));
    lemma_sqrt_floor_bounds(s2);
    lemma_sqrt_floor_le(s2, 2 * (UNIT as int));

    let c2 = sq(p.red - q.red) + sq(p.green - q.green) + sq(p.blue - q.blue);
    assert(0 <= sq(p.red - q.red) <= 65025) by (nonlinear_arith)
        requires 0 <= p.red <= 255 && 0 <= q.red <= 255;
    assert(0 <= sq(p.green - q.green) <= 65025) by (nonlinear_arith)
        requires 0 <= p.green <= 255 && 0 <= q.green <= 255;
    assert(0 <= sq(p.blue - q.blue) <= 65025) by (nonlinear_arith)
        requires 0 <= p.blue <= 255 && 0 <= q.blue <= 255;
    lemma_sqrt_floor_bounds(c2);
    lemma_sqrt_floor_le(c2, 441);
    let croot = sqrt_floor(c2);
    assert(0 <= croot * (UNIT as int) <= 441 * (UNIT as int)) by {
        vstd::arithmetic::mul::lemma_mul_nonnegative(croot, UNIT as int);
        vstd::arithmetic::mul::lemma_mul_inequality(croot, 441, UNIT as int);
    }
    assert(0 <= color_cost_spec(p, q) <= UNIT) by {
        vstd::arithmetic::div_mod::lemma_div_is_ordered(0, croot * (UNIT as int), COLOR_NORM as int);
        vstd::arithmetic::div_mod::lemma_div_is_ordered(
            croot * (UNIT as int), 442 * (UNIT as int), COLOR_NORM as int);
        vstd::arithmetic::div_mod::lemma_div_multiples_vanish(UNIT as int, 442);
    }
    assert(0 <= lambda * color_cost_spec(p, q) <= LAMBDA_MAX * (UNIT as int)) by {
        vstd::arithmetic::mul::lemma_mul_nonnegative(lambda, color_cost_spec(p, q));
        vstd::arithmetic::mul::lemma_mul_inequality(lambda, LAMBDA_MAX as int, color_cost_spec(p, q));
        vstd::arithmetic::mul::lemma_mul_inequality(
            color_cost_spec(p, q), UNIT as int, LAMBDA_MAX as int);
        assert((LAMBDA_MAX as int) * color_cost_spec(p, q) == color_cost_spec(p, q) * (
        LAMBDA_MAX as int)) by (nonlinear_arith);
        assert((UNIT as int) * (LAMBDA_MAX as int) == (LAMBDA_MAX as int) * (UNIT as int))
            by (nonlinear_arith);
    }
}

/// Executable pair cost, exactly `pair_cost_spec`.
pub fn pair_cost(p: &Particle, q: &Particle, lambda: i64) -> (c: i64)
    requires
        p.wf(),
        q.wf(),
        0 <= lambda <= LAMBDA_MAX,
    ensures
        c == pair_cost_spec(*p, *q, lambda as int),
        0 <= c <= PAIR_COST_BOUND,
{
    proof {
        lemma_pair_cost_bounds(*p, *q, lambda as int);
    }
    let dx: i64 = abs_diff(p.x, q.x);
    let dy: i64 = abs_diff(p.y, q.y);
    proof {
        assert(dx * dx == sq(p.x - q.x) && dx * dx <= (UNIT as int) * (UNIT as int))
            by (nonlinear_arith)
            requires
                (dx == p.x - q.x || dx == q.x - p.x),
                0 <= dx <= UNIT;
        assert(dy * dy == sq(p.y - q.y) && dy * dy <= (UNIT as int) * (UNIT as int))
            by (nonlinear_arith)
            requires
                (dy == p.y - q.y || dy == q.y - p.y),
                0 <= dy <= UNIT;
    }
    let s2: i64 = dx * dx + dy * dy;
    let sroot: u64 = isqrt(s2 as u64);
    proof {
        lemma_sqrt_floor_bounds(s2 as int);
        lemma_sqrt_floor_le(s2 as int, 2 * (UNIT as int));
    }
    let spatial: i64 = sroot as i64;

    let dr: i64 = abs_diff(p.red as i64, q.red as i64);
    let dg: i64 = abs_diff(p.green as i64, q.green as i64);
    let db: i64 = abs_diff(p.blue as i64, q.blue as i64);
    proof {
        assert(dr * dr == sq(p.red - q.red) && 0 <= dr * dr <= 65025) by (nonlinear_arith)
            requires (dr == p.red - q.red || dr == q.red - p.red), 0 <= dr <= 255;
        assert(dg * dg == sq(p.green - q.green) && 0 <= dg * dg <= 65025) by (nonlinear_arith)
            requires (dg == p.green - q.green || dg == q.green - p.green), 0 <= dg <= 255;
        assert(db * db == sq(p.blue - q.blue) && 0 <= db * db <= 65025) by (nonlinear_arith)
            requires (db == p.blue - q.blue || db == q.blue - p.blue), 0 <= db <= 255;
    }
    let c2: i64 = dr * dr + dg * dg + db * db;
    let croot: u64 = isqrt(c2 as u64);
    proof {
        lemma_sqrt_floor_bounds(c2 as int);
        lemma_sqrt_floor_le(c2 as int, 441);
    }
    let color: i64 = (croot as i64) * UNIT / COLOR_NORM;
    spatial + lambda * color
}

/// The inputs over which assignment costs are summed: two well-formed
/// particle sets of equal size, an assignment whose entries index the target
/// set, and a color weight in range.
pub open spec fn cost_ctx(src: Seq<Particle>, tgt: Seq<Particle>, a: Seq<usize>, lambda: int) -> bool {
    &&& src.len() == a.len()
    &&& tgt.len() == src.len()
    &&& forall|i: int| 0 <= i < src.len() ==> (#[trigger] src[i]).wf()
    &&& forall|i: int| 0 <= i < tgt.len() ==> (#[trigger] tgt[i]).wf()
    &&& forall|i: int| 0 <= i < a.len() ==> (#[trigger] a[i]) < tgt.len()
    &&& 0 <= lambda <= LAMBDA_MAX
}

/// Sum of the pair costs of the first `k` source particles.
pub open spec fn cost_prefix(
    src: Seq<Particle>,
    tgt: Seq<Particle>,
    a: Seq<usize>,
    lambda: int,
    k: int,
) -> int
    decreases k,
{
    if k <= 0 {
        0
    } else {
        cost_prefix(src, tgt, a, lambda, k - 1) + pair_cost_spec(
            src[k - 1],
            tgt[a[k - 1] as int],
            lambda,
        )
    }
}

/// Total cost of an assignment.
pub open spec fn total_cost(src: Seq<Particle>, tgt: Seq<Particle>, a: Seq<usize>, lambda: int) -> int {
    cost_prefix(src, tgt, a, lambda, a.len() as int)
}

/// Prefix sums are non-negative and grow at most `PAIR_COST_BOUND` per term.
pub proof fn lemma_cost_prefix_bounds(
    src: Seq<Particle>,
    tgt: Seq<Particle>,
    a: Seq<usize>,
    lambda: int,
    k: int,
)
    requires
        cost_ctx(src, tgt, a, lambda),
        0 <= k <= a.len(),
    ensures
        0 <= cost_prefix(src, tgt, a, lambda, k) <= k * PAIR_COST_BOUND,
    decreases k,
{
    if k > 0 {
        lemma_cost_prefix_bounds(src, tgt, a, lambda, k - 1);
        lemma_pair_cost_bounds(src[k - 1], tgt[a[k - 1] as int], lambda);
    }
}

/// Prefix sums are monotone in the prefix length.
pub proof fn lemma_cost_prefix_monotone(
    src: Seq<Particle>,
    tgt: Seq<Particle>,
    a: Seq<usize>,
    lambda: int,
    m: int,
    k: int,
)
    requires
        cost_ctx(src, tgt, a, lambda),
        0 <= m <= k <= a.len(),
    ensures
        cost_prefix(src, tgt, a, lambda, m) <= cost_prefix(src, tgt, a, lambda, k),
    decreases k - m,
{
    if m < k {
        lemma_cost_prefix_monotone(src, tgt, a, lambda, m, k - 1);
        lemma_pair_cost_bounds(src[k - 1], tgt[a[k - 1] as int], lambda);
    }
}

/// A prefix sum reads only the entries below `k`.
pub proof fn lemma_cost_prefix_agree(
    src: Seq<Particle>,
    tgt: Seq<Particle>,
    a: Seq<usize>,
    b: Seq<usize>,
    lambda: int,
    k: int,
)
    requires
        forall|j: int| 0 <= j < k ==> a[j] == b[j],
    ensures
        cost_prefix(src, tgt, a, lambda, k) == cost_prefix(src, tgt, b, lambda, k),
    decreases k,
{
    if k > 0 {
        lemma_cost_prefix_agree(src, tgt, a, b, lambda, k - 1);
    }
}

/// The cost of two distinct pairs never exceeds the total cost.
pub proof fn lemma_two_terms_bound(
    src: Seq<Particle>,
    tgt: Seq<Particle>,
    a: Seq<usize>,
    lambda: int,
    i: int,
    j: int,
)
    requires
        cost_ctx(src, tgt, a, lambda),
        0 <= i < j < a.len(),
    ensures
        pair_cost_spec(src[i], tgt[a[i] as int], lambda) + pair_cost_spec(
            src[j],
            tgt[a[j] as int],
            lambda,
        ) <= total_cost(src, tgt, a, lambda),
{
    lemma_cost_prefix_bounds(src, tgt, a, lambda, i);
    lemma_cost_prefix_monotone(src, tgt, a, lambda, i + 1, j);
    lemma_cost_prefix_monotone(src, tgt, a, lambda, j + 1, a.len() as int);
    assert(cost_prefix(src, tgt, a, lambda, i + 1) == cost_prefix(src, tgt, a, lambda, i)
        + pair_cost_spec(src[i], tgt[a[i] as int], lambda));
    assert(cost_prefix(src, tgt, a, lambda, j + 1) == cost_prefix(src, tgt, a, lambda, j)
        + pair_cost_spec(src[j], tgt[a[j] as int], lambda));
}

/// Replacing the entry at `i` changes the total by the difference of the two
/// affected pair costs.
pub proof fn lemma_total_cost_update(
    src: Seq<Particle>,
    tgt: Seq<Particle>,
    a: Seq<usize>,
    lambda: int,
    i: int,
    v: usize,
    k: int,
)
    requires
        0 <= i < a.len(),
        0 <= k <= a.len(),
    ensures
        k <= i ==> cost_prefix(src, tgt, a.update(i, v), lambda, k) == cost_prefix(
            src, tgt, a, lambda, k),
        k > i ==> cost_prefix(src, tgt, a.update(i, v), lambda, k) == cost_prefix(
            src, tgt, a, lambda, k) - pair_cost_spec(src[i], tgt[a[i] as int], lambda)
            + pair_cost_spec(src[i], tgt[v as int], lambda),
    decreases k,
{
    let b = a.update(i, v);
    if k <= i {
        lemma_cost_prefix_agree(src, tgt, a, b, lambda, k);
    } else {
        lemma_total_cost_update(src, tgt, a, lambda, i, v, k - 1);
    }
}

/// Exchanging the entries at `i` and `j` changes the total by the difference
/// of the four affected pair costs.
pub proof fn lemma_total_cost_swap(
    src: Seq<Particle>,
    tgt: Seq<Particle>,
    a: Seq<usize>,
    lambda: int,
    i: int,
    j: int,
)
    requires
        cost_ctx(src, tgt, a, lambda),
        0 <= i < j < a.len(),
    ensures
        total_cost(src, tgt, a.update(i, a[j]).update(j, a[i]), lambda) == total_cost(
            src, tgt, a, lambda) - pair_cost_spec(src[i], tgt[a[i] as int], lambda)
            - pair_cost_spec(src[j], tgt[a[j] as int], lambda) + pair_cost_spec(
            src[i], tgt[a[j] as int], lambda) + pair_cost_spec(src[j], tgt[a[i] as int], lambda),
{
    let n = a.len() as int;
    let a1 = a.update(i, a[j]);
    let a2 = a1.update(j, a[i]);
    lemma_total_cost_update(src, tgt, a, lambda, i, a[j], n);
    lemma_total_cost_update(src, tgt, a1, lambda, j, a[i], n);
    assert(a1[j] == a[j]);
    assert(a1[i] == a[j]);
}

/// Executable total cost of an assignment.
pub fn total_cost_exec(src: &Vec<Particle>, tgt: &Vec<Particle>, a: &Vec<usize>, lambda: i64) -> (c:
    i64)
    requires
        cost_ctx(src@, tgt@, a@, lambda as int),
        a@.len() <= crate::grid::MAX_PARTICLES,
    ensures
        c == total_cost(src@, tgt@, a@, lambda as int),
        0 <= c <= a@.len() * PAIR_COST_BOUND,
{
    let n: usize = a.len();
    let mut acc: i64 = 0;
    let mut i: usize = 0;
    while i < n
        invariant
            cost_ctx(src@, tgt@, a@, lambda as int),
            n == a@.len() <= crate::grid::MAX_PARTICLES,
            i <= n,
            acc == cost_prefix(src@, tgt@, a@, lambda as int, i as int),
            0 <= acc <= i * PAIR_COST_BOUND,
        decreases n - i,
    {
        let c = pair_cost(&src[i], &tgt[a[i]], lambda);
        proof {
            lemma_cost_prefix_bounds(src@, tgt@, a@, lambda as int, i + 1 as int);
        }
        acc = acc + c;
        i = i + 1;
    }
    proof {
        lemma_cost_prefix_bounds(src@, tgt@, a@, lambda as int, n as int);
    }
    acc
}

} // verus!
