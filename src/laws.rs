//! Properties of the autocorrelation that hold for every input.
use vstd::prelude::*;
use crate::vacf::{
    comp, dot, dot_sum, col_sum, raw_sum, centered_term, centered_sum, Correlation, correlation_at,
    lemma_mul_bound,
};
use crate::velocities::{VelocityMatrix, cells_bounded};

verus! {

/// Every value of an uncentered result divides the raw sum of dot products
/// at its lag by exactly `n * (T - lag)`, the number of particle and
/// start-time pairs; a centered one divides `centered_sum` by
/// `n * n * (T - lag)`.
pub proof fn lemma_normalization(m: VelocityMatrix, centered: bool, r: Seq<Correlation>)
    requires
        m.wf(),
        r == Seq::new(m.n_timesteps as nat, |lag: int| correlation_at(m, centered, lag)),
    ensures
        forall|lag: int|
            0 <= lag < m.n_timesteps ==> {
                let n = m.n_particles as int;
                let pairs = m.n_timesteps - lag;
                if centered {
                    (#[trigger] r[lag]).denominator == n * n * pairs && r[lag].numerator
                        == centered_sum(m.cells(), n, lag, pairs)
                } else {
                    r[lag].denominator == n * pairs && r[lag].numerator == raw_sum(m.cells(), n, lag, pairs)
                }
            },
{
    let n = m.n_particles as int;
    let t = m.n_timesteps as int;
    assert forall|lag: int| 0 <= lag < t implies {
        let pairs = t - lag;
        if centered {
            (#[trigger] r[lag]).denominator == n * n * pairs && r[lag].numerator == centered_sum(
                m.cells(),
                n,
                lag,
                pairs,
            )
        } else {
            r[lag].denominator == n * pairs && r[lag].numerator == raw_sum(m.cells(), n, lag, pairs)
        }
    } by {
        lemma_sum_bounds(m, centered, lag);
        assert(n * n * (t - lag) <= n * n * t && n * (t - lag) <= n * n * (t - lag)) by (nonlinear_arith)
            requires 0 <= lag < t, n >= 1;
    }
}

proof fn lemma_dot_bound(c: Seq<Seq<i64>>, n: int, t: int, bm: int, i: int, a: int, b: int)
    requires
        cells_bounded(c, n, t, bm),
        0 <= i < n,
        0 <= a < t,
        0 <= b < t,
    ensures
        -(3 * (bm * bm)) <= dot(c, i, a, b) <= 3 * (bm * bm),
{
    assert(-bm <= c[i][3 * a] <= bm && -bm <= c[i][3 * b] <= bm);
    assert(-bm <= c[i][3 * a + 1] <= bm && -bm <= c[i][3 * b + 1] <= bm);
    assert(-bm <= c[i][3 * a + 2] <= bm && -bm <= c[i][3 * b + 2] <= bm);
    lemma_mul_bound(comp(c, i, a, 0), comp(c, i, b, 0), bm, bm);
    lemma_mul_bound(comp(c, i, a, 1), comp(c, i, b, 1), bm, bm);
    lemma_mul_bound(comp(c, i, a, 2), comp(c, i, b, 2), bm, bm);
}

proof fn lemma_dot_sum_bound(c: Seq<Seq<i64>>, n: int, t: int, bm: int, a: int, b: int, k: int)
    requires
        cells_bounded(c, n, t, bm),
        0 <= k <= n,
        0 <= a < t,
        0 <= b < t,
    ensures
        -(k * (3 * (bm * bm))) <= dot_sum(c, a, b, k) <= k * (3 * (bm * bm)),
    decreases k,
{
    if k > 0 {
        lemma_dot_sum_bound(c, n, t, bm, a, b, k - 1);
        lemma_dot_bound(c, n, t, bm, k - 1, a, b);
        assert(k * (3 * (bm * bm)) == (k - 1) * (3 * (bm * bm)) + 3 * (bm * bm)) by (nonlinear_arith);
    } else {
        assert(k * (3 * (bm * bm)) == 0) by (nonlinear_arith)
            requires k == 0;
    }
}

proof fn lemma_col_sum_bound(c: Seq<Seq<i64>>, n: int, t: int, bm: int, s: int, q: int, k: int)
    requires
        cells_bounded(c, n, t, bm),
        0 <= k <= n,
        0 <= s < t,
        0 <= q < 3,
    ensures
        -(k * bm) <= col_sum(c, s, q, k) <= k * bm,
    decreases k,
{
    if k > 0 {
        lemma_col_sum_bound(c, n, t, bm, s, q, k - 1);
        assert(-bm <= c[k - 1][3 * s + q] <= bm);
        assert(k * bm == (k - 1) * bm + bm) by (nonlinear_arith);
    } else {
        assert(k * bm == 0) by (nonlinear_arith)
            requires k == 0;
    }
}

proof fn lemma_centered_term_bound(c: Seq<Seq<i64>>, n: int, t: int, bm: int, a: int, b: int)
    requires
        cells_bounded(c, n, t, bm),
        n >= 1,
        bm >= 0,
        0 <= a < t,
        0 <= b < t,
    ensures
        -(8 * (n * n * (bm * bm))) <= centered_term(c, n, a, b) <= 8 * (n * n * (bm * bm)),
{
    let w = n * n * (bm * bm);
    lemma_dot_sum_bound(c, n, t, bm, a, b, n);
    lemma_mul_bound(n, dot_sum(c, a, b, n), n, n * (3 * (bm * bm)));
    assert(n * (n * (3 * (bm * bm))) == 3 * w) by (nonlinear_arith)
        requires w == n * n * (bm * bm);
    assert forall|q: int| 0 <= q < 3 implies -w <= #[trigger] col_sum(c, a, q, n) * col_sum(c, b, q, n) <= w by {
        lemma_col_sum_bound(c, n, t, bm, a, q, n);
        lemma_col_sum_bound(c, n, t, bm, b, q, n);
        lemma_mul_bound(col_sum(c, a, q, n), col_sum(c, b, q, n), n * bm, n * bm);
        assert((n * bm) * (n * bm) == w) by (nonlinear_arith)
            requires w == n * n * (bm * bm);
    }
    assert(col_sum(c, a, 0, n) * col_sum(c, b, 0, n) == col_sum(c, a, 0, n) * col_sum(c, b, 0, n));
}

proof fn lemma_raw_sum_bound(c: Seq<Seq<i64>>, n: int, t: int, bm: int, lag: int, j: int)
    requires
        cells_bounded(c, n, t, bm),
        n >= 1,
        bm >= 0,
        0 <= lag,
        0 <= j <= t - lag,
    ensures
        -(j * (8 * (n * n * (bm * bm)))) <= raw_sum(c, n, lag, j) <= j * (8 * (n * n * (bm * bm))),
    decreases j,
{
    let w = 8 * (n * n * (bm * bm));
    if j > 0 {
        lemma_raw_sum_bound(c, n, t, bm, lag, j - 1);
        lemma_dot_sum_bound(c, n, t, bm, j - 1, j - 1 + lag, n);
        assert(n * (3 * (bm * bm)) <= w) by (nonlinear_arith)
            requires n >= 1, bm * bm >= 0, w == 8 * (n * n * (bm * bm));
        assert(j * w == (j - 1) * w + w) by (nonlinear_arith);
    } else {
        assert(j * w == 0) by (nonlinear_arith)
            requires j == 0;
    }
}

proof fn lemma_centered_sum_bound(c: Seq<Seq<i64>>, n: int, t: int, bm: int, lag: int, j: int)
    requires
        cells_bounded(c, n, t, bm),
        n >= 1,
        bm >= 0,
        0 <= lag,
        0 <= j <= t - lag,
    ensures
        -(j * (8 * (n * n * (bm * bm)))) <= centered_sum(c, n, lag, j) <= j * (8 * (n * n * (bm * bm))),
    decreases j,
{
    let w = 8 * (n * n * (bm * bm));
    if j > 0 {
        lemma_centered_sum_bound(c, n, t, bm, lag, j - 1);
        lemma_centered_term_bound(c, n, t, bm, j - 1, j - 1 + lag);
        assert(j * w == (j - 1) * w + w) by (nonlinear_arith);
    } else {
        assert(j * w == 0) by (nonlinear_arith)
            requires j == 0;
    }
}

/// The sums of the correlation fit an `i128`.
proof fn lemma_sum_bounds(m: VelocityMatrix, centered: bool, lag: int)
    requires
        m.wf(),
        0 <= lag < m.n_timesteps,
    ensures
        -0x8000_0000_0000_0000_0000_0000_0000_0000 <= (if centered {
            centered_sum(m.cells(), m.n_particles as int, lag, m.n_timesteps - lag)
        } else {
            raw_sum(m.cells(), m.n_particles as int, lag, m.n_timesteps - lag)
        }) < 0x8000_0000_0000_0000_0000_0000_0000_0000,
{
    let n = m.n_particles as int;
    let t = m.n_timesteps as int;
    let bm = m.magnitude as int;
    let pairs = t - lag;
    lemma_raw_sum_bound(m.cells(), n, t, bm, lag, pairs);
    lemma_centered_sum_bound(m.cells(), n, t, bm, lag, pairs);
    assert(pairs * (8 * (n * n * (bm * bm))) <= 8 * 0x400_0000_0000_0000_0000_0000_0000_0000) by (nonlinear_arith)
        requires
            n * n * t * (bm * bm) <= 0x400_0000_0000_0000_0000_0000_0000_0000,
            0 <= pairs <= t,
            n * n * (bm * bm) >= 0,
    ;
}

/// The result depends on the matrix alone: results computed on one thread
/// and on many, or in two runs, are the same sequence.
pub proof fn lemma_deterministic(m: VelocityMatrix, centered: bool, a: Seq<Correlation>, b: Seq<Correlation>)
    requires
        m.wf(),
        a == Seq::new(m.n_timesteps as nat, |lag: int| correlation_at(m, centered, lag)),
        b == Seq::new(m.n_timesteps as nat, |lag: int| correlation_at(m, centered, lag)),
    ensures
        a == b,
{
}

/// Sum over the first `k` particles of the products of component `q` at
/// timesteps `a` and `b`.
pub open spec fn component_dot_sum(c: Seq<Seq<i64>>, a: int, b: int, q: int, k: int) -> int
    decreases k,
{
    if k <= 0 {
        0
    } else {
        component_dot_sum(c, a, b, q, k - 1) + comp(c, k - 1, a, q) * comp(c, k - 1, b, q)
    }
}

/// Sum over the first `k` particles of the products of component `q` at
/// timesteps `a` and `b`, each taken relative to the sum over all `n`
/// particles: `n * v - S` is `n` times the velocity less the mean velocity.
pub open spec fn relative_component_sum(c: Seq<Seq<i64>>, n: int, a: int, b: int, q: int, k: int) -> int
    decreases k,
{
    if k <= 0 {
        0
    } else {
        relative_component_sum(c, n, a, b, q, k - 1) + (n * comp(c, k - 1, a, q) - col_sum(c, a, q, n)) * (n
            * comp(c, k - 1, b, q) - col_sum(c, b, q, n))
    }
}

/// `n * n` times the sum over the particles of the dot products of their
/// velocities at timesteps `a` and `b`, each less the mean velocity over the
/// particles at its timestep.
pub open spec fn relative_dot_sum(c: Seq<Seq<i64>>, n: int, a: int, b: int) -> int {
    relative_component_sum(c, n, a, b, 0, n) + relative_component_sum(c, n, a, b, 1, n)
        + relative_component_sum(c, n, a, b, 2, n)
}

proof fn lemma_relative_expansion(c: Seq<Seq<i64>>, n: int, a: int, b: int, q: int, k: int)
    requires
        k >= 0,
    ensures
        relative_component_sum(c, n, a, b, q, k) == n * n * component_dot_sum(c, a, b, q, k) - n * col_sum(
            c,
            b,
            q,
            n,
        ) * col_sum(c, a, q, k) - n * col_sum(c, a, q, n) * col_sum(c, b, q, k) + k * col_sum(c, a, q, n)
            * col_sum(c, b, q, n),
    decreases k,
{
    if k > 0 {
        lemma_relative_expansion(c, n, a, b, q, k - 1);
        let x = comp(c, k - 1, a, q);
        let y = comp(c, k - 1, b, q);
        let sa = col_sum(c, a, q, n);
        let sb = col_sum(c, b, q, n);
        let p = component_dot_sum(c, a, b, q, k - 1);
        let xa = col_sum(c, a, q, k - 1);
        let yb = col_sum(c, b, q, k - 1);
        let u = n * x;
        let v = n * y;
        assert((u - sa) * (v - sb) == u * v - u * sb - sa * v + sa * sb) by (nonlinear_arith);
        assert(u * v == n * n * (x * y)) by (nonlinear_arith)
            requires u == n * x, v == n * y;
        assert(u * sb == n * sb * x) by (nonlinear_arith)
            requires u == n * x;
        assert(sa * v == n * sa * y) by (nonlinear_arith)
            requires v == n * y;
        assert(n * n * p + n * n * (x * y) == n * n * (p + x * y)) by (nonlinear_arith);
        assert(n * sb * xa + n * sb * x == n * sb * (xa + x)) by (nonlinear_arith);
        assert(n * sa * yb + n * sa * y == n * sa * (yb + y)) by (nonlinear_arith);
        assert((k - 1) * sa * sb + sa * sb == k * sa * sb) by (nonlinear_arith);
    } else {
        assert(k * col_sum(c, a, q, n) * col_sum(c, b, q, n) == 0) by (nonlinear_arith)
            requires k == 0;
    }
}

proof fn lemma_dot_sum_by_component(c: Seq<Seq<i64>>, a: int, b: int, k: int)
    requires
        k >= 0,
    ensures
        dot_sum(c, a, b, k) == component_dot_sum(c, a, b, 0, k) + component_dot_sum(c, a, b, 1, k)
            + component_dot_sum(c, a, b, 2, k),
    decreases k,
{
    if k > 0 {
        lemma_dot_sum_by_component(c, a, b, k - 1);
    }
}

proof fn lemma_scale_three(n: int, a0: int, b0: int, a1: int, b1: int, a2: int, b2: int)
    ensures
        n * a0 * b0 + n * a1 * b1 + n * a2 * b2 == n * (a0 * b0 + a1 * b1 + a2 * b2),
{
    assert(n * a0 * b0 == n * (a0 * b0)) by (nonlinear_arith);
    assert(n * a1 * b1 == n * (a1 * b1)) by (nonlinear_arith);
    assert(n * a2 * b2 == n * (a2 * b2)) by (nonlinear_arith);
    let x = a0 * b0;
    let y = a1 * b1;
    let z = a2 * b2;
    assert(n * x + n * y + n * z == n * (x + y + z)) by (nonlinear_arith);
}

/// Taking the mean velocity off first: the sum over the particles of the dot
/// products of their velocities relative to the mean, times `n * n`, is
/// `n * centered_term`. So the centered sum of dot products is
/// `centered_sum / n`, which `correlation_of` divides by `n * (T - lag)`.
pub proof fn lemma_centering(c: Seq<Seq<i64>>, n: int, a: int, b: int)
    requires
        n >= 0,
    ensures
        relative_dot_sum(c, n, a, b) == n * centered_term(c, n, a, b),
{
    lemma_relative_expansion(c, n, a, b, 0, n);
    lemma_relative_expansion(c, n, a, b, 1, n);
    lemma_relative_expansion(c, n, a, b, 2, n);
    lemma_dot_sum_by_component(c, a, b, n);
    let p0 = component_dot_sum(c, a, b, 0, n);
    let p1 = component_dot_sum(c, a, b, 1, n);
    let p2 = component_dot_sum(c, a, b, 2, n);
    let a0 = col_sum(c, a, 0, n);
    let a1 = col_sum(c, a, 1, n);
    let a2 = col_sum(c, a, 2, n);
    let b0 = col_sum(c, b, 0, n);
    let b1 = col_sum(c, b, 1, n);
    let b2 = col_sum(c, b, 2, n);
    assert(n * b0 * a0 == n * a0 * b0 && n * b1 * a1 == n * a1 * b1 && n * b2 * a2 == n * a2 * b2)
        by (nonlinear_arith);
    assert(n * n * p0 + n * n * p1 + n * n * p2 == n * (n * (p0 + p1 + p2))) by (nonlinear_arith);
    lemma_scale_three(n, a0, b0, a1, b1, a2, b2);
    assert(n * (n * (p0 + p1 + p2)) - n * (a0 * b0 + a1 * b1 + a2 * b2) == n * (n * (p0 + p1 + p2)
        - (a0 * b0 + a1 * b1 + a2 * b2))) by (nonlinear_arith);
}

/// Velocity `(vx, vy, vz)` at every timestep for every particle.
pub open spec fn constant_velocity(m: VelocityMatrix, vx: i32, vy: i32, vz: i32) -> bool {
    forall|i: int, t: int, q: int|
        0 <= i < m.n_particles && 0 <= t < m.n_timesteps && 0 <= q < 3 ==> #[trigger] comp(m.cells(), i, t, q)
            == (if q == 0 {
            vx
        } else if q == 1 {
            vy
        } else {
            vz
        })
}

/// Where every particle keeps one velocity `v` throughout, the uncentered
/// autocorrelation is `|v|^2` at every lag: its numerator is that many times
/// its denominator `n * (T - lag)`.
pub proof fn lemma_constant_velocity(m: VelocityMatrix, vx: i32, vy: i32, vz: i32, lag: int)
    requires
        m.wf(),
        constant_velocity(m, vx, vy, vz),
        0 <= lag < m.n_timesteps,
    ensures
        correlation_at(m, false, lag).denominator == m.n_particles * (m.n_timesteps - lag),
        correlation_at(m, false, lag).numerator == m.n_particles * (m.n_timesteps - lag) * (vx * vx + vy
            * vy + vz * vz),
{
    let c = m.cells();
    let n = m.n_particles as int;
    let t = m.n_timesteps as int;
    let sq = vx * vx + vy * vy + vz * vz;
    let pairs = t - lag;
    assert forall|j: int| 0 <= j <= pairs implies #[trigger] raw_sum(c, n, lag, j) == j * n * sq by {
        lemma_constant_raw_sum(m, vx, vy, vz, lag, j);
    }
    lemma_sum_bounds(m, false, lag);
    assert(n * pairs <= n * n * t) by (nonlinear_arith)
        requires 0 < pairs <= t, n >= 1;
}

proof fn lemma_constant_dot_sum(m: VelocityMatrix, vx: i32, vy: i32, vz: i32, a: int, b: int, k: int)
    requires
        constant_velocity(m, vx, vy, vz),
        0 <= a < m.n_timesteps,
        0 <= b < m.n_timesteps,
        0 <= k <= m.n_particles,
    ensures
        dot_sum(m.cells(), a, b, k) == k * (vx * vx + vy * vy + vz * vz),
    decreases k,
{
    if k > 0 {
        lemma_constant_dot_sum(m, vx, vy, vz, a, b, k - 1);
        let c = m.cells();
        assert(comp(c, k - 1, a, 0) == vx && comp(c, k - 1, b, 0) == vx);
        assert(comp(c, k - 1, a, 1) == vy && comp(c, k - 1, b, 1) == vy);
        assert(comp(c, k - 1, a, 2) == vz && comp(c, k - 1, b, 2) == vz);
        let sq = vx * vx + vy * vy + vz * vz;
        assert(dot(c, k - 1, a, b) == sq);
        assert(dot_sum(c, a, b, k) == dot_sum(c, a, b, k - 1) + dot(c, k - 1, a, b));
        assert(k * sq == (k - 1) * sq + sq) by (nonlinear_arith);
    } else {
        assert(k * (vx * vx + vy * vy + vz * vz) == 0) by (nonlinear_arith)
            requires k == 0;
    }
}

proof fn lemma_constant_raw_sum(m: VelocityMatrix, vx: i32, vy: i32, vz: i32, lag: int, j: int)
    requires
        constant_velocity(m, vx, vy, vz),
        0 <= lag < m.n_timesteps,
        0 <= j <= m.n_timesteps - lag,
    ensures
        raw_sum(m.cells(), m.n_particles as int, lag, j) == j * m.n_particles * (vx * vx + vy * vy + vz
            * vz),
    decreases j,
{
    if j > 0 {
        lemma_constant_raw_sum(m, vx, vy, vz, lag, j - 1);
        lemma_constant_dot_sum(m, vx, vy, vz, j - 1, j - 1 + lag, m.n_particles as int);
        let n = m.n_particles as int;
        let sq = vx * vx + vy * vy + vz * vz;
        assert(raw_sum(m.cells(), n, lag, j) == raw_sum(m.cells(), n, lag, j - 1) + dot_sum(m.cells(), j - 1, j - 1 + lag, n));
        assert(j * n * sq == (j - 1) * n * sq + n * sq) by (nonlinear_arith);
    } else {
        assert(j * m.n_particles * (vx * vx + vy * vy + vz * vz) == 0) by (nonlinear_arith)
            requires j == 0;
    }
}

} // verus!
