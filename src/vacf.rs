//! The velocity autocorrelation function, computed exactly.
use vstd::prelude::*;
use crate::grid::{grid_cells, cell};
use crate::error::VacfError;
use crate::readers::{Frame, FrameView, frames_view};
use crate::velocities::{VelocityMatrix, frame_cells, frames_places, get_velocities, velocities_error};
use rayon::iter::{IntoParallelIterator, ParallelIterator};

verus! {

/// Component `k` of particle `i`'s velocity at timestep `t`.
pub open spec fn comp(c: Seq<Seq<i64>>, i: int, t: int, k: int) -> int {
    c[i][3 * t + k] as int
}

/// Dot product of particle `i`'s velocities at timesteps `a` and `b`.
pub open spec fn dot(c: Seq<Seq<i64>>, i: int, a: int, b: int) -> int {
    comp(c, i, a, 0) * comp(c, i, b, 0) + comp(c, i, a, 1) * comp(c, i, b, 1) + comp(c, i, a, 2)
        * comp(c, i, b, 2)
}

/// Sum over the first `k` particles of `dot(c, i, a, b)`.
pub open spec fn dot_sum(c: Seq<Seq<i64>>, a: int, b: int, k: int) -> int
    decreases k,
{
    if k <= 0 {
        0
    } else {
        dot_sum(c, a, b, k - 1) + dot(c, k - 1, a, b)
    }
}

/// Sum over the first `k` particles of velocity component `q` at timestep `t`.
pub open spec fn col_sum(c: Seq<Seq<i64>>, t: int, q: int, k: int) -> int
    decreases k,
{
    if k <= 0 {
        0
    } else {
        col_sum(c, t, q, k - 1) + comp(c, k - 1, t, q)
    }
}

/// The raw sum of the correlation at lag `lag` over the first `j` start times:
/// every particle's velocity at `s` dotted with its velocity at `s + lag`.
pub open spec fn raw_sum(c: Seq<Seq<i64>>, n: int, lag: int, j: int) -> int
    decreases j,
{
    if j <= 0 {
        0
    } else {
        raw_sum(c, n, lag, j - 1) + dot_sum(c, j - 1, j - 1 + lag, n)
    }
}

/// Dot product of the summed velocities at timesteps `a` and `b`.
pub open spec fn drift(c: Seq<Seq<i64>>, n: int, a: int, b: int) -> int {
    col_sum(c, a, 0, n) * col_sum(c, b, 0, n) + col_sum(c, a, 1, n) * col_sum(c, b, 1, n) + col_sum(
        c,
        a,
        2,
        n,
    ) * col_sum(c, b, 2, n)
}

/// `n` times the sum, over the particles, of the dot products of velocities
/// taken relative to the mean velocity at each timestep:
/// `n * dot_sum - drift`.
pub open spec fn centered_term(c: Seq<Seq<i64>>, n: int, a: int, b: int) -> int {
    n * dot_sum(c, a, b, n) - drift(c, n, a, b)
}

/// `centered_term` summed over the first `j` start times at lag `lag`.
pub open spec fn centered_sum(c: Seq<Seq<i64>>, n: int, lag: int, j: int) -> int
    decreases j,
{
    if j <= 0 {
        0
    } else {
        centered_sum(c, n, lag, j - 1) + centered_term(c, n, j - 1, j - 1 + lag)
    }
}

/// One value of the autocorrelation function, as an exact fraction:
/// `numerator / denominator`, in units of `10^(-2 * scale)`.
#[derive(Debug, Clone, Copy, PartialEq, Eq, Structural)]
pub struct Correlation {
    pub numerator: i128,
    pub denominator: u128,
    pub scale: u32,
}

/// The autocorrelation at lag `lag` of `n` particles over `t` timesteps
/// whose velocities `c` are in units of `10^-scale`. Uncentered, it is the
/// raw sum of the dot products over the `n * (t - lag)` particle and
/// start-time pairs. Centered, the mean velocity over the particles at each
/// timestep is first taken off every velocity; the sum of those dot products
/// is `centered_sum / n`, so the fraction is
/// `centered_sum / (n * n * (t - lag))`.
pub open spec fn correlation_of(c: Seq<Seq<i64>>, n: int, t: int, scale: u32, centered: bool, lag: int) -> Correlation {
    let pairs = t - lag;
    if centered {
        Correlation {
            numerator: centered_sum(c, n, lag, pairs) as i128,
            denominator: (n * n * pairs) as u128,
            scale,
        }
    } else {
        Correlation { numerator: raw_sum(c, n, lag, pairs) as i128, denominator: (n * pairs) as u128, scale }
    }
}

pub open spec fn correlation_at(m: VelocityMatrix, centered: bool, lag: int) -> Correlation {
    correlation_of(m.cells(), m.n_particles as int, m.n_timesteps as int, m.scale, centered, lag)
}

/// The autocorrelation function of a trajectory, at every lag.
pub open spec fn trajectory_vacf(fs: Seq<FrameView>, centered: bool) -> Seq<Correlation> {
    Seq::new(
        fs.len(),
        |lag: int|
            correlation_of(frame_cells(fs), fs[0].num_atoms as int, fs.len() as int, frames_places(fs) as u32, centered, lag),
    )
}

pub(crate) proof fn lemma_mul_bound(x: int, y: int, bx: int, by: int)
    requires
        -bx <= x <= bx,
        -by <= y <= by,
    ensures
        -(bx * by) <= x * y <= bx * by,
{
    assert(-(bx * by) <= x * y <= bx * by) by (nonlinear_arith)
        requires -bx <= x <= bx, -by <= y <= by;
}

/// Size facts that every well-formed matrix gives, with `b` its magnitude.
proof fn lemma_matrix_sizes(m: VelocityMatrix)
    requires
        m.wf(),
    ensures
        ({
            let n = m.n_particles as int;
            let t = m.n_timesteps as int;
            let b = m.magnitude as int;
            &&& 1 <= n <= 0x4000_0000
            &&& n <= n * n
            &&& n * n <= n * n * t
            &&& n * (b * b) <= n * n * (b * b)
            &&& n * n * (b * b) <= 0x400_0000_0000_0000_0000_0000_0000_0000
            &&& t * (n * n * (b * b)) <= 0x400_0000_0000_0000_0000_0000_0000_0000
            &&& b * b <= 0x400_0000_0000_0000_0000_0000_0000_0000
            &&& 0 <= b <= 0x2000_0000_0000_0000
        }),
{
    let n = m.n_particles as int;
    let t = m.n_timesteps as int;
    let b = m.magnitude as int;
    assert(n * n <= n * n * t) by (nonlinear_arith)
        requires t >= 1, n >= 1;
    assert(n <= n * n) by (nonlinear_arith)
        requires n >= 1;
    assert(n <= 0x4000_0000) by (nonlinear_arith)
        requires n * n <= 0x1000_0000_0000_0000, n >= 1, n * n <= n * n * t, n * n * t <= 0x1000_0000_0000_0000;
    assert(t * (n * n * (b * b)) == n * n * t * (b * b)) by (nonlinear_arith);
    assert(n * n * (b * b) <= t * (n * n * (b * b))) by (nonlinear_arith)
        requires t >= 1, b * b >= 0, n * n >= 0;
    assert(n * (b * b) <= n * n * (b * b)) by (nonlinear_arith)
        requires n <= n * n, b * b >= 0;
    assert(b * b <= n * (b * b)) by (nonlinear_arith)
        requires n >= 1, b * b >= 0;
    assert(b <= 0x2000_0000_0000_0000) by (nonlinear_arith)
        requires b * b <= 0x400_0000_0000_0000_0000_0000_0000_0000, b >= 0;
}

/// Dot product of particle `i`'s velocities at timesteps `a` and `b`.
fn dot_at(m: &VelocityMatrix, i: usize, a: usize, b: usize) -> (r: i128)
    requires
        m.wf(),
        i < m.n_particles,
        a < m.n_timesteps,
        b < m.n_timesteps,
    ensures
        r == dot(m.cells(), i as int, a as int, b as int),
        -(3 * ((m.magnitude as int) * (m.magnitude as int))) <= r <= 3 * ((m.magnitude as int) * (m.magnitude as int)),
{
    let ghost c = m.cells();
    let ghost bm = m.magnitude as int;
    proof {
        lemma_matrix_sizes(*m);
    }
    assert(c[i as int].len() == 3 * m.n_timesteps);
    let ax = cell(&m.velocities, i, 3 * a) as i128;
    let ay = cell(&m.velocities, i, 3 * a + 1) as i128;
    let az = cell(&m.velocities, i, 3 * a + 2) as i128;
    let bx = cell(&m.velocities, i, 3 * b) as i128;
    let by = cell(&m.velocities, i, 3 * b + 1) as i128;
    let bz = cell(&m.velocities, i, 3 * b + 2) as i128;
    assert(-bm <= c[i as int][3 * a] <= bm);
    assert(-bm <= c[i as int][3 * a + 1] <= bm);
    assert(-bm <= c[i as int][3 * a + 2] <= bm);
    assert(-bm <= c[i as int][3 * b] <= bm);
    assert(-bm <= c[i as int][3 * b + 1] <= bm);
    assert(-bm <= c[i as int][3 * b + 2] <= bm);
    proof {
        lemma_mul_bound(ax as int, bx as int, bm, bm);
        lemma_mul_bound(ay as int, by as int, bm, bm);
        lemma_mul_bound(az as int, bz as int, bm, bm);
    }
    ax * bx + ay * by + az * bz
}

/// Sum over the particles of `dot(c, i, a, b)`.
fn particle_dot_sum(m: &VelocityMatrix, a: usize, b: usize) -> (r: i128)
    requires
        m.wf(),
        a < m.n_timesteps,
        b < m.n_timesteps,
    ensures
        r == dot_sum(m.cells(), a as int, b as int, m.n_particles as int),
        -(m.n_particles * (3 * ((m.magnitude as int) * (m.magnitude as int)))) <= r <= m.n_particles * (3 * (
        (m.magnitude as int) * (m.magnitude as int))),
{
    let n = m.n_particles;
    let ghost bb: int = 3 * ((m.magnitude as int) * (m.magnitude as int));
    let mut acc: i128 = 0;
    let mut i: usize = 0;
    proof {
        lemma_matrix_sizes(*m);
        assert(n * bb <= 3 * 0x400_0000_0000_0000_0000_0000_0000_0000) by (nonlinear_arith)
            requires bb == 3 * ((m.magnitude as int) * (m.magnitude as int)), n * ((m.magnitude as int) * (m.magnitude as int))
                <= 0x400_0000_0000_0000_0000_0000_0000_0000;
    }
    while i < n
        invariant
            m.wf(),
            n == m.n_particles,
            bb == 3 * ((m.magnitude as int) * (m.magnitude as int)),
            bb >= 0,
            n * bb <= 3 * 0x400_0000_0000_0000_0000_0000_0000_0000,
            a < m.n_timesteps,
            b < m.n_timesteps,
            i <= n,
            acc == dot_sum(m.cells(), a as int, b as int, i as int),
            -(i * bb) <= acc <= i * bb,
        decreases n - i,
    {
        let d = dot_at(m, i, a, b);
        assert(-bb <= d <= bb);
        assert((i + 1) * bb == i * bb + bb && (i + 1) * bb <= n * bb) by (nonlinear_arith)
            requires i + 1 <= n, bb >= 0;
        acc = acc + d;
        i = i + 1;
    }
    acc
}

/// Sum over the particles of velocity component `q` at timestep `t`.
fn column_sum(m: &VelocityMatrix, t: usize, q: usize) -> (r: i128)
    requires
        m.wf(),
        t < m.n_timesteps,
        q < 3,
    ensures
        r == col_sum(m.cells(), t as int, q as int, m.n_particles as int),
        -(m.n_particles * m.magnitude) <= r <= m.n_particles * m.magnitude,
{
    let n = m.n_particles;
    let ghost bm = m.magnitude as int;
    let mut acc: i128 = 0;
    let mut i: usize = 0;
    proof {
        lemma_matrix_sizes(*m);
        assert(n * bm <= 0x4000_0000 * 0x2000_0000_0000_0000) by (nonlinear_arith)
            requires n <= 0x4000_0000, 0 <= bm <= 0x2000_0000_0000_0000;
    }
    while i < n
        invariant
            m.wf(),
            n == m.n_particles,
            bm == m.magnitude,
            n * bm <= 0x4000_0000 * 0x2000_0000_0000_0000,
            t < m.n_timesteps,
            q < 3,
            i <= n,
            acc == col_sum(m.cells(), t as int, q as int, i as int),
            -(i * bm) <= acc <= i * bm,
        decreases n - i,
    {
        assert(m.cells()[i as int].len() == 3 * m.n_timesteps);
        let v = cell(&m.velocities, i, 3 * t + q) as i128;
        assert(-bm <= m.cells()[i as int][3 * t + q] <= bm);
        assert((i + 1) * bm == i * bm + bm && (i + 1) * bm <= n * bm) by (nonlinear_arith)
            requires i + 1 <= n, bm >= 0;
        acc = acc + v;
        i = i + 1;
    }
    acc
}

/// `centered_term` at timesteps `a` and `b`.
fn centered_term_at(m: &VelocityMatrix, a: usize, b: usize) -> (r: i128)
    requires
        m.wf(),
        a < m.n_timesteps,
        b < m.n_timesteps,
    ensures
        r == centered_term(m.cells(), m.n_particles as int, a as int, b as int),
        -(8 * (m.n_particles * m.n_particles * ((m.magnitude as int) * (m.magnitude as int)))) <= r
            <= 8 * (m.n_particles * m.n_particles * ((m.magnitude as int) * (m.magnitude as int))),
{
    let ghost n = m.n_particles as int;
    let ghost bm = m.magnitude as int;
    let ghost w = n * n * (bm * bm);
    proof {
        lemma_matrix_sizes(*m);
    }
    let d = particle_dot_sum(m, a, b);
    proof {
        lemma_mul_bound(n, d as int, n, n * (3 * (bm * bm)));
        assert(n * (n * (3 * (bm * bm))) == 3 * w) by (nonlinear_arith)
            requires w == n * n * (bm * bm);
    }
    let nd = m.n_particles as i128 * d;
    let sa0 = column_sum(m, a, 0);
    let sa1 = column_sum(m, a, 1);
    let sa2 = column_sum(m, a, 2);
    let sb0 = column_sum(m, b, 0);
    let sb1 = column_sum(m, b, 1);
    let sb2 = column_sum(m, b, 2);
    proof {
        lemma_mul_bound(sa0 as int, sb0 as int, n * bm, n * bm);
        lemma_mul_bound(sa1 as int, sb1 as int, n * bm, n * bm);
        lemma_mul_bound(sa2 as int, sb2 as int, n * bm, n * bm);
        assert((n * bm) * (n * bm) == w) by (nonlinear_arith)
            requires w == n * n * (bm * bm);
    }
    let drift = sa0 * sb0 + sa1 * sb1 + sa2 * sb2;
    nd - drift
}

/// The autocorrelation of the matrix at lag `lag`.
pub fn lag_correlation(m: &VelocityMatrix, centered: bool, lag: usize) -> (r: Correlation)
    requires
        m.wf(),
        lag < m.n_timesteps,
    ensures
        r == correlation_at(*m, centered, lag as int),
{
    let n = m.n_particles;
    let pairs = m.n_timesteps - lag;
    let ghost bm = m.magnitude as int;
    let ghost w = 8 * (n * n * (bm * bm));
    proof {
        lemma_matrix_sizes(*m);
        assert(pairs * w <= 8 * 0x400_0000_0000_0000_0000_0000_0000_0000) by (nonlinear_arith)
            requires
                w == 8 * (n * n * (bm * bm)),
                m.n_timesteps * (n * n * (bm * bm)) <= 0x400_0000_0000_0000_0000_0000_0000_0000,
                pairs <= m.n_timesteps,
                n * n * (bm * bm) >= 0,
        ;
        assert(n * (3 * (bm * bm)) <= w) by (nonlinear_arith)
            requires w == 8 * (n * n * (bm * bm)), n * (bm * bm) <= n * n * (bm * bm), bm * bm >= 0;
    }
    let mut acc: i128 = 0;
    let mut j: usize = 0;
    while j < pairs
        invariant
            m.wf(),
            n == m.n_particles,
            bm == m.magnitude,
            pairs == m.n_timesteps - lag,
            lag < m.n_timesteps,
            j <= pairs,
            w == 8 * (n * n * (bm * bm)),
            w >= 0,
            n * (3 * (bm * bm)) <= w,
            pairs * w <= 8 * 0x400_0000_0000_0000_0000_0000_0000_0000,
            acc == (if centered {
                centered_sum(m.cells(), n as int, lag as int, j as int)
            } else {
                raw_sum(m.cells(), n as int, lag as int, j as int)
            }),
            -(j * w) <= acc <= j * w,
        decreases pairs - j,
    {
        let term = if centered {
            centered_term_at(m, j, j + lag)
        } else {
            particle_dot_sum(m, j, j + lag)
        };
        assert((j + 1) * w == j * w + w) by (nonlinear_arith);
        assert((j + 1) * w <= pairs * w) by (nonlinear_arith)
            requires j + 1 <= pairs, w >= 0;
        acc = acc + term;
        j = j + 1;
    }
    proof {
        assert(n * n * pairs <= 0x1000_0000_0000_0000 && n * pairs <= n * n * pairs) by (nonlinear_arith)
            requires n * n * m.n_timesteps <= 0x1000_0000_0000_0000, pairs <= m.n_timesteps, n >= 1;
    }
    let denominator: u128 = if centered {
        (n as u128) * (n as u128) * (pairs as u128)
    } else {
        (n as u128) * (pairs as u128)
    };
    Correlation { numerator: acc, denominator, scale: m.scale }
}

/// Relies on rayon: mapping the indexed parallel iterator of `0..n` and
/// collecting it into a `Vec` puts the result for `lag` at position `lag`,
/// whatever the number of threads. Each result is a call of `lag_correlation`.
#[verifier::external_body]
fn par_lag_correlations(m: &VelocityMatrix, centered: bool) -> (r: Vec<Correlation>)
    requires
        m.wf(),
    ensures
        r@.len() == m.n_timesteps,
        forall|lag: int| 0 <= lag < m.n_timesteps ==> r@[lag] == correlation_at(*m, centered, lag),
{
    (0..m.n_timesteps).into_par_iter().map(|lag| lag_correlation(m, centered, lag)).collect()
}

/// The autocorrelation function of the matrix at every lag `0 .. T`, the lags
/// computed in parallel.
pub fn correlate(m: &VelocityMatrix, centered: bool) -> (r: Vec<Correlation>)
    requires
        m.wf(),
    ensures
        r@ == Seq::new(m.n_timesteps as nat, |lag: int| correlation_at(*m, centered, lag)),
{
    let r = par_lag_correlations(m, centered);
    assert(r@ =~= Seq::new(m.n_timesteps as nat, |lag: int| correlation_at(*m, centered, lag)));
    r
}

/// The autocorrelation function of the matrix at every lag `0 .. T`, the lags
/// computed one after another on the calling thread.
pub fn correlate_sequential(m: &VelocityMatrix, centered: bool) -> (r: Vec<Correlation>)
    requires
        m.wf(),
    ensures
        r@ == Seq::new(m.n_timesteps as nat, |lag: int| correlation_at(*m, centered, lag)),
{
    let mut r: Vec<Correlation> = Vec::new();
    let mut lag: usize = 0;
    while lag < m.n_timesteps
        invariant
            m.wf(),
            lag <= m.n_timesteps,
            r@ == Seq::new(lag as nat, |l: int| correlation_at(*m, centered, l)),
        decreases m.n_timesteps - lag,
    {
        let c = lag_correlation(m, centered, lag);
        r.push(c);
        lag = lag + 1;
        assert(r@ =~= Seq::new(lag as nat, |l: int| correlation_at(*m, centered, l)));
    }
    r
}

/// The velocity autocorrelation function of a trajectory at every lag
/// `0 .. T`, with or without taking the mean velocity at each timestep off
/// first. It fails as `get_velocities` does.
pub fn vacf(frames: &Vec<Frame>, centered: bool) -> (r: Result<Vec<Correlation>, VacfError>)
    ensures
        match r {
            Ok(v) => velocities_error(frames_view(frames@)) is None && v@ == trajectory_vacf(
                frames_view(frames@),
                centered,
            ),
            Err(e) => velocities_error(frames_view(frames@)) == Some(e),
        },
{
    match get_velocities(frames) {
        Err(e) => Err(e),
        Ok(m) => {
            let v = correlate(&m, centered);
            assert(v@ =~= trajectory_vacf(frames_view(frames@), centered));
            Ok(v)
        },
    }
}

} // verus!
