//! Laying the velocities of a trajectory out as an integer matrix.
use vstd::prelude::*;
use crate::error::VacfError;
use crate::grid::{Grid, grid_cells, is_table, zeros, set_cell};
use crate::numbers::Decimal;
use crate::readers::{AtomView, Frame, FrameView, frames_view};

verus! {

pub open spec fn pow10(k: nat) -> int
    decreases k,
{
    if k == 0 {
        1
    } else {
        10 * pow10((k - 1) as nat)
    }
}

/// The decimal places that writing `d` exactly as an integer takes.
pub open spec fn places(d: Decimal) -> int {
    if d.mantissa != 0 && d.exponent < 0 {
        -d.exponent
    } else {
        0
    }
}

/// `d` in units of `10^-s`, where `places(d) <= s`.
pub open spec fn fixed(d: Decimal, s: int) -> int {
    if d.mantissa == 0 {
        0
    } else {
        d.mantissa * pow10((d.exponent + s) as nat)
    }
}

pub open spec fn fits_i64(v: int) -> bool {
    i64::MIN <= v <= i64::MAX
}

/// The bound on `k * v * v`, for `k = n * n * T`, under which every exact sum
/// of the autocorrelation of `n` particles over `T` timesteps, with velocity
/// components of magnitude at most `v`, fits an `i128` (with room to spare).
pub open spec fn accumulator_limit() -> int {
    0x400_0000_0000_0000_0000_0000_0000_0000
}

/// A velocity component `v` keeps the exact sums in range.
pub open spec fn accumulates(v: int, k: int) -> bool {
    k * (v * v) <= accumulator_limit()
}

/// Every cell of the first `n` rows and `3 * t` columns lies in `-b ..= b`.
pub open spec fn cells_bounded(c: Seq<Seq<i64>>, n: int, t: int, b: int) -> bool {
    forall|i: int, col: int| 0 <= i < n && 0 <= col < 3 * t ==> -b <= #[trigger] c[i][col] <= b
}

/// Component `c` (0, 1, 2 for x, y, z) of an atom's velocity.
pub open spec fn velocity(a: AtomView, c: int) -> Decimal {
    if c == 0 {
        a.vx
    } else if c == 1 {
        a.vy
    } else {
        a.vz
    }
}

pub open spec fn max(a: int, b: int) -> int {
    if a >= b {
        a
    } else {
        b
    }
}

pub open spec fn atom_places(a: AtomView) -> int {
    max(max(places(a.vx), places(a.vy)), places(a.vz))
}

pub open spec fn atoms_places(s: Seq<AtomView>) -> int
    decreases s.len(),
{
    if s.len() == 0 {
        0
    } else {
        max(atoms_places(s.drop_last()), atom_places(s.last()))
    }
}

/// The decimal places that every velocity of the frames can be written in.
pub open spec fn frames_places(fs: Seq<FrameView>) -> int
    decreases fs.len(),
{
    if fs.len() == 0 {
        0
    } else {
        max(frames_places(fs.drop_last()), atoms_places(fs.last().atoms))
    }
}

/// No frames, or a frame that declares no particles.
pub open spec fn is_empty_trajectory(fs: Seq<FrameView>) -> bool {
    fs.len() == 0 || exists|t: int| 0 <= t < fs.len() && (#[trigger] fs[t]).num_atoms == 0
}

/// Sizes for which the exact sums of the correlation fit in 128 bits, and
/// the matrix in memory.
pub open spec fn sizes_in_range(n: int, t: int) -> bool {
    n * n * t <= 0x1000_0000_0000_0000 && 3 * n * t <= isize::MAX
}

/// Frame `t` declares or holds another number of particles than the first
/// declares.
pub open spec fn count_mismatch(fs: Seq<FrameView>, t: int) -> bool {
    fs[t].num_atoms != fs[0].num_atoms || fs[t].atoms.len() != fs[0].num_atoms
}

/// Every velocity of the frame, in units of `10^-s`, keeps the exact sums of
/// a trajectory with size factor `k` in range.
pub open spec fn frame_fits(f: FrameView, s: int, k: int) -> bool {
    forall|i: int, c: int|
        0 <= i < f.atoms.len() && 0 <= c < 3 ==> accumulates(fixed(#[trigger] velocity(f.atoms[i], c), s), k)
}

/// `n * n * T` for the trajectory.
pub open spec fn size_factor(fs: Seq<FrameView>) -> int {
    fs[0].num_atoms * fs[0].num_atoms * fs.len()
}

/// Velocities of every particle at every timestep, in units of `10^-scale`:
/// row `i`, columns `3t`, `3t + 1`, `3t + 2` hold particle `i`'s velocity at
/// timestep `t`.
pub struct VelocityMatrix {
    pub n_particles: usize,
    pub n_timesteps: usize,
    pub scale: u32,
    /// The largest magnitude of a cell.
    pub magnitude: u64,
    pub velocities: Grid,
}

impl VelocityMatrix {
    pub open spec fn cells(&self) -> Seq<Seq<i64>> {
        grid_cells(self.velocities)
    }

    pub open spec fn wf(&self) -> bool {
        &&& is_table(self.cells(), self.n_particles as int, 3 * self.n_timesteps)
        &&& self.n_particles > 0
        &&& self.n_timesteps > 0
        &&& 3 * self.n_timesteps <= isize::MAX
        &&& sizes_in_range(self.n_particles as int, self.n_timesteps as int)
        &&& cells_bounded(self.cells(), self.n_particles as int, self.n_timesteps as int, self.magnitude as int)
        &&& accumulates(self.magnitude as int, self.n_particles * self.n_particles * self.n_timesteps)
    }
}

pub proof fn lemma_pow10_positive(k: nat)
    ensures
        pow10(k) >= 1,
    decreases k,
{
    if k > 0 {
        lemma_pow10_positive((k - 1) as nat);
    }
}

/// Scaling by a further power of ten never shrinks a magnitude.
proof fn lemma_scaled_grows(m: int, a: nat)
    ensures
        m * pow10(a + 1) == 10 * (m * pow10(a)),
        m * pow10(a) > i64::MAX ==> m * pow10(a + 1) > i64::MAX,
        m * pow10(a) < i64::MIN ==> m * pow10(a + 1) < i64::MIN,
{
    assert(pow10(a + 1) == 10 * pow10(a));
    assert(m * (10 * pow10(a)) == 10 * (m * pow10(a))) by (nonlinear_arith);
}

proof fn lemma_scaled_stays_out(m: int, a: nat, b: nat)
    requires
        a <= b,
    ensures
        m * pow10(a) > i64::MAX ==> m * pow10(b) > i64::MAX,
        m * pow10(a) < i64::MIN ==> m * pow10(b) < i64::MIN,
    decreases b - a,
{
    if a < b {
        lemma_scaled_grows(m, a);
        lemma_scaled_stays_out(m, a + 1, b);
    }
}

/// `d` in units of `10^-s`, when that fits an `i64`.
fn to_fixed(d: Decimal, s: u32) -> (r: Option<i64>)
    requires
        places(d) <= s,
    ensures
        r == (if fits_i64(fixed(d, s as int)) {
            Some(fixed(d, s as int) as i64)
        } else {
            None::<i64>
        }),
{
    if d.mantissa == 0 {
        return Some(0);
    }
    let k: i64 = d.exponent as i64 + s as i64;
    let ghost m = d.mantissa as int;
    let mut v: i128 = d.mantissa as i128;
    let mut done: i64 = 0;
    assert(m * pow10(0) == m);
    while done < k
        invariant
            0 <= done <= k,
            k == d.exponent + s,
            m == d.mantissa,
            m != 0,
            v == m * pow10(done as nat),
        decreases k - done,
    {
        if v < i64::MIN as i128 || v > i64::MAX as i128 {
            proof {
                lemma_scaled_stays_out(m, done as nat, k as nat);
            }
            return None;
        }
        proof {
            lemma_scaled_grows(m, done as nat);
        }
        v = v * 10;
        done = done + 1;
    }
    if v < i64::MIN as i128 || v > i64::MAX as i128 {
        None
    } else {
        Some(v as i64)
    }
}

/// Component `c` of an atom's velocity.
fn velocity_of(a: &crate::readers::Atom, c: usize) -> (r: Decimal)
    requires
        c < 3,
    ensures
        r == velocity(a@, c as int),
{
    if c == 0 {
        a.vx
    } else if c == 1 {
        a.vy
    } else {
        a.vz
    }
}

fn places_of(d: Decimal) -> (r: u32)
    ensures
        r == places(d),
{
    if d.mantissa != 0 && d.exponent < 0 {
        (0 - (d.exponent as i64)) as u32
    } else {
        0
    }
}

/// The decimal places that every velocity of the frames can be written in.
fn trajectory_places(frames: &Vec<Frame>) -> (r: u32)
    ensures
        r == frames_places(frames_view(frames@)),
{
    let ghost fs = frames_view(frames@);
    let mut acc: u32 = 0;
    let mut t: usize = 0;
    while t < frames.len()
        invariant
            fs == frames_view(frames@),
            t <= frames@.len(),
            acc == frames_places(fs.take(t as int)),
        decreases frames@.len() - t,
    {
        let atoms = &frames[t].atoms;
        let ghost av = fs[t as int].atoms;
        assert(av == atoms@.map_values(|a: crate::readers::Atom| a@));
        let mut inner: u32 = 0;
        let mut i: usize = 0;
        assert(av.take(0) =~= Seq::<AtomView>::empty());
        while i < atoms.len()
            invariant
                av == atoms@.map_values(|a: crate::readers::Atom| a@),
                i <= atoms@.len(),
                inner == atoms_places(av.take(i as int)),
            decreases atoms@.len() - i,
        {
            assert(av.take(i + 1).drop_last() =~= av.take(i as int));
            let a = &atoms[i];
            let px = places_of(a.vx);
            let py = places_of(a.vy);
            let pz = places_of(a.vz);
            let pa = if px >= py { px } else { py };
            let pa = if pa >= pz { pa } else { pz };
            if pa > inner {
                inner = pa;
            }
            i = i + 1;
        }
        assert(av.take(i as int) =~= av);
        assert(fs.take(t + 1).drop_last() =~= fs.take(t as int));
        if inner > acc {
            acc = inner;
        }
        t = t + 1;
    }
    assert(fs.take(t as int) =~= fs);
    acc
}

proof fn lemma_atoms_places_bound(s: Seq<AtomView>, i: int)
    requires
        0 <= i < s.len(),
    ensures
        atom_places(s[i]) <= atoms_places(s),
    decreases s.len(),
{
    if i < s.len() - 1 {
        lemma_atoms_places_bound(s.drop_last(), i);
    }
}

proof fn lemma_frames_places_bound(fs: Seq<FrameView>, t: int)
    requires
        0 <= t < fs.len(),
    ensures
        atoms_places(fs[t].atoms) <= frames_places(fs),
    decreases fs.len(),
{
    if t < fs.len() - 1 {
        lemma_frames_places_bound(fs.drop_last(), t);
    }
}

/// Every velocity of the frames can be written in their common places.
proof fn lemma_places_bound(fs: Seq<FrameView>, t: int, i: int, c: int)
    requires
        0 <= t < fs.len(),
        0 <= i < fs[t].atoms.len(),
    ensures
        places(velocity(fs[t].atoms[i], c)) <= frames_places(fs),
{
    lemma_atoms_places_bound(fs[t].atoms, i);
    lemma_frames_places_bound(fs, t);
}

/// Why the frames cannot be laid out as a matrix, if they cannot: no frames
/// or particles; sizes too large; the first frame whose particle count
/// differs from the first's; a velocity so large, at the common scale, that
/// the exact sums could leave 128 bits.
pub open spec fn velocities_error(fs: Seq<FrameView>) -> Option<VacfError> {
    if is_empty_trajectory(fs) {
        Some(VacfError::EmptyTrajectory)
    } else if !sizes_in_range(fs[0].num_atoms as int, fs.len() as int) {
        Some(VacfError::TrajectoryTooLarge)
    } else if exists|t: usize| first_mismatch(fs, t as int) {
        Some(VacfError::ParticleCountMismatch { frame: choose|t: usize| first_mismatch(fs, t as int) })
    } else if exists|t: int| 0 <= t < fs.len() && !frame_fits(#[trigger] fs[t], frames_places(fs), size_factor(fs)) {
        Some(VacfError::TrajectoryTooLarge)
    } else {
        None
    }
}

/// The velocity matrix of the frames: row `i` of column `3t + q` holds
/// component `q` of the velocity of the particle at position `i` of frame
/// `t`, in units of `10^-frames_places(fs)`.
pub open spec fn frame_cells(fs: Seq<FrameView>) -> Seq<Seq<i64>> {
    Seq::new(
        fs[0].num_atoms as nat,
        |i: int|
            Seq::new(
                (3 * fs.len()) as nat,
                |col: int| fixed(velocity(fs[col / 3].atoms[i], col % 3), frames_places(fs)) as i64,
            ),
    )
}

/// `t` is the first frame whose particle count differs from the first's.
pub open spec fn first_mismatch(fs: Seq<FrameView>, t: int) -> bool {
    0 <= t < fs.len() && count_mismatch(fs, t) && forall|u: int| 0 <= u < t ==> !count_mismatch(fs, u)
}

/// The matrix holds the velocities of the frames in units of `10^-scale`.
pub open spec fn lays_out(m: VelocityMatrix, fs: Seq<FrameView>) -> bool {
    &&& m.wf()
    &&& m.n_particles == fs[0].num_atoms
    &&& m.n_timesteps == fs.len()
    &&& m.scale == frames_places(fs)
    &&& forall|t: int, i: int, c: int|
        0 <= t < fs.len() && 0 <= i < m.n_particles && 0 <= c < 3 ==> m.cells()[i][3 * t + c]
            == fixed(#[trigger] velocity(fs[t].atoms[i], c), m.scale as int)
}

/// The checks of `get_velocities`, in the order in which they are made.
fn build_velocities(frames: &Vec<Frame>) -> (r: Result<VelocityMatrix, VacfError>)
    ensures
        ({
            let fs = frames_view(frames@);
            let empty = is_empty_trajectory(fs);
            let sized = !empty && sizes_in_range(fs[0].num_atoms as int, fs.len() as int);
            let matched = sized && forall|t: int| 0 <= t < fs.len() ==> !count_mismatch(fs, t);
            let fitting = matched && forall|t: int|
                0 <= t < fs.len() ==> frame_fits(fs[t], frames_places(fs), size_factor(fs));
            &&& empty ==> r == Err::<VelocityMatrix, _>(VacfError::EmptyTrajectory)
            &&& !empty && !sized ==> r == Err::<VelocityMatrix, _>(VacfError::TrajectoryTooLarge)
            &&& sized && !matched ==> exists|t: usize|
                first_mismatch(fs, t as int) && r == Err::<VelocityMatrix, _>(
                    VacfError::ParticleCountMismatch { frame: t },
                )
            &&& matched && !fitting ==> r == Err::<VelocityMatrix, _>(VacfError::TrajectoryTooLarge)
            &&& fitting ==> r is Ok && lays_out(r.unwrap(), fs)
        }),
{
    let ghost fs = frames_view(frames@);
    if frames.len() == 0 {
        return Err(VacfError::EmptyTrajectory);
    }
    let mut t: usize = 0;
    while t < frames.len()
        invariant
            fs == frames_view(frames@),
            t <= frames@.len(),
            forall|u: int| 0 <= u < t ==> (#[trigger] fs[u]).num_atoms != 0,
        decreases frames@.len() - t,
    {
        if frames[t].num_atoms == 0 {
            assert(fs[t as int].num_atoms == 0);
            return Err(VacfError::EmptyTrajectory);
        }
        t = t + 1;
    }
    assert(fs[0].num_atoms != 0);
    assert(!is_empty_trajectory(fs));
    let n = frames[0].num_atoms;
    let nt = frames.len();
    if n > 0x4000_0000 {
        assert(n * n * nt > 0x1000_0000_0000_0000) by (nonlinear_arith)
            requires n > 0x4000_0000, nt >= 1;
        return Err(VacfError::TrajectoryTooLarge);
    }
    assert(n * n <= 0x1000_0000_0000_0000) by (nonlinear_arith)
        requires n <= 0x4000_0000;
    let nn: u64 = (n as u64) * (n as u64);
    assert(nn * nt <= 0x1000_0000_0000_0000 * 0x1_0000_0000_0000_0000) by (nonlinear_arith)
        requires nn <= 0x1000_0000_0000_0000, nt <= 0x1_0000_0000_0000_0000;
    let big: u128 = nn as u128 * nt as u128;
    assert(3 * n * nt <= 3 * 0x4000_0000 * 0x1_0000_0000_0000_0000) by (nonlinear_arith)
        requires n <= 0x4000_0000, nt <= 0x1_0000_0000_0000_0000;
    let cells: u128 = 3 * (n as u128) * (nt as u128);
    if big > 0x1000_0000_0000_0000 || cells > isize::MAX as u128 {
        return Err(VacfError::TrajectoryTooLarge);
    }
    assert(big == n * n * nt) by (nonlinear_arith)
        requires nn == n * n, big == nn * nt;
    assert(sizes_in_range(n as int, nt as int));
    assert(3 * nt <= 3 * n * nt && n * (3 * nt) == 3 * n * nt) by (nonlinear_arith)
        requires n >= 1;
    let mut t: usize = 0;
    while t < nt
        invariant
            fs == frames_view(frames@),
            nt == frames@.len(),
            n == fs[0].num_atoms,
            !is_empty_trajectory(fs),
            sizes_in_range(n as int, nt as int),
            3 * nt <= 3 * n * nt <= isize::MAX,
            n * (3 * nt) == 3 * n * nt,
            t <= nt,
            forall|u: int| 0 <= u < t ==> !count_mismatch(fs, u),
        decreases nt - t,
    {
        assert(fs[t as int].atoms.len() == frames@[t as int].atoms@.len());
        if frames[t].num_atoms != n || frames[t].atoms.len() != n {
            assert(first_mismatch(fs, t as int));
            return Err(VacfError::ParticleCountMismatch { frame: t });
        }
        t = t + 1;
    }
    let scale = trajectory_places(frames);
    let cols: usize = 3 * nt;
    let mut grid = zeros(n, cols);
    assert(big >= 1) by (nonlinear_arith)
        requires big == n * n * nt, n >= 1, nt >= 1;
    let lim: u128 = 0x400_0000_0000_0000_0000_0000_0000_0000u128 / big;
    let mut mag: u64 = 0;
    assert(size_factor(fs) == big);
    assert(accumulates(0, big as int)) by (nonlinear_arith)
        requires big >= 0;
    let mut t: usize = 0;
    while t < nt
        invariant
            fs == frames_view(frames@),
            nt == frames@.len(),
            n == fs[0].num_atoms,
            !is_empty_trajectory(fs),
            sizes_in_range(n as int, nt as int),
            3 * nt <= 3 * n * nt <= isize::MAX,
            n * (3 * nt) == 3 * n * nt,
            big == n * n * nt,
            big == size_factor(fs),
            big >= 1,
            lim == accumulator_limit() / (big as int),
            cols == 3 * nt,
            t <= nt,
            scale == frames_places(fs),
            forall|u: int| 0 <= u < nt ==> !count_mismatch(fs, u),
            is_table(grid_cells(grid), n as int, cols as int),
            cells_bounded(grid_cells(grid), n as int, nt as int, mag as int),
            accumulates(mag as int, big as int),
            forall|u: int| 0 <= u < t ==> frame_fits(fs[u], scale as int, big as int),
            forall|u: int, i: int, c: int|
                0 <= u < t && 0 <= i < n && 0 <= c < 3 ==> grid_cells(grid)[i][3 * u + c] == fixed(
                    #[trigger] velocity(fs[u].atoms[i], c),
                    scale as int,
                ),
        decreases nt - t,
    {
        let atoms = &frames[t].atoms;
        assert(!count_mismatch(fs, t as int));
        let mut i: usize = 0;
        while i < n
            invariant
                fs == frames_view(frames@),
                nt == frames@.len(),
                n == fs[0].num_atoms,
                !is_empty_trajectory(fs),
                sizes_in_range(n as int, nt as int),
                big == n * n * nt,
                big == size_factor(fs),
                big >= 1,
                lim == accumulator_limit() / (big as int),
                forall|u: int| 0 <= u < nt ==> !count_mismatch(fs, u),
                forall|u: int| 0 <= u < t ==> frame_fits(fs[u], scale as int, big as int),
                cols == 3 * nt,
                t < nt,
                i <= n,
                atoms@.len() == n,
                *atoms == frames@[t as int].atoms,
                scale == frames_places(fs),
                is_table(grid_cells(grid), n as int, cols as int),
                cells_bounded(grid_cells(grid), n as int, nt as int, mag as int),
                accumulates(mag as int, big as int),
                forall|j: int, c: int|
                    0 <= j < i && 0 <= c < 3 ==> accumulates(fixed(#[trigger] velocity(fs[t as int].atoms[j], c), scale as int), big as int),
                forall|u: int, j: int, c: int|
                    (0 <= u < t && 0 <= j < n || u == t && 0 <= j < i) && 0 <= c < 3 ==> grid_cells(grid)[j][3 * u + c] == fixed(
                        #[trigger] velocity(fs[u].atoms[j], c),
                        scale as int,
                    ),
            decreases n - i,
        {
            let mut c: usize = 0;
            while c < 3
                invariant
                    fs == frames_view(frames@),
                    nt == frames@.len(),
                    n == fs[0].num_atoms,
                    !is_empty_trajectory(fs),
                    sizes_in_range(n as int, nt as int),
                    big == n * n * nt,
                    big == size_factor(fs),
                    big >= 1,
                    lim == accumulator_limit() / (big as int),
                    forall|u: int| 0 <= u < nt ==> !count_mismatch(fs, u),
                    forall|u: int| 0 <= u < t ==> frame_fits(fs[u], scale as int, big as int),
                    cols == 3 * nt,
                    t < nt,
                    i < n,
                    c <= 3,
                    atoms@.len() == n,
                    *atoms == frames@[t as int].atoms,
                    scale == frames_places(fs),
                    is_table(grid_cells(grid), n as int, cols as int),
                    cells_bounded(grid_cells(grid), n as int, nt as int, mag as int),
                    accumulates(mag as int, big as int),
                    forall|j: int, k: int|
                        (0 <= j < i && 0 <= k < 3 || j == i && 0 <= k < c) ==> accumulates(fixed(#[trigger] velocity(fs[t as int].atoms[j], k), scale as int), big as int),
                    forall|u: int, j: int, k: int|
                        (0 <= u < t && 0 <= j < n && 0 <= k < 3 || u == t && 0 <= j < i && 0 <= k < 3 || u == t && j == i && 0 <= k < c) ==> grid_cells(grid)[j][3 * u + k] == fixed(
                            #[trigger] velocity(fs[u].atoms[j], k),
                            scale as int,
                        ),
                decreases 3 - c,
            {
                let d = velocity_of(&atoms[i], c);
                assert(fs[t as int].atoms[i as int] == atoms@[i as int]@);
                let ghost fv = fixed(velocity(fs[t as int].atoms[i as int], c as int), scale as int);
                proof {
                    lemma_places_bound(fs, t as int, i as int, c as int);
                }
                let v = match to_fixed(d, scale) {
                    None => {
                        assert(!accumulates(fv, big as int)) by (nonlinear_arith)
                            requires
                                !(i64::MIN <= fv <= i64::MAX),
                                big >= 1,
                        {
                            assert(fv * fv >= 0x4000_0000_0000_0000_0000_0000_0000_0000);
                            assert(big * (fv * fv) >= fv * fv);
                        }
                        assert(!frame_fits(fs[t as int], scale as int, big as int));
                        return Err(VacfError::TrajectoryTooLarge);
                    },
                    Some(v) => v,
                };
                let vi: i128 = v as i128;
                assert(0 <= vi * vi <= 0x4000_0000_0000_0000_0000_0000_0000_0000) by (nonlinear_arith)
                    requires i64::MIN <= vi <= i64::MAX;
                let vsq: i128 = vi * vi;
                let vv: u128 = vsq as u128;
                assert((vv <= lim) == accumulates(v as int, big as int)) by (nonlinear_arith)
                    requires
                        lim == accumulator_limit() / (big as int),
                        big >= 1,
                        vv == v * v,
                        accumulator_limit() == 0x400_0000_0000_0000_0000_0000_0000_0000;
                if vv > lim {
                    assert(!frame_fits(fs[t as int], scale as int, big as int));
                    return Err(VacfError::TrajectoryTooLarge);
                }
                let absv: u64 = if v < 0 { (0 - (v as i128)) as u64 } else { v as u64 };
                let ghost before = grid_cells(grid);
                set_cell(&mut grid, i, 3 * t + c, v);
                if absv > mag {
                    assert(absv * absv == v * v) by (nonlinear_arith)
                        requires absv == v || absv == -v;
                    mag = absv;
                }
                assert forall|j: int, col: int| 0 <= j < n && 0 <= col < 3 * nt implies -(mag as int) <= #[trigger] grid_cells(grid)[j][col] <= mag by {
                    if !(j == i && col == 3 * t + c) {
                        assert(grid_cells(grid)[j][col] == before[j][col]);
                    }
                }
                assert forall|u: int, j: int, k: int|
                    (0 <= u < t && 0 <= j < n && 0 <= k < 3 || u == t && 0 <= j < i && 0 <= k < 3 || u == t && j == i && 0 <= k < c + 1) implies grid_cells(grid)[j][3 * u + k] == fixed(
                        #[trigger] velocity(fs[u].atoms[j], k),
                        scale as int,
                    ) by {
                    if !(u == t && j == i && k == c) {
                        assert(grid_cells(grid)[j][3 * u + k] == before[j][3 * u + k]);
                    }
                }
                c = c + 1;
            }
            i = i + 1;
        }
        t = t + 1;
    }
    let m = VelocityMatrix { n_particles: n, n_timesteps: nt, scale, magnitude: mag, velocities: grid };
    Ok(m)
}

/// Lays the velocities of the frames out as a matrix: row `i` is the particle
/// at position `i` of every frame, columns `3t .. 3t + 2` are timestep `t`.
/// Particles are matched by position only; every frame must hold as many as
/// the first declares. Velocities are written exactly, as integers in units
/// of `10^-scale`, where `scale` is the most decimal places any velocity has.
/// It fails only on empty or inconsistent frames, or where the exact sums
/// of the correlation could leave 128 bits (`TrajectoryTooLarge`).
pub fn get_velocities(frames: &Vec<Frame>) -> (r: Result<VelocityMatrix, VacfError>)
    ensures
        match r {
            Ok(m) => velocities_error(frames_view(frames@)) is None && lays_out(m, frames_view(frames@))
                && m.cells() == frame_cells(frames_view(frames@)),
            Err(e) => velocities_error(frames_view(frames@)) == Some(e),
        },
{
    let ghost fs = frames_view(frames@);
    let r = build_velocities(frames);
    let nt = frames.len();
    proof {
        assert(fs.len() == nt);
        if exists|t: usize| first_mismatch(fs, t as int) {
            let t = choose|t: usize| first_mismatch(fs, t as int);
            assert forall|u: usize| first_mismatch(fs, u as int) implies u == t by {
                if u < t {
                    assert(!count_mismatch(fs, u as int));
                } else if u > t {
                    assert(!count_mismatch(fs, t as int));
                }
            }
        } else {
            assert forall|t: int| 0 <= t < fs.len() implies !count_mismatch(fs, t) by {
                if count_mismatch(fs, t) {
                    let v = lemma_first(fs, t);
                    assert(first_mismatch(fs, v as int));
                }
            }
        }
        if r is Ok {
            let m = r.unwrap();
            assert forall|i: int| 0 <= i < m.n_particles implies #[trigger] m.cells()[i] =~= frame_cells(fs)[i] by {
                assert forall|col: int| 0 <= col < 3 * fs.len() implies m.cells()[i][col] == frame_cells(fs)[i][col] by {
                    let t = col / 3;
                    let q = col % 3;
                    assert(col == 3 * t + q);
                    assert(m.cells()[i][3 * t + q] == fixed(velocity(fs[t].atoms[i], q), m.scale as int));
                }
            }
            assert(m.cells() =~= frame_cells(fs));
        }
    }
    r
}

/// Some frame at or before `t` is the first that miscounts its particles.
proof fn lemma_first(fs: Seq<FrameView>, t: int) -> (u: usize)
    requires
        0 <= t < fs.len(),
        count_mismatch(fs, t),
        fs.len() <= usize::MAX,
    ensures
        first_mismatch(fs, u as int),
    decreases t,
{
    if forall|v: int| 0 <= v < t ==> !count_mismatch(fs, v) {
        t as usize
    } else {
        let v = choose|v: int| 0 <= v < t && count_mismatch(fs, v);
        lemma_first(fs, v)
    }
}

} // verus!
