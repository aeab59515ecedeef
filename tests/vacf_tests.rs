use rust_vacf::error::VacfError;
use rust_vacf::numbers::Decimal;
use rust_vacf::readers::{Atom, AtomType, Frame};
use rust_vacf::vacf::{correlate, correlate_sequential, vacf, Correlation};
use rust_vacf::velocities::get_velocities;

fn dec(mantissa: i64, exponent: i32) -> Decimal {
    Decimal { mantissa, exponent }
}

fn whole(v: i64) -> Decimal {
    dec(v, 0)
}

fn atom(id: i32, v: (Decimal, Decimal, Decimal)) -> Atom {
    Atom {
        id,
        atom_type: AtomType::Integer(1),
        x: whole(0),
        y: whole(0),
        z: whole(0),
        vx: v.0,
        vy: v.1,
        vz: v.2,
    }
}

fn frame(timestep: i32, velocities: &[(Decimal, Decimal, Decimal)]) -> Frame {
    let atoms: Vec<Atom> = velocities
        .iter()
        .enumerate()
        .map(|(i, v)| atom(i as i32 + 1, *v))
        .collect();
    Frame { timestep, num_atoms: atoms.len(), atoms }
}

fn value(c: &Correlation) -> f64 {
    c.numerator as f64 / c.denominator as f64 / 100f64.powi(c.scale as i32)
}

/// One particle at (1, 1, 1) over two frames. A value of 1.0 is sometimes
/// given for this case; averaging the dot products over the particle and
/// start-time pairs gives 3.0, which is what is checked.
#[test]
fn test_vacf() {
    let frames = vec![
        Frame {
            timestep: 0,
            num_atoms: 1,
            atoms: vec![Atom {
                id: 1,
                atom_type: AtomType::Integer(1),
                x: whole(1),
                y: whole(1),
                z: whole(1),
                vx: whole(1),
                vy: whole(1),
                vz: whole(1),
            }],
        },
        Frame {
            timestep: 1,
            num_atoms: 1,
            atoms: vec![Atom {
                id: 1,
                atom_type: AtomType::Integer(1),
                x: whole(2),
                y: whole(2),
                z: whole(2),
                vx: whole(1),
                vy: whole(1),
                vz: whole(1),
            }],
        },
    ];

    let velocities = get_velocities(&frames).unwrap();
    let vacf = correlate(&velocities, false);
    // Lag 0 divides the sum of the dot products, (1, 1, 1) . (1, 1, 1) = 3 at
    // each of the two start times, by the 1 * 2 particle and start-time
    // pairs: 6 / 2 = 3.
    assert_eq!(value(&vacf[0]), 3.0);
    assert_eq!(vacf[0], Correlation { numerator: 6, denominator: 2, scale: 0 });
}

#[test]
fn constant_velocity_gives_constant_vacf() {
    let v = (whole(1), whole(2), whole(3));
    let frames: Vec<Frame> = (0..10).map(|t| frame(t, &[v, v, v, v, v])).collect();
    let r = vacf(&frames, false).unwrap();
    assert_eq!(r.len(), 10);
    for (lag, c) in r.iter().enumerate() {
        assert_eq!(value(c), 14.0);
        assert_eq!(c.denominator, 5 * (10 - lag as u128));
    }
}

#[test]
fn centered_removes_common_drift() {
    let v = (whole(1), whole(2), whole(3));
    let frames: Vec<Frame> = (0..4).map(|t| frame(t, &[v, v, v])).collect();
    let r = vacf(&frames, true).unwrap();
    for c in r.iter() {
        assert_eq!(value(c), 0.0);
    }
}

#[test]
fn centered_two_particles_moving_apart() {
    // Velocities +-(1, 0, 0) around a drift of (2, 0, 0): centered, each
    // particle keeps its own (1, 0, 0) or (-1, 0, 0).
    let a = (whole(3), whole(0), whole(0));
    let b = (whole(1), whole(0), whole(0));
    let frames: Vec<Frame> = (0..3).map(|t| frame(t, &[a, b])).collect();
    let centered = vacf(&frames, true).unwrap();
    for c in centered.iter() {
        assert_eq!(value(c), 1.0);
    }
    let raw = vacf(&frames, false).unwrap();
    for c in raw.iter() {
        assert_eq!(value(c), 5.0);
    }
}

#[test]
fn normalization_matches_an_independent_sum() {
    let vs: Vec<Vec<(f64, f64, f64)>> = vec![
        vec![(0.5, -1.25, 2.0), (1.5, 0.0, -0.75)],
        vec![(0.25, 1.0, -2.5), (-1.0, 2.0, 0.5)],
        vec![(1.75, 0.5, 0.0), (0.0, -0.5, 1.25)],
    ];
    let to_dec = |x: f64| dec((x * 100.0).round() as i64, -2);
    let frames: Vec<Frame> = vs
        .iter()
        .enumerate()
        .map(|(t, f)| {
            let v: Vec<(Decimal, Decimal, Decimal)> =
                f.iter().map(|p| (to_dec(p.0), to_dec(p.1), to_dec(p.2))).collect();
            frame(t as i32, &v)
        })
        .collect();
    let r = vacf(&frames, false).unwrap();
    let n = 2usize;
    let nt = 3usize;
    for lag in 0..nt {
        let mut sum = 0.0;
        for j in 0..(nt - lag) {
            for i in 0..n {
                let a = vs[j][i];
                let b = vs[j + lag][i];
                sum += a.0 * b.0 + a.1 * b.1 + a.2 * b.2;
            }
        }
        let expected = sum / (n * (nt - lag)) as f64;
        assert!((value(&r[lag]) - expected).abs() < 1e-12);
        assert_eq!(r[lag].denominator, (n * (nt - lag)) as u128);
    }
}

#[test]
fn same_result_on_one_or_many_threads() {
    let frames: Vec<Frame> = (0..12)
        .map(|t| {
            let v: Vec<(Decimal, Decimal, Decimal)> = (0..7)
                .map(|i| (dec((i * 13 + t * 7) % 11 - 5, -1), whole((i + t) % 3), dec(i * t, -2)))
                .collect();
            frame(t as i32, &v)
        })
        .collect();
    let m = get_velocities(&frames).unwrap();
    let one = rayon::ThreadPoolBuilder::new().num_threads(1).build().unwrap();
    let four = rayon::ThreadPoolBuilder::new().num_threads(4).build().unwrap();
    for centered in [false, true] {
        let a = one.install(|| correlate(&m, centered));
        let b = four.install(|| correlate(&m, centered));
        let c = correlate_sequential(&m, centered);
        assert_eq!(a, b);
        assert_eq!(a, c);
        assert_eq!(a.len(), 12);
    }
}

#[test]
fn no_frames_is_empty_trajectory() {
    let frames: Vec<Frame> = Vec::new();
    assert_eq!(vacf(&frames, false).unwrap_err(), VacfError::EmptyTrajectory);
    assert_eq!(get_velocities(&frames).err(), Some(VacfError::EmptyTrajectory));
}

#[test]
fn no_particles_is_empty_trajectory() {
    let frames = vec![frame(0, &[]), frame(1, &[])];
    assert_eq!(vacf(&frames, true).unwrap_err(), VacfError::EmptyTrajectory);
}

#[test]
fn later_frame_without_particles_is_empty_trajectory() {
    let v = (whole(1), whole(0), whole(0));
    let frames = vec![frame(0, &[v, v]), frame(1, &[])];
    assert_eq!(vacf(&frames, false).unwrap_err(), VacfError::EmptyTrajectory);
}

#[test]
fn differing_particle_counts_are_refused() {
    let v = (whole(1), whole(0), whole(0));
    let frames = vec![frame(0, &[v, v]), frame(1, &[v, v]), frame(2, &[v])];
    assert_eq!(
        vacf(&frames, false).unwrap_err(),
        VacfError::ParticleCountMismatch { frame: 2 }
    );
}

#[test]
fn frame_declaring_another_count_is_refused() {
    let v = (whole(1), whole(0), whole(0));
    let mut frames = vec![frame(0, &[v]), frame(1, &[v])];
    frames[1].num_atoms = 2;
    assert_eq!(
        get_velocities(&frames).err(),
        Some(VacfError::ParticleCountMismatch { frame: 1 })
    );
}

#[test]
fn velocities_share_one_scale() {
    let frames = vec![
        frame(0, &[(dec(15, -1), whole(2), dec(-25, -2))]),
        frame(1, &[(dec(1, 0), whole(0), whole(0))]),
    ];
    let m = get_velocities(&frames).unwrap();
    assert_eq!(m.scale, 2);
    let r = correlate(&m, false);
    // lag 0: (1.5^2 + 2^2 + 0.25^2 + 1) / 2; lag 1: 1.5 / 1.
    assert_eq!(value(&r[0]), (2.25 + 4.0 + 0.0625 + 1.0) / 2.0);
    assert_eq!(value(&r[1]), 1.5);
}

#[test]
fn large_velocities_are_correlated() {
    let frames = vec![frame(0, &[(dec(3, 9), whole(0), whole(0))])];
    let r = vacf(&frames, false).unwrap();
    assert_eq!(r[0], Correlation { numerator: 9_000_000_000_000_000_000, denominator: 1, scale: 0 });
}

#[test]
fn mixed_magnitudes_are_correlated() {
    let frames = vec![
        frame(0, &[(dec(123456, -10), dec(123456, -4), whole(0))]),
        frame(1, &[(whole(0), whole(1), whole(0))]),
    ];
    let m = get_velocities(&frames).unwrap();
    assert_eq!(m.scale, 10);
    let r = correlate(&m, false);
    let expected0 = (1.23456e-05f64 * 1.23456e-05 + 12.3456 * 12.3456 + 1.0) / 2.0;
    assert!((value(&r[0]) - expected0).abs() < 1e-9);
    assert!((value(&r[1]) - 12.3456).abs() < 1e-12);
}

#[test]
fn sums_beyond_128_bits_are_refused() {
    let frames = vec![
        frame(0, &[(whole(1), whole(0), whole(0))]),
        frame(1, &[(dec(1, 19), whole(0), whole(0))]),
    ];
    assert_eq!(vacf(&frames, false).unwrap_err(), VacfError::TrajectoryTooLarge);
}
