use rust_vacf::error::VacfError;
use rust_vacf::numbers::Decimal;
use rust_vacf::readers::{parse_dump, AtomType};

const DUMMY_DUMP: &str = "ITEM: TIMESTEP
0
ITEM: NUMBER OF ATOMS
3
ITEM: BOX BOUNDS pp pp pp
0.0 10.0
0.0 10.0
0.0 10.0
ITEM: ATOMS id type x y z vx vy vz
1 1 0.0 0.0 0.0 0.0 0.0 0.0
2 2 1.0 1.0 1.0 0.0 0.0 0.0
3 1 2.0 2.0 2.0 0.0 0.0 0.0
ITEM: TIMESTEP
1
ITEM: NUMBER OF ATOMS
2
ITEM: BOX BOUNDS pp pp pp
0.0 10.0
0.0 10.0
0.0 10.0
ITEM: ATOMS id mass x y z vx vy vz
1 16.0 0.0 0.0 0.0 0.0 0.0 0.0
2 32.0 1.0 1.0 1.0 0.0 0.0 0.0
";

fn value(d: &Decimal) -> f64 {
    if d.exponent >= 0 {
        d.mantissa as f64 * 10f64.powi(d.exponent)
    } else {
        d.mantissa as f64 / 10f64.powi(-d.exponent)
    }
}

fn mass(t: &AtomType) -> f64 {
    match t {
        AtomType::Mass(m) => value(m),
        _ => panic!("not a mass"),
    }
}

#[test]
fn test_read_lammps_dump() {
    let result = parse_dump(DUMMY_DUMP.as_bytes());

    assert!(result.is_ok());
    let frames = result.unwrap();
    assert_eq!(frames.len(), 2);

    let frame1 = &frames[0];
    assert_eq!(frame1.timestep, 0);
    assert_eq!(frame1.num_atoms, 3);
    assert_eq!(frame1.atoms.len(), 3);

    let atom1 = &frame1.atoms[0];
    assert_eq!(atom1.id, 1);
    assert_eq!(atom1.atom_type, AtomType::Integer(1));
    assert_eq!(value(&atom1.x), 0.0);
    assert_eq!(value(&atom1.y), 0.0);
    assert_eq!(value(&atom1.z), 0.0);
    assert_eq!(value(&atom1.vx), 0.0);
    assert_eq!(value(&atom1.vy), 0.0);
    assert_eq!(value(&atom1.vz), 0.0);

    let atom2 = &frame1.atoms[1];
    assert_eq!(atom2.id, 2);
    assert_eq!(atom2.atom_type, AtomType::Integer(2));
    assert_eq!(value(&atom2.x), 1.0);
    assert_eq!(value(&atom2.y), 1.0);
    assert_eq!(value(&atom2.z), 1.0);
    assert_eq!(value(&atom2.vx), 0.0);
    assert_eq!(value(&atom2.vy), 0.0);
    assert_eq!(value(&atom2.vz), 0.0);

    let atom3 = &frame1.atoms[2];
    assert_eq!(atom3.id, 3);
    assert_eq!(atom3.atom_type, AtomType::Integer(1));
    assert_eq!(value(&atom3.x), 2.0);
    assert_eq!(value(&atom3.y), 2.0);
    assert_eq!(value(&atom3.z), 2.0);
    assert_eq!(value(&atom3.vx), 0.0);
    assert_eq!(value(&atom3.vy), 0.0);
    assert_eq!(value(&atom3.vz), 0.0);

    let frame2 = &frames[1];
    assert_eq!(frame2.timestep, 1);
    assert_eq!(frame2.num_atoms, 2);
    assert_eq!(frame2.atoms.len(), 2);

    let atom4 = &frame2.atoms[0];
    assert_eq!(atom4.id, 1);
    assert_eq!(mass(&atom4.atom_type), 16.0);
    assert_eq!(value(&atom4.x), 0.0);
    assert_eq!(value(&atom4.y), 0.0);
    assert_eq!(value(&atom4.z), 0.0);
    assert_eq!(value(&atom4.vx), 0.0);
    assert_eq!(value(&atom4.vy), 0.0);
    assert_eq!(value(&atom4.vz), 0.0);

    let atom5 = &frame2.atoms[1];
    assert_eq!(atom5.id, 2);
    assert_eq!(mass(&atom5.atom_type), 32.0);
    assert_eq!(value(&atom5.x), 1.0);
    assert_eq!(value(&atom5.y), 1.0);
    assert_eq!(value(&atom5.z), 1.0);
    assert_eq!(value(&atom5.vx), 0.0);
    assert_eq!(value(&atom5.vy), 0.0);
    assert_eq!(value(&atom5.vz), 0.0);
}

#[test]
fn element_labels_are_kept() {
    let text = "ITEM: TIMESTEP\n7\nITEM: NUMBER OF ATOMS\n1\nITEM: ATOMS id element x y z vx vy vz\n4 Cu 1 2 3 -1.5e2 +2.25 .5\n";
    let frames = parse_dump(text.as_bytes()).unwrap();
    assert_eq!(frames.len(), 1);
    assert_eq!(frames[0].timestep, 7);
    let a = &frames[0].atoms[0];
    assert_eq!(a.id, 4);
    assert_eq!(a.atom_type, AtomType::Element(b"Cu".to_vec()));
    assert_eq!(a.vx, Decimal { mantissa: -15, exponent: 1 });
    assert_eq!(a.vy, Decimal { mantissa: 225, exponent: -2 });
    assert_eq!(a.vz, Decimal { mantissa: 5, exponent: -1 });
}

#[test]
fn declared_count_larger_than_table_is_eof() {
    let text = "ITEM: TIMESTEP\n0\nITEM: NUMBER OF ATOMS\n3\nITEM: ATOMS id type x y z vx vy vz\n1 1 0 0 0 0 0 0\n2 1 0 0 0 0 0 0\n";
    assert_eq!(parse_dump(text.as_bytes()).unwrap_err(), VacfError::UnexpectedEof);
}

#[test]
fn extra_data_lines_are_passed_over() {
    let text = "ITEM: TIMESTEP\n0\nITEM: NUMBER OF ATOMS\n1\nITEM: ATOMS id type x y z vx vy vz\n1 1 0 0 0 0 0 0\n2 1 0 0 0 0 0 0\n";
    let frames = parse_dump(text.as_bytes()).unwrap();
    assert_eq!(frames.len(), 1);
    assert_eq!(frames[0].atoms.len(), 1);
}

#[test]
fn short_data_line_is_malformed_record() {
    let text = "ITEM: TIMESTEP\n0\nITEM: NUMBER OF ATOMS\n1\nITEM: ATOMS id type x y z vx vy vz\n1 1 0 0 0\n";
    assert_eq!(
        parse_dump(text.as_bytes()).unwrap_err(),
        VacfError::MalformedAtomRecord { line: 6 }
    );
}

#[test]
fn bad_timestep_is_malformed_header() {
    let text = "ITEM: TIMESTEP\nzero\n";
    assert_eq!(
        parse_dump(text.as_bytes()).unwrap_err(),
        VacfError::MalformedHeader { line: 2 }
    );
}

#[test]
fn negative_count_is_malformed_header() {
    let text = "ITEM: TIMESTEP\n0\nITEM: NUMBER OF ATOMS\n-3\n";
    assert_eq!(
        parse_dump(text.as_bytes()).unwrap_err(),
        VacfError::MalformedHeader { line: 4 }
    );
}

#[test]
fn bad_velocity_field_is_malformed_record() {
    let text = "ITEM: TIMESTEP\n0\nITEM: NUMBER OF ATOMS\n1\nITEM: ATOMS id type x y z vx vy vz\n1 1 0 0 0 0 fast 0\n";
    assert_eq!(
        parse_dump(text.as_bytes()).unwrap_err(),
        VacfError::MalformedAtomRecord { line: 6 }
    );
}

#[test]
fn bad_integer_type_is_malformed_record() {
    let text = "ITEM: TIMESTEP\n0\nITEM: NUMBER OF ATOMS\n1\nITEM: ATOMS id type x y z vx vy vz\n1 1.5 0 0 0 0 0 0\n";
    assert_eq!(
        parse_dump(text.as_bytes()).unwrap_err(),
        VacfError::MalformedAtomRecord { line: 6 }
    );
}

#[test]
fn stream_ending_after_timestep_marker_is_eof() {
    assert_eq!(
        parse_dump("ITEM: TIMESTEP\n".as_bytes()).unwrap_err(),
        VacfError::UnexpectedEof
    );
    assert_eq!(
        parse_dump("ITEM: TIMESTEP\n3\nITEM: NUMBER OF ATOMS\n2\n".as_bytes()).unwrap_err(),
        VacfError::UnexpectedEof
    );
}

#[test]
fn empty_text_has_no_frames() {
    assert_eq!(parse_dump(b"").unwrap().len(), 0);
}

#[test]
fn trailing_zeros_move_into_the_exponent() {
    let read = |s: &str| rust_vacf::numbers::parse_decimal(s.as_bytes(), 0, s.len());
    assert_eq!(read("16.00000000000000000000"), Some(Decimal { mantissa: 16, exponent: 0 }));
    assert_eq!(read("1.2300e-5"), Some(Decimal { mantissa: 123, exponent: -7 }));
    assert_eq!(read("100"), Some(Decimal { mantissa: 1, exponent: 2 }));
    assert_eq!(read("-0.000"), Some(Decimal { mantissa: 0, exponent: 0 }));
    assert_eq!(read("4.5e-05"), Some(Decimal { mantissa: 45, exponent: -6 }));
    assert_eq!(read("1.5.2"), None);
    assert_eq!(read("e5"), None);
    assert_eq!(read("12345678901234567891"), None);
}

#[test]
fn mass_with_many_trailing_zeros_is_read() {
    let text = "ITEM: TIMESTEP\n0\nITEM: NUMBER OF ATOMS\n1\nITEM: ATOMS id mass x y z vx vy vz\n1 16.00000000000000000000 0 0 0 0.30 4.5e-05 0\n";
    let frames = parse_dump(text.as_bytes()).unwrap();
    assert_eq!(mass(&frames[0].atoms[0].atom_type), 16.0);
    assert_eq!(frames[0].atoms[0].vx, Decimal { mantissa: 3, exponent: -1 });
}
