use pathy::{LoadError, Path, Pos, SavePoint, generate};

fn sample_path() -> Path {
    let mut path = Path::new();
    assert!(path.append(Pos::new(10_000, 10_000), 11, 0));
    assert!(path.append(Pos::new(60_500, 12_250), 22, 0));
    assert!(path.append(Pos::new(-3_000, 90_000), 33, 0));
    path.points[1].broken = true;
    path
}

#[test]
fn records_round_trip() {
    let path = sample_path();
    let recs = path.to_records();
    assert_eq!(recs.len(), 3);
    let back = Path::from_records(&recs).unwrap();
    assert_eq!(back.to_records(), recs);
    assert!(back.points.iter().all(|a| a.animated && !a.pos.selected && !a.cp1.locked));
    assert!(back.selected.is_none());
}

#[test]
fn record_fields() {
    let path = sample_path();
    let r = path.to_records()[0];
    assert_eq!(r.pos, Pos::new(10_000, 10_000));
    assert_eq!(r.cp1, Pos::new(5_000, 10_000));
    assert_eq!(r.cp2, Pos::new(15_000, 10_000));
    assert_eq!(r.id, 11);
    assert!(!r.broken);
}

#[test]
fn load_mirrors_unbroken_controls() {
    let rec = SavePoint {
        pos: Pos::new(0, 0),
        cp1: Pos::new(-1_000, 0),
        cp2: Pos::new(4_000, 4_000),
        id: 1,
        broken: false,
    };
    let path = Path::from_records(&vec![rec]).unwrap();
    assert_eq!(path.points[0].cp2.pos(), Pos::new(1_000, 0));
    let broken = SavePoint { broken: true, ..rec };
    let path = Path::from_records(&vec![broken]).unwrap();
    assert_eq!(path.points[0].cp2.pos(), Pos::new(4_000, 4_000));
}

#[test]
fn load_rejects_duplicate_ids() {
    let mut recs = sample_path().to_records();
    recs[2].id = 11;
    assert_eq!(Path::from_records(&recs).unwrap_err(), LoadError::DuplicateId(2));
}

#[test]
fn load_rejects_out_of_range() {
    let mut recs = sample_path().to_records();
    recs[1].cp2 = Pos::new(2_000_000_000, 0);
    recs[2].id = 11;
    assert_eq!(Path::from_records(&recs).unwrap_err(), LoadError::OutOfRange(1));
}

#[test]
fn load_empty() {
    let path = Path::from_records(&Vec::new()).unwrap();
    assert_eq!(path.len(), 0);
}

#[test]
fn program_of_short_paths_is_empty_form() {
    let empty = Path::new();
    assert_eq!(
        generate(&empty.points, 500),
        "std::vector<wolflib::Moment> = wolf.solve({}, 0.5);"
    );
    let mut one = Path::new();
    assert!(one.append(Pos::new(1_000, 1_000), 1, 0));
    assert_eq!(
        generate(&one.points, 2_000),
        "std::vector<wolflib::Moment> = wolf.solve({}, 2);"
    );
}

#[test]
fn program_lists_segments_in_order() {
    let path = sample_path();
    let text = generate(&path.points, 1_250);
    let expected = "std::vector<wolflib::Moment> = wolf.solve({\n    {{10.000_in, 10.000_in}, {15.000_in, 10.000_in}, {37.750_in, 11.125_in}, {60.500_in, 12.250_in}},\n    {{60.500_in, 12.250_in}, {83.250_in, 13.375_in}, {40.125_in, 51.687_in}, {-3.000_in, 90.000_in}}}, 1.25);";
    assert_eq!(text, expected);
}
