use tetra_life::binder::CountingBinder;
use tetra_life::codec::{encode_save, parse_save};
use tetra_life::saves::{load, save, LoadError, SaveResource};
use tetra_life::universe::{dead_universe, LifeDataContainer, SessionResource};

fn make_record(
    size: usize,
    cells: &[(usize, usize, usize, usize)],
    counter: i64,
    generation: i64,
) -> SaveResource {
    let mut life = vec![vec![vec![vec![0usize; size]; size]; size]; 6];
    for &(n, x, y, z) in cells {
        life[n][x][y][z] = 1;
    }
    SaveResource { life, counter, generation, universe_size: size }
}

fn fresh_session() -> SessionResource {
    SessionResource { life: dead_universe(), counter: 0, generation: 1, universe_size: 20 }
}

fn alive_pattern(session: &SessionResource) -> Vec<(usize, usize, usize, usize)> {
    let mut pattern = Vec::new();
    for (n, cube) in session.life.iter().enumerate() {
        for (x, plane) in cube.iter().enumerate() {
            for (y, row) in plane.iter().enumerate() {
                for (z, cell) in row.iter().enumerate() {
                    if let LifeDataContainer::Alive(_) = cell {
                        pattern.push((n, x, y, z));
                    }
                }
            }
        }
    }
    pattern
}

#[test]
fn test_save_load_round_trip_preserves_logical_state() {
    let mut session = fresh_session();
    let mut binder = CountingBinder::new();
    let cells = [(0, 0, 0, 0), (2, 3, 1, 4), (5, 9, 9, 9), (1, 0, 9, 5)];
    let rec = make_record(10, &cells, 4, 17);
    load(&mut session, &rec, &mut binder).expect("seed record must load");
    let snapshot = save(&session);

    let mut restored = fresh_session();
    load(&mut restored, &snapshot, &mut binder).expect("own snapshot must load");
    assert_eq!(alive_pattern(&restored), alive_pattern(&session));
    assert_eq!(restored.counter, session.counter);
    assert_eq!(restored.generation, session.generation);
    assert_eq!(restored.universe_size, session.universe_size);
}

#[test]
fn test_text_round_trip_reproduces_the_record() {
    let rec = make_record(3, &[(1, 2, 0, 1), (4, 0, 0, 0)], 2, 9);
    let bytes = encode_save(&rec);
    let back = parse_save(&bytes).expect("own encoding must parse");
    assert_eq!(back.life, rec.life);
    assert_eq!(back.counter, rec.counter);
    assert_eq!(back.generation, rec.generation);
    assert_eq!(back.universe_size, rec.universe_size);
}

#[test]
fn test_encoding_is_the_documented_text_form() {
    let mut rec = make_record(1, &[], 0, 1);
    rec.life[3][0][0][0] = 1;
    rec.counter = 1;
    let bytes = encode_save(&rec);
    let text = String::from_utf8(bytes).expect("the encoding is ASCII");
    assert_eq!(
        text,
        "(life:[[[[0]]],[[[0]]],[[[0]]],[[[1]]],[[[0]]],[[[0]]]],counter:1,generation:1,universe_size:1)"
    );
}

#[test]
fn test_negative_counters_survive_the_text_form() {
    let mut rec = make_record(1, &[], 0, 1);
    rec.counter = -3;
    rec.generation = -9223372036854775808;
    let bytes = encode_save(&rec);
    let back = parse_save(&bytes).expect("own encoding must parse");
    assert_eq!(back.counter, -3);
    assert_eq!(back.generation, -9223372036854775808);
}

#[test]
fn test_parse_rejects_malformed_text() {
    let good = encode_save(&make_record(2, &[(0, 1, 1, 0)], 1, 3));
    assert!(parse_save(&good).is_ok());

    // truncated
    let mut truncated = good.clone();
    truncated.pop();
    assert!(matches!(parse_save(&truncated), Err(LoadError::Syntax)));

    // trailing garbage
    let mut trailing = good.clone();
    trailing.push(b' ');
    assert!(matches!(parse_save(&trailing), Err(LoadError::Syntax)));

    // a leading zero is not canonical
    let zeros = b"(life:[[[[00]]]],counter:0,generation:1,universe_size:1)".to_vec();
    assert!(matches!(parse_save(&zeros), Err(LoadError::Syntax)));

    // a stray minus is not a number
    let minus = b"(life:[[[[0]]]],counter:-,generation:1,universe_size:1)".to_vec();
    assert!(matches!(parse_save(&minus), Err(LoadError::Syntax)));

    // empty input
    assert!(matches!(parse_save(&Vec::new()), Err(LoadError::Syntax)));
}

#[test]
fn test_load_rejects_inconsistent_records() {
    let mut session = fresh_session();
    let mut binder = CountingBinder::new();

    // population counter does not match the grid
    let bad_counter = make_record(4, &[(0, 1, 1, 1)], 2, 3);
    assert!(matches!(
        load(&mut session, &bad_counter, &mut binder),
        Err(LoadError::InvalidRecord)
    ));

    // extent zero
    let zero = SaveResource { life: Vec::new(), counter: 0, generation: 1, universe_size: 0 };
    assert!(matches!(load(&mut session, &zero, &mut binder), Err(LoadError::InvalidRecord)));

    // generation below 1
    let ancient = make_record(4, &[], 0, 0);
    assert!(matches!(load(&mut session, &ancient, &mut binder), Err(LoadError::InvalidRecord)));

    // ragged grid
    let mut ragged = make_record(4, &[], 0, 1);
    ragged.life[2][3].pop();
    assert!(matches!(load(&mut session, &ragged, &mut binder), Err(LoadError::InvalidRecord)));

    // a failed load leaves the universe untouched
    assert_eq!(session.counter, 0);
    assert_eq!(session.generation, 1);
    assert_eq!(session.universe_size, 20);
}

#[test]
fn test_load_resizes_to_the_record_extent() {
    let mut session = fresh_session();
    let mut binder = CountingBinder::new();
    let rec = make_record(7, &[(3, 6, 6, 6)], 1, 2);
    load(&mut session, &rec, &mut binder).expect("record must load");
    assert_eq!(session.universe_size, 7);
    assert_eq!(session.life[0].len(), 7);
    assert!(matches!(session.life[3][6][6][6], LifeDataContainer::Alive(_)));
}

#[test]
fn test_full_pipeline_bytes_to_universe_and_back() {
    let mut session = fresh_session();
    let mut binder = CountingBinder::new();
    let rec = make_record(5, &[(0, 1, 2, 3), (4, 4, 4, 4)], 2, 6);
    let bytes = encode_save(&rec);
    let parsed = parse_save(&bytes).expect("own encoding must parse");
    load(&mut session, &parsed, &mut binder).expect("parsed record must load");
    let bytes_again = encode_save(&save(&session));
    assert_eq!(bytes_again, bytes);
}
