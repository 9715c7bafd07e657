use tetra_life::binder::{CountingBinder, LifeEvent, LifecycleBinder};
use tetra_life::saves::{load, SaveResource};
use tetra_life::stepper::run;
use tetra_life::topology::TetraIndex;
use tetra_life::universe::{dead_universe, LifeDataContainer, SessionResource};

fn make_record(
    size: usize,
    cells: &[(usize, usize, usize, usize)],
    generation: i64,
) -> SaveResource {
    let mut life = vec![vec![vec![vec![0usize; size]; size]; size]; 6];
    for &(n, x, y, z) in cells {
        life[n][x][y][z] = 1;
    }
    SaveResource { life, counter: cells.len() as i64, generation, universe_size: size }
}

fn fresh_session() -> SessionResource {
    SessionResource { life: dead_universe(), counter: 0, generation: 1, universe_size: 20 }
}

fn check_universe_state(session: &SessionResource, expected_generation: i64, expected_counter: i64) {
    assert_eq!(session.generation, expected_generation);
    assert_eq!(session.counter, expected_counter);
}

fn recount(session: &SessionResource) -> i64 {
    let mut alive: i64 = 0;
    for cube in &session.life {
        for plane in cube {
            for row in plane {
                for cell in row {
                    if let LifeDataContainer::Alive(_) = cell {
                        alive += 1;
                    }
                }
            }
        }
    }
    alive
}

#[test]
fn test_life_two_in_same_cube_dies() {
    /* TEST DESCRIPTION
       Start State: 2 tetras in the same cube
       Expect: universe to die off
    */
    let mut session = fresh_session();
    let mut binder = CountingBinder::new();
    let rec = make_record(10, &[(0, 4, 4, 4), (1, 4, 4, 4)], 2);
    load(&mut session, &rec, &mut binder).expect("seed record must load");
    check_universe_state(&session, 2, 2);
    run(&mut session, &mut binder);
    check_universe_state(&session, 3, 0);
}

#[test]
fn test_life_012_in_same_cube_breeds() {
    /* TEST DESCRIPTION
       Start State: 3 tetras indexed 0,1,2 in the same cube
       Expect: 3 to become a cube of 6t.
               6 to die and create 12t.
    */
    let mut session = fresh_session();
    let mut binder = CountingBinder::new();
    let rec = make_record(10, &[(0, 4, 4, 4), (1, 4, 4, 4), (2, 4, 4, 4)], 2);
    load(&mut session, &rec, &mut binder).expect("seed record must load");
    check_universe_state(&session, 2, 3);
    run(&mut session, &mut binder);
    // at this point we have one solid cube of 6 lifeforms
    check_universe_state(&session, 3, 6);
    run(&mut session, &mut binder);
    // at this point we have twelve lifeforms that exist from the faces of the starting cube
    check_universe_state(&session, 4, 12);
    run(&mut session, &mut binder);
    check_universe_state(&session, 5, 36);
    run(&mut session, &mut binder);
    check_universe_state(&session, 6, 12);
    run(&mut session, &mut binder);
    check_universe_state(&session, 7, 0);
}

#[test]
fn test_life_345_in_same_cube_breeds() {
    /* TEST DESCRIPTION
       Start State: 3 tetras indexed 3,4,5 in the same cube
       Expect: 3 to become a cube of 6t.
               6 to die and create 12t.
    */
    let mut session = fresh_session();
    let mut binder = CountingBinder::new();
    let rec = make_record(10, &[(3, 4, 4, 4), (4, 4, 4, 4), (5, 4, 4, 4)], 2);
    load(&mut session, &rec, &mut binder).expect("seed record must load");
    check_universe_state(&session, 2, 3);
    run(&mut session, &mut binder);
    check_universe_state(&session, 3, 6);
    run(&mut session, &mut binder);
    check_universe_state(&session, 4, 12);
    run(&mut session, &mut binder);
    check_universe_state(&session, 5, 36);
    run(&mut session, &mut binder);
    check_universe_state(&session, 6, 12);
    run(&mut session, &mut binder);
    check_universe_state(&session, 7, 0);
}

#[test]
fn test_population_matches_grid_after_every_step() {
    let mut session = fresh_session();
    let mut binder = CountingBinder::new();
    let rec = make_record(10, &[(0, 4, 4, 4), (1, 4, 4, 4), (2, 4, 4, 4)], 2);
    load(&mut session, &rec, &mut binder).expect("seed record must load");
    for _ in 0..6 {
        run(&mut session, &mut binder);
        assert_eq!(recount(&session), session.counter);
    }
}

#[test]
fn test_genesis_seeds_random_life_and_counts_it() {
    let mut session = SessionResource::new_dead(6).expect("extent 6 is valid");
    let mut binder = CountingBinder::new();
    assert_eq!(session.generation, 1);
    assert_eq!(session.counter, 0);
    run(&mut session, &mut binder);
    // the genesis tick only reseeds and counts; it never applies the rule
    assert_eq!(session.generation, 2);
    assert_eq!(recount(&session), session.counter);
    // one spawn call per alive cell
    let spawns = binder
        .log
        .iter()
        .filter(|e| matches!(e, LifeEvent::Spawned(..)))
        .count();
    assert_eq!(spawns as i64, session.counter);
}

#[test]
fn test_degenerate_tick_leaves_lone_cell() {
    let mut session = fresh_session();
    let mut binder = CountingBinder::new();
    let rec = make_record(10, &[(2, 3, 3, 3)], 5);
    load(&mut session, &rec, &mut binder).expect("seed record must load");
    check_universe_state(&session, 5, 1);
    run(&mut session, &mut binder);
    // population 1 is a degenerate tick: the grid is left unchanged
    check_universe_state(&session, 6, 1);
    assert!(matches!(session.life[2][3][3][3], LifeDataContainer::Alive(_)));
}

#[test]
fn test_new_dead_rejects_extent_zero() {
    assert!(SessionResource::new_dead(0).is_none());
    assert!(SessionResource::new_dead(1).is_some());
}

#[test]
fn test_place_life_toggles_and_logs() {
    let mut session = fresh_session();
    let mut binder = CountingBinder::new();
    tetra_life::universe::place_life(&mut session, &mut binder, &TetraIndex::Two, 5, 6, 7);
    assert_eq!(session.counter, 1);
    let handle = match session.life[2][5][6][7] {
        LifeDataContainer::Alive(h) => h,
        LifeDataContainer::Dead => panic!("cell should be alive after placing"),
    };
    assert_eq!(binder.log, vec![LifeEvent::Spawned(2, 5, 6, 7, handle)]);
    tetra_life::universe::place_life(&mut session, &mut binder, &TetraIndex::Two, 5, 6, 7);
    assert_eq!(session.counter, 0);
    assert!(matches!(session.life[2][5][6][7], LifeDataContainer::Dead));
    assert_eq!(
        binder.log,
        vec![LifeEvent::Spawned(2, 5, 6, 7, handle), LifeEvent::Despawned(handle)]
    );
}

#[test]
fn test_new_universe_resets_everything() {
    let mut session = fresh_session();
    let mut binder = CountingBinder::new();
    let rec = make_record(10, &[(0, 1, 2, 3), (5, 9, 9, 9)], 7);
    load(&mut session, &rec, &mut binder).expect("seed record must load");
    tetra_life::universe::new_universe(&mut session, &mut binder);
    assert_eq!(session.counter, 0);
    assert_eq!(session.generation, 1);
    assert_eq!(session.universe_size, 20);
    assert_eq!(recount(&session), 0);
    // both seeded cells were despawned on the way out
    let despawns = binder
        .log
        .iter()
        .filter(|e| matches!(e, LifeEvent::Despawned(_)))
        .count();
    assert_eq!(despawns, 2);
}

#[test]
fn test_survivor_keeps_its_handle() {
    let mut session = fresh_session();
    let mut binder = CountingBinder::new();
    // 0,1,2 in one cube: all six orientations of the cube are alive next tick,
    // and the three seeds survive with their handles intact
    let rec = make_record(10, &[(0, 4, 4, 4), (1, 4, 4, 4), (2, 4, 4, 4)], 2);
    load(&mut session, &rec, &mut binder).expect("seed record must load");
    let before = match session.life[0][4][4][4] {
        LifeDataContainer::Alive(h) => h,
        LifeDataContainer::Dead => panic!("seed cell should be alive"),
    };
    run(&mut session, &mut binder);
    let after = match session.life[0][4][4][4] {
        LifeDataContainer::Alive(h) => h,
        LifeDataContainer::Dead => panic!("survivor should stay alive"),
    };
    assert_eq!(before, after);
}

#[test]
fn test_steady_tick_event_trace_is_exact() {
    let mut session = fresh_session();
    let mut binder = CountingBinder::new();
    let rec = make_record(10, &[(0, 4, 4, 4), (1, 4, 4, 4)], 2);
    load(&mut session, &rec, &mut binder).expect("seed record must load");
    let h0 = match session.life[0][4][4][4] {
        LifeDataContainer::Alive(h) => h,
        LifeDataContainer::Dead => panic!("seed cell should be alive"),
    };
    let h1 = match session.life[1][4][4][4] {
        LifeDataContainer::Alive(h) => h,
        LifeDataContainer::Dead => panic!("seed cell should be alive"),
    };
    binder.log.clear();
    run(&mut session, &mut binder);
    // both cells die of isolation; the only calls are their despawns, in
    // orientation-major scan order
    assert_eq!(
        binder.log,
        vec![LifeEvent::Despawned(h0), LifeEvent::Despawned(h1)]
    );
}

#[test]
fn test_breeding_cube_wraps_across_the_boundary() {
    // the lattice has no edges: seeding the breeding cube at the corner gives
    // the same population sequence as seeding it in the middle, with the
    // pattern spilling over the wrapped sides
    let mut session = fresh_session();
    let mut binder = CountingBinder::new();
    let rec = make_record(10, &[(0, 0, 0, 0), (1, 0, 0, 0), (2, 0, 0, 0)], 2);
    load(&mut session, &rec, &mut binder).expect("seed record must load");
    let expected = [(3, 6), (4, 12), (5, 36), (6, 12), (7, 0)];
    for (generation, counter) in expected {
        run(&mut session, &mut binder);
        check_universe_state(&session, generation, counter);
    }
}
