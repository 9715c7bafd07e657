use tetra_life::topology::{
    checks, same_cube, wrap_down, wrap_up, Axis, NeighbourChecks, TetraIndex, TETRA_INDEXES,
};

#[test]
fn test_every_orientation_has_thirteen_checks() {
    for n in TETRA_INDEXES {
        assert_eq!(checks(&n).len(), 13);
    }
}

#[test]
fn test_topology_symmetry_brute_force() {
    // for every (b, o) in a's table, (a, reverse(o)) is in b's table
    for a in TETRA_INDEXES {
        for entry in checks(&a) {
            let reversed = entry.axis.reverse();
            let back = checks(&entry.n);
            assert!(
                back.contains(&NeighbourChecks { n: a, axis: reversed }),
                "missing reverse entry for {:?} -> {:?} via {:?}",
                a,
                entry.n,
                entry.axis
            );
        }
    }
}

#[test]
fn test_same_cube_lists_the_other_five() {
    for n in TETRA_INDEXES {
        let others = same_cube(&n);
        assert_eq!(others.len(), 5);
        assert!(!others.contains(&n));
        for m in TETRA_INDEXES {
            if m != n {
                assert!(others.contains(&m));
            }
        }
    }
}

#[test]
fn test_toroidal_wrap_at_both_edges() {
    // a negative step from 0 resolves to size - 1, a positive step from
    // size - 1 resolves back to 0
    assert_eq!(wrap_down(0, 10), 9);
    assert_eq!(wrap_up(9, 10), 0);
    assert_eq!(wrap_down(5, 10), 4);
    assert_eq!(wrap_up(5, 10), 6);
    assert_eq!(wrap_down(0, 1), 0);
    assert_eq!(wrap_up(0, 1), 0);
}

#[test]
fn test_axis_reverse_is_an_involution() {
    let axes = [
        Axis::XPos,
        Axis::XNeg,
        Axis::YPos,
        Axis::YNeg,
        Axis::ZPos,
        Axis::ZNeg,
        Axis::XPosYPos,
        Axis::XPosYNeg,
        Axis::XNegYPos,
        Axis::XNegYNeg,
        Axis::XPosZPos,
        Axis::XPosZNeg,
        Axis::XNegZPos,
        Axis::XNegZNeg,
        Axis::YPosZPos,
        Axis::YPosZNeg,
        Axis::YNegZPos,
        Axis::YNegZNeg,
    ];
    for a in axes {
        assert_eq!(a.reverse().reverse(), a);
        assert_ne!(a.reverse(), a);
    }
}
