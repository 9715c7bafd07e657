use vstd::prelude::*;

verus! {

/// One of the six tetrahedral sub-cells that together fill a unit cube of the
/// lattice. Purely an identity tag: an orientation is never used arithmetically.
#[derive(Clone, Copy, PartialEq, Eq, Structural, Debug)]
pub enum TetraIndex {
    Zero,
    One,
    Two,
    Three,
    Four,
    Five,
}

/// The six orientations in index order.
pub const TETRA_INDEXES: [TetraIndex; 6] = [
    TetraIndex::Zero,
    TetraIndex::One,
    TetraIndex::Two,
    TetraIndex::Three,
    TetraIndex::Four,
    TetraIndex::Five,
];

impl TetraIndex {
    pub open spec fn index_spec(&self) -> int {
        match self {
            TetraIndex::Zero => 0,
            TetraIndex::One => 1,
            TetraIndex::Two => 2,
            TetraIndex::Three => 3,
            TetraIndex::Four => 4,
            TetraIndex::Five => 5,
        }
    }

    /// The position of this orientation in orientation-major grids.
    pub fn index(&self) -> (i: usize)
        ensures
            i == self.index_spec(),
    {
        match self {
            TetraIndex::Zero => 0,
            TetraIndex::One => 1,
            TetraIndex::Two => 2,
            TetraIndex::Three => 3,
            TetraIndex::Four => 4,
            TetraIndex::Five => 5,
        }
    }
}

/// The orientation whose grid position is `i`.
pub open spec fn tetra_at(i: int) -> TetraIndex {
    if i == 0 {
        TetraIndex::Zero
    } else if i == 1 {
        TetraIndex::One
    } else if i == 2 {
        TetraIndex::Two
    } else if i == 3 {
        TetraIndex::Three
    } else if i == 4 {
        TetraIndex::Four
    } else {
        TetraIndex::Five
    }
}

/// Looks an orientation up by its grid position.
pub fn tetra_from_index(i: usize) -> (n: TetraIndex)
    requires
        i < 6,
    ensures
        n == tetra_at(i as int),
        n.index_spec() == i,
{
    if i == 0 {
        TetraIndex::Zero
    } else if i == 1 {
        TetraIndex::One
    } else if i == 2 {
        TetraIndex::Two
    } else if i == 3 {
        TetraIndex::Three
    } else if i == 4 {
        TetraIndex::Four
    } else {
        TetraIndex::Five
    }
}

/// One of the eighteen fixed neighbour offsets: a single signed axis step, or
/// a diagonal combination of two signed axis steps.
#[derive(Clone, Copy, PartialEq, Eq, Structural, Debug)]
pub enum Axis {
    XPos,
    XNeg,
    YPos,
    YNeg,
    ZPos,
    ZNeg,
    XPosYPos,
    XPosYNeg,
    XNegYPos,
    XNegYNeg,
    XPosZPos,
    XPosZNeg,
    XNegZPos,
    XNegZNeg,
    YPosZPos,
    YPosZNeg,
    YNegZPos,
    YNegZNeg,
}

impl Axis {
    pub open spec fn dx(&self) -> int {
        match self {
            Axis::XPos => 1,
            Axis::XNeg => -1,
            Axis::YPos => 0,
            Axis::YNeg => 0,
            Axis::ZPos => 0,
            Axis::ZNeg => 0,
            Axis::XPosYPos => 1,
            Axis::XPosYNeg => 1,
            Axis::XNegYPos => -1,
            Axis::XNegYNeg => -1,
            Axis::XPosZPos => 1,
            Axis::XPosZNeg => 1,
            Axis::XNegZPos => -1,
            Axis::XNegZNeg => -1,
            Axis::YPosZPos => 0,
            Axis::YPosZNeg => 0,
            Axis::YNegZPos => 0,
            Axis::YNegZNeg => 0,
        }
    }

    pub open spec fn dy(&self) -> int {
        match self {
            Axis::XPos => 0,
            Axis::XNeg => 0,
            Axis::YPos => 1,
            Axis::YNeg => -1,
            Axis::ZPos => 0,
            Axis::ZNeg => 0,
            Axis::XPosYPos => 1,
            Axis::XPosYNeg => -1,
            Axis::XNegYPos => 1,
            Axis::XNegYNeg => -1,
            Axis::XPosZPos => 0,
            Axis::XPosZNeg => 0,
            Axis::XNegZPos => 0,
            Axis::XNegZNeg => 0,
            Axis::YPosZPos => 1,
            Axis::YPosZNeg => 1,
            Axis::YNegZPos => -1,
            Axis::YNegZNeg => -1,
        }
    }

    pub open spec fn dz(&self) -> int {
        match self {
            Axis::XPos => 0,
            Axis::XNeg => 0,
            Axis::YPos => 0,
            Axis::YNeg => 0,
            Axis::ZPos => 1,
            Axis::ZNeg => -1,
            Axis::XPosYPos => 0,
            Axis::XPosYNeg => 0,
            Axis::XNegYPos => 0,
            Axis::XNegYNeg => 0,
            Axis::XPosZPos => 1,
            Axis::XPosZNeg => -1,
            Axis::XNegZPos => 1,
            Axis::XNegZNeg => -1,
            Axis::YPosZPos => 1,
            Axis::YPosZNeg => -1,
            Axis::YNegZPos => 1,
            Axis::YNegZNeg => -1,
        }
    }

    pub open spec fn reverse_spec(&self) -> Axis {
        match self {
            Axis::XPos => Axis::XNeg,
            Axis::XNeg => Axis::XPos,
            Axis::YPos => Axis::YNeg,
            Axis::YNeg => Axis::YPos,
            Axis::ZPos => Axis::ZNeg,
            Axis::ZNeg => Axis::ZPos,
            Axis::XPosYPos => Axis::XNegYNeg,
            Axis::XPosYNeg => Axis::XNegYPos,
            Axis::XNegYPos => Axis::XPosYNeg,
            Axis::XNegYNeg => Axis::XPosYPos,
            Axis::XPosZPos => Axis::XNegZNeg,
            Axis::XPosZNeg => Axis::XNegZPos,
            Axis::XNegZPos => Axis::XPosZNeg,
            Axis::XNegZNeg => Axis::XPosZPos,
            Axis::YPosZPos => Axis::YNegZNeg,
            Axis::YPosZNeg => Axis::YNegZPos,
            Axis::YNegZPos => Axis::YPosZNeg,
            Axis::YNegZNeg => Axis::YPosZPos,
        }
    }

    /// The opposite offset: every signed axis component flipped.
    pub fn reverse(&self) -> (r: Axis)
        ensures
            r == self.reverse_spec(),
    {
        match self {
            Axis::XPos => Axis::XNeg,
            Axis::XNeg => Axis::XPos,
            Axis::YPos => Axis::YNeg,
            Axis::YNeg => Axis::YPos,
            Axis::ZPos => Axis::ZNeg,
            Axis::ZNeg => Axis::ZPos,
            Axis::XPosYPos => Axis::XNegYNeg,
            Axis::XPosYNeg => Axis::XNegYPos,
            Axis::XNegYPos => Axis::XPosYNeg,
            Axis::XNegYNeg => Axis::XPosYPos,
            Axis::XPosZPos => Axis::XNegZNeg,
            Axis::XPosZNeg => Axis::XNegZPos,
            Axis::XNegZPos => Axis::XPosZNeg,
            Axis::XNegZNeg => Axis::XPosZPos,
            Axis::YPosZPos => Axis::YNegZNeg,
            Axis::YPosZNeg => Axis::YNegZPos,
            Axis::YNegZPos => Axis::YPosZNeg,
            Axis::YNegZNeg => Axis::YPosZPos,
        }
    }
}

/// One cross-cube neighbour check: the orientation to look at, and the axis
/// offset leading to the cube that holds it.
#[derive(Clone, Copy, PartialEq, Eq, Structural, Debug)]
pub struct NeighbourChecks {
    pub n: TetraIndex,
    pub axis: Axis,
}

/// A lattice coordinate moved by one signed step and wrapped toroidally into
/// [0, size): stepping below 0 lands on size - 1, stepping onto size lands on 0.
pub open spec fn wrap_coord(c: int, d: int, size: int) -> int {
    let t = c + d;
    if t < 0 {
        size - 1
    } else if t >= size {
        0
    } else {
        t
    }
}

/// Toroidal wrap law: from coordinate 0 a negative step resolves to size - 1,
/// and from size - 1 a positive step resolves back to 0.
pub proof fn lemma_toroidal_wrap(size: int)
    requires
        size >= 1,
    ensures
        wrap_coord(0, -1, size) == size - 1,
        wrap_coord(size - 1, 1, size) == 0,
{
}

/// Moves a coordinate one step up, wrapping size - 1 back to 0.
pub fn wrap_up(c: usize, size: usize) -> (r: usize)
    requires
        c < size,
    ensures
        r == wrap_coord(c as int, 1, size as int),
        r < size,
{
    if c + 1 == size {
        0
    } else {
        c + 1
    }
}

/// Moves a coordinate one step down, wrapping 0 to size - 1.
pub fn wrap_down(c: usize, size: usize) -> (r: usize)
    requires
        c < size,
    ensures
        r == wrap_coord(c as int, -1, size as int),
        r < size,
{
    if c == 0 {
        size - 1
    } else {
        c - 1
    }
}

/// Applies an axis offset to a lattice coordinate, wrapping each component
/// toroidally into [0, size).
pub fn apply_axis(axis: &Axis, x: usize, y: usize, z: usize, size: usize) -> (r: (
    usize,
    usize,
    usize,
))
    requires
        x < size,
        y < size,
        z < size,
    ensures
        r.0 == wrap_coord(x as int, axis.dx(), size as int),
        r.1 == wrap_coord(y as int, axis.dy(), size as int),
        r.2 == wrap_coord(z as int, axis.dz(), size as int),
        r.0 < size,
        r.1 < size,
        r.2 < size,
{
    match axis {
        Axis::XPos => (wrap_up(x, size), y, z),
        Axis::XNeg => (wrap_down(x, size), y, z),
        Axis::YPos => (x, wrap_up(y, size), z),
        Axis::YNeg => (x, wrap_down(y, size), z),
        Axis::ZPos => (x, y, wrap_up(z, size)),
        Axis::ZNeg => (x, y, wrap_down(z, size)),
        Axis::XPosYPos => (wrap_up(x, size), wrap_up(y, size), z),
        Axis::XPosYNeg => (wrap_up(x, size), wrap_down(y, size), z),
        Axis::XNegYPos => (wrap_down(x, size), wrap_up(y, size), z),
        Axis::XNegYNeg => (wrap_down(x, size), wrap_down(y, size), z),
        Axis::XPosZPos => (wrap_up(x, size), y, wrap_up(z, size)),
        Axis::XPosZNeg => (wrap_up(x, size), y, wrap_down(z, size)),
        Axis::XNegZPos => (wrap_down(x, size), y, wrap_up(z, size)),
        Axis::XNegZNeg => (wrap_down(x, size), y, wrap_down(z, size)),
        Axis::YPosZPos => (x, wrap_up(y, size), wrap_up(z, size)),
        Axis::YPosZNeg => (x, wrap_up(y, size), wrap_down(z, size)),
        Axis::YNegZPos => (x, wrap_down(y, size), wrap_up(z, size)),
        Axis::YNegZNeg => (x, wrap_down(y, size), wrap_down(z, size)),
    }
}

/// Whether orientation `n` lists `(target, axis)` among its neighbour checks.
pub open spec fn adj_contains(n: TetraIndex, target: TetraIndex, axis: Axis) -> bool {
    exists|k: int|
        0 <= k < adjacency(n).len() && adjacency(n)[k] == (NeighbourChecks { n: target, axis })
}

/// The other five orientations sharing a cube with `n`: every tetrahedron in a
/// cube touches every other tetrahedron of that cube.
pub fn same_cube(n: &TetraIndex) -> (r: Vec<TetraIndex>)
    ensures
        r@.len() == 5,
        forall|m: TetraIndex| r@.contains(m) <==> m != *n,
{
    let r = match n {
        TetraIndex::Zero => vec![
            TetraIndex::One,
            TetraIndex::Two,
            TetraIndex::Three,
            TetraIndex::Four,
            TetraIndex::Five,
        ],
        TetraIndex::One => vec![
            TetraIndex::Zero,
            TetraIndex::Two,
            TetraIndex::Three,
            TetraIndex::Four,
            TetraIndex::Five,
        ],
        TetraIndex::Two => vec![
            TetraIndex::Zero,
            TetraIndex::One,
            TetraIndex::Three,
            TetraIndex::Four,
            TetraIndex::Five,
        ],
        TetraIndex::Three => vec![
            TetraIndex::Zero,
            TetraIndex::One,
            TetraIndex::Two,
            TetraIndex::Four,
            TetraIndex::Five,
        ],
        TetraIndex::Four => vec![
            TetraIndex::Zero,
            TetraIndex::One,
            TetraIndex::Two,
            TetraIndex::Three,
            TetraIndex::Five,
        ],
        TetraIndex::Five => vec![
            TetraIndex::Zero,
            TetraIndex::One,
            TetraIndex::Two,
            TetraIndex::Three,
            TetraIndex::Four,
        ],
    };
    proof {
        assert forall|m: TetraIndex| r@.contains(m) <==> m != *n by {
            if m != *n {
                match m {
                    TetraIndex::Zero => assert(r@[0] == m || r@[1] == m),
                    TetraIndex::One => assert(r@[0] == m || r@[1] == m),
                    TetraIndex::Two => assert(r@[1] == m || r@[2] == m),
                    TetraIndex::Three => assert(r@[2] == m || r@[3] == m),
                    TetraIndex::Four => assert(r@[3] == m || r@[4] == m),
                    TetraIndex::Five => assert(r@[4] == m || r@[3] == m),
                }
            }
        }
    }
    r
}

pub open spec fn adjacency(n: TetraIndex) -> Seq<NeighbourChecks> {
    match n {
        TetraIndex::Zero => seq![
            NeighbourChecks { n: TetraIndex::Two, axis: Axis::YNeg },
            NeighbourChecks { n: TetraIndex::Four, axis: Axis::ZNeg },
            NeighbourChecks { n: TetraIndex::Three, axis: Axis::XNeg },
            NeighbourChecks { n: TetraIndex::Five, axis: Axis::XPos },
            NeighbourChecks { n: TetraIndex::One, axis: Axis::YNeg },
            NeighbourChecks { n: TetraIndex::Three, axis: Axis::YNeg },
            NeighbourChecks { n: TetraIndex::One, axis: Axis::ZNeg },
            NeighbourChecks { n: TetraIndex::Five, axis: Axis::ZNeg },
            NeighbourChecks { n: TetraIndex::One, axis: Axis::YNegZNeg },
            NeighbourChecks { n: TetraIndex::One, axis: Axis::XNegZNeg },
            NeighbourChecks { n: TetraIndex::Two, axis: Axis::XNegZNeg },
            NeighbourChecks { n: TetraIndex::One, axis: Axis::XPosYNeg },
            NeighbourChecks { n: TetraIndex::Four, axis: Axis::XPosYNeg }
        ],
        TetraIndex::One => seq![
            NeighbourChecks { n: TetraIndex::Five, axis: Axis::YPos },
            NeighbourChecks { n: TetraIndex::Three, axis: Axis::ZPos },
            NeighbourChecks { n: TetraIndex::Two, axis: Axis::XNeg },
            NeighbourChecks { n: TetraIndex::Four, axis: Axis::XPos },
            NeighbourChecks { n: TetraIndex::Zero, axis: Axis::YPos },
            NeighbourChecks { n: TetraIndex::Four, axis: Axis::YPos },
            NeighbourChecks { n: TetraIndex::Two, axis: Axis::ZPos },
            NeighbourChecks { n: TetraIndex::Zero, axis: Axis::ZPos },
            NeighbourChecks { n: TetraIndex::Zero, axis: Axis::YPosZPos },
            NeighbourChecks { n: TetraIndex::Zero, axis: Axis::XPosZPos },
            NeighbourChecks { n: TetraIndex::Five, axis: Axis::XPosZPos },
            NeighbourChecks { n: TetraIndex::Zero, axis: Axis::XNegYPos },
            NeighbourChecks { n: TetraIndex::Three, axis: Axis::XNegYPos }
        ],
        TetraIndex::Two => seq![
            NeighbourChecks { n: TetraIndex::Four, axis: Axis::XPos },
            NeighbourChecks { n: TetraIndex::Zero, axis: Axis::YPos },
            NeighbourChecks { n: TetraIndex::One, axis: Axis::XPos },
            NeighbourChecks { n: TetraIndex::Five, axis: Axis::XPos },
            NeighbourChecks { n: TetraIndex::Three, axis: Axis::YPos },
            NeighbourChecks { n: TetraIndex::Five, axis: Axis::YPos },
            NeighbourChecks { n: TetraIndex::Three, axis: Axis::ZPos },
            NeighbourChecks { n: TetraIndex::One, axis: Axis::ZNeg },
            NeighbourChecks { n: TetraIndex::Four, axis: Axis::YPosZNeg },
            NeighbourChecks { n: TetraIndex::Five, axis: Axis::YPosZNeg },
            NeighbourChecks { n: TetraIndex::Zero, axis: Axis::XPosZPos },
            NeighbourChecks { n: TetraIndex::Five, axis: Axis::XPosZPos },
            NeighbourChecks { n: TetraIndex::Five, axis: Axis::XPosYPos }
        ],
        TetraIndex::Three => seq![
            NeighbourChecks { n: TetraIndex::Five, axis: Axis::XPos },
            NeighbourChecks { n: TetraIndex::One, axis: Axis::ZNeg },
            NeighbourChecks { n: TetraIndex::Zero, axis: Axis::XPos },
            NeighbourChecks { n: TetraIndex::Four, axis: Axis::XPos },
            NeighbourChecks { n: TetraIndex::Zero, axis: Axis::YPos },
            NeighbourChecks { n: TetraIndex::Two, axis: Axis::YNeg },
            NeighbourChecks { n: TetraIndex::Two, axis: Axis::ZNeg },
            NeighbourChecks { n: TetraIndex::Four, axis: Axis::ZNeg },
            NeighbourChecks { n: TetraIndex::One, axis: Axis::XPosYNeg },
            NeighbourChecks { n: TetraIndex::Four, axis: Axis::XPosYNeg },
            NeighbourChecks { n: TetraIndex::Four, axis: Axis::XPosZNeg },
            NeighbourChecks { n: TetraIndex::Four, axis: Axis::YPosZNeg },
            NeighbourChecks { n: TetraIndex::Five, axis: Axis::YPosZNeg }
        ],
        TetraIndex::Four => seq![
            NeighbourChecks { n: TetraIndex::Two, axis: Axis::XNeg },
            NeighbourChecks { n: TetraIndex::Zero, axis: Axis::ZPos },
            NeighbourChecks { n: TetraIndex::One, axis: Axis::XNeg },
            NeighbourChecks { n: TetraIndex::Three, axis: Axis::XNeg },
            NeighbourChecks { n: TetraIndex::Five, axis: Axis::YPos },
            NeighbourChecks { n: TetraIndex::One, axis: Axis::YNeg },
            NeighbourChecks { n: TetraIndex::Three, axis: Axis::ZPos },
            NeighbourChecks { n: TetraIndex::Five, axis: Axis::ZPos },
            NeighbourChecks { n: TetraIndex::Three, axis: Axis::XNegZPos },
            NeighbourChecks { n: TetraIndex::Zero, axis: Axis::XNegYPos },
            NeighbourChecks { n: TetraIndex::Three, axis: Axis::XNegYPos },
            NeighbourChecks { n: TetraIndex::Two, axis: Axis::YNegZPos },
            NeighbourChecks { n: TetraIndex::Three, axis: Axis::YNegZPos }
        ],
        TetraIndex::Five => seq![
            NeighbourChecks { n: TetraIndex::Three, axis: Axis::XNeg },
            NeighbourChecks { n: TetraIndex::One, axis: Axis::YNeg },
            NeighbourChecks { n: TetraIndex::Two, axis: Axis::XNeg },
            NeighbourChecks { n: TetraIndex::Zero, axis: Axis::XNeg },
            NeighbourChecks { n: TetraIndex::Two, axis: Axis::YNeg },
            NeighbourChecks { n: TetraIndex::Four, axis: Axis::YNeg },
            NeighbourChecks { n: TetraIndex::Zero, axis: Axis::ZPos },
            NeighbourChecks { n: TetraIndex::Four, axis: Axis::ZNeg },
            NeighbourChecks { n: TetraIndex::Two, axis: Axis::XNegYNeg },
            NeighbourChecks { n: TetraIndex::One, axis: Axis::XNegZNeg },
            NeighbourChecks { n: TetraIndex::Two, axis: Axis::XNegZNeg },
            NeighbourChecks { n: TetraIndex::Two, axis: Axis::YNegZPos },
            NeighbourChecks { n: TetraIndex::Three, axis: Axis::YNegZPos }
        ],
    }
}

/// The fixed cross-cube neighbour list of an orientation: two face
/// contacts, six single-axis edge contacts and five double-axis edge
/// contacts, thirteen entries in all.
pub fn checks(n: &TetraIndex) -> (r: Vec<NeighbourChecks>)
    ensures
        r@ == adjacency(*n),
{
    let r = match n {
        TetraIndex::Zero => vec![
            NeighbourChecks { n: TetraIndex::Two, axis: Axis::YNeg },
            NeighbourChecks { n: TetraIndex::Four, axis: Axis::ZNeg },
            NeighbourChecks { n: TetraIndex::Three, axis: Axis::XNeg },
            NeighbourChecks { n: TetraIndex::Five, axis: Axis::XPos },
            NeighbourChecks { n: TetraIndex::One, axis: Axis::YNeg },
            NeighbourChecks { n: TetraIndex::Three, axis: Axis::YNeg },
            NeighbourChecks { n: TetraIndex::One, axis: Axis::ZNeg },
            NeighbourChecks { n: TetraIndex::Five, axis: Axis::ZNeg },
            NeighbourChecks { n: TetraIndex::One, axis: Axis::YNegZNeg },
            NeighbourChecks { n: TetraIndex::One, axis: Axis::XNegZNeg },
            NeighbourChecks { n: TetraIndex::Two, axis: Axis::XNegZNeg },
            NeighbourChecks { n: TetraIndex::One, axis: Axis::XPosYNeg },
            NeighbourChecks { n: TetraIndex::Four, axis: Axis::XPosYNeg }
        ],
        TetraIndex::One => vec![
            NeighbourChecks { n: TetraIndex::Five, axis: Axis::YPos },
            NeighbourChecks { n: TetraIndex::Three, axis: Axis::ZPos },
            NeighbourChecks { n: TetraIndex::Two, axis: Axis::XNeg },
            NeighbourChecks { n: TetraIndex::Four, axis: Axis::XPos },
            NeighbourChecks { n: TetraIndex::Zero, axis: Axis::YPos },
            NeighbourChecks { n: TetraIndex::Four, axis: Axis::YPos },
            NeighbourChecks { n: TetraIndex::Two, axis: Axis::ZPos },
            NeighbourChecks { n: TetraIndex::Zero, axis: Axis::ZPos },
            NeighbourChecks { n: TetraIndex::Zero, axis: Axis::YPosZPos },
            NeighbourChecks { n: TetraIndex::Zero, axis: Axis::XPosZPos },
            NeighbourChecks { n: TetraIndex::Five, axis: Axis::XPosZPos },
            NeighbourChecks { n: TetraIndex::Zero, axis: Axis::XNegYPos },
            NeighbourChecks { n: TetraIndex::Three, axis: Axis::XNegYPos }
        ],
        TetraIndex::Two => vec![
            NeighbourChecks { n: TetraIndex::Four, axis: Axis::XPos },
            NeighbourChecks { n: TetraIndex::Zero, axis: Axis::YPos },
            NeighbourChecks { n: TetraIndex::One, axis: Axis::XPos },
            NeighbourChecks { n: TetraIndex::Five, axis: Axis::XPos },
            NeighbourChecks { n: TetraIndex::Three, axis: Axis::YPos },
            NeighbourChecks { n: TetraIndex::Five, axis: Axis::YPos },
            NeighbourChecks { n: TetraIndex::Three, axis: Axis::ZPos },
            NeighbourChecks { n: TetraIndex::One, axis: Axis::ZNeg },
            NeighbourChecks { n: TetraIndex::Four, axis: Axis::YPosZNeg },
            NeighbourChecks { n: TetraIndex::Five, axis: Axis::YPosZNeg },
            NeighbourChecks { n: TetraIndex::Zero, axis: Axis::XPosZPos },
            NeighbourChecks { n: TetraIndex::Five, axis: Axis::XPosZPos },
            NeighbourChecks { n: TetraIndex::Five, axis: Axis::XPosYPos }
        ],
        TetraIndex::Three => vec![
            NeighbourChecks { n: TetraIndex::Five, axis: Axis::XPos },
            NeighbourChecks { n: TetraIndex::One, axis: Axis::ZNeg },
            NeighbourChecks { n: TetraIndex::Zero, axis: Axis::XPos },
            NeighbourChecks { n: TetraIndex::Four, axis: Axis::XPos },
            NeighbourChecks { n: TetraIndex::Zero, axis: Axis::YPos },
            NeighbourChecks { n: TetraIndex::Two, axis: Axis::YNeg },
            NeighbourChecks { n: TetraIndex::Two, axis: Axis::ZNeg },
            NeighbourChecks { n: TetraIndex::Four, axis: Axis::ZNeg },
            NeighbourChecks { n: TetraIndex::One, axis: Axis::XPosYNeg },
            NeighbourChecks { n: TetraIndex::Four, axis: Axis::XPosYNeg },
            NeighbourChecks { n: TetraIndex::Four, axis: Axis::XPosZNeg },
            NeighbourChecks { n: TetraIndex::Four, axis: Axis::YPosZNeg },
            NeighbourChecks { n: TetraIndex::Five, axis: Axis::YPosZNeg }
        ],
        TetraIndex::Four => vec![
            NeighbourChecks { n: TetraIndex::Two, axis: Axis::XNeg },
            NeighbourChecks { n: TetraIndex::Zero, axis: Axis::ZPos },
            NeighbourChecks { n: TetraIndex::One, axis: Axis::XNeg },
            NeighbourChecks { n: TetraIndex::Three, axis: Axis::XNeg },
            NeighbourChecks { n: TetraIndex::Five, axis: Axis::YPos },
            NeighbourChecks { n: TetraIndex::One, axis: Axis::YNeg },
            NeighbourChecks { n: TetraIndex::Three, axis: Axis::ZPos },
            NeighbourChecks { n: TetraIndex::Five, axis: Axis::ZPos },
            NeighbourChecks { n: TetraIndex::Three, axis: Axis::XNegZPos },
            NeighbourChecks { n: TetraIndex::Zero, axis: Axis::XNegYPos },
            NeighbourChecks { n: TetraIndex::Three, axis: Axis::XNegYPos },
            NeighbourChecks { n: TetraIndex::Two, axis: Axis::YNegZPos },
            NeighbourChecks { n: TetraIndex::Three, axis: Axis::YNegZPos }
        ],
        TetraIndex::Five => vec![
            NeighbourChecks { n: TetraIndex::Three, axis: Axis::XNeg },
            NeighbourChecks { n: TetraIndex::One, axis: Axis::YNeg },
            NeighbourChecks { n: TetraIndex::Two, axis: Axis::XNeg },
            NeighbourChecks { n: TetraIndex::Zero, axis: Axis::XNeg },
            NeighbourChecks { n: TetraIndex::Two, axis: Axis::YNeg },
            NeighbourChecks { n: TetraIndex::Four, axis: Axis::YNeg },
            NeighbourChecks { n: TetraIndex::Zero, axis: Axis::ZPos },
            NeighbourChecks { n: TetraIndex::Four, axis: Axis::ZNeg },
            NeighbourChecks { n: TetraIndex::Two, axis: Axis::XNegYNeg },
            NeighbourChecks { n: TetraIndex::One, axis: Axis::XNegZNeg },
            NeighbourChecks { n: TetraIndex::Two, axis: Axis::XNegZNeg },
            NeighbourChecks { n: TetraIndex::Two, axis: Axis::YNegZPos },
            NeighbourChecks { n: TetraIndex::Three, axis: Axis::YNegZPos }
        ],
    };
    assert(r@ =~= adjacency(*n));
    r
}

/// Every orientation's neighbour table has exactly thirteen entries.
pub proof fn lemma_adjacency_len(n: TetraIndex)
    ensures
        adjacency(n).len() == 13,
{
    match n {
        TetraIndex::Zero => assert(adjacency(TetraIndex::Zero).len() == 13),
        TetraIndex::One => assert(adjacency(TetraIndex::One).len() == 13),
        TetraIndex::Two => assert(adjacency(TetraIndex::Two).len() == 13),
        TetraIndex::Three => assert(adjacency(TetraIndex::Three).len() == 13),
        TetraIndex::Four => assert(adjacency(TetraIndex::Four).len() == 13),
        TetraIndex::Five => assert(adjacency(TetraIndex::Five).len() == 13),
    }
}

/// Topology symmetry law: whenever orientation `a` lists `(b, o)` among its
/// thirteen neighbour checks, orientation `b` lists `(a, o reversed)` among
/// its own, so the contact relation between tetrahedra is mutual.
pub proof fn lemma_topology_symmetric(a: TetraIndex, i: int)
    requires
        0 <= i < adjacency(a).len(),
    ensures
        adj_contains(adjacency(a)[i].n, a, adjacency(a)[i].axis.reverse_spec()),
{
    match a {
        TetraIndex::Zero => {
            if i == 0 {
                assert(adjacency(TetraIndex::Two)[1] == NeighbourChecks { n: TetraIndex::Zero, axis: Axis::YPos });
            } else if i == 1 {
                assert(adjacency(TetraIndex::Four)[1] == NeighbourChecks { n: TetraIndex::Zero, axis: Axis::ZPos });
            } else if i == 2 {
                assert(adjacency(TetraIndex::Three)[2] == NeighbourChecks { n: TetraIndex::Zero, axis: Axis::XPos });
            } else if i == 3 {
                assert(adjacency(TetraIndex::Five)[3] == NeighbourChecks { n: TetraIndex::Zero, axis: Axis::XNeg });
            } else if i == 4 {
                assert(adjacency(TetraIndex::One)[4] == NeighbourChecks { n: TetraIndex::Zero, axis: Axis::YPos });
            } else if i == 5 {
                assert(adjacency(TetraIndex::Three)[4] == NeighbourChecks { n: TetraIndex::Zero, axis: Axis::YPos });
            } else if i == 6 {
                assert(adjacency(TetraIndex::One)[7] == NeighbourChecks { n: TetraIndex::Zero, axis: Axis::ZPos });
            } else if i == 7 {
                assert(adjacency(TetraIndex::Five)[6] == NeighbourChecks { n: TetraIndex::Zero, axis: Axis::ZPos });
            } else if i == 8 {
                assert(adjacency(TetraIndex::One)[8] == NeighbourChecks { n: TetraIndex::Zero, axis: Axis::YPosZPos });
            } else if i == 9 {
                assert(adjacency(TetraIndex::One)[9] == NeighbourChecks { n: TetraIndex::Zero, axis: Axis::XPosZPos });
            } else if i == 10 {
                assert(adjacency(TetraIndex::Two)[10] == NeighbourChecks { n: TetraIndex::Zero, axis: Axis::XPosZPos });
            } else if i == 11 {
                assert(adjacency(TetraIndex::One)[11] == NeighbourChecks { n: TetraIndex::Zero, axis: Axis::XNegYPos });
            } else if i == 12 {
                assert(adjacency(TetraIndex::Four)[9] == NeighbourChecks { n: TetraIndex::Zero, axis: Axis::XNegYPos });
            }
        },
        TetraIndex::One => {
            if i == 0 {
                assert(adjacency(TetraIndex::Five)[1] == NeighbourChecks { n: TetraIndex::One, axis: Axis::YNeg });
            } else if i == 1 {
                assert(adjacency(TetraIndex::Three)[1] == NeighbourChecks { n: TetraIndex::One, axis: Axis::ZNeg });
            } else if i == 2 {
                assert(adjacency(TetraIndex::Two)[2] == NeighbourChecks { n: TetraIndex::One, axis: Axis::XPos });
            } else if i == 3 {
                assert(adjacency(TetraIndex::Four)[2] == NeighbourChecks { n: TetraIndex::One, axis: Axis::XNeg });
            } else if i == 4 {
                assert(adjacency(TetraIndex::Zero)[4] == NeighbourChecks { n: TetraIndex::One, axis: Axis::YNeg });
            } else if i == 5 {
                assert(adjacency(TetraIndex::Four)[5] == NeighbourChecks { n: TetraIndex::One, axis: Axis::YNeg });
            } else if i == 6 {
                assert(adjacency(TetraIndex::Two)[7] == NeighbourChecks { n: TetraIndex::One, axis: Axis::ZNeg });
            } else if i == 7 {
                assert(adjacency(TetraIndex::Zero)[6] == NeighbourChecks { n: TetraIndex::One, axis: Axis::ZNeg });
            } else if i == 8 {
                assert(adjacency(TetraIndex::Zero)[8] == NeighbourChecks { n: TetraIndex::One, axis: Axis::YNegZNeg });
            } else if i == 9 {
                assert(adjacency(TetraIndex::Zero)[9] == NeighbourChecks { n: TetraIndex::One, axis: Axis::XNegZNeg });
            } else if i == 10 {
                assert(adjacency(TetraIndex::Five)[9] == NeighbourChecks { n: TetraIndex::One, axis: Axis::XNegZNeg });
            } else if i == 11 {
                assert(adjacency(TetraIndex::Zero)[11] == NeighbourChecks { n: TetraIndex::One, axis: Axis::XPosYNeg });
            } else if i == 12 {
                assert(adjacency(TetraIndex::Three)[8] == NeighbourChecks { n: TetraIndex::One, axis: Axis::XPosYNeg });
            }
        },
        TetraIndex::Two => {
            if i == 0 {
                assert(adjacency(TetraIndex::Four)[0] == NeighbourChecks { n: TetraIndex::Two, axis: Axis::XNeg });
            } else if i == 1 {
                assert(adjacency(TetraIndex::Zero)[0] == NeighbourChecks { n: TetraIndex::Two, axis: Axis::YNeg });
            } else if i == 2 {
                assert(adjacency(TetraIndex::One)[2] == NeighbourChecks { n: TetraIndex::Two, axis: Axis::XNeg });
            } else if i == 3 {
                assert(adjacency(TetraIndex::Five)[2] == NeighbourChecks { n: TetraIndex::Two, axis: Axis::XNeg });
            } else if i == 4 {
                assert(adjacency(TetraIndex::Three)[5] == NeighbourChecks { n: TetraIndex::Two, axis: Axis::YNeg });
            } else if i == 5 {
                assert(adjacency(TetraIndex::Five)[4] == NeighbourChecks { n: TetraIndex::Two, axis: Axis::YNeg });
            } else if i == 6 {
                assert(adjacency(TetraIndex::Three)[6] == NeighbourChecks { n: TetraIndex::Two, axis: Axis::ZNeg });
            } else if i == 7 {
                assert(adjacency(TetraIndex::One)[6] == NeighbourChecks { n: TetraIndex::Two, axis: Axis::ZPos });
            } else if i == 8 {
                assert(adjacency(TetraIndex::Four)[11] == NeighbourChecks { n: TetraIndex::Two, axis: Axis::YNegZPos });
            } else if i == 9 {
                assert(adjacency(TetraIndex::Five)[11] == NeighbourChecks { n: TetraIndex::Two, axis: Axis::YNegZPos });
            } else if i == 10 {
                assert(adjacency(TetraIndex::Zero)[10] == NeighbourChecks { n: TetraIndex::Two, axis: Axis::XNegZNeg });
            } else if i == 11 {
                assert(adjacency(TetraIndex::Five)[10] == NeighbourChecks { n: TetraIndex::Two, axis: Axis::XNegZNeg });
            } else if i == 12 {
                assert(adjacency(TetraIndex::Five)[8] == NeighbourChecks { n: TetraIndex::Two, axis: Axis::XNegYNeg });
            }
        },
        TetraIndex::Three => {
            if i == 0 {
                assert(adjacency(TetraIndex::Five)[0] == NeighbourChecks { n: TetraIndex::Three, axis: Axis::XNeg });
            } else if i == 1 {
                assert(adjacency(TetraIndex::One)[1] == NeighbourChecks { n: TetraIndex::Three, axis: Axis::ZPos });
            } else if i == 2 {
                assert(adjacency(TetraIndex::Zero)[2] == NeighbourChecks { n: TetraIndex::Three, axis: Axis::XNeg });
            } else if i == 3 {
                assert(adjacency(TetraIndex::Four)[3] == NeighbourChecks { n: TetraIndex::Three, axis: Axis::XNeg });
            } else if i == 4 {
                assert(adjacency(TetraIndex::Zero)[5] == NeighbourChecks { n: TetraIndex::Three, axis: Axis::YNeg });
            } else if i == 5 {
                assert(adjacency(TetraIndex::Two)[4] == NeighbourChecks { n: TetraIndex::Three, axis: Axis::YPos });
            } else if i == 6 {
                assert(adjacency(TetraIndex::Two)[6] == NeighbourChecks { n: TetraIndex::Three, axis: Axis::ZPos });
            } else if i == 7 {
                assert(adjacency(TetraIndex::Four)[6] == NeighbourChecks { n: TetraIndex::Three, axis: Axis::ZPos });
            } else if i == 8 {
                assert(adjacency(TetraIndex::One)[12] == NeighbourChecks { n: TetraIndex::Three, axis: Axis::XNegYPos });
            } else if i == 9 {
                assert(adjacency(TetraIndex::Four)[10] == NeighbourChecks { n: TetraIndex::Three, axis: Axis::XNegYPos });
            } else if i == 10 {
                assert(adjacency(TetraIndex::Four)[8] == NeighbourChecks { n: TetraIndex::Three, axis: Axis::XNegZPos });
            } else if i == 11 {
                assert(adjacency(TetraIndex::Four)[12] == NeighbourChecks { n: TetraIndex::Three, axis: Axis::YNegZPos });
            } else if i == 12 {
                assert(adjacency(TetraIndex::Five)[12] == NeighbourChecks { n: TetraIndex::Three, axis: Axis::YNegZPos });
            }
        },
        TetraIndex::Four => {
            if i == 0 {
                assert(adjacency(TetraIndex::Two)[0] == NeighbourChecks { n: TetraIndex::Four, axis: Axis::XPos });
            } else if i == 1 {
                assert(adjacency(TetraIndex::Zero)[1] == NeighbourChecks { n: TetraIndex::Four, axis: Axis::ZNeg });
            } else if i == 2 {
                assert(adjacency(TetraIndex::One)[3] == NeighbourChecks { n: TetraIndex::Four, axis: Axis::XPos });
            } else if i == 3 {
                assert(adjacency(TetraIndex::Three)[3] == NeighbourChecks { n: TetraIndex::Four, axis: Axis::XPos });
            } else if i == 4 {
                assert(adjacency(TetraIndex::Five)[5] == NeighbourChecks { n: TetraIndex::Four, axis: Axis::YNeg });
            } else if i == 5 {
                assert(adjacency(TetraIndex::One)[5] == NeighbourChecks { n: TetraIndex::Four, axis: Axis::YPos });
            } else if i == 6 {
                assert(adjacency(TetraIndex::Three)[7] == NeighbourChecks { n: TetraIndex::Four, axis: Axis::ZNeg });
            } else if i == 7 {
                assert(adjacency(TetraIndex::Five)[7] == NeighbourChecks { n: TetraIndex::Four, axis: Axis::ZNeg });
            } else if i == 8 {
                assert(adjacency(TetraIndex::Three)[10] == NeighbourChecks { n: TetraIndex::Four, axis: Axis::XPosZNeg });
            } else if i == 9 {
                assert(adjacency(TetraIndex::Zero)[12] == NeighbourChecks { n: TetraIndex::Four, axis: Axis::XPosYNeg });
            } else if i == 10 {
                assert(adjacency(TetraIndex::Three)[9] == NeighbourChecks { n: TetraIndex::Four, axis: Axis::XPosYNeg });
            } else if i == 11 {
                assert(adjacency(TetraIndex::Two)[8] == NeighbourChecks { n: TetraIndex::Four, axis: Axis::YPosZNeg });
            } else if i == 12 {
                assert(adjacency(TetraIndex::Three)[11] == NeighbourChecks { n: TetraIndex::Four, axis: Axis::YPosZNeg });
            }
        },
        TetraIndex::Five => {
            if i == 0 {
                assert(adjacency(TetraIndex::Three)[0] == NeighbourChecks { n: TetraIndex::Five, axis: Axis::XPos });
            } else if i == 1 {
                assert(adjacency(TetraIndex::One)[0] == NeighbourChecks { n: TetraIndex::Five, axis: Axis::YPos });
            } else if i == 2 {
                assert(adjacency(TetraIndex::Two)[3] == NeighbourChecks { n: TetraIndex::Five, axis: Axis::XPos });
            } else if i == 3 {
                assert(adjacency(TetraIndex::Zero)[3] == NeighbourChecks { n: TetraIndex::Five, axis: Axis::XPos });
            } else if i == 4 {
                assert(adjacency(TetraIndex::Two)[5] == NeighbourChecks { n: TetraIndex::Five, axis: Axis::YPos });
            } else if i == 5 {
                assert(adjacency(TetraIndex::Four)[4] == NeighbourChecks { n: TetraIndex::Five, axis: Axis::YPos });
            } else if i == 6 {
                assert(adjacency(TetraIndex::Zero)[7] == NeighbourChecks { n: TetraIndex::Five, axis: Axis::ZNeg });
            } else if i == 7 {
                assert(adjacency(TetraIndex::Four)[7] == NeighbourChecks { n: TetraIndex::Five, axis: Axis::ZPos });
            } else if i == 8 {
                assert(adjacency(TetraIndex::Two)[12] == NeighbourChecks { n: TetraIndex::Five, axis: Axis::XPosYPos });
            } else if i == 9 {
                assert(adjacency(TetraIndex::One)[10] == NeighbourChecks { n: TetraIndex::Five, axis: Axis::XPosZPos });
            } else if i == 10 {
                assert(adjacency(TetraIndex::Two)[11] == NeighbourChecks { n: TetraIndex::Five, axis: Axis::XPosZPos });
            } else if i == 11 {
                assert(adjacency(TetraIndex::Two)[9] == NeighbourChecks { n: TetraIndex::Five, axis: Axis::YPosZNeg });
            } else if i == 12 {
                assert(adjacency(TetraIndex::Three)[12] == NeighbourChecks { n: TetraIndex::Five, axis: Axis::YPosZNeg });
            }
        },
    }
}

} // verus!
