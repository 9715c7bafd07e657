use vstd::prelude::*;

use crate::binder::{extends, lemma_extends_refl, LifeEvent, LifecycleBinder};
use crate::topology::tetra_from_index;
use crate::universe::{
    cell_at, count_grid, count_plane, count_row, count_cube, dead_grid, despawn_events_grid,
    despawn_grid, grid_wf, is_alive, size_fits, size_fits_spec, Grid, LifeDataContainer,
    SessionResource,
};

verus! {

/// Why a record was rejected: the text is not a well-formed encoding, or the
/// decoded record does not describe a consistent universe.
#[derive(Clone, Copy, PartialEq, Eq, Structural, Debug)]
pub enum LoadError {
    Syntax,
    InvalidRecord,
}

/// One persisted snapshot: the grid as 0/1 values (orientation-major, then x,
/// y, z), the population counter, the generation counter and the lattice
/// extent.
pub struct SaveResource {
    pub life: Vec<Vec<Vec<Vec<usize>>>>,
    pub counter: i64,
    pub generation: i64,
    pub universe_size: usize,
}

/// The mathematical view of a record grid.
pub type LifeView = Seq<Vec<Vec<Vec<usize>>>>;

/// A record grid holds six orientation layers, each a size x size x size cube.
pub open spec fn rec_dims(life: LifeView, size: int) -> bool {
    &&& life.len() == 6
    &&& forall|n: int| 0 <= n < 6 ==> (#[trigger] life[n])@.len() == size
    &&& forall|n: int, x: int|
        0 <= n < 6 && 0 <= x < size ==> (#[trigger] life[n]@[x])@.len() == size
    &&& forall|n: int, x: int, y: int|
        0 <= n < 6 && 0 <= x < size && 0 <= y < size ==> (#[trigger] life[n]@[x]@[y])@.len()
            == size
}

/// Number of 1-entries in one z-row of a record.
pub open spec fn ones_row(s: Seq<usize>) -> nat
    decreases s.len(),
{
    if s.len() == 0 {
        0
    } else {
        ones_row(s.drop_last()) + (if s.last() == 1usize {
            1nat
        } else {
            0nat
        })
    }
}

/// Number of 1-entries in one y-z plane of a record.
pub open spec fn ones_plane(s: Seq<Vec<usize>>) -> nat
    decreases s.len(),
{
    if s.len() == 0 {
        0
    } else {
        ones_plane(s.drop_last()) + ones_row(s.last()@)
    }
}

/// Number of 1-entries in one orientation layer of a record.
pub open spec fn ones_cube(s: Seq<Vec<Vec<usize>>>) -> nat
    decreases s.len(),
{
    if s.len() == 0 {
        0
    } else {
        ones_cube(s.drop_last()) + ones_plane(s.last()@)
    }
}

/// Number of 1-entries in a whole record grid.
pub open spec fn ones_grid(life: LifeView) -> nat
    decreases life.len(),
{
    if life.len() == 0 {
        0
    } else {
        ones_grid(life.drop_last()) + ones_cube(life.last()@)
    }
}

pub proof fn lemma_ones_row_le(s: Seq<usize>)
    ensures
        ones_row(s) <= s.len(),
    decreases s.len(),
{
    if s.len() > 0 {
        lemma_ones_row_le(s.drop_last());
    }
}

pub proof fn lemma_ones_plane_le(s: Seq<Vec<usize>>, size: int)
    requires
        size >= 0,
        forall|i: int| 0 <= i < s.len() ==> (#[trigger] s[i])@.len() <= size,
    ensures
        ones_plane(s) <= s.len() * size,
    decreases s.len(),
{
    if s.len() > 0 {
        lemma_ones_plane_le(s.drop_last(), size);
        lemma_ones_row_le(s.last()@);
        assert((s.len() - 1) * size + size == s.len() * size) by (nonlinear_arith);
    }
}

pub proof fn lemma_ones_cube_le(s: Seq<Vec<Vec<usize>>>, size: int)
    requires
        size >= 0,
        forall|i: int| 0 <= i < s.len() ==> (#[trigger] s[i])@.len() <= size,
        forall|i: int, j: int|
            0 <= i < s.len() && 0 <= j < s[i]@.len() ==> (#[trigger] s[i]@[j])@.len() <= size,
    ensures
        ones_cube(s) <= s.len() * size * size,
    decreases s.len(),
{
    if s.len() > 0 {
        lemma_ones_cube_le(s.drop_last(), size);
        lemma_ones_plane_le(s.last()@, size);
        assert(s.last()@.len() * size <= size * size) by (nonlinear_arith)
            requires
                0 <= s.last()@.len() <= size,
                size >= 0,
        ;
        assert((s.len() - 1) * size * size + size * size == s.len() * size * size)
            by (nonlinear_arith);
    }
}

pub proof fn lemma_ones_grid_le(life: LifeView, size: int)
    requires
        size >= 0,
        forall|i: int| 0 <= i < life.len() ==> (#[trigger] life[i])@.len() <= size,
        forall|i: int, j: int|
            0 <= i < life.len() && 0 <= j < life[i]@.len() ==> (#[trigger] life[i]@[j])@.len()
                <= size,
        forall|i: int, j: int, k: int|
            0 <= i < life.len() && 0 <= j < life[i]@.len() && 0 <= k < life[i]@[j]@.len()
                ==> (#[trigger] life[i]@[j]@[k])@.len() <= size,
    ensures
        ones_grid(life) <= life.len() * size * size * size,
    decreases life.len(),
{
    if life.len() > 0 {
        lemma_ones_grid_le(life.drop_last(), size);
        lemma_ones_cube_le(life.last()@, size);
        assert(life.last()@.len() * size * size <= size * size * size) by (nonlinear_arith)
            requires
                0 <= life.last()@.len() <= size,
                size >= 0,
        ;
        assert((life.len() - 1) * size * size * size + size * size * size == life.len() * size
            * size * size) by (nonlinear_arith);
    }
}

pub proof fn lemma_ones_row_matches(r: Seq<usize>, s: Seq<LifeDataContainer>)
    requires
        r.len() == s.len(),
        forall|i: int| 0 <= i < r.len() ==> ((#[trigger] r[i]) == 1usize) == is_alive(s[i]),
    ensures
        ones_row(r) == count_row(s),
    decreases r.len(),
{
    if r.len() > 0 {
        lemma_ones_row_matches(r.drop_last(), s.drop_last());
    }
}

pub proof fn lemma_ones_plane_matches(r: Seq<Vec<usize>>, s: Seq<Vec<LifeDataContainer>>)
    requires
        r.len() == s.len(),
        forall|i: int| 0 <= i < r.len() ==> (#[trigger] r[i])@.len() == s[i]@.len(),
        forall|i: int, j: int|
            0 <= i < r.len() && 0 <= j < r[i]@.len() ==> ((#[trigger] r[i]@[j]) == 1usize)
                == is_alive(s[i]@[j]),
    ensures
        ones_plane(r) == count_plane(s),
    decreases r.len(),
{
    if r.len() > 0 {
        lemma_ones_plane_matches(r.drop_last(), s.drop_last());
        lemma_ones_row_matches(r.last()@, s.last()@);
    }
}

pub proof fn lemma_ones_cube_matches(r: Seq<Vec<Vec<usize>>>, s: Seq<Vec<Vec<LifeDataContainer>>>)
    requires
        r.len() == s.len(),
        forall|i: int| 0 <= i < r.len() ==> (#[trigger] r[i])@.len() == s[i]@.len(),
        forall|i: int, j: int|
            0 <= i < r.len() && 0 <= j < r[i]@.len() ==> (#[trigger] r[i]@[j])@.len()
                == s[i]@[j]@.len(),
        forall|i: int, j: int, k: int|
            0 <= i < r.len() && 0 <= j < r[i]@.len() && 0 <= k < r[i]@[j]@.len() ==> ((
            #[trigger] r[i]@[j]@[k]) == 1usize) == is_alive(s[i]@[j]@[k]),
    ensures
        ones_cube(r) == count_cube(s),
    decreases r.len(),
{
    if r.len() > 0 {
        lemma_ones_cube_matches(r.drop_last(), s.drop_last());
        lemma_ones_plane_matches(r.last()@, s.last()@);
    }
}

pub proof fn lemma_ones_grid_matches(r: LifeView, s: Seq<Vec<Vec<Vec<LifeDataContainer>>>>)
    requires
        r.len() == s.len(),
        forall|i: int| 0 <= i < r.len() ==> (#[trigger] r[i])@.len() == s[i]@.len(),
        forall|i: int, j: int|
            0 <= i < r.len() && 0 <= j < r[i]@.len() ==> (#[trigger] r[i]@[j])@.len()
                == s[i]@[j]@.len(),
        forall|i: int, j: int, k: int|
            0 <= i < r.len() && 0 <= j < r[i]@.len() && 0 <= k < r[i]@[j]@.len()
                ==> (#[trigger] r[i]@[j]@[k])@.len() == s[i]@[j]@[k]@.len(),
        forall|i: int, j: int, k: int, l: int|
            0 <= i < r.len() && 0 <= j < r[i]@.len() && 0 <= k < r[i]@[j]@.len() && 0 <= l
                < r[i]@[j]@[k]@.len() ==> ((#[trigger] r[i]@[j]@[k]@[l]) == 1usize) == is_alive(
                s[i]@[j]@[k]@[l],
            ),
    ensures
        ones_grid(r) == count_grid(s),
    decreases r.len(),
{
    if r.len() > 0 {
        lemma_ones_grid_matches(r.drop_last(), s.drop_last());
        lemma_ones_cube_matches(r.last()@, s.last()@);
    }
}

impl SaveResource {
    pub open spec fn size(&self) -> int {
        self.universe_size as int
    }

    /// A consistent record: usable extent, 6 x size^3 shape, population
    /// counter equal to the number of 1-entries, generation at least 1.
    pub open spec fn wf(&self) -> bool {
        &&& size_fits_spec(self.size())
        &&& rec_dims(self.life@, self.size())
        &&& self.counter == ones_grid(self.life@)
        &&& 1 <= self.generation
    }
}

/// Whether `rec` is the snapshot of `s`: counters and extent copied verbatim,
/// and a 1 exactly under every alive cell.
pub open spec fn saved_from(rec: SaveResource, s: SessionResource) -> bool {
    &&& rec.universe_size == s.universe_size
    &&& rec.counter == s.counter
    &&& rec.generation == s.generation
    &&& rec_dims(rec.life@, s.size())
    &&& forall|n: int, x: int, y: int, z: int|
        0 <= n < 6 && 0 <= x < s.size() && 0 <= y < s.size() && 0 <= z < s.size()
            ==> (#[trigger] rec.life@[n]@[x]@[y]@[z]) == (if is_alive(cell_at(s.life@, n, x, y, z)) {
            1usize
        } else {
            0usize
        })
}

/// The spawn calls that building one z-row of a loaded universe makes: one
/// per alive cell, carrying the handle the binder returned, in scan order.
pub open spec fn spawn_events_row(row: Seq<LifeDataContainer>, n: int, x: int, y: int) -> Seq<
    LifeEvent,
>
    decreases row.len(),
{
    if row.len() == 0 {
        Seq::empty()
    } else {
        spawn_events_row(row.drop_last(), n, x, y) + (if is_alive(row.last()) {
            seq![
                LifeEvent::Spawned(
                    n as usize,
                    x as usize,
                    y as usize,
                    (row.len() - 1) as usize,
                    row.last()->Alive_0,
                ),
            ]
        } else {
            Seq::empty()
        })
    }
}

/// The spawn calls that building one y-z plane of a loaded universe makes.
pub open spec fn spawn_events_plane(plane: Seq<Vec<LifeDataContainer>>, n: int, x: int) -> Seq<
    LifeEvent,
>
    decreases plane.len(),
{
    if plane.len() == 0 {
        Seq::empty()
    } else {
        spawn_events_plane(plane.drop_last(), n, x) + spawn_events_row(
            plane.last()@,
            n,
            x,
            plane.len() - 1,
        )
    }
}

/// The spawn calls that building one orientation layer of a loaded universe
/// makes.
pub open spec fn spawn_events_cube(cube: Seq<Vec<Vec<LifeDataContainer>>>, n: int) -> Seq<
    LifeEvent,
>
    decreases cube.len(),
{
    if cube.len() == 0 {
        Seq::empty()
    } else {
        spawn_events_cube(cube.drop_last(), n) + spawn_events_plane(
            cube.last()@,
            n,
            cube.len() - 1,
        )
    }
}

/// The spawn calls that building a whole loaded universe makes: one per alive
/// cell, orientation-major scan order.
pub open spec fn spawn_events_grid(g: Seq<Vec<Vec<Vec<LifeDataContainer>>>>) -> Seq<LifeEvent>
    decreases g.len(),
{
    if g.len() == 0 {
        Seq::empty()
    } else {
        spawn_events_grid(g.drop_last()) + spawn_events_cube(g.last()@, g.len() - 1)
    }
}

pub proof fn lemma_spawn_events_row_push(
    row: Seq<LifeDataContainer>,
    c: LifeDataContainer,
    n: int,
    x: int,
    y: int,
)
    ensures
        spawn_events_row(row.push(c), n, x, y) == spawn_events_row(row, n, x, y) + (if is_alive(c) {
            seq![
                LifeEvent::Spawned(
                    n as usize,
                    x as usize,
                    y as usize,
                    row.len() as usize,
                    c->Alive_0,
                ),
            ]
        } else {
            Seq::<LifeEvent>::empty()
        }),
{
    assert(row.push(c).drop_last() =~= row);
}

pub proof fn lemma_spawn_events_plane_push(
    plane: Seq<Vec<LifeDataContainer>>,
    row: Vec<LifeDataContainer>,
    n: int,
    x: int,
)
    ensures
        spawn_events_plane(plane.push(row), n, x) == spawn_events_plane(plane, n, x)
            + spawn_events_row(row@, n, x, plane.len() as int),
{
    assert(plane.push(row).drop_last() =~= plane);
}

pub proof fn lemma_spawn_events_cube_push(
    cube: Seq<Vec<Vec<LifeDataContainer>>>,
    plane: Vec<Vec<LifeDataContainer>>,
    n: int,
)
    ensures
        spawn_events_cube(cube.push(plane), n) == spawn_events_cube(cube, n) + spawn_events_plane(
            plane@,
            n,
            cube.len() as int,
        ),
{
    assert(cube.push(plane).drop_last() =~= cube);
}

pub proof fn lemma_spawn_events_grid_push(
    g: Seq<Vec<Vec<Vec<LifeDataContainer>>>>,
    cube: Vec<Vec<Vec<LifeDataContainer>>>,
)
    ensures
        spawn_events_grid(g.push(cube)) == spawn_events_grid(g) + spawn_events_cube(
            cube@,
            g.len() as int,
        ),
{
    assert(g.push(cube).drop_last() =~= g);
}

/// Whether `s` is the universe a record describes: counters and extent copied
/// verbatim, and a cell alive exactly under every 1-entry.
pub open spec fn loaded_state(s: SessionResource, rec: SaveResource) -> bool {
    &&& s.universe_size == rec.universe_size
    &&& s.counter == rec.counter
    &&& s.generation == rec.generation
    &&& grid_wf(s.life@, rec.size())
    &&& forall|n: int, x: int, y: int, z: int|
        0 <= n < 6 && 0 <= x < rec.size() && 0 <= y < rec.size() && 0 <= z < rec.size()
            ==> is_alive(#[trigger] cell_at(s.life@, n, x, y, z)) == (rec.life@[n]@[x]@[y]@[z]
            == 1usize)
}

/// Round-trip law: a universe loaded from the snapshot of `s1` reproduces
/// `s1`'s alive/dead pattern, population, generation and extent exactly;
/// only the handles may differ.
pub proof fn lemma_save_load_roundtrip(s1: SessionResource, rec: SaveResource, s2: SessionResource)
    requires
        s1.wf(),
        saved_from(rec, s1),
        loaded_state(s2, rec),
    ensures
        s2.universe_size == s1.universe_size,
        s2.counter == s1.counter,
        s2.generation == s1.generation,
        forall|n: int, x: int, y: int, z: int|
            0 <= n < 6 && 0 <= x < s1.size() && 0 <= y < s1.size() && 0 <= z < s1.size()
                ==> is_alive(#[trigger] cell_at(s2.life@, n, x, y, z)) == is_alive(
                cell_at(s1.life@, n, x, y, z),
            ),
{
    assert forall|n: int, x: int, y: int, z: int|
        0 <= n < 6 && 0 <= x < s1.size() && 0 <= y < s1.size() && 0 <= z < s1.size()
            implies is_alive(#[trigger] cell_at(s2.life@, n, x, y, z)) == is_alive(
        cell_at(s1.life@, n, x, y, z),
    ) by {
        assert(rec.life@[n]@[x]@[y]@[z] == (if is_alive(cell_at(s1.life@, n, x, y, z)) {
            1usize
        } else {
            0usize
        }));
    }
}

/// Takes the snapshot of a universe. The snapshot of a well-formed universe
/// is itself consistent, so loading it back is owed to succeed.
pub fn save(session: &SessionResource) -> (rec: SaveResource)
    requires
        session.wf(),
    ensures
        saved_from(rec, *session),
        rec.wf(),
{
    let size = session.universe_size;
    let mut life: Vec<Vec<Vec<Vec<usize>>>> = Vec::new();
    for n in 0..6usize
        invariant
            session.wf(),
            size == session.universe_size,
            life@.len() == n,
            forall|k: int| 0 <= k < n ==> (#[trigger] life@[k])@.len() == size,
            forall|k: int, j: int|
                0 <= k < n && 0 <= j < size ==> (#[trigger] life@[k]@[j])@.len() == size,
            forall|k: int, j: int, i: int|
                0 <= k < n && 0 <= j < size && 0 <= i < size ==> (#[trigger] life@[k]@[j]@[i])@.len()
                    == size,
            forall|k: int, j: int, i: int, h: int|
                0 <= k < n && 0 <= j < size && 0 <= i < size && 0 <= h < size
                    ==> (#[trigger] life@[k]@[j]@[i]@[h]) == (if is_alive(
                    cell_at(session.life@, k, j, i, h),
                ) {
                    1usize
                } else {
                    0usize
                }),
    {
        let mut cube: Vec<Vec<Vec<usize>>> = Vec::new();
        for x in 0..size
            invariant
                session.wf(),
                size == session.universe_size,
                n < 6,
                cube@.len() == x,
                forall|j: int| 0 <= j < x ==> (#[trigger] cube@[j])@.len() == size,
                forall|j: int, i: int|
                    0 <= j < x && 0 <= i < size ==> (#[trigger] cube@[j]@[i])@.len() == size,
                forall|j: int, i: int, h: int|
                    0 <= j < x && 0 <= i < size && 0 <= h < size ==> (#[trigger] cube@[j]@[i]@[h])
                        == (if is_alive(cell_at(session.life@, n as int, j, i, h)) {
                        1usize
                    } else {
                        0usize
                    }),
        {
            let mut plane: Vec<Vec<usize>> = Vec::new();
            for y in 0..size
                invariant
                    session.wf(),
                    size == session.universe_size,
                    n < 6,
                    x < size,
                    plane@.len() == y,
                    forall|i: int| 0 <= i < y ==> (#[trigger] plane@[i])@.len() == size,
                    forall|i: int, h: int|
                        0 <= i < y && 0 <= h < size ==> (#[trigger] plane@[i]@[h]) == (if is_alive(
                            cell_at(session.life@, n as int, x as int, i, h),
                        ) {
                            1usize
                        } else {
                            0usize
                        }),
            {
                let mut row: Vec<usize> = Vec::new();
                for z in 0..size
                    invariant
                        session.wf(),
                        size == session.universe_size,
                        n < 6,
                        x < size,
                        y < size,
                        row@.len() == z,
                        forall|h: int|
                            0 <= h < z ==> (#[trigger] row@[h]) == (if is_alive(
                                cell_at(session.life@, n as int, x as int, y as int, h),
                            ) {
                                1usize
                            } else {
                                0usize
                            }),
                {
                    if session.life[n][x][y][z].alive() {
                        row.push(1);
                    } else {
                        row.push(0);
                    }
                }
                plane.push(row);
            }
            cube.push(plane);
        }
        life.push(cube);
    }
    proof {
        lemma_ones_grid_matches(life@, session.life@);
    }
    SaveResource {
        life,
        counter: session.counter,
        generation: session.generation,
        universe_size: size,
    }
}

/// Checks that a record grid has the 6 x size^3 shape.
fn rec_shape_ok(life: &Vec<Vec<Vec<Vec<usize>>>>, size: usize) -> (r: bool)
    ensures
        r == rec_dims(life@, size as int),
{
    if life.len() != 6 {
        return false;
    }
    for n in 0..6usize
        invariant
            life@.len() == 6,
            forall|k: int| 0 <= k < n ==> (#[trigger] life@[k])@.len() == size,
            forall|k: int, j: int|
                0 <= k < n && 0 <= j < size ==> (#[trigger] life@[k]@[j])@.len() == size,
            forall|k: int, j: int, i: int|
                0 <= k < n && 0 <= j < size && 0 <= i < size ==> (#[trigger] life@[k]@[j]@[i])@.len()
                    == size,
    {
        if life[n].len() != size {
            return false;
        }
        for x in 0..size
            invariant
                life@.len() == 6,
                n < 6,
                life@[n as int]@.len() == size,
                forall|j: int| 0 <= j < x ==> (#[trigger] life@[n as int]@[j])@.len() == size,
                forall|j: int, i: int|
                    0 <= j < x && 0 <= i < size ==> (#[trigger] life@[n as int]@[j]@[i])@.len()
                        == size,
        {
            if life[n][x].len() != size {
                return false;
            }
            for y in 0..size
                invariant
                    life@.len() == 6,
                    n < 6,
                    x < size,
                    life@[n as int]@.len() == size,
                    life@[n as int]@[x as int]@.len() == size,
                    forall|i: int|
                        0 <= i < y ==> (#[trigger] life@[n as int]@[x as int]@[i])@.len() == size,
            {
                if life[n][x][y].len() != size {
                    return false;
                }
            }
        }
    }
    true
}

/// Counts the 1-entries of a record grid.
fn count_ones(life: &Vec<Vec<Vec<Vec<usize>>>>, size: usize) -> (c: i64)
    requires
        rec_dims(life@, size as int),
        6 * (size as int) * (size as int) * (size as int) <= i64::MAX,
    ensures
        c == ones_grid(life@),
{
    let ghost s = size as int;
    let mut c: i64 = 0;
    for n in 0..6usize
        invariant
            rec_dims(life@, s),
            s == size as int,
            6 * s * s * s <= i64::MAX,
            c == ones_grid(life@.subrange(0, n as int)),
    {
        for x in 0..size
            invariant
                rec_dims(life@, s),
                s == size as int,
                6 * s * s * s <= i64::MAX,
                n < 6,
                c == ones_grid(life@.subrange(0, n as int)) + ones_cube(
                    life@[n as int]@.subrange(0, x as int),
                ),
        {
            for y in 0..size
                invariant
                    rec_dims(life@, s),
                    s == size as int,
                    6 * s * s * s <= i64::MAX,
                    n < 6,
                    x < size,
                    c == ones_grid(life@.subrange(0, n as int)) + ones_cube(
                        life@[n as int]@.subrange(0, x as int),
                    ) + ones_plane(life@[n as int]@[x as int]@.subrange(0, y as int)),
            {
                for z in 0..size
                    invariant
                        rec_dims(life@, s),
                        s == size as int,
                        6 * s * s * s <= i64::MAX,
                        n < 6,
                        x < size,
                        y < size,
                        c == ones_grid(life@.subrange(0, n as int)) + ones_cube(
                            life@[n as int]@.subrange(0, x as int),
                        ) + ones_plane(life@[n as int]@[x as int]@.subrange(0, y as int))
                            + ones_row(
                            life@[n as int]@[x as int]@[y as int]@.subrange(0, z as int),
                        ),
                {
                    let ghost gpre = life@[n as int]@[x as int]@[y as int]@.subrange(0, z as int);
                    if life[n][x][y][z] == 1 {
                        proof {
                            lemma_ones_grid_le_partial(life@, s, n as int);
                            lemma_ones_cube_le_partial(life@[n as int]@, s, x as int);
                            lemma_ones_plane_le_partial(life@[n as int]@[x as int]@, s, y as int);
                            lemma_ones_row_le(gpre);
                            crate::stepper::lemma_partial_count_bound(
                                ones_grid(life@.subrange(0, n as int)),
                                ones_cube(life@[n as int]@.subrange(0, x as int)),
                                ones_plane(life@[n as int]@[x as int]@.subrange(0, y as int)),
                                ones_row(gpre),
                                n as int,
                                x as int,
                                y as int,
                                z as int,
                                s,
                            );
                        }
                        c = c + 1;
                    }
                    proof {
                        let r = life@[n as int]@[x as int]@[y as int]@;
                        assert(r.subrange(0, z as int + 1).drop_last() =~= gpre);
                        assert(r.subrange(0, z as int + 1).last() == r[z as int]);
                    }
                }
                proof {
                    let p = life@[n as int]@[x as int]@;
                    let r = life@[n as int]@[x as int]@[y as int];
                    assert(p.subrange(0, y as int + 1).drop_last() =~= p.subrange(0, y as int));
                    assert(p.subrange(0, y as int + 1).last() == r);
                    assert(r@.subrange(0, size as int) =~= r@);
                }
            }
            proof {
                let cu = life@[n as int]@;
                let p = life@[n as int]@[x as int];
                assert(cu.subrange(0, x as int + 1).drop_last() =~= cu.subrange(0, x as int));
                assert(cu.subrange(0, x as int + 1).last() == p);
                assert(p@.subrange(0, size as int) =~= p@);
            }
        }
        proof {
            let cu = life@[n as int];
            assert(life@.subrange(0, n as int + 1).drop_last() =~= life@.subrange(0, n as int));
            assert(life@.subrange(0, n as int + 1).last() == cu);
            assert(cu@.subrange(0, size as int) =~= cu@);
        }
    }
    proof {
        assert(life@.subrange(0, 6) =~= life@);
    }
    c
}

proof fn lemma_ones_grid_le_partial(life: LifeView, size: int, n: int)
    requires
        rec_dims(life, size),
        0 <= n <= 6,
        size >= 0,
    ensures
        ones_grid(life.subrange(0, n)) <= n * (size * size * size),
{
    let pre = life.subrange(0, n);
    lemma_ones_grid_le(pre, size);
    assert(pre.len() * size * size * size == n * (size * size * size)) by (nonlinear_arith)
        requires
            pre.len() == n,
    ;
}

proof fn lemma_ones_cube_le_partial(cube: Seq<Vec<Vec<usize>>>, size: int, x: int)
    requires
        0 <= x <= cube.len(),
        size >= 0,
        forall|i: int| 0 <= i < cube.len() ==> (#[trigger] cube[i])@.len() == size,
        forall|i: int, j: int|
            0 <= i < cube.len() && 0 <= j < size ==> (#[trigger] cube[i]@[j])@.len() == size,
    ensures
        ones_cube(cube.subrange(0, x)) <= x * (size * size),
{
    let pre = cube.subrange(0, x);
    lemma_ones_cube_le(pre, size);
    assert(pre.len() * size * size == x * (size * size)) by (nonlinear_arith)
        requires
            pre.len() == x,
    ;
}

proof fn lemma_ones_plane_le_partial(plane: Seq<Vec<usize>>, size: int, y: int)
    requires
        0 <= y <= plane.len(),
        size >= 0,
        forall|i: int| 0 <= i < plane.len() ==> (#[trigger] plane[i])@.len() == size,
    ensures
        ones_plane(plane.subrange(0, y)) <= y * size,
{
    let pre = plane.subrange(0, y);
    lemma_ones_plane_le(pre, size);
}

/// Replaces the whole universe by the one a record describes: every
/// previously alive cell is despawned, a cell is spawned for every 1-entry,
/// and the counters and extent are copied verbatim from the record. Returns
/// `LoadError::InvalidRecord`, leaving the universe untouched, exactly when
/// the record is not consistent. All-or-nothing: on failure no mutation is
/// observed.
pub fn load<B: LifecycleBinder>(
    session: &mut SessionResource,
    rec: &SaveResource,
    binder: &mut B,
) -> (r: Result<(), LoadError>)
    requires
        old(session).wf(),
    ensures
        r is Ok <==> rec.wf(),
        r matches Err(e) ==> e == LoadError::InvalidRecord,
        r is Ok ==> final(binder).events() == old(binder).events() + despawn_events_grid(
            old(session).life@,
        ) + spawn_events_grid(final(session).life@),
        r is Err ==> final(binder).events() == old(binder).events(),
        extends(final(binder).events(), old(binder).events()),
        r is Ok ==> final(session).wf() && loaded_state(*final(session), *rec),
        r is Err ==> final(session).life == old(session).life
            && final(session).counter == old(session).counter
            && final(session).generation == old(session).generation
            && final(session).universe_size == old(session).universe_size,
{
    proof {
        lemma_extends_refl(old(binder).events());
    }
    let size = rec.universe_size;
    if !size_fits(size) {
        return Err(LoadError::InvalidRecord);
    }
    if rec.generation < 1 {
        return Err(LoadError::InvalidRecord);
    }
    if !rec_shape_ok(&rec.life, size) {
        return Err(LoadError::InvalidRecord);
    }
    let ones = count_ones(&rec.life, size);
    if ones != rec.counter {
        return Err(LoadError::InvalidRecord);
    }
    despawn_grid(&session.life, session.universe_size, binder);
    let ghost e1 = binder.events();
    let ghost s = size as int;
    let mut new_grid: Grid = Vec::new();
    proof {
        assert(binder.events() =~= e1 + spawn_events_grid(new_grid@));
    }
    for n in 0..6usize
        invariant
            rec_dims(rec.life@, s),
            s == size as int,
            binder.events() == e1 + spawn_events_grid(new_grid@),
            new_grid@.len() == n,
            forall|k: int| 0 <= k < n ==> (#[trigger] new_grid@[k])@.len() == s,
            forall|k: int, j: int|
                0 <= k < n && 0 <= j < s ==> (#[trigger] new_grid@[k]@[j])@.len() == s,
            forall|k: int, j: int, i: int|
                0 <= k < n && 0 <= j < s && 0 <= i < s ==> (#[trigger] new_grid@[k]@[j]@[i])@.len()
                    == s,
            forall|k: int, j: int, i: int, h: int|
                0 <= k < n && 0 <= j < s && 0 <= i < s && 0 <= h < s ==> is_alive(
                    #[trigger] cell_at(new_grid@, k, j, i, h),
                ) == (rec.life@[k]@[j]@[i]@[h] == 1usize),
    {
        let tetra = tetra_from_index(n);
        let mut cube: Vec<Vec<Vec<LifeDataContainer>>> = Vec::new();
        proof {
            assert(binder.events() =~= e1 + spawn_events_grid(new_grid@) + spawn_events_cube(
                cube@,
                n as int,
            ));
        }
        for x in 0..size
            invariant
                rec_dims(rec.life@, s),
                s == size as int,
                binder.events() == e1 + spawn_events_grid(new_grid@) + spawn_events_cube(
                    cube@,
                    n as int,
                ),
                n < 6,
                tetra.index_spec() == n as int,
                cube@.len() == x,
                forall|j: int| 0 <= j < x ==> (#[trigger] cube@[j])@.len() == s,
                forall|j: int, i: int|
                    0 <= j < x && 0 <= i < s ==> (#[trigger] cube@[j]@[i])@.len() == s,
                forall|j: int, i: int, h: int|
                    0 <= j < x && 0 <= i < s && 0 <= h < s ==> is_alive(
                        #[trigger] cube@[j]@[i]@[h],
                    ) == (rec.life@[n as int]@[j]@[i]@[h] == 1usize),
        {
            let mut plane: Vec<Vec<LifeDataContainer>> = Vec::new();
            proof {
                assert(binder.events() =~= e1 + spawn_events_grid(new_grid@) + spawn_events_cube(
                    cube@,
                    n as int,
                ) + spawn_events_plane(plane@, n as int, x as int));
            }
            for y in 0..size
                invariant
                    rec_dims(rec.life@, s),
                    s == size as int,
                    binder.events() == e1 + spawn_events_grid(new_grid@) + spawn_events_cube(
                        cube@,
                        n as int,
                    ) + spawn_events_plane(plane@, n as int, x as int),
                    n < 6,
                    tetra.index_spec() == n as int,
                    x < size,
                    plane@.len() == y,
                    forall|i: int| 0 <= i < y ==> (#[trigger] plane@[i])@.len() == s,
                    forall|i: int, h: int|
                        0 <= i < y && 0 <= h < s ==> is_alive(#[trigger] plane@[i]@[h]) == (
                        rec.life@[n as int]@[x as int]@[i]@[h] == 1usize),
            {
                let mut row: Vec<LifeDataContainer> = Vec::new();
                proof {
                    assert(binder.events() =~= e1 + spawn_events_grid(new_grid@)
                        + spawn_events_cube(cube@, n as int) + spawn_events_plane(
                        plane@,
                        n as int,
                        x as int,
                    ) + spawn_events_row(row@, n as int, x as int, y as int));
                }
                for z in 0..size
                    invariant
                        rec_dims(rec.life@, s),
                        s == size as int,
                        binder.events() == e1 + spawn_events_grid(new_grid@) + spawn_events_cube(
                            cube@,
                            n as int,
                        ) + spawn_events_plane(plane@, n as int, x as int) + spawn_events_row(
                            row@,
                            n as int,
                            x as int,
                            y as int,
                        ),
                        n < 6,
                        tetra.index_spec() == n as int,
                        x < size,
                        y < size,
                        row@.len() == z,
                        forall|h: int|
                            0 <= h < z ==> is_alive(#[trigger] row@[h]) == (
                            rec.life@[n as int]@[x as int]@[y as int]@[h] == 1usize),
                {
                    let ghost evs = binder.events();
                    let cell = if rec.life[n][x][y][z] == 1 {
                        LifeDataContainer::Alive(binder.spawn(tetra, x, y, z))
                    } else {
                        LifeDataContainer::Dead
                    };
                    proof {
                        lemma_spawn_events_row_push(row@, cell, n as int, x as int, y as int);
                        if is_alive(cell) {
                            assert(binder.events() =~= evs + seq![
                                LifeEvent::Spawned(n, x, y, z, cell->Alive_0),
                            ]);
                        }
                    }
                    row.push(cell);
                    proof {
                        assert(binder.events() =~= e1 + spawn_events_grid(new_grid@)
                            + spawn_events_cube(cube@, n as int) + spawn_events_plane(
                            plane@,
                            n as int,
                            x as int,
                        ) + spawn_events_row(row@, n as int, x as int, y as int));
                    }
                }
                proof {
                    lemma_spawn_events_plane_push(plane@, row, n as int, x as int);
                }
                plane.push(row);
                proof {
                    assert(binder.events() =~= e1 + spawn_events_grid(new_grid@)
                        + spawn_events_cube(cube@, n as int) + spawn_events_plane(
                        plane@,
                        n as int,
                        x as int,
                    ));
                }
            }
            proof {
                lemma_spawn_events_cube_push(cube@, plane, n as int);
            }
            cube.push(plane);
            proof {
                assert(binder.events() =~= e1 + spawn_events_grid(new_grid@) + spawn_events_cube(
                    cube@,
                    n as int,
                ));
            }
        }
        let ghost g0 = new_grid@;
        proof {
            lemma_spawn_events_grid_push(new_grid@, cube);
        }
        new_grid.push(cube);
        proof {
            assert(binder.events() =~= e1 + spawn_events_grid(new_grid@));
            assert forall|k: int, j: int, i: int, h: int|
                0 <= k < n + 1 && 0 <= j < s && 0 <= i < s && 0 <= h < s implies is_alive(
                #[trigger] cell_at(new_grid@, k, j, i, h),
            ) == (rec.life@[k]@[j]@[i]@[h] == 1usize) by {
                if k == n as int {
                    assert(cell_at(new_grid@, k, j, i, h) == cube@[j]@[i]@[h]);
                } else {
                    assert(cell_at(new_grid@, k, j, i, h) == cell_at(g0, k, j, i, h));
                    assert(is_alive(cell_at(g0, k, j, i, h)) == (rec.life@[k]@[j]@[i]@[h]
                        == 1usize));
                }
            }
        }
    }
    proof {
        assert forall|k: int, j: int, i: int, h: int|
            0 <= k < rec.life@.len() && 0 <= j < rec.life@[k]@.len() && 0 <= i
                < rec.life@[k]@[j]@.len() && 0 <= h < rec.life@[k]@[j]@[i]@.len() implies ((
        #[trigger] rec.life@[k]@[j]@[i]@[h]) == 1usize) == is_alive(new_grid@[k]@[j]@[i]@[h]) by {
            assert(is_alive(cell_at(new_grid@, k, j, i, h)) == (rec.life@[k]@[j]@[i]@[h]
                == 1usize));
        }
        lemma_ones_grid_matches(rec.life@, new_grid@);
    }
    session.life = new_grid;
    session.counter = rec.counter;
    session.generation = rec.generation;
    session.universe_size = size;
    proof {
        assert(binder.events() =~= old(binder).events() + despawn_events_grid(old(session).life@)
            + spawn_events_grid(session.life@));
        assert(binder.events().subrange(0, old(binder).events().len() as int) =~= old(
            binder,
        ).events());
    }
    Ok(())
}

} // verus!
