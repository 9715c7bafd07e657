use vstd::prelude::*;

use crate::binder::{extends, LifeEvent, LifecycleBinder};
use crate::topology::TetraIndex;

verus! {

/// Lattice extent per axis of a freshly created universe.
pub const DEFAULT_UNIVERSE_SIZE: usize = 20;

/// The state of one cell: alive and bound to a presentation-layer object
/// through an opaque handle, or dead. A tagged union rather than a sentinel
/// handle value, so a legitimate handle numbered zero stays distinct from
/// "no cell".
#[derive(Clone, Copy, PartialEq, Eq, Structural, Debug)]
pub enum LifeDataContainer {
    Alive(u64),
    Dead,
}

/// The dense four-dimensional cell array: orientation-major, then x, y, z.
pub type Grid = Vec<Vec<Vec<Vec<LifeDataContainer>>>>;

/// The mathematical view of a grid.
pub type GridView = Seq<Vec<Vec<Vec<LifeDataContainer>>>>;

pub open spec fn is_alive(c: LifeDataContainer) -> bool {
    c is Alive
}

impl LifeDataContainer {
    /// Whether this cell is alive.
    pub fn alive(&self) -> (b: bool)
        ensures
            b == is_alive(*self),
    {
        match self {
            LifeDataContainer::Alive(_) => true,
            LifeDataContainer::Dead => false,
        }
    }
}

/// The cell of `g` at orientation position `n` and lattice coordinate (x, y, z).
pub open spec fn cell_at(g: GridView, n: int, x: int, y: int, z: int) -> LifeDataContainer {
    g[n]@[x]@[y]@[z]
}

/// A grid holds six orientation layers, each a size x size x size cube.
pub open spec fn grid_wf(g: GridView, size: int) -> bool {
    &&& g.len() == 6
    &&& forall|n: int| 0 <= n < 6 ==> (#[trigger] g[n])@.len() == size
    &&& forall|n: int, x: int|
        0 <= n < 6 && 0 <= x < size ==> (#[trigger] g[n]@[x])@.len() == size
    &&& forall|n: int, x: int, y: int|
        0 <= n < 6 && 0 <= x < size && 0 <= y < size ==> (#[trigger] g[n]@[x]@[y])@.len() == size
}

/// Number of alive cells in one z-row.
pub open spec fn count_row(s: Seq<LifeDataContainer>) -> nat
    decreases s.len(),
{
    if s.len() == 0 {
        0
    } else {
        count_row(s.drop_last()) + (if is_alive(s.last()) {
            1nat
        } else {
            0nat
        })
    }
}

/// Number of alive cells in one y-z plane.
pub open spec fn count_plane(s: Seq<Vec<LifeDataContainer>>) -> nat
    decreases s.len(),
{
    if s.len() == 0 {
        0
    } else {
        count_plane(s.drop_last()) + count_row(s.last()@)
    }
}

/// Number of alive cells in one orientation layer.
pub open spec fn count_cube(s: Seq<Vec<Vec<LifeDataContainer>>>) -> nat
    decreases s.len(),
{
    if s.len() == 0 {
        0
    } else {
        count_cube(s.drop_last()) + count_plane(s.last()@)
    }
}

/// Number of alive cells in the whole grid: the population.
pub open spec fn count_grid(g: GridView) -> nat
    decreases g.len(),
{
    if g.len() == 0 {
        0
    } else {
        count_grid(g.drop_last()) + count_cube(g.last()@)
    }
}

pub proof fn lemma_count_row_push(s: Seq<LifeDataContainer>, c: LifeDataContainer)
    ensures
        count_row(s.push(c)) == count_row(s) + (if is_alive(c) {
            1nat
        } else {
            0nat
        }),
{
    assert(s.push(c).drop_last() =~= s);
}

pub proof fn lemma_count_plane_push(s: Seq<Vec<LifeDataContainer>>, v: Vec<LifeDataContainer>)
    ensures
        count_plane(s.push(v)) == count_plane(s) + count_row(v@),
{
    assert(s.push(v).drop_last() =~= s);
}

pub proof fn lemma_count_cube_push(
    s: Seq<Vec<Vec<LifeDataContainer>>>,
    v: Vec<Vec<LifeDataContainer>>,
)
    ensures
        count_cube(s.push(v)) == count_cube(s) + count_plane(v@),
{
    assert(s.push(v).drop_last() =~= s);
}

pub proof fn lemma_count_grid_push(g: GridView, v: Vec<Vec<Vec<LifeDataContainer>>>)
    ensures
        count_grid(g.push(v)) == count_grid(g) + count_cube(v@),
{
    assert(g.push(v).drop_last() =~= g);
}

pub proof fn lemma_count_row_le(s: Seq<LifeDataContainer>)
    ensures
        count_row(s) <= s.len(),
    decreases s.len(),
{
    if s.len() > 0 {
        lemma_count_row_le(s.drop_last());
    }
}

pub proof fn lemma_count_plane_le(s: Seq<Vec<LifeDataContainer>>, size: int)
    requires
        size >= 0,
        forall|i: int| 0 <= i < s.len() ==> (#[trigger] s[i])@.len() <= size,
    ensures
        count_plane(s) <= s.len() * size,
    decreases s.len(),
{
    if s.len() > 0 {
        lemma_count_plane_le(s.drop_last(), size);
        lemma_count_row_le(s.last()@);
        assert((s.len() - 1) * size + size == s.len() * size) by (nonlinear_arith);
    }
}

pub proof fn lemma_count_cube_le(s: Seq<Vec<Vec<LifeDataContainer>>>, size: int)
    requires
        size >= 0,
        forall|i: int| 0 <= i < s.len() ==> (#[trigger] s[i])@.len() <= size,
        forall|i: int, j: int|
            0 <= i < s.len() && 0 <= j < s[i]@.len() ==> (#[trigger] s[i]@[j])@.len() <= size,
    ensures
        count_cube(s) <= s.len() * size * size,
    decreases s.len(),
{
    if s.len() > 0 {
        lemma_count_cube_le(s.drop_last(), size);
        lemma_count_plane_le(s.last()@, size);
        assert(count_plane(s.last()@) <= size * size) by {
            assert(s.last()@.len() * size <= size * size) by (nonlinear_arith)
                requires
                    0 <= s.last()@.len() <= size,
                    size >= 0,
            ;
        }
        assert((s.len() - 1) * size * size + size * size == s.len() * size * size)
            by (nonlinear_arith);
    }
}

pub proof fn lemma_count_grid_le(g: GridView, size: int)
    requires
        size >= 0,
        forall|i: int| 0 <= i < g.len() ==> (#[trigger] g[i])@.len() <= size,
        forall|i: int, j: int|
            0 <= i < g.len() && 0 <= j < g[i]@.len() ==> (#[trigger] g[i]@[j])@.len() <= size,
        forall|i: int, j: int, k: int|
            0 <= i < g.len() && 0 <= j < g[i]@.len() && 0 <= k < g[i]@[j]@.len()
                ==> (#[trigger] g[i]@[j]@[k])@.len() <= size,
    ensures
        count_grid(g) <= g.len() * size * size * size,
    decreases g.len(),
{
    if g.len() > 0 {
        lemma_count_grid_le(g.drop_last(), size);
        lemma_count_cube_le(g.last()@, size);
        assert(count_cube(g.last()@) <= size * size * size) by {
            assert(g.last()@.len() * size * size <= size * size * size) by (nonlinear_arith)
                requires
                    0 <= g.last()@.len() <= size,
                    size >= 0,
            ;
        }
        assert((g.len() - 1) * size * size * size + size * size * size == g.len() * size * size
            * size) by (nonlinear_arith);
    }
}

pub proof fn lemma_count_row_update(s: Seq<LifeDataContainer>, i: int, c: LifeDataContainer)
    requires
        0 <= i < s.len(),
    ensures
        count_row(s.update(i, c)) + (if is_alive(s[i]) {
            1nat
        } else {
            0nat
        }) == count_row(s) + (if is_alive(c) {
            1nat
        } else {
            0nat
        }),
    decreases s.len(),
{
    if i == s.len() - 1 {
        assert(s.update(i, c).drop_last() =~= s.drop_last());
    } else {
        assert(s.update(i, c).drop_last() =~= s.drop_last().update(i, c));
        lemma_count_row_update(s.drop_last(), i, c);
    }
}

pub proof fn lemma_count_plane_update(
    s: Seq<Vec<LifeDataContainer>>,
    i: int,
    v: Vec<LifeDataContainer>,
)
    requires
        0 <= i < s.len(),
    ensures
        count_plane(s.update(i, v)) + count_row(s[i]@) == count_plane(s) + count_row(v@),
    decreases s.len(),
{
    if i == s.len() - 1 {
        assert(s.update(i, v).drop_last() =~= s.drop_last());
    } else {
        assert(s.update(i, v).drop_last() =~= s.drop_last().update(i, v));
        lemma_count_plane_update(s.drop_last(), i, v);
    }
}

pub proof fn lemma_count_cube_update(
    s: Seq<Vec<Vec<LifeDataContainer>>>,
    i: int,
    v: Vec<Vec<LifeDataContainer>>,
)
    requires
        0 <= i < s.len(),
    ensures
        count_cube(s.update(i, v)) + count_plane(s[i]@) == count_cube(s) + count_plane(v@),
    decreases s.len(),
{
    if i == s.len() - 1 {
        assert(s.update(i, v).drop_last() =~= s.drop_last());
    } else {
        assert(s.update(i, v).drop_last() =~= s.drop_last().update(i, v));
        lemma_count_cube_update(s.drop_last(), i, v);
    }
}

pub proof fn lemma_count_grid_update(g: GridView, i: int, v: Vec<Vec<Vec<LifeDataContainer>>>)
    requires
        0 <= i < g.len(),
    ensures
        count_grid(g.update(i, v)) + count_cube(g[i]@) == count_grid(g) + count_cube(v@),
    decreases g.len(),
{
    if i == g.len() - 1 {
        assert(g.update(i, v).drop_last() =~= g.drop_last());
    } else {
        assert(g.update(i, v).drop_last() =~= g.drop_last().update(i, v));
        lemma_count_grid_update(g.drop_last(), i, v);
    }
}

fn dead_row(size: usize) -> (r: Vec<LifeDataContainer>)
    ensures
        r@.len() == size,
        forall|k: int| 0 <= k < size ==> r@[k] == LifeDataContainer::Dead,
        count_row(r@) == 0,
{
    let mut r: Vec<LifeDataContainer> = Vec::new();
    for z in 0..size
        invariant
            r@.len() == z,
            forall|k: int| 0 <= k < z ==> r@[k] == LifeDataContainer::Dead,
            count_row(r@) == 0,
    {
        proof {
            lemma_count_row_push(r@, LifeDataContainer::Dead);
        }
        r.push(LifeDataContainer::Dead);
    }
    r
}

fn dead_plane(size: usize) -> (r: Vec<Vec<LifeDataContainer>>)
    ensures
        r@.len() == size,
        forall|k: int| 0 <= k < size ==> (#[trigger] r@[k])@.len() == size,
        forall|k: int, j: int|
            0 <= k < size && 0 <= j < size ==> r@[k]@[j] == LifeDataContainer::Dead,
        count_plane(r@) == 0,
{
    let mut r: Vec<Vec<LifeDataContainer>> = Vec::new();
    for y in 0..size
        invariant
            r@.len() == y,
            forall|k: int| 0 <= k < y ==> (#[trigger] r@[k])@.len() == size,
            forall|k: int, j: int|
                0 <= k < y && 0 <= j < size ==> r@[k]@[j] == LifeDataContainer::Dead,
            count_plane(r@) == 0,
    {
        let row = dead_row(size);
        proof {
            lemma_count_plane_push(r@, row);
        }
        r.push(row);
    }
    r
}

fn dead_cube(size: usize) -> (r: Vec<Vec<Vec<LifeDataContainer>>>)
    ensures
        r@.len() == size,
        forall|k: int| 0 <= k < size ==> (#[trigger] r@[k])@.len() == size,
        forall|k: int, j: int|
            0 <= k < size && 0 <= j < size ==> (#[trigger] r@[k]@[j])@.len() == size,
        forall|k: int, j: int, i: int|
            0 <= k < size && 0 <= j < size && 0 <= i < size ==> r@[k]@[j]@[i]
                == LifeDataContainer::Dead,
        count_cube(r@) == 0,
{
    let mut r: Vec<Vec<Vec<LifeDataContainer>>> = Vec::new();
    for x in 0..size
        invariant
            r@.len() == x,
            forall|k: int| 0 <= k < x ==> (#[trigger] r@[k])@.len() == size,
            forall|k: int, j: int|
                0 <= k < x && 0 <= j < size ==> (#[trigger] r@[k]@[j])@.len() == size,
            forall|k: int, j: int, i: int|
                0 <= k < x && 0 <= j < size && 0 <= i < size ==> r@[k]@[j]@[i]
                    == LifeDataContainer::Dead,
            count_cube(r@) == 0,
    {
        let plane = dead_plane(size);
        proof {
            lemma_count_cube_push(r@, plane);
        }
        r.push(plane);
    }
    r
}

/// A grid of the given extent with every cell dead.
pub fn dead_grid(size: usize) -> (g: Grid)
    ensures
        grid_wf(g@, size as int),
        count_grid(g@) == 0,
        forall|n: int, x: int, y: int, z: int|
            0 <= n < 6 && 0 <= x < size && 0 <= y < size && 0 <= z < size ==> cell_at(
                g@,
                n,
                x,
                y,
                z,
            ) == LifeDataContainer::Dead,
{
    let mut g: Grid = Vec::new();
    for n in 0..6usize
        invariant
            g@.len() == n,
            forall|k: int| 0 <= k < n ==> (#[trigger] g@[k])@.len() == size,
            forall|k: int, j: int|
                0 <= k < n && 0 <= j < size ==> (#[trigger] g@[k]@[j])@.len() == size,
            forall|k: int, j: int, i: int|
                0 <= k < n && 0 <= j < size && 0 <= i < size ==> (#[trigger] g@[k]@[j]@[i])@.len()
                    == size,
            forall|k: int, j: int, i: int, h: int|
                0 <= k < n && 0 <= j < size && 0 <= i < size && 0 <= h < size ==> g@[k]@[j]@[i]@[h]
                    == LifeDataContainer::Dead,
            count_grid(g@) == 0,
    {
        let cube = dead_cube(size);
        proof {
            lemma_count_grid_push(g@, cube);
        }
        g.push(cube);
    }
    g
}

/// A grid of the default extent with every cell dead.
pub fn dead_universe() -> (g: Grid)
    ensures
        grid_wf(g@, DEFAULT_UNIVERSE_SIZE as int),
        count_grid(g@) == 0,
        forall|n: int, x: int, y: int, z: int|
            0 <= n < 6 && 0 <= x < DEFAULT_UNIVERSE_SIZE && 0 <= y < DEFAULT_UNIVERSE_SIZE && 0 <= z
                < DEFAULT_UNIVERSE_SIZE ==> cell_at(g@, n, x, y, z) == LifeDataContainer::Dead,
{
    dead_grid(DEFAULT_UNIVERSE_SIZE)
}

/// The whole simulation state: the four-dimensional cell grid, the population
/// and generation counters, and the lattice extent.
pub struct SessionResource {
    pub life: Grid,
    pub counter: i64,
    pub generation: i64,
    pub universe_size: usize,
}

impl SessionResource {
    pub open spec fn size(&self) -> int {
        self.universe_size as int
    }

    /// Structural invariant: the grid is 6 x size^3 with size at least 1 and a
    /// cell total that fits the population counter, the population counter
    /// equals the number of alive cells, and the generation counter is at
    /// least 1.
    pub open spec fn wf(&self) -> bool {
        &&& 1 <= self.universe_size
        &&& 6 * self.size() * self.size() * self.size() <= i64::MAX
        &&& grid_wf(self.life@, self.size())
        &&& self.counter == count_grid(self.life@)
        &&& 1 <= self.generation
    }

    /// A freshly created universe: every cell dead, population 0, generation 1.
    /// Rejects extent 0, and extents whose cell total would not fit the
    /// population counter.
    pub fn new_dead(size: usize) -> (r: Option<SessionResource>)
        ensures
            r is Some <==> 1 <= size && 6 * (size as int) * (size as int) * (size as int)
                <= i64::MAX,
            r matches Some(s) ==> {
                &&& s.wf()
                &&& s.counter == 0
                &&& s.generation == 1
                &&& s.universe_size == size
                &&& forall|n: int, x: int, y: int, z: int|
                    0 <= n < 6 && 0 <= x < size && 0 <= y < size && 0 <= z < size ==> cell_at(
                        s.life@,
                        n,
                        x,
                        y,
                        z,
                    ) == LifeDataContainer::Dead
            },
    {
        if !size_fits(size) {
            return None;
        }
        Some(
            SessionResource {
                life: dead_grid(size),
                counter: 0,
                generation: 1,
                universe_size: size,
            },
        )
    }

    /// Direct indexed read of one cell. Callers wrap coordinates into
    /// [0, size) beforehand; wrapping is the topology lookup's job.
    pub fn get(&self, n: &TetraIndex, x: usize, y: usize, z: usize) -> (c: LifeDataContainer)
        requires
            grid_wf(self.life@, self.size()),
            x < self.universe_size,
            y < self.universe_size,
            z < self.universe_size,
        ensures
            c == cell_at(self.life@, n.index_spec(), x as int, y as int, z as int),
    {
        let ni = n.index();
        self.life[ni][x][y][z]
    }

    /// Direct indexed write of one cell. Keeps the population counter in step
    /// with the grid: the count moves by the difference between the old and
    /// the new state of the addressed cell.
    pub fn set(&mut self, n: &TetraIndex, x: usize, y: usize, z: usize, c: LifeDataContainer)
        requires
            old(self).wf(),
            x < old(self).universe_size,
            y < old(self).universe_size,
            z < old(self).universe_size,
        ensures
            final(self).wf(),
            final(self).universe_size == old(self).universe_size,
            final(self).generation == old(self).generation,
            cell_at(final(self).life@, n.index_spec(), x as int, y as int, z as int) == c,
            forall|nn: int, xx: int, yy: int, zz: int|
                0 <= nn < 6 && 0 <= xx < old(self).size() && 0 <= yy < old(self).size() && 0 <= zz
                    < old(self).size() && !(nn == n.index_spec() && xx == x && yy == y && zz == z)
                    ==> cell_at(final(self).life@, nn, xx, yy, zz) == cell_at(
                    old(self).life@,
                    nn,
                    xx,
                    yy,
                    zz,
                ),
            final(self).counter + (if is_alive(
                cell_at(old(self).life@, n.index_spec(), x as int, y as int, z as int),
            ) {
                1int
            } else {
                0int
            }) == old(self).counter + (if is_alive(c) {
                1int
            } else {
                0int
            }),
    {
        let ni = n.index();
        let ghost g0 = self.life@;
        let old_cell = self.life[ni][x][y][z];
        self.life[ni][x][y][z] = c;
        proof {
            let g1 = self.life@;
            assert(g1 =~= g0.update(ni as int, g1[ni as int]));
            assert(g1[ni as int]@ =~= g0[ni as int]@.update(x as int, g1[ni as int]@[x as int]));
            assert(g1[ni as int]@[x as int]@ =~= g0[ni as int]@[x as int]@.update(
                y as int,
                g1[ni as int]@[x as int]@[y as int],
            ));
            assert(g1[ni as int]@[x as int]@[y as int]@ =~= g0[ni as int]@[x as int]@[y as int]@
                .update(z as int, c));
            lemma_count_grid_update(g0, ni as int, g1[ni as int]);
            lemma_count_cube_update(g0[ni as int]@, x as int, g1[ni as int]@[x as int]);
            lemma_count_plane_update(
                g0[ni as int]@[x as int]@,
                y as int,
                g1[ni as int]@[x as int]@[y as int],
            );
            lemma_count_row_update(g0[ni as int]@[x as int]@[y as int]@, z as int, c);
            let s = old(self).size();
            lemma_count_grid_le(g1, s);
            assert(6 * s * s * s == g1.len() * s * s * s);
        }
        let old_alive = old_cell.alive();
        let new_alive = c.alive();
        if old_alive && !new_alive {
            self.counter = self.counter - 1;
        } else if !old_alive && new_alive {
            self.counter = self.counter + 1;
        }
    }
}

/// The despawn calls a full sweep over one z-row makes: one per alive cell,
/// in scan order.
pub open spec fn despawn_events_row(row: Seq<LifeDataContainer>) -> Seq<LifeEvent>
    decreases row.len(),
{
    if row.len() == 0 {
        Seq::empty()
    } else {
        despawn_events_row(row.drop_last()) + (if is_alive(row.last()) {
            seq![LifeEvent::Despawned(row.last()->Alive_0)]
        } else {
            Seq::empty()
        })
    }
}

/// The despawn calls a full sweep over one y-z plane makes, in scan order.
pub open spec fn despawn_events_plane(plane: Seq<Vec<LifeDataContainer>>) -> Seq<LifeEvent>
    decreases plane.len(),
{
    if plane.len() == 0 {
        Seq::empty()
    } else {
        despawn_events_plane(plane.drop_last()) + despawn_events_row(plane.last()@)
    }
}

/// The despawn calls a full sweep over one orientation layer makes, in scan
/// order.
pub open spec fn despawn_events_cube(cube: Seq<Vec<Vec<LifeDataContainer>>>) -> Seq<LifeEvent>
    decreases cube.len(),
{
    if cube.len() == 0 {
        Seq::empty()
    } else {
        despawn_events_cube(cube.drop_last()) + despawn_events_plane(cube.last()@)
    }
}

/// The despawn calls a full sweep over the whole grid makes: one per alive
/// cell, orientation-major scan order.
pub open spec fn despawn_events_grid(g: GridView) -> Seq<LifeEvent>
    decreases g.len(),
{
    if g.len() == 0 {
        Seq::empty()
    } else {
        despawn_events_grid(g.drop_last()) + despawn_events_cube(g.last()@)
    }
}

/// Calls the binder's despawn once for every alive cell of the grid, in
/// orientation-major scan order, and makes no other call.
pub fn despawn_grid<B: LifecycleBinder>(g: &Grid, size: usize, binder: &mut B)
    requires
        grid_wf(g@, size as int),
    ensures
        final(binder).events() == old(binder).events() + despawn_events_grid(g@),
        extends(final(binder).events(), old(binder).events()),
{
    let ghost e0 = old(binder).events();
    let ghost s = size as int;
    proof {
        assert(binder.events() =~= e0 + despawn_events_grid(g@.subrange(0, 0)));
    }
    for n in 0..6usize
        invariant
            grid_wf(g@, s),
            s == size as int,
            binder.events() == e0 + despawn_events_grid(g@.subrange(0, n as int)),
    {
        proof {
            assert(binder.events() =~= e0 + despawn_events_grid(g@.subrange(0, n as int))
                + despawn_events_cube(g@[n as int]@.subrange(0, 0)));
        }
        for x in 0..size
            invariant
                grid_wf(g@, s),
                s == size as int,
                n < 6,
                binder.events() == e0 + despawn_events_grid(g@.subrange(0, n as int))
                    + despawn_events_cube(g@[n as int]@.subrange(0, x as int)),
        {
            proof {
                assert(binder.events() =~= e0 + despawn_events_grid(g@.subrange(0, n as int))
                    + despawn_events_cube(g@[n as int]@.subrange(0, x as int))
                    + despawn_events_plane(g@[n as int]@[x as int]@.subrange(0, 0)));
            }
            for y in 0..size
                invariant
                    grid_wf(g@, s),
                    s == size as int,
                    n < 6,
                    x < size,
                    binder.events() == e0 + despawn_events_grid(g@.subrange(0, n as int))
                        + despawn_events_cube(g@[n as int]@.subrange(0, x as int))
                        + despawn_events_plane(g@[n as int]@[x as int]@.subrange(0, y as int)),
            {
                proof {
                    assert(binder.events() =~= e0 + despawn_events_grid(g@.subrange(0, n as int))
                        + despawn_events_cube(g@[n as int]@.subrange(0, x as int))
                        + despawn_events_plane(g@[n as int]@[x as int]@.subrange(0, y as int))
                        + despawn_events_row(
                        g@[n as int]@[x as int]@[y as int]@.subrange(0, 0),
                    ));
                }
                for z in 0..size
                    invariant
                        grid_wf(g@, s),
                        s == size as int,
                        n < 6,
                        x < size,
                        y < size,
                        binder.events() == e0 + despawn_events_grid(g@.subrange(0, n as int))
                            + despawn_events_cube(g@[n as int]@.subrange(0, x as int))
                            + despawn_events_plane(g@[n as int]@[x as int]@.subrange(0, y as int))
                            + despawn_events_row(
                            g@[n as int]@[x as int]@[y as int]@.subrange(0, z as int),
                        ),
                {
                    let ghost evs = binder.events();
                    match g[n][x][y][z] {
                        LifeDataContainer::Alive(h) => binder.despawn(h),
                        LifeDataContainer::Dead => (),
                    }
                    proof {
                        let r = g@[n as int]@[x as int]@[y as int]@;
                        assert(r.subrange(0, z as int + 1).drop_last() =~= r.subrange(0, z as int));
                        assert(r.subrange(0, z as int + 1).last() == r[z as int]);
                        assert(binder.events() =~= e0 + despawn_events_grid(
                            g@.subrange(0, n as int),
                        ) + despawn_events_cube(g@[n as int]@.subrange(0, x as int))
                            + despawn_events_plane(g@[n as int]@[x as int]@.subrange(0, y as int))
                            + despawn_events_row(r.subrange(0, z as int + 1)));
                    }
                }
                proof {
                    let p = g@[n as int]@[x as int]@;
                    let r = g@[n as int]@[x as int]@[y as int];
                    assert(p.subrange(0, y as int + 1).drop_last() =~= p.subrange(0, y as int));
                    assert(p.subrange(0, y as int + 1).last() == r);
                    assert(r@.subrange(0, s) =~= r@);
                    assert(binder.events() =~= e0 + despawn_events_grid(g@.subrange(0, n as int))
                        + despawn_events_cube(g@[n as int]@.subrange(0, x as int))
                        + despawn_events_plane(p.subrange(0, y as int + 1)));
                }
            }
            proof {
                let cu = g@[n as int]@;
                let p = g@[n as int]@[x as int];
                assert(cu.subrange(0, x as int + 1).drop_last() =~= cu.subrange(0, x as int));
                assert(cu.subrange(0, x as int + 1).last() == p);
                assert(p@.subrange(0, s) =~= p@);
                assert(binder.events() =~= e0 + despawn_events_grid(g@.subrange(0, n as int))
                    + despawn_events_cube(cu.subrange(0, x as int + 1)));
            }
        }
        proof {
            let cu = g@[n as int];
            assert(g@.subrange(0, n as int + 1).drop_last() =~= g@.subrange(0, n as int));
            assert(g@.subrange(0, n as int + 1).last() == cu);
            assert(cu@.subrange(0, s) =~= cu@);
            assert(binder.events() =~= e0 + despawn_events_grid(g@.subrange(0, n as int + 1)));
        }
    }
    proof {
        assert(g@.subrange(0, 6) =~= g@);
        assert((e0 + despawn_events_grid(g@)).subrange(0, e0.len() as int) =~= e0);
    }
}

/// Replaces the whole universe by a fresh dead one of the default extent:
/// every previously alive cell is despawned, the population is 0 and the
/// generation counter restarts at 1.
pub fn new_universe<B: LifecycleBinder>(session: &mut SessionResource, binder: &mut B)
    requires
        old(session).wf(),
    ensures
        final(binder).events() == old(binder).events() + despawn_events_grid(old(session).life@),
        extends(final(binder).events(), old(binder).events()),
        final(session).wf(),
        final(session).counter == 0,
        final(session).generation == 1,
        final(session).universe_size == DEFAULT_UNIVERSE_SIZE,
        forall|n: int, x: int, y: int, z: int|
            0 <= n < 6 && 0 <= x < DEFAULT_UNIVERSE_SIZE && 0 <= y < DEFAULT_UNIVERSE_SIZE && 0 <= z
                < DEFAULT_UNIVERSE_SIZE ==> cell_at(final(session).life@, n, x, y, z)
                == LifeDataContainer::Dead,
{
    despawn_grid(&session.life, session.universe_size, binder);
    session.life = dead_grid(DEFAULT_UNIVERSE_SIZE);
    session.counter = 0;
    session.generation = 1;
    session.universe_size = DEFAULT_UNIVERSE_SIZE;
    proof {
        assert(6 * (DEFAULT_UNIVERSE_SIZE as int) * (DEFAULT_UNIVERSE_SIZE as int) * (
        DEFAULT_UNIVERSE_SIZE as int) == 48000) by (nonlinear_arith);
    }
}

/// Manual toggle of one cell, independent of the generation rule: an alive
/// cell is despawned and becomes dead, a dead cell is spawned and becomes
/// alive, and the population counter moves with it.
pub fn place_life<B: LifecycleBinder>(
    session: &mut SessionResource,
    binder: &mut B,
    n: &TetraIndex,
    x: usize,
    y: usize,
    z: usize,
)
    requires
        old(session).wf(),
        x < old(session).universe_size,
        y < old(session).universe_size,
        z < old(session).universe_size,
    ensures
        final(session).wf(),
        final(session).generation == old(session).generation,
        final(session).universe_size == old(session).universe_size,
        is_alive(cell_at(final(session).life@, n.index_spec(), x as int, y as int, z as int))
            == !is_alive(cell_at(old(session).life@, n.index_spec(), x as int, y as int, z as int)),
        cell_at(old(session).life@, n.index_spec(), x as int, y as int, z as int) matches
            LifeDataContainer::Alive(h) ==> final(binder).events() == old(binder).events().push(
            LifeEvent::Despawned(h),
        ),
        !is_alive(cell_at(old(session).life@, n.index_spec(), x as int, y as int, z as int)) ==> (
        cell_at(final(session).life@, n.index_spec(), x as int, y as int, z as int) matches
            LifeDataContainer::Alive(h) && final(binder).events() == old(binder).events().push(
            LifeEvent::Spawned(n.index_spec() as usize, x, y, z, h),
        )),
        final(session).counter == old(session).counter + (if is_alive(
            cell_at(old(session).life@, n.index_spec(), x as int, y as int, z as int),
        ) {
            -1int
        } else {
            1int
        }),
        forall|nn: int, xx: int, yy: int, zz: int|
            0 <= nn < 6 && 0 <= xx < old(session).size() && 0 <= yy < old(session).size() && 0 <= zz
                < old(session).size() && !(nn == n.index_spec() && xx == x && yy == y && zz == z)
                ==> cell_at(final(session).life@, nn, xx, yy, zz) == cell_at(
                old(session).life@,
                nn,
                xx,
                yy,
                zz,
            ),
{
    let cell = session.get(n, x, y, z);
    match cell {
        LifeDataContainer::Alive(h) => {
            binder.despawn(h);
            session.set(n, x, y, z, LifeDataContainer::Dead);
        },
        LifeDataContainer::Dead => {
            let h = binder.spawn(*n, x, y, z);
            session.set(n, x, y, z, LifeDataContainer::Alive(h));
        },
    }
}

/// Whether a lattice extent is at least 1 and small enough that the cell
/// total 6 * size^3 fits the population counter.
pub open spec fn size_fits_spec(size: int) -> bool {
    1 <= size && 6 * size * size * size <= i64::MAX
}

/// Checks that a lattice extent is usable: at least 1, and with a cell total
/// that fits the population counter.
pub fn size_fits(size: usize) -> (r: bool)
    ensures
        r == size_fits_spec(size as int),
{
    if size < 1 {
        return false;
    }
    let s = size as u64;
    if s > 1_200_000 {
        proof {
            assert(!(6 * (size as int) * (size as int) * (size as int) <= i64::MAX))
                by (nonlinear_arith)
                requires
                    size as int > 1_200_000,
            ;
        }
        return false;
    }
    proof {
        assert(6 * (s as int) * (s as int) * (s as int) <= 6 * 1_200_000int * 1_200_000int
            * 1_200_000int && (s as int) * (s as int) <= 1_200_000int * 1_200_000int && 6 * (
        s as int) * (s as int) <= 6 * 1_200_000int * 1_200_000int) by (nonlinear_arith)
            requires
                0 <= s as int <= 1_200_000,
        ;
    }
    let total = 6 * s * s * s;
    total <= i64::MAX as u64
}

} // verus!
