use vstd::prelude::*;

use crate::binder::{extends, lemma_extends_refl, LifeEvent, LifecycleBinder};
use crate::topology::{
    adjacency, apply_axis, checks, lemma_adjacency_len, tetra_at, tetra_from_index, wrap_coord,
    TetraIndex,
};
use crate::universe::{
    cell_at, count_grid, count_plane, count_row, count_cube, grid_wf, is_alive,
    lemma_count_cube_le, lemma_count_cube_push, lemma_count_grid_le, lemma_count_grid_push,
    lemma_count_plane_le, lemma_count_plane_push, lemma_count_row_le, lemma_count_row_push,
    Grid, GridView, LifeDataContainer, SessionResource,
};

verus! {

/// Relies on rand::random::<bool>: one independent 50/50 coin flip. Nothing
/// is promised of the outcome; every caller must hold for either result.
#[verifier::external_body]
fn random_bool() -> bool {
    rand::random::<bool>()
}

/// How many of the other five orientations at the same (x, y, z) are alive,
/// counted over orientation positions below `m`.
pub open spec fn same_cube_count_upto(g: GridView, n: int, x: int, y: int, z: int, m: int) -> nat
    decreases m,
{
    if m <= 0 {
        0
    } else {
        same_cube_count_upto(g, n, x, y, z, m - 1) + (if m - 1 != n && is_alive(
            cell_at(g, m - 1, x, y, z),
        ) {
            1nat
        } else {
            0nat
        })
    }
}

/// Whether the cell addressed by entry `i` of the neighbour table of `n`,
/// looked up from (x, y, z) with toroidal wrap, is alive.
pub open spec fn adj_check_alive(
    g: GridView,
    n: TetraIndex,
    x: int,
    y: int,
    z: int,
    size: int,
    i: int,
) -> bool {
    let c = adjacency(n)[i];
    is_alive(
        cell_at(
            g,
            c.n.index_spec(),
            wrap_coord(x, c.axis.dx(), size),
            wrap_coord(y, c.axis.dy(), size),
            wrap_coord(z, c.axis.dz(), size),
        ),
    )
}

/// How many of the first `i` cross-cube neighbour checks of `n` find an alive
/// cell.
pub open spec fn adj_count_upto(
    g: GridView,
    n: TetraIndex,
    x: int,
    y: int,
    z: int,
    size: int,
    i: int,
) -> nat
    decreases i,
{
    if i <= 0 {
        0
    } else {
        adj_count_upto(g, n, x, y, z, size, i - 1) + (if adj_check_alive(g, n, x, y, z, size, i - 1) {
            1nat
        } else {
            0nat
        })
    }
}

/// Total neighbour count of one cell: the five same-cube cells plus the
/// thirteen cross-cube checks of its orientation.
pub open spec fn neighbours(g: GridView, n: TetraIndex, x: int, y: int, z: int, size: int) -> nat {
    same_cube_count_upto(g, n.index_spec(), x, y, z, 6) + adj_count_upto(g, n, x, y, z, size, 13)
}

/// The update rule. An alive cell survives exactly on 2 or 3 neighbours: it
/// dies of isolation on 0 or 1 and of overcrowding on any count above 3. A
/// dead cell is born exactly on 3.
pub open spec fn next_alive(g: GridView, n: TetraIndex, x: int, y: int, z: int, size: int) -> bool {
    let nb = neighbours(g, n, x, y, z, size);
    if is_alive(cell_at(g, n.index_spec(), x, y, z)) {
        nb == 2 || nb == 3
    } else {
        nb == 3
    }
}

/// What one steady tick leaves in the cell of orientation `n` at (x, y, z),
/// given the previous generation `g`: a survivor keeps its handle unchanged,
/// a dying or still-dead cell is Dead, and a born cell is alive under
/// whatever handle the presentation layer returned.
pub open spec fn stepped_cell(
    g: GridView,
    c: LifeDataContainer,
    n: TetraIndex,
    x: int,
    y: int,
    z: int,
    size: int,
) -> bool {
    if next_alive(g, n, x, y, z, size) {
        &&& is_alive(c)
        &&& is_alive(cell_at(g, n.index_spec(), x, y, z)) ==> c == cell_at(
            g,
            n.index_spec(),
            x,
            y,
            z,
        )
    } else {
        c == LifeDataContainer::Dead
    }
}

/// Whether `g1` is exactly what one steady tick produces from `g0`.
pub open spec fn grid_stepped(g0: GridView, g1: GridView, size: int) -> bool {
    forall|n: int, x: int, y: int, z: int|
        0 <= n < 6 && 0 <= x < size && 0 <= y < size && 0 <= z < size ==> #[trigger] stepped_cell(
            g0,
            cell_at(g1, n, x, y, z),
            tetra_at(n),
            x,
            y,
            z,
            size,
        )
}

/// The spawn or despawn call that one steady tick makes for the cell of
/// orientation `n` at (x, y, z): a despawn of the stored handle when an alive
/// cell dies, a spawn returning the newly stored handle when a dead cell is
/// born, and no call at all for a survivor or a cell that stays dead.
pub open spec fn cell_events(
    g0: GridView,
    c: LifeDataContainer,
    n: TetraIndex,
    x: int,
    y: int,
    z: int,
    size: int,
) -> Seq<LifeEvent> {
    let oldc = cell_at(g0, n.index_spec(), x, y, z);
    if is_alive(oldc) && !next_alive(g0, n, x, y, z, size) {
        seq![LifeEvent::Despawned(oldc->Alive_0)]
    } else if !is_alive(oldc) && next_alive(g0, n, x, y, z, size) {
        seq![
            LifeEvent::Spawned(
                n.index_spec() as usize,
                x as usize,
                y as usize,
                z as usize,
                c->Alive_0,
            ),
        ]
    } else {
        Seq::empty()
    }
}

/// The calls one steady tick makes for one z-row, in scan order.
pub open spec fn events_row(
    g0: GridView,
    row: Seq<LifeDataContainer>,
    n: TetraIndex,
    x: int,
    y: int,
    size: int,
) -> Seq<LifeEvent>
    decreases row.len(),
{
    if row.len() == 0 {
        Seq::empty()
    } else {
        events_row(g0, row.drop_last(), n, x, y, size) + cell_events(
            g0,
            row.last(),
            n,
            x,
            y,
            row.len() - 1,
            size,
        )
    }
}

/// The calls one steady tick makes for one y-z plane, in scan order.
pub open spec fn events_plane(
    g0: GridView,
    plane: Seq<Vec<LifeDataContainer>>,
    n: TetraIndex,
    x: int,
    size: int,
) -> Seq<LifeEvent>
    decreases plane.len(),
{
    if plane.len() == 0 {
        Seq::empty()
    } else {
        events_plane(g0, plane.drop_last(), n, x, size) + events_row(
            g0,
            plane.last()@,
            n,
            x,
            plane.len() - 1,
            size,
        )
    }
}

/// The calls one steady tick makes for one orientation layer, in scan order.
pub open spec fn events_cube(
    g0: GridView,
    cube: Seq<Vec<Vec<LifeDataContainer>>>,
    n: TetraIndex,
    size: int,
) -> Seq<LifeEvent>
    decreases cube.len(),
{
    if cube.len() == 0 {
        Seq::empty()
    } else {
        events_cube(g0, cube.drop_last(), n, size) + events_plane(
            g0,
            cube.last()@,
            n,
            cube.len() - 1,
            size,
        )
    }
}

/// All the calls one steady tick makes, orientation-major scan order.
pub open spec fn events_grid(g0: GridView, g: GridView, size: int) -> Seq<LifeEvent>
    decreases g.len(),
{
    if g.len() == 0 {
        Seq::empty()
    } else {
        events_grid(g0, g.drop_last(), size) + events_cube(
            g0,
            g.last()@,
            tetra_at(g.len() - 1),
            size,
        )
    }
}

pub proof fn lemma_events_row_push(
    g0: GridView,
    row: Seq<LifeDataContainer>,
    c: LifeDataContainer,
    n: TetraIndex,
    x: int,
    y: int,
    size: int,
)
    ensures
        events_row(g0, row.push(c), n, x, y, size) == events_row(g0, row, n, x, y, size)
            + cell_events(g0, c, n, x, y, row.len() as int, size),
{
    assert(row.push(c).drop_last() =~= row);
}

pub proof fn lemma_events_plane_push(
    g0: GridView,
    plane: Seq<Vec<LifeDataContainer>>,
    row: Vec<LifeDataContainer>,
    n: TetraIndex,
    x: int,
    size: int,
)
    ensures
        events_plane(g0, plane.push(row), n, x, size) == events_plane(g0, plane, n, x, size)
            + events_row(g0, row@, n, x, plane.len() as int, size),
{
    assert(plane.push(row).drop_last() =~= plane);
}

pub proof fn lemma_events_cube_push(
    g0: GridView,
    cube: Seq<Vec<Vec<LifeDataContainer>>>,
    plane: Vec<Vec<LifeDataContainer>>,
    n: TetraIndex,
    size: int,
)
    ensures
        events_cube(g0, cube.push(plane), n, size) == events_cube(g0, cube, n, size)
            + events_plane(g0, plane@, n, cube.len() as int, size),
{
    assert(cube.push(plane).drop_last() =~= cube);
}

pub proof fn lemma_events_grid_push(g0: GridView, g: GridView, cube: Vec<Vec<Vec<LifeDataContainer>>>, size: int)
    ensures
        events_grid(g0, g.push(cube), size) == events_grid(g0, g, size) + events_cube(
            g0,
            cube@,
            tetra_at(g.len() as int),
            size,
        ),
{
    assert(g.push(cube).drop_last() =~= g);
}

/// Counts the alive neighbours of the cell of orientation `n` at (x, y, z):
/// the five other orientations of the same cube, plus the thirteen cross-cube
/// checks of `n` with toroidal wrap.
pub fn count_neighbours(g: &Grid, n: &TetraIndex, x: usize, y: usize, z: usize, size: usize) -> (c:
    usize)
    requires
        grid_wf(g@, size as int),
        x < size,
        y < size,
        z < size,
    ensures
        c == neighbours(g@, *n, x as int, y as int, z as int, size as int),
{
    let ni = n.index();
    let mut c: usize = 0;
    for m in 0..6usize
        invariant
            grid_wf(g@, size as int),
            x < size,
            y < size,
            z < size,
            ni == n.index_spec(),
            c <= m,
            c == same_cube_count_upto(g@, ni as int, x as int, y as int, z as int, m as int),
    {
        if m != ni {
            if g[m][x][y][z].alive() {
                c = c + 1;
            }
        }
    }
    let cks = checks(n);
    proof {
        lemma_adjacency_len(*n);
    }
    let mut a: usize = 0;
    for i in 0..13usize
        invariant
            grid_wf(g@, size as int),
            x < size,
            y < size,
            z < size,
            cks@ == adjacency(*n),
            cks@.len() == 13,
            a <= i,
            a == adj_count_upto(g@, *n, x as int, y as int, z as int, size as int, i as int),
    {
        let ck = cks[i];
        let (cx, cy, cz) = apply_axis(&ck.axis, x, y, z, size);
        let ti = ck.n.index();
        if g[ti][cx][cy][cz].alive() {
            a = a + 1;
        }
    }
    c + a
}

/// A partially walked grid's tally never reaches the cell total: the digit
/// bound used by every loop that counts while it scans.
pub proof fn lemma_partial_count_bound(
    cg: nat,
    cc: nat,
    cp: nat,
    cr: nat,
    n: int,
    x: int,
    y: int,
    z: int,
    s: int,
)
    requires
        0 <= n < 6,
        0 <= x < s,
        0 <= y < s,
        0 <= z < s,
        cg <= n * (s * s * s),
        cc <= x * (s * s),
        cp <= y * s,
        cr <= z,
    ensures
        cg + cc + cp + cr < 6 * s * s * s,
{
    assert(n * (s * s * s) + x * (s * s) + y * s + z < 6 * s * s * s) by (nonlinear_arith)
        requires
            0 <= n < 6,
            0 <= x < s,
            0 <= y < s,
            0 <= z < s,
    ;
}

/// Builds the next generation from `old_grid` by the update rule, calling the
/// binder for every birth and death, and returns the new grid with its
/// population.
fn stepped_grid<B: LifecycleBinder>(old_grid: &Grid, size: usize, binder: &mut B) -> (r: (
    Grid,
    i64,
))
    requires
        grid_wf(old_grid@, size as int),
        1 <= size,
        6 * (size as int) * (size as int) * (size as int) <= i64::MAX,
    ensures
        grid_wf(r.0@, size as int),
        r.1 == count_grid(r.0@),
        grid_stepped(old_grid@, r.0@, size as int),
        final(binder).events() == old(binder).events() + events_grid(
            old_grid@,
            r.0@,
            size as int,
        ),
        extends(final(binder).events(), old(binder).events()),
{
    let ghost s = size as int;
    let ghost e0 = old(binder).events();
    let mut new_grid: Grid = Vec::new();
    let mut new_count: i64 = 0;
    proof {
        assert(e0 + events_grid(old_grid@, new_grid@, s) =~= e0);
    }
    for n in 0..6usize
        invariant
            grid_wf(old_grid@, s),
            1 <= size,
            6 * s * s * s <= i64::MAX,
            s == size as int,
            binder.events() == e0 + events_grid(old_grid@, new_grid@, s),
            new_grid@.len() == n,
            forall|k: int| 0 <= k < n ==> (#[trigger] new_grid@[k])@.len() == s,
            forall|k: int, j: int|
                0 <= k < n && 0 <= j < s ==> (#[trigger] new_grid@[k]@[j])@.len() == s,
            forall|k: int, j: int, i: int|
                0 <= k < n && 0 <= j < s && 0 <= i < s ==> (#[trigger] new_grid@[k]@[j]@[i])@.len()
                    == s,
            forall|k: int, xx: int, yy: int, zz: int|
                0 <= k < n && 0 <= xx < s && 0 <= yy < s && 0 <= zz < s
                    ==> #[trigger] stepped_cell(
                    old_grid@,
                    cell_at(new_grid@, k, xx, yy, zz),
                    tetra_at(k),
                    xx,
                    yy,
                    zz,
                    s,
                ),
            new_count == count_grid(new_grid@),
    {
        let tetra = tetra_from_index(n);
        let mut cube: Vec<Vec<Vec<LifeDataContainer>>> = Vec::new();
        proof {
            assert(binder.events() =~= e0 + events_grid(old_grid@, new_grid@, s) + events_cube(
                old_grid@,
                cube@,
                tetra,
                s,
            ));
        }
        for x in 0..size
            invariant
                grid_wf(old_grid@, s),
                1 <= size,
                6 * s * s * s <= i64::MAX,
                s == size as int,
                binder.events() == e0 + events_grid(old_grid@, new_grid@, s) + events_cube(
                    old_grid@,
                    cube@,
                    tetra,
                    s,
                ),
                n < 6,
                tetra == tetra_at(n as int),
                tetra.index_spec() == n as int,
                new_grid@.len() == n,
                forall|k: int| 0 <= k < n ==> (#[trigger] new_grid@[k])@.len() == s,
                forall|k: int, j: int|
                    0 <= k < n && 0 <= j < s ==> (#[trigger] new_grid@[k]@[j])@.len() == s,
                forall|k: int, j: int, i: int|
                    0 <= k < n && 0 <= j < s && 0 <= i < s
                        ==> (#[trigger] new_grid@[k]@[j]@[i])@.len() == s,
                cube@.len() == x,
                forall|j: int| 0 <= j < x ==> (#[trigger] cube@[j])@.len() == s,
                forall|j: int, i: int|
                    0 <= j < x && 0 <= i < s ==> (#[trigger] cube@[j]@[i])@.len() == s,
                forall|xx: int, yy: int, zz: int|
                    0 <= xx < x && 0 <= yy < s && 0 <= zz < s ==> #[trigger] stepped_cell(
                        old_grid@,
                        cube@[xx]@[yy]@[zz],
                        tetra,
                        xx,
                        yy,
                        zz,
                        s,
                    ),
                new_count == count_grid(new_grid@) + count_cube(cube@),
        {
            let mut plane: Vec<Vec<LifeDataContainer>> = Vec::new();
            proof {
                assert(binder.events() =~= e0 + events_grid(old_grid@, new_grid@, s) + events_cube(
                    old_grid@,
                    cube@,
                    tetra,
                    s,
                ) + events_plane(old_grid@, plane@, tetra, x as int, s));
            }
            for y in 0..size
                invariant
                    grid_wf(old_grid@, s),
                    1 <= size,
                    6 * s * s * s <= i64::MAX,
                    s == size as int,
                    binder.events() == e0 + events_grid(old_grid@, new_grid@, s) + events_cube(
                        old_grid@,
                        cube@,
                        tetra,
                        s,
                    ) + events_plane(old_grid@, plane@, tetra, x as int, s),
                    n < 6,
                    x < size,
                    tetra == tetra_at(n as int),
                    tetra.index_spec() == n as int,
                    new_grid@.len() == n,
                    forall|k: int| 0 <= k < n ==> (#[trigger] new_grid@[k])@.len() == s,
                    forall|k: int, j: int|
                        0 <= k < n && 0 <= j < s ==> (#[trigger] new_grid@[k]@[j])@.len() == s,
                    forall|k: int, j: int, i: int|
                        0 <= k < n && 0 <= j < s && 0 <= i < s
                            ==> (#[trigger] new_grid@[k]@[j]@[i])@.len() == s,
                    cube@.len() == x,
                    forall|j: int| 0 <= j < x ==> (#[trigger] cube@[j])@.len() == s,
                    forall|j: int, i: int|
                        0 <= j < x && 0 <= i < s ==> (#[trigger] cube@[j]@[i])@.len() == s,
                    plane@.len() == y,
                    forall|i: int| 0 <= i < y ==> (#[trigger] plane@[i])@.len() == s,
                    forall|yy: int, zz: int|
                        0 <= yy < y && 0 <= zz < s ==> #[trigger] stepped_cell(
                            old_grid@,
                            plane@[yy]@[zz],
                            tetra,
                            x as int,
                            yy,
                            zz,
                            s,
                        ),
                    new_count == count_grid(new_grid@) + count_cube(cube@) + count_plane(plane@),
            {
                let mut row: Vec<LifeDataContainer> = Vec::new();
                proof {
                    assert(binder.events() =~= e0 + events_grid(old_grid@, new_grid@, s)
                        + events_cube(old_grid@, cube@, tetra, s) + events_plane(
                        old_grid@,
                        plane@,
                        tetra,
                        x as int,
                        s,
                    ) + events_row(old_grid@, row@, tetra, x as int, y as int, s));
                }
                for z in 0..size
                    invariant
                        grid_wf(old_grid@, s),
                        1 <= size,
                        6 * s * s * s <= i64::MAX,
                        s == size as int,
                        binder.events() == e0 + events_grid(old_grid@, new_grid@, s) + events_cube(
                            old_grid@,
                            cube@,
                            tetra,
                            s,
                        ) + events_plane(old_grid@, plane@, tetra, x as int, s) + events_row(
                            old_grid@,
                            row@,
                            tetra,
                            x as int,
                            y as int,
                            s,
                        ),
                        n < 6,
                        x < size,
                        y < size,
                        tetra == tetra_at(n as int),
                        tetra.index_spec() == n as int,
                        new_grid@.len() == n,
                        forall|k: int| 0 <= k < n ==> (#[trigger] new_grid@[k])@.len() == s,
                        forall|k: int, j: int|
                            0 <= k < n && 0 <= j < s ==> (#[trigger] new_grid@[k]@[j])@.len() == s,
                        forall|k: int, j: int, i: int|
                            0 <= k < n && 0 <= j < s && 0 <= i < s
                                ==> (#[trigger] new_grid@[k]@[j]@[i])@.len() == s,
                        cube@.len() == x,
                        forall|j: int| 0 <= j < x ==> (#[trigger] cube@[j])@.len() == s,
                        forall|j: int, i: int|
                            0 <= j < x && 0 <= i < s ==> (#[trigger] cube@[j]@[i])@.len() == s,
                        plane@.len() == y,
                        forall|i: int| 0 <= i < y ==> (#[trigger] plane@[i])@.len() == s,
                        row@.len() == z,
                        forall|zz: int|
                            0 <= zz < z ==> #[trigger] stepped_cell(
                                old_grid@,
                                row@[zz],
                                tetra,
                                x as int,
                                y as int,
                                zz,
                                s,
                            ),
                        new_count == count_grid(new_grid@) + count_cube(cube@) + count_plane(
                            plane@,
                        ) + count_row(row@),
                {
                    let nb = count_neighbours(old_grid, &tetra, x, y, z, size);
                    let old_cell = old_grid[n][x][y][z];
                    let ghost evs = binder.events();
                    let new_cell: LifeDataContainer = if old_cell.alive() {
                        if nb == 2 || nb == 3 {
                            old_cell
                        } else {
                            match old_cell {
                                LifeDataContainer::Alive(h) => binder.despawn(h),
                                LifeDataContainer::Dead => (),
                            }
                            LifeDataContainer::Dead
                        }
                    } else {
                        if nb == 3 {
                            LifeDataContainer::Alive(binder.spawn(tetra, x, y, z))
                        } else {
                            LifeDataContainer::Dead
                        }
                    };
                    proof {
                        assert(stepped_cell(
                            old_grid@,
                            new_cell,
                            tetra,
                            x as int,
                            y as int,
                            z as int,
                            s,
                        ));
                        assert(binder.events() =~= evs + cell_events(
                            old_grid@,
                            new_cell,
                            tetra,
                            x as int,
                            y as int,
                            z as int,
                            s,
                        ));
                    }
                    if new_cell.alive() {
                        proof {
                            lemma_count_grid_le(new_grid@, s);
                            lemma_count_cube_le(cube@, s);
                            lemma_count_plane_le(plane@, s);
                            lemma_count_row_le(row@);
                            assert(count_grid(new_grid@) <= (n as int) * (s * s * s))
                                by (nonlinear_arith)
                                requires
                                    count_grid(new_grid@) <= new_grid@.len() * s * s * s,
                                    new_grid@.len() == n as int,
                            ;
                            assert(count_cube(cube@) <= (x as int) * (s * s)) by (nonlinear_arith)
                                requires
                                    count_cube(cube@) <= cube@.len() * s * s,
                                    cube@.len() == x as int,
                            ;
                            lemma_partial_count_bound(
                                count_grid(new_grid@),
                                count_cube(cube@),
                                count_plane(plane@),
                                count_row(row@),
                                n as int,
                                x as int,
                                y as int,
                                z as int,
                                s,
                            );
                        }
                        new_count = new_count + 1;
                    }
                    proof {
                        lemma_count_row_push(row@, new_cell);
                        lemma_events_row_push(
                            old_grid@,
                            row@,
                            new_cell,
                            tetra,
                            x as int,
                            y as int,
                            s,
                        );
                    }
                    row.push(new_cell);
                    proof {
                        assert(binder.events() =~= e0 + events_grid(old_grid@, new_grid@, s)
                            + events_cube(old_grid@, cube@, tetra, s) + events_plane(
                            old_grid@,
                            plane@,
                            tetra,
                            x as int,
                            s,
                        ) + events_row(old_grid@, row@, tetra, x as int, y as int, s));
                    }
                }
                proof {
                    lemma_count_plane_push(plane@, row);
                    lemma_events_plane_push(old_grid@, plane@, row, tetra, x as int, s);
                }
                plane.push(row);
                proof {
                    assert(binder.events() =~= e0 + events_grid(old_grid@, new_grid@, s)
                        + events_cube(old_grid@, cube@, tetra, s) + events_plane(
                        old_grid@,
                        plane@,
                        tetra,
                        x as int,
                        s,
                    ));
                }
            }
            proof {
                lemma_count_cube_push(cube@, plane);
                lemma_events_cube_push(old_grid@, cube@, plane, tetra, s);
            }
            cube.push(plane);
            proof {
                assert(binder.events() =~= e0 + events_grid(old_grid@, new_grid@, s) + events_cube(
                    old_grid@,
                    cube@,
                    tetra,
                    s,
                ));
            }
        }
        proof {
            lemma_count_grid_push(new_grid@, cube);
            lemma_events_grid_push(old_grid@, new_grid@, cube, s);
        }
        let ghost g0 = new_grid@;
        new_grid.push(cube);
        proof {
            assert(binder.events() =~= e0 + events_grid(old_grid@, new_grid@, s));
        }
        proof {
            assert forall|k: int, xx: int, yy: int, zz: int|
                0 <= k < n + 1 && 0 <= xx < s && 0 <= yy < s && 0 <= zz < s
                    implies #[trigger] stepped_cell(
                old_grid@,
                cell_at(new_grid@, k, xx, yy, zz),
                tetra_at(k),
                xx,
                yy,
                zz,
                s,
            ) by {
                if k == n as int {
                    assert(cell_at(new_grid@, k, xx, yy, zz) == cube@[xx]@[yy]@[zz]);
                    assert(stepped_cell(old_grid@, cube@[xx]@[yy]@[zz], tetra, xx, yy, zz, s));
                } else {
                    assert(cell_at(new_grid@, k, xx, yy, zz) == cell_at(g0, k, xx, yy, zz));
                    assert(stepped_cell(
                        old_grid@,
                        cell_at(g0, k, xx, yy, zz),
                        tetra_at(k),
                        xx,
                        yy,
                        zz,
                        s,
                    ));
                }
            }
        }
    }
    proof {
        assert((e0 + events_grid(old_grid@, new_grid@, s)).subrange(0, e0.len() as int) =~= e0);
    }
    (new_grid, new_count)
}

/// The calls the genesis tick makes for one cell: a despawn of whatever was
/// alive there, then a spawn if the coin flip brought the cell to life.
pub open spec fn genesis_cell_events(
    oldc: LifeDataContainer,
    newc: LifeDataContainer,
    n: TetraIndex,
    x: int,
    y: int,
    z: int,
) -> Seq<LifeEvent> {
    (if is_alive(oldc) {
        seq![LifeEvent::Despawned(oldc->Alive_0)]
    } else {
        Seq::empty()
    }) + (if is_alive(newc) {
        seq![
            LifeEvent::Spawned(
                n.index_spec() as usize,
                x as usize,
                y as usize,
                z as usize,
                newc->Alive_0,
            ),
        ]
    } else {
        Seq::empty()
    })
}

/// The calls the genesis tick makes for one z-row, in scan order.
pub open spec fn genesis_events_row(
    g0: GridView,
    row: Seq<LifeDataContainer>,
    n: TetraIndex,
    x: int,
    y: int,
) -> Seq<LifeEvent>
    decreases row.len(),
{
    if row.len() == 0 {
        Seq::empty()
    } else {
        genesis_events_row(g0, row.drop_last(), n, x, y) + genesis_cell_events(
            cell_at(g0, n.index_spec(), x, y, row.len() - 1),
            row.last(),
            n,
            x,
            y,
            row.len() - 1,
        )
    }
}

/// The calls the genesis tick makes for one y-z plane, in scan order.
pub open spec fn genesis_events_plane(
    g0: GridView,
    plane: Seq<Vec<LifeDataContainer>>,
    n: TetraIndex,
    x: int,
) -> Seq<LifeEvent>
    decreases plane.len(),
{
    if plane.len() == 0 {
        Seq::empty()
    } else {
        genesis_events_plane(g0, plane.drop_last(), n, x) + genesis_events_row(
            g0,
            plane.last()@,
            n,
            x,
            plane.len() - 1,
        )
    }
}

/// The calls the genesis tick makes for one orientation layer, in scan order.
pub open spec fn genesis_events_cube(
    g0: GridView,
    cube: Seq<Vec<Vec<LifeDataContainer>>>,
    n: TetraIndex,
) -> Seq<LifeEvent>
    decreases cube.len(),
{
    if cube.len() == 0 {
        Seq::empty()
    } else {
        genesis_events_cube(g0, cube.drop_last(), n) + genesis_events_plane(
            g0,
            cube.last()@,
            n,
            cube.len() - 1,
        )
    }
}

/// All the calls the genesis tick makes, orientation-major scan order.
pub open spec fn genesis_events_grid(g0: GridView, g: GridView) -> Seq<LifeEvent>
    decreases g.len(),
{
    if g.len() == 0 {
        Seq::empty()
    } else {
        genesis_events_grid(g0, g.drop_last()) + genesis_events_cube(
            g0,
            g.last()@,
            tetra_at(g.len() - 1),
        )
    }
}

pub proof fn lemma_genesis_events_row_push(
    g0: GridView,
    row: Seq<LifeDataContainer>,
    c: LifeDataContainer,
    n: TetraIndex,
    x: int,
    y: int,
)
    ensures
        genesis_events_row(g0, row.push(c), n, x, y) == genesis_events_row(g0, row, n, x, y)
            + genesis_cell_events(
            cell_at(g0, n.index_spec(), x, y, row.len() as int),
            c,
            n,
            x,
            y,
            row.len() as int,
        ),
{
    assert(row.push(c).drop_last() =~= row);
}

pub proof fn lemma_genesis_events_plane_push(
    g0: GridView,
    plane: Seq<Vec<LifeDataContainer>>,
    row: Vec<LifeDataContainer>,
    n: TetraIndex,
    x: int,
)
    ensures
        genesis_events_plane(g0, plane.push(row), n, x) == genesis_events_plane(g0, plane, n, x)
            + genesis_events_row(g0, row@, n, x, plane.len() as int),
{
    assert(plane.push(row).drop_last() =~= plane);
}

pub proof fn lemma_genesis_events_cube_push(
    g0: GridView,
    cube: Seq<Vec<Vec<LifeDataContainer>>>,
    plane: Vec<Vec<LifeDataContainer>>,
    n: TetraIndex,
)
    ensures
        genesis_events_cube(g0, cube.push(plane), n) == genesis_events_cube(g0, cube, n)
            + genesis_events_plane(g0, plane@, n, cube.len() as int),
{
    assert(cube.push(plane).drop_last() =~= cube);
}

pub proof fn lemma_genesis_events_grid_push(
    g0: GridView,
    g: GridView,
    cube: Vec<Vec<Vec<LifeDataContainer>>>,
)
    ensures
        genesis_events_grid(g0, g.push(cube)) == genesis_events_grid(g0, g) + genesis_events_cube(
            g0,
            cube@,
            tetra_at(g.len() as int),
        ),
{
    assert(g.push(cube).drop_last() =~= g);
}

/// Builds a freshly seeded generation: despawns whatever was alive in
/// `old_grid`, then draws one independent 50/50 coin flip per cell and spawns
/// a cell for every flip that comes up alive. The neighbour rule is never
/// consulted.
fn genesis_grid<B: LifecycleBinder>(old_grid: &Grid, size: usize, binder: &mut B) -> (r: (
    Grid,
    i64,
))
    requires
        grid_wf(old_grid@, size as int),
        1 <= size,
        6 * (size as int) * (size as int) * (size as int) <= i64::MAX,
    ensures
        grid_wf(r.0@, size as int),
        r.1 == count_grid(r.0@),
        final(binder).events() == old(binder).events() + genesis_events_grid(old_grid@, r.0@),
        extends(final(binder).events(), old(binder).events()),
{
    let ghost s = size as int;
    let ghost e0 = old(binder).events();
    let mut new_grid: Grid = Vec::new();
    let mut new_count: i64 = 0;
    proof {
        assert(e0 + genesis_events_grid(old_grid@, new_grid@) =~= e0);
    }
    for n in 0..6usize
        invariant
            grid_wf(old_grid@, s),
            1 <= size,
            6 * s * s * s <= i64::MAX,
            s == size as int,
            binder.events() == e0 + genesis_events_grid(old_grid@, new_grid@),
            new_grid@.len() == n,
            forall|k: int| 0 <= k < n ==> (#[trigger] new_grid@[k])@.len() == s,
            forall|k: int, j: int|
                0 <= k < n && 0 <= j < s ==> (#[trigger] new_grid@[k]@[j])@.len() == s,
            forall|k: int, j: int, i: int|
                0 <= k < n && 0 <= j < s && 0 <= i < s ==> (#[trigger] new_grid@[k]@[j]@[i])@.len()
                    == s,
            new_count == count_grid(new_grid@),
    {
        let tetra = tetra_from_index(n);
        let mut cube: Vec<Vec<Vec<LifeDataContainer>>> = Vec::new();
        proof {
            assert(binder.events() =~= e0 + genesis_events_grid(old_grid@, new_grid@)
                + genesis_events_cube(old_grid@, cube@, tetra));
        }
        for x in 0..size
            invariant
                grid_wf(old_grid@, s),
                1 <= size,
                6 * s * s * s <= i64::MAX,
                s == size as int,
                binder.events() == e0 + genesis_events_grid(old_grid@, new_grid@)
                    + genesis_events_cube(old_grid@, cube@, tetra),
                n < 6,
                tetra == tetra_at(n as int),
                tetra.index_spec() == n as int,
                new_grid@.len() == n,
                forall|k: int| 0 <= k < n ==> (#[trigger] new_grid@[k])@.len() == s,
                forall|k: int, j: int|
                    0 <= k < n && 0 <= j < s ==> (#[trigger] new_grid@[k]@[j])@.len() == s,
                forall|k: int, j: int, i: int|
                    0 <= k < n && 0 <= j < s && 0 <= i < s
                        ==> (#[trigger] new_grid@[k]@[j]@[i])@.len() == s,
                cube@.len() == x,
                forall|j: int| 0 <= j < x ==> (#[trigger] cube@[j])@.len() == s,
                forall|j: int, i: int|
                    0 <= j < x && 0 <= i < s ==> (#[trigger] cube@[j]@[i])@.len() == s,
                new_count == count_grid(new_grid@) + count_cube(cube@),
        {
            let mut plane: Vec<Vec<LifeDataContainer>> = Vec::new();
            proof {
                assert(binder.events() =~= e0 + genesis_events_grid(old_grid@, new_grid@)
                    + genesis_events_cube(old_grid@, cube@, tetra) + genesis_events_plane(
                    old_grid@,
                    plane@,
                    tetra,
                    x as int,
                ));
            }
            for y in 0..size
                invariant
                    grid_wf(old_grid@, s),
                    1 <= size,
                    6 * s * s * s <= i64::MAX,
                    s == size as int,
                    binder.events() == e0 + genesis_events_grid(old_grid@, new_grid@)
                        + genesis_events_cube(old_grid@, cube@, tetra) + genesis_events_plane(
                        old_grid@,
                        plane@,
                        tetra,
                        x as int,
                    ),
                    n < 6,
                    x < size,
                    tetra == tetra_at(n as int),
                    tetra.index_spec() == n as int,
                    new_grid@.len() == n,
                    forall|k: int| 0 <= k < n ==> (#[trigger] new_grid@[k])@.len() == s,
                    forall|k: int, j: int|
                        0 <= k < n && 0 <= j < s ==> (#[trigger] new_grid@[k]@[j])@.len() == s,
                    forall|k: int, j: int, i: int|
                        0 <= k < n && 0 <= j < s && 0 <= i < s
                            ==> (#[trigger] new_grid@[k]@[j]@[i])@.len() == s,
                    cube@.len() == x,
                    forall|j: int| 0 <= j < x ==> (#[trigger] cube@[j])@.len() == s,
                    forall|j: int, i: int|
                        0 <= j < x && 0 <= i < s ==> (#[trigger] cube@[j]@[i])@.len() == s,
                    plane@.len() == y,
                    forall|i: int| 0 <= i < y ==> (#[trigger] plane@[i])@.len() == s,
                    new_count == count_grid(new_grid@) + count_cube(cube@) + count_plane(plane@),
            {
                let mut row: Vec<LifeDataContainer> = Vec::new();
                proof {
                    assert(binder.events() =~= e0 + genesis_events_grid(old_grid@, new_grid@)
                        + genesis_events_cube(old_grid@, cube@, tetra) + genesis_events_plane(
                        old_grid@,
                        plane@,
                        tetra,
                        x as int,
                    ) + genesis_events_row(old_grid@, row@, tetra, x as int, y as int));
                }
                for z in 0..size
                    invariant
                        grid_wf(old_grid@, s),
                        1 <= size,
                        6 * s * s * s <= i64::MAX,
                        s == size as int,
                        binder.events() == e0 + genesis_events_grid(old_grid@, new_grid@)
                            + genesis_events_cube(old_grid@, cube@, tetra) + genesis_events_plane(
                            old_grid@,
                            plane@,
                            tetra,
                            x as int,
                        ) + genesis_events_row(old_grid@, row@, tetra, x as int, y as int),
                        n < 6,
                        x < size,
                        y < size,
                        tetra == tetra_at(n as int),
                        tetra.index_spec() == n as int,
                        new_grid@.len() == n,
                        forall|k: int| 0 <= k < n ==> (#[trigger] new_grid@[k])@.len() == s,
                        forall|k: int, j: int|
                            0 <= k < n && 0 <= j < s ==> (#[trigger] new_grid@[k]@[j])@.len() == s,
                        forall|k: int, j: int, i: int|
                            0 <= k < n && 0 <= j < s && 0 <= i < s
                                ==> (#[trigger] new_grid@[k]@[j]@[i])@.len() == s,
                        cube@.len() == x,
                        forall|j: int| 0 <= j < x ==> (#[trigger] cube@[j])@.len() == s,
                        forall|j: int, i: int|
                            0 <= j < x && 0 <= i < s ==> (#[trigger] cube@[j]@[i])@.len() == s,
                        plane@.len() == y,
                        forall|i: int| 0 <= i < y ==> (#[trigger] plane@[i])@.len() == s,
                        row@.len() == z,
                        new_count == count_grid(new_grid@) + count_cube(cube@) + count_plane(
                            plane@,
                        ) + count_row(row@),
                {
                    let ghost evs = binder.events();
                    let old_cell = old_grid[n][x][y][z];
                    match old_cell {
                        LifeDataContainer::Alive(h) => binder.despawn(h),
                        LifeDataContainer::Dead => (),
                    }
                    let new_cell: LifeDataContainer = if random_bool() {
                        LifeDataContainer::Alive(binder.spawn(tetra, x, y, z))
                    } else {
                        LifeDataContainer::Dead
                    };
                    proof {
                        assert(binder.events() =~= evs + genesis_cell_events(
                            old_cell,
                            new_cell,
                            tetra,
                            x as int,
                            y as int,
                            z as int,
                        ));
                    }
                    if new_cell.alive() {
                        proof {
                            lemma_count_grid_le(new_grid@, s);
                            lemma_count_cube_le(cube@, s);
                            lemma_count_plane_le(plane@, s);
                            lemma_count_row_le(row@);
                            assert(count_grid(new_grid@) <= (n as int) * (s * s * s))
                                by (nonlinear_arith)
                                requires
                                    count_grid(new_grid@) <= new_grid@.len() * s * s * s,
                                    new_grid@.len() == n as int,
                            ;
                            assert(count_cube(cube@) <= (x as int) * (s * s)) by (nonlinear_arith)
                                requires
                                    count_cube(cube@) <= cube@.len() * s * s,
                                    cube@.len() == x as int,
                            ;
                            lemma_partial_count_bound(
                                count_grid(new_grid@),
                                count_cube(cube@),
                                count_plane(plane@),
                                count_row(row@),
                                n as int,
                                x as int,
                                y as int,
                                z as int,
                                s,
                            );
                        }
                        new_count = new_count + 1;
                    }
                    proof {
                        lemma_count_row_push(row@, new_cell);
                        lemma_genesis_events_row_push(
                            old_grid@,
                            row@,
                            new_cell,
                            tetra,
                            x as int,
                            y as int,
                        );
                        assert(cell_at(old_grid@, tetra.index_spec(), x as int, y as int, z as int)
                            == old_cell);
                    }
                    row.push(new_cell);
                    proof {
                        assert(binder.events() =~= e0 + genesis_events_grid(old_grid@, new_grid@)
                            + genesis_events_cube(old_grid@, cube@, tetra) + genesis_events_plane(
                            old_grid@,
                            plane@,
                            tetra,
                            x as int,
                        ) + genesis_events_row(old_grid@, row@, tetra, x as int, y as int));
                    }
                }
                proof {
                    lemma_count_plane_push(plane@, row);
                    lemma_genesis_events_plane_push(old_grid@, plane@, row, tetra, x as int);
                }
                plane.push(row);
                proof {
                    assert(binder.events() =~= e0 + genesis_events_grid(old_grid@, new_grid@)
                        + genesis_events_cube(old_grid@, cube@, tetra) + genesis_events_plane(
                        old_grid@,
                        plane@,
                        tetra,
                        x as int,
                    ));
                }
            }
            proof {
                lemma_count_cube_push(cube@, plane);
                lemma_genesis_events_cube_push(old_grid@, cube@, plane, tetra);
            }
            cube.push(plane);
            proof {
                assert(binder.events() =~= e0 + genesis_events_grid(old_grid@, new_grid@)
                    + genesis_events_cube(old_grid@, cube@, tetra));
            }
        }
        proof {
            lemma_count_grid_push(new_grid@, cube);
            lemma_genesis_events_grid_push(old_grid@, new_grid@, cube);
        }
        new_grid.push(cube);
        proof {
            assert(binder.events() =~= e0 + genesis_events_grid(old_grid@, new_grid@));
        }
    }
    proof {
        assert((e0 + genesis_events_grid(old_grid@, new_grid@)).subrange(0, e0.len() as int)
            =~= e0);
    }
    (new_grid, new_count)
}

/// Advances the universe by exactly one generation.
///
/// On the genesis tick (generation 1) every cell is reseeded from one
/// independent coin flip and the neighbour rule is never consulted, so the
/// new population equals however many flips came up alive. On a steady tick
/// (generation above 1, population above 1) every cell follows the update
/// rule computed against the immutable previous generation, and the binder
/// sees exactly one spawn per birth and one despawn per death, in scan
/// order, and nothing else. On a degenerate tick (population at most 1) no
/// birth is possible and the grid is left untouched. In every case the
/// generation counter grows by exactly 1 and the population counter equals
/// the number of alive cells in the grid.
pub fn run<B: LifecycleBinder>(session: &mut SessionResource, binder: &mut B)
    requires
        old(session).wf(),
        old(session).generation < i64::MAX,
    ensures
        final(session).wf(),
        final(session).generation == old(session).generation + 1,
        final(session).universe_size == old(session).universe_size,
        final(session).counter == count_grid(final(session).life@),
        old(session).generation == 1 ==> final(session).generation == 2
            && final(binder).events() == old(binder).events() + genesis_events_grid(
            old(session).life@,
            final(session).life@,
        ),
        old(session).generation > 1 && old(session).counter > 1 ==> grid_stepped(
            old(session).life@,
            final(session).life@,
            old(session).size(),
        ),
        old(session).generation > 1 && old(session).counter <= 1 ==> final(session).life == old(
            session,
        ).life && final(session).counter == old(session).counter && final(binder).events() == old(
            binder,
        ).events(),
        old(session).generation > 1 && old(session).counter > 1 ==> final(binder).events() == old(
            binder,
        ).events() + events_grid(old(session).life@, final(session).life@, old(session).size()),
        extends(final(binder).events(), old(binder).events()),
{
    proof {
        lemma_extends_refl(old(binder).events());
    }
    let size = session.universe_size;
    if session.generation == 1 {
        let (new_grid, new_count) = genesis_grid(&session.life, size, binder);
        session.life = new_grid;
        session.counter = new_count;
    } else if session.counter > 1 {
        let (new_grid, new_count) = stepped_grid(&session.life, size, binder);
        session.life = new_grid;
        session.counter = new_count;
    }
    session.generation = session.generation + 1;
}

} // verus!
