//! What holds of every mesh that `build_mesh` produces.

use vstd::prelude::*;

use crate::mesh::{
    bottom_cap, corner, cell_triangles, east_wall, height, in_grid, is_rectangular, mesh_of, north_wall,
    raised, row_triangles, rows_triangles, south_wall, top_cap, wall_if, west_wall, width, Corner,
    Facing, Triangle,
};

verus! {

broadcast use vstd::seq_lib::lemma_seq_concat_contains_all_elements;

pub open spec fn pair_has(s: Seq<Triangle>, t: Triangle) -> bool {
    t == s[0] || t == s[1]
}

/// Whether cell `(r, c)` emits `t`, spelled out part by part.
pub open spec fn cell_emits(g: Seq<Seq<bool>>, r: int, c: int, t: Triangle) -> bool {
    &&& raised(g, r, c)
    &&& {
        ||| pair_has(top_cap(r, c), t)
        ||| pair_has(bottom_cap(r, c), t)
        ||| !raised(g, r - 1, c) && pair_has(north_wall(r, c), t)
        ||| !raised(g, r + 1, c) && pair_has(south_wall(r, c), t)
        ||| !raised(g, r, c - 1) && pair_has(west_wall(r, c), t)
        ||| !raised(g, r, c + 1) && pair_has(east_wall(r, c), t)
    }
}

proof fn lemma_pair_contains(s: Seq<Triangle>, t: Triangle)
    requires
        s.len() == 2,
    ensures
        s.contains(t) <==> pair_has(s, t),
{
    if pair_has(s, t) {
        if t == s[0] {
            assert(s[0] == t);
        } else {
            assert(s[1] == t);
        }
    }
}

proof fn lemma_cell_contains(g: Seq<Seq<bool>>, r: int, c: int, t: Triangle)
    ensures
        cell_triangles(g, r, c).contains(t) <==> cell_emits(g, r, c, t),
{
    lemma_pair_contains(top_cap(r, c), t);
    lemma_pair_contains(bottom_cap(r, c), t);
    lemma_pair_contains(north_wall(r, c), t);
    lemma_pair_contains(south_wall(r, c), t);
    lemma_pair_contains(west_wall(r, c), t);
    lemma_pair_contains(east_wall(r, c), t);
    assert(!Seq::<Triangle>::empty().contains(t));
}

proof fn lemma_row_contains(g: Seq<Seq<bool>>, r: int, n: int, t: Triangle)
    ensures
        row_triangles(g, r, n).contains(t) <==> exists|c: int| 0 <= c < n && #[trigger] cell_emits(g, r, c, t),
    decreases n,
{
    if n <= 0 {
        assert(!Seq::<Triangle>::empty().contains(t));
    } else {
        lemma_row_contains(g, r, n - 1, t);
        lemma_cell_contains(g, r, n - 1, t);
        if exists|c: int| 0 <= c < n && #[trigger] cell_emits(g, r, c, t) {
            let c = choose|c: int| 0 <= c < n && #[trigger] cell_emits(g, r, c, t);
            if c < n - 1 {
                assert(exists|c: int| 0 <= c < n - 1 && #[trigger] cell_emits(g, r, c, t));
            }
        }
    }
}

proof fn lemma_rows_contains(g: Seq<Seq<bool>>, n: int, t: Triangle)
    ensures
        rows_triangles(g, n).contains(t) <==> exists|r: int, c: int|
            0 <= r < n && 0 <= c < width(g) && #[trigger] cell_emits(g, r, c, t),
    decreases n,
{
    if n <= 0 {
        assert(!Seq::<Triangle>::empty().contains(t));
    } else {
        lemma_rows_contains(g, n - 1, t);
        lemma_row_contains(g, n - 1, width(g), t);
        if exists|r: int, c: int| 0 <= r < n && 0 <= c < width(g) && #[trigger] cell_emits(g, r, c, t) {
            let (r, c) = choose|r: int, c: int| 0 <= r < n && 0 <= c < width(g) && #[trigger] cell_emits(g, r, c, t);
            if r < n - 1 {
                assert(exists|r: int, c: int| 0 <= r < n - 1 && 0 <= c < width(g) && #[trigger] cell_emits(g, r, c, t));
            } else {
                assert(exists|c: int| 0 <= c < width(g) && #[trigger] cell_emits(g, n - 1, c, t));
            }
        }
    }
}

/// A triangle is in the mesh exactly when some cell of the grid emits it.
pub proof fn lemma_mesh_contains(g: Seq<Seq<bool>>, t: Triangle)
    ensures
        mesh_of(g).contains(t) <==> exists|r: int, c: int| in_grid(g, r, c) && #[trigger] cell_emits(g, r, c, t),
{
    lemma_rows_contains(g, height(g), t);
}

pub open spec fn corner_on_column_edge(k: Corner, x: int, r: int) -> bool {
    k.col == x && (k.row == r || k.row == r + 1)
}

/// Whether all of `t` lies on the column line `x` between row lines `r` and
/// `r + 1`: the face between cells `(r, x - 1)` and `(r, x)`.
pub open spec fn on_column_edge(t: Triangle, x: int, r: int) -> bool {
    corner_on_column_edge(t.a, x, r) && corner_on_column_edge(t.b, x, r) && corner_on_column_edge(t.c, x, r)
}

/// Between two side-by-side cells the mesh holds a wall only where one of
/// them is raised and the other flat, and then exactly the two triangles of
/// the raised cell's wall: two raised neighbours share no wall.
pub proof fn lemma_shared_edge_walls(g: Seq<Seq<bool>>, r: int, c: int)
    requires
        is_rectangular(g),
        in_grid(g, r, c),
        in_grid(g, r, c + 1),
    ensures
        forall|t: Triangle| #[trigger] mesh_of(g).contains(t) && on_column_edge(t, c + 1, r) <==> {
            ||| raised(g, r, c) && !raised(g, r, c + 1) && pair_has(east_wall(r, c), t)
            ||| !raised(g, r, c) && raised(g, r, c + 1) && pair_has(west_wall(r, c + 1), t)
        },
{
    assert forall|t: Triangle| #[trigger] mesh_of(g).contains(t) && on_column_edge(t, c + 1, r) <==> {
        ||| raised(g, r, c) && !raised(g, r, c + 1) && pair_has(east_wall(r, c), t)
        ||| !raised(g, r, c) && raised(g, r, c + 1) && pair_has(west_wall(r, c + 1), t)
    } by {
        lemma_mesh_contains(g, t);
        if mesh_of(g).contains(t) && on_column_edge(t, c + 1, r) {
            let (r2, c2) = choose|r2: int, c2: int| in_grid(g, r2, c2) && #[trigger] cell_emits(g, r2, c2, t);
            assert(cell_emits(g, r2, c2, t));
        }
        if raised(g, r, c) && !raised(g, r, c + 1) && pair_has(east_wall(r, c), t) {
            assert(cell_emits(g, r, c, t));
        }
        if !raised(g, r, c) && raised(g, r, c + 1) && pair_has(west_wall(r, c + 1), t) {
            assert(cell_emits(g, r, c + 1, t));
        }
    }
}

/// A raised cell on the rim of the grid has a wall on every side that faces
/// the rim, whatever its neighbours are.
pub proof fn lemma_rim_walls(g: Seq<Seq<bool>>, r: int, c: int)
    requires
        is_rectangular(g),
        raised(g, r, c),
    ensures
        r == 0 ==> mesh_of(g).contains(north_wall(r, c)[0]) && mesh_of(g).contains(north_wall(r, c)[1]),
        r == height(g) - 1 ==> mesh_of(g).contains(south_wall(r, c)[0]) && mesh_of(g).contains(south_wall(r, c)[1]),
        c == 0 ==> mesh_of(g).contains(west_wall(r, c)[0]) && mesh_of(g).contains(west_wall(r, c)[1]),
        c == width(g) - 1 ==> mesh_of(g).contains(east_wall(r, c)[0]) && mesh_of(g).contains(east_wall(r, c)[1]),
{
    let walls = seq![north_wall(r, c), south_wall(r, c), west_wall(r, c), east_wall(r, c)];
    assert forall|i: int, j: int| 0 <= i < 4 && 0 <= j < 2 && cell_emits(g, r, c, #[trigger] walls[i][j])
        implies mesh_of(g).contains(walls[i][j]) by {
        lemma_mesh_contains(g, walls[i][j]);
    }
    assert(r == 0 ==> cell_emits(g, r, c, walls[0][0]) && cell_emits(g, r, c, walls[0][1]));
    assert(r == height(g) - 1 ==> cell_emits(g, r, c, walls[1][0]) && cell_emits(g, r, c, walls[1][1]));
    assert(c == 0 ==> cell_emits(g, r, c, walls[2][0]) && cell_emits(g, r, c, walls[2][1]));
    assert(c == width(g) - 1 ==> cell_emits(g, r, c, walls[3][0]) && cell_emits(g, r, c, walls[3][1]));
}

/// How many triangles of `s` face `f`.
pub open spec fn count_facing(s: Seq<Triangle>, f: Facing) -> nat
    decreases s.len(),
{
    if s.len() == 0 {
        0
    } else {
        count_facing(s.drop_last(), f) + if s.last().facing == f { 1nat } else { 0nat }
    }
}

proof fn lemma_count_concat(a: Seq<Triangle>, b: Seq<Triangle>, f: Facing)
    ensures
        count_facing(a + b, f) == count_facing(a, f) + count_facing(b, f),
    decreases b.len(),
{
    if b.len() == 0 {
        assert(a + b =~= a);
    } else {
        assert((a + b).drop_last() =~= a + b.drop_last());
        lemma_count_concat(a, b.drop_last(), f);
    }
}

proof fn lemma_count_pair(s: Seq<Triangle>, f: Facing)
    requires
        s.len() == 2,
    ensures
        count_facing(s, f) == (if s[0].facing == f { 1nat } else { 0nat }) + (if s[1].facing == f { 1nat } else { 0nat }),
{
    let s1 = s.drop_last();
    assert(s1.drop_last() =~= Seq::<Triangle>::empty());
    assert(s1.last() == s[0]);
    assert(count_facing(s1.drop_last(), f) == 0);
    assert(count_facing(s1, f) == (if s[0].facing == f { 1nat } else { 0nat }));
}

proof fn lemma_count_wall(open: bool, wall: Seq<Triangle>, f: Facing)
    requires
        wall.len() == 2,
        wall[0].facing != f,
        wall[1].facing != f,
    ensures
        count_facing(wall_if(open, wall), f) == 0,
{
    lemma_count_pair(wall, f);
}

proof fn lemma_caps_facing(g: Seq<Seq<bool>>, r: int, c: int, f: Facing)
    requires
        f == Facing::Up || f == Facing::Down,
    ensures
        count_facing(cell_triangles(g, r, c), f) == (if raised(g, r, c) { 2nat } else { 0nat }),
{
    if raised(g, r, c) {
        let n = wall_if(!raised(g, r - 1, c), north_wall(r, c));
        let so = wall_if(!raised(g, r + 1, c), south_wall(r, c));
        let w = wall_if(!raised(g, r, c - 1), west_wall(r, c));
        let e = wall_if(!raised(g, r, c + 1), east_wall(r, c));
        lemma_count_pair(top_cap(r, c), f);
        lemma_count_pair(bottom_cap(r, c), f);
        lemma_count_wall(!raised(g, r - 1, c), north_wall(r, c), f);
        lemma_count_wall(!raised(g, r + 1, c), south_wall(r, c), f);
        lemma_count_wall(!raised(g, r, c - 1), west_wall(r, c), f);
        lemma_count_wall(!raised(g, r, c + 1), east_wall(r, c), f);
        lemma_count_concat(top_cap(r, c), bottom_cap(r, c), f);
        let s1 = top_cap(r, c) + bottom_cap(r, c);
        lemma_count_concat(s1, n, f);
        lemma_count_concat(s1 + n, so, f);
        lemma_count_concat(s1 + n + so, w, f);
        lemma_count_concat(s1 + n + so + w, e, f);
    }
}

/// Each raised cell adds exactly two triangles facing up and two facing
/// down; a flat cell adds none.
pub proof fn lemma_caps_per_cell(g: Seq<Seq<bool>>, r: int, c: int)
    ensures
        count_facing(cell_triangles(g, r, c), Facing::Up) == (if raised(g, r, c) { 2nat } else { 0nat }),
        count_facing(cell_triangles(g, r, c), Facing::Down) == (if raised(g, r, c) { 2nat } else { 0nat }),
{
    lemma_caps_facing(g, r, c, Facing::Up);
    lemma_caps_facing(g, r, c, Facing::Down);
}

pub open spec fn on_lattice(g: Seq<Seq<bool>>, k: Corner) -> bool {
    k.col <= width(g) && k.row <= height(g) && k.level <= 1
}

/// Every vertex of the mesh is one of the `(width + 1) * (height + 1) * 2`
/// lattice corners, so wherever triangles of different cells meet they hold
/// the very same corner value.
pub proof fn lemma_vertices_on_lattice(g: Seq<Seq<bool>>, t: Triangle)
    requires
        is_rectangular(g),
        mesh_of(g).contains(t),
    ensures
        on_lattice(g, t.a),
        on_lattice(g, t.b),
        on_lattice(g, t.c),
{
    lemma_mesh_contains(g, t);
    let (r, c) = choose|r: int, c: int| in_grid(g, r, c) && #[trigger] cell_emits(g, r, c, t);
    assert(cell_emits(g, r, c, t));
}

/// Two raised side-by-side cells meet along the corners `(c + 1, r)` and
/// `(c + 1, r + 1)` of both levels, and their caps use the same corner
/// values there.
pub proof fn lemma_shared_corners(r: int, c: int)
    ensures
        top_cap(r, c)[1].c == top_cap(r, c + 1)[0].a,
        top_cap(r, c)[1].b == top_cap(r, c + 1)[0].b,
        bottom_cap(r, c)[1].b == bottom_cap(r, c + 1)[0].a,
        bottom_cap(r, c)[1].c == bottom_cap(r, c + 1)[0].c,
{
}

/// The outward unit normal of a facing, in lattice axes: x grows with the
/// column, y against the row (row 0 is at the top), z with the level.
pub open spec fn normal_of(f: Facing) -> (int, int, int) {
    match f {
        Facing::Up => (0, 0, 1),
        Facing::Down => (0, 0, -1),
        Facing::North => (0, 1, 0),
        Facing::South => (0, -1, 0),
        Facing::West => (-1, 0, 0),
        Facing::East => (1, 0, 0),
    }
}

pub open spec fn position(k: Corner) -> (int, int, int) {
    (k.col as int, -(k.row as int), k.level as int)
}

pub open spec fn minus(p: (int, int, int), q: (int, int, int)) -> (int, int, int) {
    (p.0 - q.0, p.1 - q.1, p.2 - q.2)
}

pub open spec fn cross(u: (int, int, int), v: (int, int, int)) -> (int, int, int) {
    (u.1 * v.2 - u.2 * v.1, u.2 * v.0 - u.0 * v.2, u.0 * v.1 - u.1 * v.0)
}

/// By the right-hand rule the corners of `t` turn about its outward normal.
pub open spec fn winding_matches(t: Triangle) -> bool {
    cross(minus(position(t.b), position(t.a)), minus(position(t.c), position(t.a))) == normal_of(t.facing)
}

proof fn lemma_winds(t: Triangle, u0: int, u1: int, u2: int, v0: int, v1: int, v2: int)
    requires
        minus(position(t.b), position(t.a)) == (u0, u1, u2),
        minus(position(t.c), position(t.a)) == (v0, v1, v2),
        normal_of(t.facing) == (u1 * v2 - u2 * v1, u2 * v0 - u0 * v2, u0 * v1 - u1 * v0),
    ensures
        winding_matches(t),
{
}

proof fn lemma_cell_winding(r: int, c: int)
    requires
        0 <= r < usize::MAX,
        0 <= c < usize::MAX,
    ensures
        winding_matches(top_cap(r, c)[0]) && winding_matches(top_cap(r, c)[1]),
        winding_matches(bottom_cap(r, c)[0]) && winding_matches(bottom_cap(r, c)[1]),
        winding_matches(north_wall(r, c)[0]) && winding_matches(north_wall(r, c)[1]),
        winding_matches(south_wall(r, c)[0]) && winding_matches(south_wall(r, c)[1]),
        winding_matches(west_wall(r, c)[0]) && winding_matches(west_wall(r, c)[1]),
        winding_matches(east_wall(r, c)[0]) && winding_matches(east_wall(r, c)[1]),
{
    lemma_winds(top_cap(r, c)[0], 0, -1, 0, 1, -1, 0);
    lemma_winds(top_cap(r, c)[1], 1, -1, 0, 1, 0, 0);
    lemma_winds(bottom_cap(r, c)[0], 1, -1, 0, 0, -1, 0);
    lemma_winds(bottom_cap(r, c)[1], 1, 0, 0, 1, -1, 0);
    lemma_winds(north_wall(r, c)[0], 0, 0, 1, 1, 0, 1);
    lemma_winds(north_wall(r, c)[1], 1, 0, 1, 1, 0, 0);
    lemma_winds(south_wall(r, c)[0], 1, 0, 0, 1, 0, 1);
    lemma_winds(south_wall(r, c)[1], 1, 0, 1, 0, 0, 1);
    lemma_winds(west_wall(r, c)[0], 0, 1, 1, 0, 1, 0);
    lemma_winds(west_wall(r, c)[1], 0, 0, 1, 0, 1, 1);
    lemma_winds(east_wall(r, c)[0], 0, 1, 0, 0, 1, 1);
    lemma_winds(east_wall(r, c)[1], 0, 1, 1, 0, 0, 1);
}

/// Every triangle of the mesh winds about its declared outward normal.
pub proof fn lemma_winding(g: Seq<Seq<bool>>, t: Triangle)
    requires
        is_rectangular(g),
        mesh_of(g).contains(t),
    ensures
        winding_matches(t),
{
    lemma_mesh_contains(g, t);
    let (r, c) = choose|r: int, c: int| in_grid(g, r, c) && #[trigger] cell_emits(g, r, c, t);
    lemma_cell_winding(r, c);
}

/// Whether `t` has the directed edge from `p` to `q`.
pub open spec fn has_edge(t: Triangle, p: Corner, q: Corner) -> bool {
    ||| t.a == p && t.b == q
    ||| t.b == p && t.c == q
    ||| t.c == p && t.a == q
}

/// Whether some triangle of the mesh runs along the edge from `q` back to `p`.
pub open spec fn has_reverse(g: Seq<Seq<bool>>, p: Corner, q: Corner) -> bool {
    exists|t: Triangle| #[trigger] mesh_of(g).contains(t) && has_edge(t, q, p)
}

/// Every edge of `t` is run back along by some triangle of the mesh.
pub open spec fn edges_closed(g: Seq<Seq<bool>>, t: Triangle) -> bool {
    has_reverse(g, t.a, t.b) && has_reverse(g, t.b, t.c) && has_reverse(g, t.c, t.a)
}

proof fn emits(g: Seq<Seq<bool>>, r: int, c: int, t: Triangle)
    requires
        cell_emits(g, r, c, t),
    ensures
        mesh_of(g).contains(t),
{
    lemma_mesh_contains(g, t);
}

// One lemma for each of the twelve triangles a cell can emit, naming for
// each of its edges a triangle that runs it back. A cap edge is run back by
// the neighbour's cap or by the cell's own wall. The vertical end of a wall
// is run back by the cell's own wall round the corner, by the neighbour's
// wall that carries on straight, or by the wall of the cell diagonally
// across, whichever of them the neighbours leave in place.

proof fn lemma_top_0_closed(g: Seq<Seq<bool>>, r: int, c: int)
    requires
        is_rectangular(g),
        raised(g, r, c),
    ensures
        edges_closed(g, top_cap(r, c)[0]),
{
    let t = top_cap(r, c)[0];
    {
        if raised(g, r, c - 1) {
            emits(g, r, c - 1, top_cap(r, c - 1)[1]);
        } else {
            emits(g, r, c, west_wall(r, c)[1]);
        }
        assert(has_edge(t, t.a, t.b));
    }
    {
        if raised(g, r + 1, c) {
            emits(g, r + 1, c, top_cap(r + 1, c)[1]);
        } else {
            emits(g, r, c, south_wall(r, c)[1]);
        }
        assert(has_edge(t, t.b, t.c));
    }
    {
        emits(g, r, c, top_cap(r, c)[1]);
        assert(has_edge(t, t.c, t.a));
    }
}

proof fn lemma_top_1_closed(g: Seq<Seq<bool>>, r: int, c: int)
    requires
        is_rectangular(g),
        raised(g, r, c),
    ensures
        edges_closed(g, top_cap(r, c)[1]),
{
    let t = top_cap(r, c)[1];
    {
        emits(g, r, c, top_cap(r, c)[0]);
        assert(has_edge(t, t.a, t.b));
    }
    {
        if raised(g, r, c + 1) {
            emits(g, r, c + 1, top_cap(r, c + 1)[0]);
        } else {
            emits(g, r, c, east_wall(r, c)[1]);
        }
        assert(has_edge(t, t.b, t.c));
    }
    {
        if raised(g, r - 1, c) {
            emits(g, r - 1, c, top_cap(r - 1, c)[0]);
        } else {
            emits(g, r, c, north_wall(r, c)[0]);
        }
        assert(has_edge(t, t.c, t.a));
    }
}

proof fn lemma_bottom_0_closed(g: Seq<Seq<bool>>, r: int, c: int)
    requires
        is_rectangular(g),
        raised(g, r, c),
    ensures
        edges_closed(g, bottom_cap(r, c)[0]),
{
    let t = bottom_cap(r, c)[0];
    {
        emits(g, r, c, bottom_cap(r, c)[1]);
        assert(has_edge(t, t.a, t.b));
    }
    {
        if raised(g, r + 1, c) {
            emits(g, r + 1, c, bottom_cap(r + 1, c)[1]);
        } else {
            emits(g, r, c, south_wall(r, c)[0]);
        }
        assert(has_edge(t, t.b, t.c));
    }
    {
        if raised(g, r, c - 1) {
            emits(g, r, c - 1, bottom_cap(r, c - 1)[1]);
        } else {
            emits(g, r, c, west_wall(r, c)[0]);
        }
        assert(has_edge(t, t.c, t.a));
    }
}

proof fn lemma_bottom_1_closed(g: Seq<Seq<bool>>, r: int, c: int)
    requires
        is_rectangular(g),
        raised(g, r, c),
    ensures
        edges_closed(g, bottom_cap(r, c)[1]),
{
    let t = bottom_cap(r, c)[1];
    {
        if raised(g, r - 1, c) {
            emits(g, r - 1, c, bottom_cap(r - 1, c)[0]);
        } else {
            emits(g, r, c, north_wall(r, c)[1]);
        }
        assert(has_edge(t, t.a, t.b));
    }
    {
        if raised(g, r, c + 1) {
            emits(g, r, c + 1, bottom_cap(r, c + 1)[0]);
        } else {
            emits(g, r, c, east_wall(r, c)[0]);
        }
        assert(has_edge(t, t.b, t.c));
    }
    {
        emits(g, r, c, bottom_cap(r, c)[0]);
        assert(has_edge(t, t.c, t.a));
    }
}

proof fn lemma_north_0_closed(g: Seq<Seq<bool>>, r: int, c: int)
    requires
        is_rectangular(g),
        raised(g, r, c),
        !raised(g, r - 1, c),
    ensures
        edges_closed(g, north_wall(r, c)[0]),
{
    let t = north_wall(r, c)[0];
    {
        if !raised(g, r, c - 1) {
            emits(g, r, c, west_wall(r, c)[0]);
        } else if !raised(g, r - 1, c - 1) {
            emits(g, r, c - 1, north_wall(r, c - 1)[1]);
        } else {
            emits(g, r - 1, c - 1, east_wall(r - 1, c - 1)[1]);
        }
        assert(has_edge(t, t.a, t.b));
    }
    {
        emits(g, r, c, top_cap(r, c)[1]);
        assert(has_edge(t, t.b, t.c));
    }
    {
        emits(g, r, c, north_wall(r, c)[1]);
        assert(has_edge(t, t.c, t.a));
    }
}

proof fn lemma_north_1_closed(g: Seq<Seq<bool>>, r: int, c: int)
    requires
        is_rectangular(g),
        raised(g, r, c),
        !raised(g, r - 1, c),
    ensures
        edges_closed(g, north_wall(r, c)[1]),
{
    let t = north_wall(r, c)[1];
    {
        emits(g, r, c, north_wall(r, c)[0]);
        assert(has_edge(t, t.a, t.b));
    }
    {
        if !raised(g, r, c + 1) {
            emits(g, r, c, east_wall(r, c)[0]);
        } else if !raised(g, r - 1, c + 1) {
            emits(g, r, c + 1, north_wall(r, c + 1)[0]);
        } else {
            emits(g, r - 1, c + 1, west_wall(r - 1, c + 1)[1]);
        }
        assert(has_edge(t, t.b, t.c));
    }
    {
        emits(g, r, c, bottom_cap(r, c)[1]);
        assert(has_edge(t, t.c, t.a));
    }
}

proof fn lemma_south_0_closed(g: Seq<Seq<bool>>, r: int, c: int)
    requires
        is_rectangular(g),
        raised(g, r, c),
        !raised(g, r + 1, c),
    ensures
        edges_closed(g, south_wall(r, c)[0]),
{
    let t = south_wall(r, c)[0];
    {
        emits(g, r, c, bottom_cap(r, c)[0]);
        assert(has_edge(t, t.a, t.b));
    }
    {
        if !raised(g, r, c + 1) {
            emits(g, r, c, east_wall(r, c)[1]);
        } else if !raised(g, r + 1, c + 1) {
            emits(g, r, c + 1, south_wall(r, c + 1)[1]);
        } else {
            emits(g, r + 1, c + 1, west_wall(r + 1, c + 1)[0]);
        }
        assert(has_edge(t, t.b, t.c));
    }
    {
        emits(g, r, c, south_wall(r, c)[1]);
        assert(has_edge(t, t.c, t.a));
    }
}

proof fn lemma_south_1_closed(g: Seq<Seq<bool>>, r: int, c: int)
    requires
        is_rectangular(g),
        raised(g, r, c),
        !raised(g, r + 1, c),
    ensures
        edges_closed(g, south_wall(r, c)[1]),
{
    let t = south_wall(r, c)[1];
    {
        emits(g, r, c, south_wall(r, c)[0]);
        assert(has_edge(t, t.a, t.b));
    }
    {
        emits(g, r, c, top_cap(r, c)[0]);
        assert(has_edge(t, t.b, t.c));
    }
    {
        if !raised(g, r, c - 1) {
            emits(g, r, c, west_wall(r, c)[1]);
        } else if !raised(g, r + 1, c - 1) {
            emits(g, r, c - 1, south_wall(r, c - 1)[0]);
        } else {
            emits(g, r + 1, c - 1, east_wall(r + 1, c - 1)[0]);
        }
        assert(has_edge(t, t.c, t.a));
    }
}

proof fn lemma_west_0_closed(g: Seq<Seq<bool>>, r: int, c: int)
    requires
        is_rectangular(g),
        raised(g, r, c),
        !raised(g, r, c - 1),
    ensures
        edges_closed(g, west_wall(r, c)[0]),
{
    let t = west_wall(r, c)[0];
    {
        emits(g, r, c, west_wall(r, c)[1]);
        assert(has_edge(t, t.a, t.b));
    }
    {
        if !raised(g, r - 1, c) {
            emits(g, r, c, north_wall(r, c)[0]);
        } else if !raised(g, r - 1, c - 1) {
            emits(g, r - 1, c, west_wall(r - 1, c)[1]);
        } else {
            emits(g, r - 1, c - 1, south_wall(r - 1, c - 1)[0]);
        }
        assert(has_edge(t, t.b, t.c));
    }
    {
        emits(g, r, c, bottom_cap(r, c)[0]);
        assert(has_edge(t, t.c, t.a));
    }
}

proof fn lemma_west_1_closed(g: Seq<Seq<bool>>, r: int, c: int)
    requires
        is_rectangular(g),
        raised(g, r, c),
        !raised(g, r, c - 1),
    ensures
        edges_closed(g, west_wall(r, c)[1]),
{
    let t = west_wall(r, c)[1];
    {
        if !raised(g, r + 1, c) {
            emits(g, r, c, south_wall(r, c)[1]);
        } else if !raised(g, r + 1, c - 1) {
            emits(g, r + 1, c, west_wall(r + 1, c)[0]);
        } else {
            emits(g, r + 1, c - 1, north_wall(r + 1, c - 1)[1]);
        }
        assert(has_edge(t, t.a, t.b));
    }
    {
        emits(g, r, c, top_cap(r, c)[0]);
        assert(has_edge(t, t.b, t.c));
    }
    {
        emits(g, r, c, west_wall(r, c)[0]);
        assert(has_edge(t, t.c, t.a));
    }
}

proof fn lemma_east_0_closed(g: Seq<Seq<bool>>, r: int, c: int)
    requires
        is_rectangular(g),
        raised(g, r, c),
        !raised(g, r, c + 1),
    ensures
        edges_closed(g, east_wall(r, c)[0]),
{
    let t = east_wall(r, c)[0];
    {
        emits(g, r, c, bottom_cap(r, c)[1]);
        assert(has_edge(t, t.a, t.b));
    }
    {
        if !raised(g, r - 1, c) {
            emits(g, r, c, north_wall(r, c)[1]);
        } else if !raised(g, r - 1, c + 1) {
            emits(g, r - 1, c, east_wall(r - 1, c)[1]);
        } else {
            emits(g, r - 1, c + 1, south_wall(r - 1, c + 1)[1]);
        }
        assert(has_edge(t, t.b, t.c));
    }
    {
        emits(g, r, c, east_wall(r, c)[1]);
        assert(has_edge(t, t.c, t.a));
    }
}

proof fn lemma_east_1_closed(g: Seq<Seq<bool>>, r: int, c: int)
    requires
        is_rectangular(g),
        raised(g, r, c),
        !raised(g, r, c + 1),
    ensures
        edges_closed(g, east_wall(r, c)[1]),
{
    let t = east_wall(r, c)[1];
    {
        emits(g, r, c, east_wall(r, c)[0]);
        assert(has_edge(t, t.a, t.b));
    }
    {
        emits(g, r, c, top_cap(r, c)[1]);
        assert(has_edge(t, t.b, t.c));
    }
    {
        if !raised(g, r + 1, c) {
            emits(g, r, c, south_wall(r, c)[0]);
        } else if !raised(g, r + 1, c + 1) {
            emits(g, r + 1, c, east_wall(r + 1, c)[0]);
        } else {
            emits(g, r + 1, c + 1, north_wall(r + 1, c + 1)[0]);
        }
        assert(has_edge(t, t.c, t.a));
    }
}

/// The mesh has no open edge: whenever a triangle of the mesh runs from `p`
/// to `q`, another triangle of the mesh runs from `q` back to `p`.
pub proof fn lemma_no_open_edges(g: Seq<Seq<bool>>, t: Triangle, p: Corner, q: Corner)
    requires
        is_rectangular(g),
        mesh_of(g).contains(t),
        has_edge(t, p, q),
    ensures
        has_reverse(g, p, q),
{
    lemma_mesh_contains(g, t);
    let (r, c) = choose|r: int, c: int| in_grid(g, r, c) && #[trigger] cell_emits(g, r, c, t);
    if t == top_cap(r, c)[0] {
        lemma_top_0_closed(g, r, c);
    }
    if t == top_cap(r, c)[1] {
        lemma_top_1_closed(g, r, c);
    }
    if t == bottom_cap(r, c)[0] {
        lemma_bottom_0_closed(g, r, c);
    }
    if t == bottom_cap(r, c)[1] {
        lemma_bottom_1_closed(g, r, c);
    }
    if !raised(g, r - 1, c) && t == north_wall(r, c)[0] {
        lemma_north_0_closed(g, r, c);
    }
    if !raised(g, r - 1, c) && t == north_wall(r, c)[1] {
        lemma_north_1_closed(g, r, c);
    }
    if !raised(g, r + 1, c) && t == south_wall(r, c)[0] {
        lemma_south_0_closed(g, r, c);
    }
    if !raised(g, r + 1, c) && t == south_wall(r, c)[1] {
        lemma_south_1_closed(g, r, c);
    }
    if !raised(g, r, c - 1) && t == west_wall(r, c)[0] {
        lemma_west_0_closed(g, r, c);
    }
    if !raised(g, r, c - 1) && t == west_wall(r, c)[1] {
        lemma_west_1_closed(g, r, c);
    }
    if !raised(g, r, c + 1) && t == east_wall(r, c)[0] {
        lemma_east_0_closed(g, r, c);
    }
    if !raised(g, r, c + 1) && t == east_wall(r, c)[1] {
        lemma_east_1_closed(g, r, c);
    }
}

/// Whether, in the block of cells `(r, c)` to `(r + 1, c + 1)`, two raised
/// cells touch only at the block's centre while the other two are flat.
pub open spec fn corner_contact_at(g: Seq<Seq<bool>>, r: int, c: int) -> bool {
    ||| raised(g, r, c) && raised(g, r + 1, c + 1) && !raised(g, r, c + 1) && !raised(g, r + 1, c)
    ||| raised(g, r, c + 1) && raised(g, r + 1, c) && !raised(g, r, c) && !raised(g, r + 1, c + 1)
}

/// No two raised cells of the grid touch only at a corner.
pub open spec fn no_corner_contact(g: Seq<Seq<bool>>) -> bool {
    forall|r: int, c: int| !#[trigger] corner_contact_at(g, r, c)
}

// One lemma for each of the twelve triangles a cell can emit: any triangle
// of the mesh that runs along one of its edges in the same direction is that
// triangle itself.

proof fn lemma_top_0_unique(g: Seq<Seq<bool>>, r: int, c: int, r2: int, c2: int, t2: Triangle, p: Corner, q: Corner)
    requires
        is_rectangular(g),
        no_corner_contact(g),
        raised(g, r, c),
        in_grid(g, r2, c2),
        cell_emits(g, r2, c2, t2),
        has_edge(top_cap(r, c)[0], p, q),
        has_edge(t2, p, q),
    ensures
        t2 == top_cap(r, c)[0],
{
    assert(!corner_contact_at(g, r - 1, c - 1) && !corner_contact_at(g, r - 1, c));
    assert(!corner_contact_at(g, r, c - 1) && !corner_contact_at(g, r, c));
}

proof fn lemma_top_1_unique(g: Seq<Seq<bool>>, r: int, c: int, r2: int, c2: int, t2: Triangle, p: Corner, q: Corner)
    requires
        is_rectangular(g),
        no_corner_contact(g),
        raised(g, r, c),
        in_grid(g, r2, c2),
        cell_emits(g, r2, c2, t2),
        has_edge(top_cap(r, c)[1], p, q),
        has_edge(t2, p, q),
    ensures
        t2 == top_cap(r, c)[1],
{
    assert(!corner_contact_at(g, r - 1, c - 1) && !corner_contact_at(g, r - 1, c));
    assert(!corner_contact_at(g, r, c - 1) && !corner_contact_at(g, r, c));
}

proof fn lemma_bottom_0_unique(g: Seq<Seq<bool>>, r: int, c: int, r2: int, c2: int, t2: Triangle, p: Corner, q: Corner)
    requires
        is_rectangular(g),
        no_corner_contact(g),
        raised(g, r, c),
        in_grid(g, r2, c2),
        cell_emits(g, r2, c2, t2),
        has_edge(bottom_cap(r, c)[0], p, q),
        has_edge(t2, p, q),
    ensures
        t2 == bottom_cap(r, c)[0],
{
    assert(!corner_contact_at(g, r - 1, c - 1) && !corner_contact_at(g, r - 1, c));
    assert(!corner_contact_at(g, r, c - 1) && !corner_contact_at(g, r, c));
}

proof fn lemma_bottom_1_unique(g: Seq<Seq<bool>>, r: int, c: int, r2: int, c2: int, t2: Triangle, p: Corner, q: Corner)
    requires
        is_rectangular(g),
        no_corner_contact(g),
        raised(g, r, c),
        in_grid(g, r2, c2),
        cell_emits(g, r2, c2, t2),
        has_edge(bottom_cap(r, c)[1], p, q),
        has_edge(t2, p, q),
    ensures
        t2 == bottom_cap(r, c)[1],
{
    assert(!corner_contact_at(g, r - 1, c - 1) && !corner_contact_at(g, r - 1, c));
    assert(!corner_contact_at(g, r, c - 1) && !corner_contact_at(g, r, c));
}

proof fn lemma_north_0_unique(g: Seq<Seq<bool>>, r: int, c: int, r2: int, c2: int, t2: Triangle, p: Corner, q: Corner)
    requires
        is_rectangular(g),
        no_corner_contact(g),
        raised(g, r, c),
        !raised(g, r - 1, c),
        in_grid(g, r2, c2),
        cell_emits(g, r2, c2, t2),
        has_edge(north_wall(r, c)[0], p, q),
        has_edge(t2, p, q),
    ensures
        t2 == north_wall(r, c)[0],
{
    assert(!corner_contact_at(g, r - 1, c - 1) && !corner_contact_at(g, r - 1, c));
    assert(!corner_contact_at(g, r, c - 1) && !corner_contact_at(g, r, c));
}

proof fn lemma_north_1_unique(g: Seq<Seq<bool>>, r: int, c: int, r2: int, c2: int, t2: Triangle, p: Corner, q: Corner)
    requires
        is_rectangular(g),
        no_corner_contact(g),
        raised(g, r, c),
        !raised(g, r - 1, c),
        in_grid(g, r2, c2),
        cell_emits(g, r2, c2, t2),
        has_edge(north_wall(r, c)[1], p, q),
        has_edge(t2, p, q),
    ensures
        t2 == north_wall(r, c)[1],
{
    assert(!corner_contact_at(g, r - 1, c - 1) && !corner_contact_at(g, r - 1, c));
    assert(!corner_contact_at(g, r, c - 1) && !corner_contact_at(g, r, c));
}

proof fn lemma_south_0_unique(g: Seq<Seq<bool>>, r: int, c: int, r2: int, c2: int, t2: Triangle, p: Corner, q: Corner)
    requires
        is_rectangular(g),
        no_corner_contact(g),
        raised(g, r, c),
        !raised(g, r + 1, c),
        in_grid(g, r2, c2),
        cell_emits(g, r2, c2, t2),
        has_edge(south_wall(r, c)[0], p, q),
        has_edge(t2, p, q),
    ensures
        t2 == south_wall(r, c)[0],
{
    assert(!corner_contact_at(g, r - 1, c - 1) && !corner_contact_at(g, r - 1, c));
    assert(!corner_contact_at(g, r, c - 1) && !corner_contact_at(g, r, c));
}

proof fn lemma_south_1_unique(g: Seq<Seq<bool>>, r: int, c: int, r2: int, c2: int, t2: Triangle, p: Corner, q: Corner)
    requires
        is_rectangular(g),
        no_corner_contact(g),
        raised(g, r, c),
        !raised(g, r + 1, c),
        in_grid(g, r2, c2),
        cell_emits(g, r2, c2, t2),
        has_edge(south_wall(r, c)[1], p, q),
        has_edge(t2, p, q),
    ensures
        t2 == south_wall(r, c)[1],
{
    assert(!corner_contact_at(g, r - 1, c - 1) && !corner_contact_at(g, r - 1, c));
    assert(!corner_contact_at(g, r, c - 1) && !corner_contact_at(g, r, c));
}

proof fn lemma_west_0_unique(g: Seq<Seq<bool>>, r: int, c: int, r2: int, c2: int, t2: Triangle, p: Corner, q: Corner)
    requires
        is_rectangular(g),
        no_corner_contact(g),
        raised(g, r, c),
        !raised(g, r, c - 1),
        in_grid(g, r2, c2),
        cell_emits(g, r2, c2, t2),
        has_edge(west_wall(r, c)[0], p, q),
        has_edge(t2, p, q),
    ensures
        t2 == west_wall(r, c)[0],
{
    assert(!corner_contact_at(g, r - 1, c - 1) && !corner_contact_at(g, r - 1, c));
    assert(!corner_contact_at(g, r, c - 1) && !corner_contact_at(g, r, c));
}

proof fn lemma_west_1_unique(g: Seq<Seq<bool>>, r: int, c: int, r2: int, c2: int, t2: Triangle, p: Corner, q: Corner)
    requires
        is_rectangular(g),
        no_corner_contact(g),
        raised(g, r, c),
        !raised(g, r, c - 1),
        in_grid(g, r2, c2),
        cell_emits(g, r2, c2, t2),
        has_edge(west_wall(r, c)[1], p, q),
        has_edge(t2, p, q),
    ensures
        t2 == west_wall(r, c)[1],
{
    assert(!corner_contact_at(g, r - 1, c - 1) && !corner_contact_at(g, r - 1, c));
    assert(!corner_contact_at(g, r, c - 1) && !corner_contact_at(g, r, c));
}

proof fn lemma_east_0_unique(g: Seq<Seq<bool>>, r: int, c: int, r2: int, c2: int, t2: Triangle, p: Corner, q: Corner)
    requires
        is_rectangular(g),
        no_corner_contact(g),
        raised(g, r, c),
        !raised(g, r, c + 1),
        in_grid(g, r2, c2),
        cell_emits(g, r2, c2, t2),
        has_edge(east_wall(r, c)[0], p, q),
        has_edge(t2, p, q),
    ensures
        t2 == east_wall(r, c)[0],
{
    assert(!corner_contact_at(g, r - 1, c - 1) && !corner_contact_at(g, r - 1, c));
    assert(!corner_contact_at(g, r, c - 1) && !corner_contact_at(g, r, c));
}

proof fn lemma_east_1_unique(g: Seq<Seq<bool>>, r: int, c: int, r2: int, c2: int, t2: Triangle, p: Corner, q: Corner)
    requires
        is_rectangular(g),
        no_corner_contact(g),
        raised(g, r, c),
        !raised(g, r, c + 1),
        in_grid(g, r2, c2),
        cell_emits(g, r2, c2, t2),
        has_edge(east_wall(r, c)[1], p, q),
        has_edge(t2, p, q),
    ensures
        t2 == east_wall(r, c)[1],
{
    assert(!corner_contact_at(g, r - 1, c - 1) && !corner_contact_at(g, r - 1, c));
    assert(!corner_contact_at(g, r, c - 1) && !corner_contact_at(g, r, c));
}

proof fn lemma_edge_owner_unique(g: Seq<Seq<bool>>, t1: Triangle, t2: Triangle, p: Corner, q: Corner)
    requires
        is_rectangular(g),
        no_corner_contact(g),
        mesh_of(g).contains(t1),
        mesh_of(g).contains(t2),
        has_edge(t1, p, q),
        has_edge(t2, p, q),
    ensures
        t1 == t2,
{
    lemma_mesh_contains(g, t1);
    lemma_mesh_contains(g, t2);
    let (r, c) = choose|r: int, c: int| in_grid(g, r, c) && #[trigger] cell_emits(g, r, c, t1);
    let (r2, c2) = choose|r: int, c: int| in_grid(g, r, c) && #[trigger] cell_emits(g, r, c, t2);
    if t1 == top_cap(r, c)[0] {
        lemma_top_0_unique(g, r, c, r2, c2, t2, p, q);
    }
    if t1 == top_cap(r, c)[1] {
        lemma_top_1_unique(g, r, c, r2, c2, t2, p, q);
    }
    if t1 == bottom_cap(r, c)[0] {
        lemma_bottom_0_unique(g, r, c, r2, c2, t2, p, q);
    }
    if t1 == bottom_cap(r, c)[1] {
        lemma_bottom_1_unique(g, r, c, r2, c2, t2, p, q);
    }
    if !raised(g, r - 1, c) && t1 == north_wall(r, c)[0] {
        lemma_north_0_unique(g, r, c, r2, c2, t2, p, q);
    }
    if !raised(g, r - 1, c) && t1 == north_wall(r, c)[1] {
        lemma_north_1_unique(g, r, c, r2, c2, t2, p, q);
    }
    if !raised(g, r + 1, c) && t1 == south_wall(r, c)[0] {
        lemma_south_0_unique(g, r, c, r2, c2, t2, p, q);
    }
    if !raised(g, r + 1, c) && t1 == south_wall(r, c)[1] {
        lemma_south_1_unique(g, r, c, r2, c2, t2, p, q);
    }
    if !raised(g, r, c - 1) && t1 == west_wall(r, c)[0] {
        lemma_west_0_unique(g, r, c, r2, c2, t2, p, q);
    }
    if !raised(g, r, c - 1) && t1 == west_wall(r, c)[1] {
        lemma_west_1_unique(g, r, c, r2, c2, t2, p, q);
    }
    if !raised(g, r, c + 1) && t1 == east_wall(r, c)[0] {
        lemma_east_0_unique(g, r, c, r2, c2, t2, p, q);
    }
    if !raised(g, r, c + 1) && t1 == east_wall(r, c)[1] {
        lemma_east_1_unique(g, r, c, r2, c2, t2, p, q);
    }
}

/// The cell that emits a triangle, read off its first corner.
pub open spec fn owner(t: Triangle) -> (int, int) {
    match t.facing {
        Facing::Up | Facing::Down | Facing::North => (t.a.row as int, t.a.col as int),
        Facing::South | Facing::West => (t.a.row - 1, t.a.col as int),
        Facing::East => (t.a.row - 1, t.a.col - 1),
    }
}

proof fn lemma_owner(g: Seq<Seq<bool>>, r: int, c: int, t: Triangle)
    requires
        is_rectangular(g),
        cell_emits(g, r, c, t),
    ensures
        owner(t) == (r, c),
{
}

proof fn lemma_concat_no_duplicates(a: Seq<Triangle>, b: Seq<Triangle>)
    requires
        a.no_duplicates(),
        b.no_duplicates(),
        forall|t: Triangle| a.contains(t) ==> !b.contains(t),
    ensures
        (a + b).no_duplicates(),
{
    assert forall|i: int, j: int| 0 <= i < j < (a + b).len() implies (a + b)[i] != (a + b)[j] by {
        if i < a.len() && j >= a.len() {
            assert(a.contains(a[i]));
            assert(b.contains(b[j - a.len()]));
        }
    }
}

spec fn rank(f: Facing) -> int {
    match f {
        Facing::Up => 0,
        Facing::Down => 1,
        Facing::North => 2,
        Facing::South => 3,
        Facing::West => 4,
        Facing::East => 5,
    }
}

proof fn lemma_append_part(acc: Seq<Triangle>, part: Seq<Triangle>, f: Facing)
    requires
        acc.no_duplicates(),
        part.len() == 0 || (part.len() == 2 && part[0] != part[1]),
        forall|i: int| 0 <= i < part.len() ==> #[trigger] part[i].facing == f,
        forall|i: int| 0 <= i < acc.len() ==> rank(#[trigger] acc[i].facing) < rank(f),
    ensures
        (acc + part).no_duplicates(),
        forall|i: int| 0 <= i < (acc + part).len() ==> rank(#[trigger] (acc + part)[i].facing) <= rank(f),
{
    assert forall|t: Triangle| acc.contains(t) implies !part.contains(t) by {
        let i = choose|i: int| 0 <= i < acc.len() && acc[i] == t;
        assert(rank(acc[i].facing) < rank(f));
    }
    assert(part.no_duplicates()) by {
        if part.len() == 2 {
            assert forall|i: int, j: int| 0 <= i < j < part.len() implies part[i] != part[j] by {
                assert(i == 0 && j == 1);
            }
        }
    }
    lemma_concat_no_duplicates(acc, part);
    assert forall|i: int| 0 <= i < (acc + part).len() implies rank(#[trigger] (acc + part)[i].facing) <= rank(f) by {
        if i >= acc.len() {
            assert(part[i - acc.len()].facing == f);
        } else {
            assert(rank(acc[i].facing) < rank(f));
        }
    }
}

proof fn lemma_cell_no_duplicates(g: Seq<Seq<bool>>, r: int, c: int)
    requires
        is_rectangular(g),
        in_grid(g, r, c),
    ensures
        cell_triangles(g, r, c).no_duplicates(),
{
    if raised(g, r, c) {
        let top = top_cap(r, c);
        let n = wall_if(!raised(g, r - 1, c), north_wall(r, c));
        let so = wall_if(!raised(g, r + 1, c), south_wall(r, c));
        let w = wall_if(!raised(g, r, c - 1), west_wall(r, c));
        let e = wall_if(!raised(g, r, c + 1), east_wall(r, c));
        assert(top.no_duplicates()) by {
            assert forall|i: int, j: int| 0 <= i < j < top.len() implies top[i] != top[j] by {
                assert(i == 0 && j == 1);
            }
        }
        lemma_append_part(top, bottom_cap(r, c), Facing::Down);
        let s1 = top + bottom_cap(r, c);
        lemma_append_part(s1, n, Facing::North);
        lemma_append_part(s1 + n, so, Facing::South);
        lemma_append_part(s1 + n + so, w, Facing::West);
        lemma_append_part(s1 + n + so + w, e, Facing::East);
    }
}

proof fn lemma_row_no_duplicates(g: Seq<Seq<bool>>, r: int, n: int)
    requires
        is_rectangular(g),
        0 <= r < height(g),
        0 <= n <= width(g),
    ensures
        row_triangles(g, r, n).no_duplicates(),
    decreases n,
{
    if n > 0 {
        lemma_row_no_duplicates(g, r, n - 1);
        lemma_cell_no_duplicates(g, r, n - 1);
        assert forall|t: Triangle| #[trigger] row_triangles(g, r, n - 1).contains(t) implies !cell_triangles(g, r, n - 1).contains(t) by {
            lemma_row_contains(g, r, n - 1, t);
            lemma_cell_contains(g, r, n - 1, t);
            let c = choose|c: int| 0 <= c < n - 1 && #[trigger] cell_emits(g, r, c, t);
            lemma_owner(g, r, c, t);
            if cell_emits(g, r, n - 1, t) {
                lemma_owner(g, r, n - 1, t);
            }
        }
        lemma_concat_no_duplicates(row_triangles(g, r, n - 1), cell_triangles(g, r, n - 1));
    } else {
        assert(row_triangles(g, r, n) =~= Seq::<Triangle>::empty());
    }
}

proof fn lemma_rows_no_duplicates(g: Seq<Seq<bool>>, n: int)
    requires
        is_rectangular(g),
        0 <= n <= height(g),
    ensures
        rows_triangles(g, n).no_duplicates(),
    decreases n,
{
    if n > 0 {
        lemma_rows_no_duplicates(g, n - 1);
        lemma_row_no_duplicates(g, n - 1, width(g));
        assert forall|t: Triangle| #[trigger] rows_triangles(g, n - 1).contains(t) implies !row_triangles(g, n - 1, width(g)).contains(t) by {
            lemma_rows_contains(g, n - 1, t);
            lemma_row_contains(g, n - 1, width(g), t);
            let (r, c) = choose|r: int, c: int| 0 <= r < n - 1 && 0 <= c < width(g) && #[trigger] cell_emits(g, r, c, t);
            lemma_owner(g, r, c, t);
            if exists|c2: int| 0 <= c2 < width(g) && #[trigger] cell_emits(g, n - 1, c2, t) {
                let c2 = choose|c2: int| 0 <= c2 < width(g) && #[trigger] cell_emits(g, n - 1, c2, t);
                lemma_owner(g, n - 1, c2, t);
            }
        }
        lemma_concat_no_duplicates(rows_triangles(g, n - 1), row_triangles(g, n - 1, width(g)));
    } else {
        assert(rows_triangles(g, n) =~= Seq::<Triangle>::empty());
    }
}

/// The mesh holds no triangle twice.
pub proof fn lemma_mesh_no_duplicates(g: Seq<Seq<bool>>)
    requires
        is_rectangular(g),
    ensures
        mesh_of(g).no_duplicates(),
{
    lemma_rows_no_duplicates(g, height(g));
}

/// Where no two raised cells touch only at a corner, the mesh is closed:
/// it holds each triangle once, and every edge of a triangle, from `p` to
/// `q`, is run back from `q` to `p` by exactly one other triangle.
pub proof fn lemma_edges_paired(g: Seq<Seq<bool>>, t: Triangle, p: Corner, q: Corner)
    requires
        is_rectangular(g),
        no_corner_contact(g),
        mesh_of(g).contains(t),
        has_edge(t, p, q),
    ensures
        mesh_of(g).no_duplicates(),
        exists|t2: Triangle| {
            &&& #[trigger] mesh_of(g).contains(t2)
            &&& has_edge(t2, q, p)
            &&& t2 != t
            &&& forall|t3: Triangle| #[trigger] mesh_of(g).contains(t3) && has_edge(t3, q, p) ==> t3 == t2
        },
{
    lemma_mesh_no_duplicates(g);
    lemma_no_open_edges(g, t, p, q);
    let t2 = choose|t2: Triangle| #[trigger] mesh_of(g).contains(t2) && has_edge(t2, q, p);
    lemma_winding(g, t);
    if t2 == t {
        let u = minus(position(t.b), position(t.a));
        let v = minus(position(t.c), position(t.a));
        assert(u == (0int, 0int, 0int) || v == (0int, 0int, 0int) || u == v);
        assert(cross(u, v) == (0int, 0int, 0int)) by (nonlinear_arith)
            requires u == (0int, 0int, 0int) || v == (0int, 0int, 0int) || u == v;
    }
    assert forall|t3: Triangle| #[trigger] mesh_of(g).contains(t3) && has_edge(t3, q, p) implies t3 == t2 by {
        lemma_edge_owner_unique(g, t2, t3, q, p);
    }
}

} // verus!
