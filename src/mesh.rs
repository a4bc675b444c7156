//! The mesh builder: from an occupancy grid to a closed triangle mesh.

use vstd::prelude::*;

verus! {

/// The outward direction of a triangle, one of the six axis directions.
///
/// Columns grow towards the east, rows grow towards the south, and the
/// raised face lies above the flat one.
#[derive(Clone, Copy, PartialEq, Eq, Structural, Debug)]
pub enum Facing {
    Up,
    Down,
    North,
    South,
    West,
    East,
}

/// A corner of the lattice: the line between columns `col - 1` and `col`,
/// the line between rows `row - 1` and `row`, and the level `0` (flat face)
/// or `1` (raised face).
#[derive(Clone, Copy, PartialEq, Eq, Structural, Debug)]
pub struct Corner {
    pub col: usize,
    pub row: usize,
    pub level: u8,
}

/// Three corners in counter-clockwise order seen from outside, and the
/// outward direction.
#[derive(Clone, Copy, PartialEq, Eq, Structural, Debug)]
pub struct Triangle {
    pub facing: Facing,
    pub a: Corner,
    pub b: Corner,
    pub c: Corner,
}

/// Why a grid cannot be turned into a mesh.
#[derive(Clone, Copy, PartialEq, Eq, Structural, Debug)]
pub enum MeshError {
    /// The grid has no rows, or its first row has no cells.
    EmptyGrid,
    /// Two rows of the grid differ in length.
    JaggedGrid,
}

pub open spec fn corner(col: int, row: int, level: int) -> Corner {
    Corner { col: col as usize, row: row as usize, level: level as u8 }
}

pub open spec fn tri(facing: Facing, a: Corner, b: Corner, c: Corner) -> Triangle {
    Triangle { facing, a, b, c }
}

/// The two triangles over cell `(r, c)` at the raised level.
pub open spec fn top_cap(r: int, c: int) -> Seq<Triangle> {
    seq![
        tri(Facing::Up, corner(c, r, 1), corner(c, r + 1, 1), corner(c + 1, r + 1, 1)),
        tri(Facing::Up, corner(c, r, 1), corner(c + 1, r + 1, 1), corner(c + 1, r, 1)),
    ]
}

/// The two triangles under cell `(r, c)` at the flat level.
pub open spec fn bottom_cap(r: int, c: int) -> Seq<Triangle> {
    seq![
        tri(Facing::Down, corner(c, r, 0), corner(c + 1, r + 1, 0), corner(c, r + 1, 0)),
        tri(Facing::Down, corner(c, r, 0), corner(c + 1, r, 0), corner(c + 1, r + 1, 0)),
    ]
}

/// The wall along the northern edge of cell `(r, c)`.
pub open spec fn north_wall(r: int, c: int) -> Seq<Triangle> {
    seq![
        tri(Facing::North, corner(c, r, 0), corner(c, r, 1), corner(c + 1, r, 1)),
        tri(Facing::North, corner(c, r, 0), corner(c + 1, r, 1), corner(c + 1, r, 0)),
    ]
}

/// The wall along the southern edge of cell `(r, c)`.
pub open spec fn south_wall(r: int, c: int) -> Seq<Triangle> {
    seq![
        tri(Facing::South, corner(c, r + 1, 0), corner(c + 1, r + 1, 0), corner(c + 1, r + 1, 1)),
        tri(Facing::South, corner(c, r + 1, 0), corner(c + 1, r + 1, 1), corner(c, r + 1, 1)),
    ]
}

/// The wall along the western edge of cell `(r, c)`.
pub open spec fn west_wall(r: int, c: int) -> Seq<Triangle> {
    seq![
        tri(Facing::West, corner(c, r + 1, 0), corner(c, r, 1), corner(c, r, 0)),
        tri(Facing::West, corner(c, r + 1, 0), corner(c, r + 1, 1), corner(c, r, 1)),
    ]
}

/// The wall along the eastern edge of cell `(r, c)`.
pub open spec fn east_wall(r: int, c: int) -> Seq<Triangle> {
    seq![
        tri(Facing::East, corner(c + 1, r + 1, 0), corner(c + 1, r, 0), corner(c + 1, r, 1)),
        tri(Facing::East, corner(c + 1, r + 1, 0), corner(c + 1, r, 1), corner(c + 1, r + 1, 1)),
    ]
}

/// The grid as a sequence of rows, each a sequence of cells.
pub open spec fn cells(g: Seq<Vec<bool>>) -> Seq<Seq<bool>> {
    g.map_values(|row: Vec<bool>| row@)
}

pub open spec fn height(g: Seq<Seq<bool>>) -> int {
    g.len() as int
}

pub open spec fn width(g: Seq<Seq<bool>>) -> int {
    g[0].len() as int
}

pub open spec fn is_empty_grid(g: Seq<Seq<bool>>) -> bool {
    g.len() == 0 || g[0].len() == 0
}

/// A grid with at least one cell whose rows all have the same length.
pub open spec fn is_rectangular(g: Seq<Seq<bool>>) -> bool {
    &&& !is_empty_grid(g)
    &&& g.len() <= usize::MAX && g[0].len() <= usize::MAX
    &&& forall|r: int| 0 <= r < g.len() ==> #[trigger] g[r].len() == g[0].len()
}

pub open spec fn in_grid(g: Seq<Seq<bool>>, r: int, c: int) -> bool {
    0 <= r < height(g) && 0 <= c < width(g)
}

/// Whether the cell at `(r, c)` is raised; positions off the grid are flat.
pub open spec fn raised(g: Seq<Seq<bool>>, r: int, c: int) -> bool {
    in_grid(g, r, c) && g[r][c]
}

pub open spec fn wall_if(open: bool, wall: Seq<Triangle>) -> Seq<Triangle> {
    if open { wall } else { Seq::empty() }
}

/// What cell `(r, c)` adds to the mesh: nothing for a flat cell; for a
/// raised one its two caps, and a wall on each side whose neighbour is flat
/// or off the grid.
pub open spec fn cell_triangles(g: Seq<Seq<bool>>, r: int, c: int) -> Seq<Triangle> {
    if raised(g, r, c) {
        top_cap(r, c) + bottom_cap(r, c)
            + wall_if(!raised(g, r - 1, c), north_wall(r, c))
            + wall_if(!raised(g, r + 1, c), south_wall(r, c))
            + wall_if(!raised(g, r, c - 1), west_wall(r, c))
            + wall_if(!raised(g, r, c + 1), east_wall(r, c))
    } else {
        Seq::empty()
    }
}

/// The triangles of the first `n` cells of row `r`, in column order.
pub open spec fn row_triangles(g: Seq<Seq<bool>>, r: int, n: int) -> Seq<Triangle>
    decreases n,
{
    if n <= 0 {
        Seq::empty()
    } else {
        row_triangles(g, r, n - 1) + cell_triangles(g, r, n - 1)
    }
}

/// The triangles of the first `n` rows, row by row.
pub open spec fn rows_triangles(g: Seq<Seq<bool>>, n: int) -> Seq<Triangle>
    decreases n,
{
    if n <= 0 {
        Seq::empty()
    } else {
        rows_triangles(g, n - 1) + row_triangles(g, n - 1, width(g))
    }
}

/// The mesh of a grid: the triangles of every cell, in row-major order.
pub open spec fn mesh_of(g: Seq<Seq<bool>>) -> Seq<Triangle> {
    rows_triangles(g, height(g))
}

fn mk(facing: Facing, a: (usize, usize, u8), b: (usize, usize, u8), c: (usize, usize, u8)) -> (t: Triangle)
    ensures
        t == tri(facing, corner(a.0 as int, a.1 as int, a.2 as int), corner(b.0 as int, b.1 as int, b.2 as int),
            corner(c.0 as int, c.1 as int, c.2 as int)),
{
    Triangle {
        facing,
        a: Corner { col: a.0, row: a.1, level: a.2 },
        b: Corner { col: b.0, row: b.1, level: b.2 },
        c: Corner { col: c.0, row: c.1, level: c.2 },
    }
}

fn push_pair(out: &mut Vec<Triangle>, t0: Triangle, t1: Triangle)
    ensures
        final(out)@ == old(out)@ + seq![t0, t1],
{
    out.push(t0);
    out.push(t1);
    assert(final(out)@ =~= old(out)@ + seq![t0, t1]);
}

/// Appends the triangles of cell `(r, c)`: its caps, then the walls on the
/// northern, southern, western and eastern sides that face a flat cell or
/// the edge of the grid.
#[verifier::rlimit(50)]
fn push_cell(grid: &Vec<Vec<bool>>, r: usize, c: usize, out: &mut Vec<Triangle>)
    requires
        is_rectangular(cells(grid@)),
        in_grid(cells(grid@), r as int, c as int),
    ensures
        final(out)@ == old(out)@ + cell_triangles(cells(grid@), r as int, c as int),
{
    let ghost g = cells(grid@);
    assert(g[r as int].len() == g[0].len());
    if !grid[r][c] {
        assert(final(out)@ =~= old(out)@ + cell_triangles(g, r as int, c as int));
        return;
    }
    let h = grid.len();
    let w = grid[0].len();
    let (r1, c1) = (r + 1, c + 1);
    push_pair(out,
        mk(Facing::Up, (c, r, 1), (c, r1, 1), (c1, r1, 1)),
        mk(Facing::Up, (c, r, 1), (c1, r1, 1), (c1, r, 1)));
    push_pair(out,
        mk(Facing::Down, (c, r, 0), (c1, r1, 0), (c, r1, 0)),
        mk(Facing::Down, (c, r, 0), (c1, r, 0), (c1, r1, 0)));
    let ghost caps = out@;
    assert(r > 0 ==> g[r - 1].len() == g[0].len());
    assert(r1 < h ==> g[r1 as int].len() == g[0].len());
    let north = r == 0 || !grid[r - 1][c];
    if north {
        push_pair(out,
            mk(Facing::North, (c, r, 0), (c, r, 1), (c1, r, 1)),
            mk(Facing::North, (c, r, 0), (c1, r, 1), (c1, r, 0)));
    }
    let ghost after_north = out@;
    let south = r1 == h || !grid[r1][c];
    if south {
        push_pair(out,
            mk(Facing::South, (c, r1, 0), (c1, r1, 0), (c1, r1, 1)),
            mk(Facing::South, (c, r1, 0), (c1, r1, 1), (c, r1, 1)));
    }
    let ghost after_south = out@;
    let west = c == 0 || !grid[r][c - 1];
    if west {
        push_pair(out,
            mk(Facing::West, (c, r1, 0), (c, r, 1), (c, r, 0)),
            mk(Facing::West, (c, r1, 0), (c, r1, 1), (c, r, 1)));
    }
    let ghost after_west = out@;
    let east = c1 == w || !grid[r][c1];
    if east {
        push_pair(out,
            mk(Facing::East, (c1, r1, 0), (c1, r, 0), (c1, r, 1)),
            mk(Facing::East, (c1, r1, 0), (c1, r, 1), (c1, r1, 1)));
    }
    proof {
        let (ri, ci) = (r as int, c as int);
        assert(caps =~= old(out)@ + (top_cap(ri, ci) + bottom_cap(ri, ci)));
        assert(north == !raised(g, ri - 1, ci));
        assert(south == !raised(g, ri + 1, ci));
        assert(west == !raised(g, ri, ci - 1));
        assert(east == !raised(g, ri, ci + 1));
        assert(after_north =~= caps + wall_if(north, north_wall(ri, ci)));
        assert(after_south =~= after_north + wall_if(south, south_wall(ri, ci)));
        assert(after_west =~= after_south + wall_if(west, west_wall(ri, ci)));
        assert(final(out)@ =~= after_west + wall_if(east, east_wall(ri, ci)));
        assert(final(out)@ =~= old(out)@ + cell_triangles(g, ri, ci));
    }
}

/// Builds the mesh of an occupancy grid, `grid[row][col]`, in which `true`
/// marks a raised cell.
///
/// Every raised cell gets a top and a bottom cap and a wall on each side
/// whose neighbour is flat or lies off the grid; flat cells add nothing.
pub fn build_mesh(grid: &Vec<Vec<bool>>) -> (res: Result<Vec<Triangle>, MeshError>)
    ensures
        match res {
            Ok(mesh) => is_rectangular(cells(grid@)) && mesh@ == mesh_of(cells(grid@)),
            Err(MeshError::EmptyGrid) => is_empty_grid(cells(grid@)),
            Err(MeshError::JaggedGrid) => !is_empty_grid(cells(grid@)) && !is_rectangular(cells(grid@)),
        },
{
    let ghost g = cells(grid@);
    let h = grid.len();
    if h == 0 || grid[0].len() == 0 {
        return Err(MeshError::EmptyGrid);
    }
    let w = grid[0].len();
    let mut i: usize = 0;
    while i < h
        invariant
            g == cells(grid@),
            h == grid@.len(),
            h > 0,
            w > 0,
            w == g[0].len(),
            0 <= i <= h,
            forall|k: int| 0 <= k < i ==> #[trigger] g[k].len() == w,
        decreases h - i,
    {
        if grid[i].len() != w {
            assert(g[i as int].len() != g[0].len());
            return Err(MeshError::JaggedGrid);
        }
        i = i + 1;
    }
    let mut out: Vec<Triangle> = Vec::new();
    let mut r: usize = 0;
    while r < h
        invariant
            is_rectangular(g),
            g == cells(grid@),
            h == height(g),
            w == width(g),
            0 <= r <= h,
            out@ == rows_triangles(g, r as int),
        decreases h - r,
    {
        let mut c: usize = 0;
        while c < w
            invariant
                is_rectangular(g),
                g == cells(grid@),
                h == height(g),
                w == width(g),
                0 <= r < h,
                0 <= c <= w,
                out@ == rows_triangles(g, r as int) + row_triangles(g, r as int, c as int),
            decreases w - c,
        {
            push_cell(grid, r, c, &mut out);
            proof {
                assert(row_triangles(g, r as int, c + 1) == row_triangles(g, r as int, c as int)
                    + cell_triangles(g, r as int, c as int));
                assert(out@ =~= rows_triangles(g, r as int) + row_triangles(g, r as int, c + 1));
            }
            c = c + 1;
        }
        assert(rows_triangles(g, r + 1) == rows_triangles(g, r as int) + row_triangles(g, r as int, w as int));
        r = r + 1;
    }
    Ok(out)
}

} // verus!
