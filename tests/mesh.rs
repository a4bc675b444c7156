use qr_solid::mesh::{build_mesh, Corner, Facing, MeshError, Triangle};

fn grid(rows: &[&[bool]]) -> Vec<Vec<bool>> {
    rows.iter().map(|r| r.to_vec()).collect()
}

fn mesh(rows: &[&[bool]]) -> Vec<Triangle> {
    build_mesh(&grid(rows)).unwrap()
}

fn count(m: &[Triangle], f: Facing) -> usize {
    m.iter().filter(|t| t.facing == f).count()
}

fn on_column_edge(t: &Triangle, x: usize, r: usize) -> bool {
    [t.a, t.b, t.c].iter().all(|k| k.col == x && (k.row == r || k.row == r + 1))
}

fn pos(k: Corner) -> [i64; 3] {
    [k.col as i64, -(k.row as i64), k.level as i64]
}

fn normal(f: Facing) -> [i64; 3] {
    match f {
        Facing::Up => [0, 0, 1],
        Facing::Down => [0, 0, -1],
        Facing::North => [0, 1, 0],
        Facing::South => [0, -1, 0],
        Facing::West => [-1, 0, 0],
        Facing::East => [1, 0, 0],
    }
}

fn winds_outward(t: &Triangle) -> bool {
    let (a, b, c) = (pos(t.a), pos(t.b), pos(t.c));
    let u = [b[0] - a[0], b[1] - a[1], b[2] - a[2]];
    let v = [c[0] - a[0], c[1] - a[1], c[2] - a[2]];
    let n = [u[1] * v[2] - u[2] * v[1], u[2] * v[0] - u[0] * v[2], u[0] * v[1] - u[1] * v[0]];
    n == normal(t.facing)
}

/// Each directed edge of the mesh, as a pair of corners.
fn edges(m: &[Triangle]) -> Vec<(Corner, Corner)> {
    m.iter().flat_map(|t| vec![(t.a, t.b), (t.b, t.c), (t.c, t.a)]).collect()
}

#[test]
fn single_raised_cell_is_a_cube() {
    let m = mesh(&[&[true]]);
    assert_eq!(m.len(), 12);
    for f in [Facing::Up, Facing::Down, Facing::North, Facing::South, Facing::West, Facing::East] {
        assert_eq!(count(&m, f), 2);
    }
}

#[test]
fn two_raised_neighbours_share_no_wall() {
    let m = mesh(&[&[true, true]]);
    assert_eq!(count(&m, Facing::Up) + count(&m, Facing::Down), 8);
    assert_eq!(count(&m, Facing::North), 4);
    assert_eq!(count(&m, Facing::South), 4);
    assert_eq!(count(&m, Facing::West), 2);
    assert_eq!(count(&m, Facing::East), 2);
    assert_eq!(m.len(), 20);
    assert!(!m.iter().any(|t| on_column_edge(t, 1, 0)));
}

#[test]
fn all_flat_grid_has_no_triangles() {
    let m = mesh(&[&[false, false], &[false, false]]);
    assert!(m.is_empty());
}

#[test]
fn raised_beside_flat_has_one_wall_on_the_shared_edge() {
    let m = mesh(&[&[true, false]]);
    let shared: Vec<&Triangle> = m.iter().filter(|t| on_column_edge(t, 1, 0)).collect();
    assert_eq!(shared.len(), 2);
    assert!(shared.iter().all(|t| t.facing == Facing::East));
    let m = mesh(&[&[false, true]]);
    let shared: Vec<&Triangle> = m.iter().filter(|t| on_column_edge(t, 1, 0)).collect();
    assert_eq!(shared.len(), 2);
    assert!(shared.iter().all(|t| t.facing == Facing::West));
}

#[test]
fn rim_cells_are_walled_on_the_rim() {
    let m = mesh(&[&[true, true, true], &[true, true, true], &[true, true, true]]);
    assert_eq!(count(&m, Facing::North), 6);
    assert_eq!(count(&m, Facing::South), 6);
    assert_eq!(count(&m, Facing::West), 6);
    assert_eq!(count(&m, Facing::East), 6);
    assert!(m.iter().filter(|t| t.facing == Facing::North).all(|t| t.a.row == 0));
    assert!(m.iter().filter(|t| t.facing == Facing::East).all(|t| t.a.col == 3));
}

#[test]
fn caps_are_two_per_raised_cell() {
    let m = mesh(&[&[true, false, true], &[false, true, true]]);
    assert_eq!(count(&m, Facing::Up), 8);
    assert_eq!(count(&m, Facing::Down), 8);
}

#[test]
fn neighbours_use_the_same_corners() {
    let m = mesh(&[&[true, true]]);
    let corners: Vec<Corner> = m.iter().flat_map(|t| vec![t.a, t.b, t.c]).collect();
    assert!(corners.iter().all(|k| k.col <= 2 && k.row <= 1 && k.level <= 1));
    let shared = Corner { col: 1, row: 0, level: 1 };
    let users = m.iter().filter(|t| t.facing == Facing::Up && [t.a, t.b, t.c].contains(&shared)).count();
    assert_eq!(users, 3);
}

#[test]
fn every_triangle_winds_about_its_normal() {
    let m = mesh(&[&[true, false, true], &[true, true, false], &[false, true, true]]);
    assert!(m.iter().all(winds_outward));
}

#[test]
fn every_edge_has_a_reverse_edge() {
    let m = mesh(&[&[true, true, false], &[false, true, true], &[true, true, true]]);
    let e = edges(&m);
    assert!(e.iter().all(|(p, q)| e.contains(&(*q, *p))));
    for (p, q) in &e {
        assert_eq!(e.iter().filter(|x| *x == &(*q, *p)).count(), 1);
    }
}

#[test]
fn diagonal_neighbours_leave_no_open_edge() {
    let m = mesh(&[&[true, false], &[false, true]]);
    let e = edges(&m);
    assert!(e.iter().all(|(p, q)| e.contains(&(*q, *p))));
    let up = Corner { col: 1, row: 1, level: 1 };
    let down = Corner { col: 1, row: 1, level: 0 };
    assert_eq!(e.iter().filter(|x| **x == (down, up)).count(), 2);
}

#[test]
fn empty_grids_are_refused() {
    assert_eq!(build_mesh(&vec![]), Err(MeshError::EmptyGrid));
    assert_eq!(build_mesh(&vec![vec![]]), Err(MeshError::EmptyGrid));
}

#[test]
fn jagged_grid_is_refused() {
    let g = vec![vec![true, false], vec![true]];
    assert_eq!(build_mesh(&g), Err(MeshError::JaggedGrid));
}

#[test]
fn mesh_follows_row_major_cell_order() {
    let m = mesh(&[&[false, true], &[true, false]]);
    assert_eq!(m.len(), 24);
    assert_eq!(m[0].a, Corner { col: 1, row: 0, level: 1 });
    assert_eq!(m[12].a, Corner { col: 0, row: 1, level: 1 });
}
