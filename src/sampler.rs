//! The grid sampler: from a picture and a cell size to an occupancy grid.

use vstd::prelude::*;

use crate::mesh::cells;

verus! {

/// A colour as red, green and blue intensities.
#[derive(Clone, Copy, PartialEq, Eq, Structural, Debug)]
pub struct Rgb {
    pub r: u8,
    pub g: u8,
    pub b: u8,
}

/// A picture as rows of pixels: `rows[y][x]` is the pixel in column `x` of
/// row `y`, row 0 at the top.
pub struct Image {
    pub width: usize,
    pub rows: Vec<Vec<Rgb>>,
}

impl Image {
    /// Every row holds `width` pixels.
    pub open spec fn wf(&self) -> bool {
        forall|y: int| 0 <= y < self.rows@.len() ==> #[trigger] self.rows@[y]@.len() == self.width
    }

    pub open spec fn height(&self) -> int {
        self.rows@.len() as int
    }

    pub open spec fn pixel(&self, x: int, y: int) -> Rgb {
        self.rows@[y]@[x]
    }

    /// A picture from its rows; `None` when two rows differ in length. A
    /// picture without rows has width 0.
    pub fn from_rows(rows: Vec<Vec<Rgb>>) -> (res: Option<Image>)
        ensures
            match res {
                Some(img) => img.wf() && img.rows@ == rows@
                    && img.width == (if rows@.len() == 0 { 0 } else { rows@[0]@.len() }),
                None => exists|y: int| 0 <= y < rows@.len() && #[trigger] rows@[y]@.len() != rows@[0]@.len(),
            },
    {
        let width = if rows.len() == 0 { 0 } else { rows[0].len() };
        let mut y: usize = 0;
        while y < rows.len()
            invariant
                0 <= y <= rows@.len(),
                rows@.len() > 0 ==> width == rows@[0]@.len(),
                forall|k: int| 0 <= k < y ==> #[trigger] rows@[k]@.len() == width,
            decreases rows@.len() - y,
        {
            if rows[y].len() != width {
                return None;
            }
            y = y + 1;
        }
        Some(Image { width, rows })
    }
}

/// Why a picture cannot be sampled.
#[derive(Clone, Copy, PartialEq, Eq, Structural, Debug)]
pub enum SampleError {
    /// The cell size is zero.
    InvalidCellSize,
}

/// The pixel coordinate at the centre of the `k`-th cell.
pub open spec fn sample_point(k: int, s: int) -> int {
    s / 2 + k * s
}

/// `count` is how many cell centres fit below `n`: the centres
/// `s / 2, s / 2 + s, ...` are tried while they lie below `n`.
pub open spec fn is_sample_count(n: int, s: int, count: int) -> bool {
    &&& count >= 0
    &&& forall|k: int| 0 <= k < count ==> #[trigger] sample_point(k, s) < n
    &&& sample_point(count, s) >= n
}

/// `g` is the occupancy grid of `img` at cell size `s`: one row per cell
/// centre down the picture, one cell per centre across it, and a cell is
/// raised exactly where the pixel at its centre differs from `flat`.
pub open spec fn is_sampling_of(img: &Image, s: int, flat: Rgb, g: Seq<Seq<bool>>) -> bool {
    &&& is_sample_count(img.height(), s, g.len() as int)
    &&& forall|r: int| 0 <= r < g.len() ==> is_sample_count(img.width as int, s, #[trigger] g[r].len() as int)
    &&& forall|r: int, c: int| 0 <= r < g.len() && 0 <= c < g[r].len() ==>
        #[trigger] g[r][c] == (img.pixel(sample_point(c, s), sample_point(r, s)) != flat)
}

/// The cell centres below `n` for cell size `s`.
fn sample_points(n: usize, s: usize) -> (pts: Vec<usize>)
    requires
        s >= 1,
    ensures
        is_sample_count(n as int, s as int, pts@.len() as int),
        forall|k: int| 0 <= k < pts@.len() ==> #[trigger] pts@[k] == sample_point(k, s as int),
{
    let mut pts: Vec<usize> = Vec::new();
    let mut p: usize = s / 2;
    let ghost mut k: int = 0;
    while p < n
        invariant
            s >= 1,
            k == pts@.len(),
            p == sample_point(k, s as int),
            forall|j: int| 0 <= j < k ==> #[trigger] pts@[j] == sample_point(j, s as int),
            forall|j: int| 0 <= j < k ==> #[trigger] sample_point(j, s as int) < n,
        decreases n - p,
    {
        pts.push(p);
        proof {
            assert(sample_point(k + 1, s as int) == p + s) by (nonlinear_arith)
                requires p == sample_point(k, s as int);
        }
        if n - p <= s {
            proof {
                k = k + 1;
            }
            assert(sample_point(k, s as int) >= n);
            return pts;
        }
        p = p + s;
        proof {
            k = k + 1;
        }
    }
    pts
}

/// Samples `image` into an occupancy grid, `grid[row][col]`, reading the
/// pixel at the centre of each cell of side `cell_size`; a cell is raised
/// (`true`) where that pixel differs from `flat`.
pub fn build_representation(image: &Image, cell_size: usize, flat: Rgb) -> (res: Result<Vec<Vec<bool>>, SampleError>)
    requires
        image.wf(),
    ensures
        match res {
            Ok(grid) => cell_size >= 1 && is_sampling_of(image, cell_size as int, flat, cells(grid@)),
            Err(SampleError::InvalidCellSize) => cell_size == 0,
        },
{
    if cell_size == 0 {
        return Err(SampleError::InvalidCellSize);
    }
    let s = cell_size;
    let xs = sample_points(image.width, s);
    let ys = sample_points(image.rows.len(), s);
    let mut grid: Vec<Vec<bool>> = Vec::new();
    let mut r: usize = 0;
    while r < ys.len()
        invariant
            image.wf(),
            s >= 1,
            0 <= r <= ys@.len(),
            grid@.len() == r,
            is_sample_count(image.height(), s as int, ys@.len() as int),
            is_sample_count(image.width as int, s as int, xs@.len() as int),
            forall|k: int| 0 <= k < ys@.len() ==> #[trigger] ys@[k] == sample_point(k, s as int),
            forall|k: int| 0 <= k < xs@.len() ==> #[trigger] xs@[k] == sample_point(k, s as int),
            forall|i: int| 0 <= i < r ==> #[trigger] grid@[i]@.len() == xs@.len(),
            forall|i: int, c: int| 0 <= i < r && 0 <= c < xs@.len() ==>
                #[trigger] grid@[i]@[c] == (image.pixel(sample_point(c, s as int), sample_point(i, s as int)) != flat),
        decreases ys@.len() - r,
    {
        let y = ys[r];
        assert(image.rows@[y as int]@.len() == image.width);
        let mut row: Vec<bool> = Vec::new();
        let mut c: usize = 0;
        while c < xs.len()
            invariant
                image.wf(),
                0 <= c <= xs@.len(),
                row@.len() == c,
                (y as int) < image.height(),
                y == sample_point(r as int, s as int),
                image.rows@[y as int]@.len() == image.width,
                is_sample_count(image.width as int, s as int, xs@.len() as int),
                forall|k: int| 0 <= k < xs@.len() ==> #[trigger] xs@[k] == sample_point(k, s as int),
                forall|j: int| 0 <= j < c ==>
                    #[trigger] row@[j] == (image.pixel(sample_point(j, s as int), y as int) != flat),
            decreases xs@.len() - c,
        {
            let x = xs[c];
            assert(sample_point(c as int, s as int) < image.width);
            row.push(image.rows[y][x] != flat);
            c = c + 1;
        }
        grid.push(row);
        r = r + 1;
    }
    proof {
        let g = cells(grid@);
        assert(g.len() == ys@.len());
        assert forall|i: int| 0 <= i < g.len() implies is_sample_count(image.width as int, s as int, #[trigger] g[i].len() as int) by {
            assert(g[i] == grid@[i]@);
        }
        assert forall|i: int, c: int| 0 <= i < g.len() && 0 <= c < g[i].len() implies
            #[trigger] g[i][c] == (image.pixel(sample_point(c, s as int), sample_point(i, s as int)) != flat) by {
            assert(g[i] == grid@[i]@);
        }
    }
    Ok(grid)
}

proof fn lemma_sample_count_unique(n: int, s: int, k1: int, k2: int)
    requires
        is_sample_count(n, s, k1),
        is_sample_count(n, s, k2),
    ensures
        k1 == k2,
{
    if k1 < k2 {
        assert(sample_point(k1, s) < n);
    } else if k2 < k1 {
        assert(sample_point(k2, s) < n);
    }
}

/// Sampling is a function of the picture, the cell size and the flat colour
/// alone: two grids that both sample the same picture are the same grid.
pub proof fn lemma_sampling_is_unique(img: &Image, s: int, flat: Rgb, g1: Seq<Seq<bool>>, g2: Seq<Seq<bool>>)
    requires
        is_sampling_of(img, s, flat, g1),
        is_sampling_of(img, s, flat, g2),
    ensures
        g1 == g2,
{
    lemma_sample_count_unique(img.height(), s, g1.len() as int, g2.len() as int);
    assert forall|r: int| 0 <= r < g1.len() implies #[trigger] g1[r] == g2[r] by {
        lemma_sample_count_unique(img.width as int, s, g1[r].len() as int, g2[r].len() as int);
        assert forall|c: int| 0 <= c < g1[r].len() implies g1[r][c] == g2[r][c] by {
            assert(g1[r][c] == (img.pixel(sample_point(c, s), sample_point(r, s)) != flat));
            assert(g2[r][c] == (img.pixel(sample_point(c, s), sample_point(r, s)) != flat));
        }
        assert(g1[r] =~= g2[r]);
    }
    assert(g1 =~= g2);
}

} // verus!
