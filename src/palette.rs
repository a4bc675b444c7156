//! Finding the two colours that a picture uses most, and naming them.

use vstd::prelude::*;

use crate::sampler::{Image, Rgb};

verus! {

broadcast use vstd::seq_lib::lemma_seq_contains_after_push;

/// How many of the pixels in column `x`, rows `0` to `n - 1`, have colour `col`.
pub open spec fn column_count(img: &Image, col: Rgb, x: int, n: int) -> nat
    decreases n,
{
    if n <= 0 {
        0
    } else {
        column_count(img, col, x, n - 1) + if img.pixel(x, n - 1) == col { 1nat } else { 0nat }
    }
}

/// How many pixels of the first `m` columns have colour `col`.
pub open spec fn columns_count(img: &Image, col: Rgb, m: int) -> nat
    decreases m,
{
    if m <= 0 {
        0
    } else {
        columns_count(img, col, m - 1) + column_count(img, col, m - 1, img.height())
    }
}

/// How many pixels of the picture have colour `col`.
pub open spec fn color_count(img: &Image, col: Rgb) -> nat {
    columns_count(img, col, img.width as int)
}

/// How many pixels of colour `col` a scan column by column, top to bottom
/// within a column, meets before it reaches the pixel in column `x`, row `y`.
pub open spec fn scan_count(img: &Image, col: Rgb, x: int, y: int) -> nat {
    columns_count(img, col, x) + column_count(img, col, x, y)
}

/// How many pixels the first `m` columns of a picture of height `h` hold.
pub open spec fn pixels_in_columns(h: int, m: int) -> int
    decreases m,
{
    if m <= 0 {
        0
    } else {
        pixels_in_columns(h, m - 1) + h
    }
}

/// Whether the picture uses at least two colours.
pub open spec fn has_two_colors(img: &Image) -> bool {
    exists|c1: Rgb, c2: Rgb| c1 != c2 && #[trigger] color_count(img, c1) > 0 && #[trigger] color_count(img, c2) > 0
}

/// Whether, in the scan column by column, colour `a` is met before colour
/// `b` first is.
pub open spec fn met_before(img: &Image, a: Rgb, b: Rgb) -> bool {
    exists|x: int, y: int| {
        &&& 0 <= x < img.width
        &&& 0 <= y < img.height()
        &&& #[trigger] img.pixel(x, y) == b
        &&& scan_count(img, b, x, y) == 0
        &&& scan_count(img, a, x, y) > 0
    }
}

/// Whether colour `a` ranks above colour `b`: more pixels have it, or as
/// many do and the scan first meets it after `b`.
pub open spec fn ranks_above(img: &Image, a: Rgb, b: Rgb) -> bool {
    ||| color_count(img, a) > color_count(img, b)
    ||| color_count(img, a) == color_count(img, b) && met_before(img, b, a)
}

proof fn lemma_columns_grow(h: int, m: int, n: int)
    requires
        0 <= m <= n,
        h >= 0,
    ensures
        pixels_in_columns(h, m) <= pixels_in_columns(h, n),
    decreases n - m,
{
    if m < n {
        lemma_columns_grow(h, m, n - 1);
    }
}

fn find_color(colors: &Vec<Rgb>, col: Rgb) -> (res: Option<usize>)
    ensures
        match res {
            Some(i) => i < colors@.len() && colors@[i as int] == col,
            None => !colors@.contains(col),
        },
{
    let mut i: usize = 0;
    while i < colors.len()
        invariant
            0 <= i <= colors@.len(),
            forall|j: int| 0 <= j < i ==> colors@[j] != col,
        decreases colors@.len() - i,
    {
        if colors[i] == col {
            return Some(i);
        }
        i = i + 1;
    }
    None
}

/// Each colour of the picture once, in the order in which a scan column by
/// column first meets them, with how many pixels have it.
fn tally(image: &Image) -> (res: (Vec<Rgb>, Vec<usize>))
    requires
        image.wf(),
        pixels_in_columns(image.height(), image.width as int) <= usize::MAX,
    ensures
        res.0@.len() == res.1@.len(),
        forall|i: int, j: int| 0 <= i < j < res.0@.len() ==> res.0@[i] != res.0@[j],
        forall|i: int, j: int| 0 <= i < j < res.0@.len() ==> met_before(image, #[trigger] res.0@[i], #[trigger] res.0@[j]),
        forall|i: int| 0 <= i < res.0@.len() ==> #[trigger] res.1@[i] == color_count(image, res.0@[i]),
        forall|i: int| 0 <= i < res.0@.len() ==> #[trigger] res.1@[i] >= 1,
        forall|col: Rgb| !res.0@.contains(col) ==> #[trigger] color_count(image, col) == 0,
{
    let ghost h = image.height();
    let w = image.width;
    let mut colors: Vec<Rgb> = Vec::new();
    let mut counts: Vec<usize> = Vec::new();
    let mut x: usize = 0;
    while x < w
        invariant
            image.wf(),
            w == image.width,
            h == image.height(),
            pixels_in_columns(h, w as int) <= usize::MAX,
            0 <= x <= w,
            colors@.len() == counts@.len(),
            forall|i: int, j: int| 0 <= i < j < colors@.len() ==> colors@[i] != colors@[j],
            forall|i: int, j: int| 0 <= i < j < colors@.len() ==> met_before(image, #[trigger] colors@[i], #[trigger] colors@[j]),
            forall|i: int| 0 <= i < colors@.len() ==> #[trigger] counts@[i] == columns_count(image, colors@[i], x as int),
            forall|i: int| 0 <= i < colors@.len() ==> #[trigger] counts@[i] >= 1,
            forall|i: int| 0 <= i < colors@.len() ==> #[trigger] counts@[i] <= pixels_in_columns(h, x as int),
            forall|col: Rgb| !colors@.contains(col) ==> #[trigger] columns_count(image, col, x as int) == 0,
        decreases w - x,
    {
        proof {
            lemma_columns_grow(h, x + 1, w as int);
            lemma_columns_grow(h, 0, x as int);
        }
        let mut y: usize = 0;
        while y < image.rows.len()
            invariant
                image.wf(),
                w == image.width,
                h == image.height(),
                0 <= x < w,
                pixels_in_columns(h, x as int) + h <= usize::MAX,
                pixels_in_columns(h, x as int) >= 0,
                0 <= y <= h,
                colors@.len() == counts@.len(),
                forall|i: int, j: int| 0 <= i < j < colors@.len() ==> colors@[i] != colors@[j],
                forall|i: int, j: int| 0 <= i < j < colors@.len() ==> met_before(image, #[trigger] colors@[i], #[trigger] colors@[j]),
                forall|i: int| 0 <= i < colors@.len() ==> #[trigger] counts@[i] == scan_count(image, colors@[i], x as int, y as int),
                forall|i: int| 0 <= i < colors@.len() ==> #[trigger] counts@[i] >= 1,
                forall|i: int| 0 <= i < colors@.len() ==> #[trigger] counts@[i] <= pixels_in_columns(h, x as int) + y,
                forall|col: Rgb| !colors@.contains(col) ==> #[trigger] scan_count(image, col, x as int, y as int) == 0,
            decreases h - y,
        {
            assert(image.rows@[y as int]@.len() == w);
            let p = image.rows[y][x];
            let ghost old_colors = colors@;
            let ghost old_counts = counts@;
            let ghost seen_cols = pixels_in_columns(h, x as int) + y;
            match find_color(&colors, p) {
                Some(i) => {
                    let n = counts[i];
                    counts.set(i, n + 1);
                    proof {
                        assert forall|j: int| 0 <= j < colors@.len() implies #[trigger] counts@[j] <= seen_cols + 1 by {
                            assert(old_counts[j] <= seen_cols);
                        }
                        assert forall|col: Rgb| !colors@.contains(col) implies #[trigger] scan_count(image, col, x as int, y + 1) == 0 by {
                            assert(col != p);
                            assert(scan_count(image, col, x as int, y as int) == 0);
                        }
                    }
                },
                None => {
                    colors.push(p);
                    counts.push(1);
                    proof {
                        assert(counts@ == old_counts.push(1));
                        assert(seen_cols >= 0);
                        assert forall|j: int| 0 <= j < colors@.len() implies #[trigger] counts@[j] <= seen_cols + 1 by {
                            if j < old_counts.len() {
                                assert(old_counts[j] <= seen_cols);
                            }
                        }
                        assert(scan_count(image, p, x as int, y as int) == 0);
                        assert(colors@ == old_colors.push(p));
                        assert forall|col: Rgb| !colors@.contains(col) implies #[trigger] scan_count(image, col, x as int, y + 1) == 0 by {
                            assert(!old_colors.contains(col));
                            assert(col != p);
                            assert(scan_count(image, col, x as int, y as int) == 0);
                        }
                        assert forall|i: int, j: int| 0 <= i < j < colors@.len() implies colors@[i] != colors@[j] by {
                            if j == colors@.len() - 1 {
                                assert(old_colors[i] == colors@[i]);
                            }
                        }
                        assert forall|i: int, j: int| 0 <= i < j < colors@.len() implies met_before(image, #[trigger] colors@[i], #[trigger] colors@[j]) by {
                            if j == colors@.len() - 1 {
                                assert(old_colors[i] == colors@[i]);
                                assert(image.pixel(x as int, y as int) == p);
                                assert(old_counts[i] == scan_count(image, old_colors[i], x as int, y as int));
                                assert(old_counts[i] >= 1);
                            } else {
                                assert(met_before(image, old_colors[i], old_colors[j]));
                            }
                        }
                    }
                },
            }
            y = y + 1;
        }
        proof {
            assert forall|col: Rgb| !colors@.contains(col) implies #[trigger] columns_count(image, col, x + 1) == 0 by {
                assert(scan_count(image, col, x as int, y as int) == 0);
            }
            assert forall|i: int| 0 <= i < colors@.len() implies #[trigger] counts@[i] == columns_count(image, colors@[i], x + 1) by {
                assert(counts@[i] == scan_count(image, colors@[i], x as int, y as int));
            }
        }
        x = x + 1;
    }
    (colors, counts)
}

/// The two colours that rank highest: the colour that most pixels have,
/// then the one that most of the remaining pixels have. Between colours that
/// as many pixels have, the one that a scan column by column, top to bottom
/// within a column, first meets later ranks higher.
pub fn get_colors(image: &Image) -> (res: (Rgb, Rgb))
    requires
        image.wf(),
        pixels_in_columns(image.height(), image.width as int) <= usize::MAX,
        has_two_colors(image),
    ensures
        res.0 != res.1,
        color_count(image, res.0) > 0,
        color_count(image, res.1) > 0,
        forall|col: Rgb| col != res.0 && #[trigger] color_count(image, col) > 0 ==> ranks_above(image, res.0, col),
        forall|col: Rgb| col != res.0 && col != res.1 && #[trigger] color_count(image, col) > 0 ==> ranks_above(image, res.1, col),
{
    let (colors, counts) = tally(image);
    proof {
        let (c1, c2) = choose|c1: Rgb, c2: Rgb| c1 != c2 && #[trigger] color_count(image, c1) > 0 && #[trigger] color_count(image, c2) > 0;
        assert(colors@.contains(c1));
        assert(colors@.contains(c2));
    }
    let mut best: usize = 0;
    let mut k: usize = 1;
    while k < counts.len()
        invariant
            counts@.len() == colors@.len(),
            0 <= best < k <= counts@.len(),
            forall|j: int| 0 <= j < k && j != best ==>
                #[trigger] counts@[j] < counts@[best as int] || (counts@[j] == counts@[best as int] && j < best),
        decreases counts@.len() - k,
    {
        if counts[k] >= counts[best] {
            best = k;
        }
        k = k + 1;
    }
    let mut next: usize = if best == 0 { 1 } else { 0 };
    let mut k: usize = next + 1;
    while k < counts.len()
        invariant
            counts@.len() == colors@.len(),
            0 <= best < counts@.len(),
            0 <= next < k <= counts@.len(),
            next != best,
            forall|j: int| 0 <= j < k && j != best && j != next ==>
                #[trigger] counts@[j] < counts@[next as int] || (counts@[j] == counts@[next as int] && j < next),
        decreases counts@.len() - k,
    {
        if k != best && counts[k] >= counts[next] {
            next = k;
        }
        k = k + 1;
    }
    let first = colors[best];
    let second = colors[next];
    proof {
        assert(counts@[best as int] >= 1 && counts@[next as int] >= 1);
        assert forall|col: Rgb| col != first && #[trigger] color_count(image, col) > 0 implies ranks_above(image, first, col) by {
            let j = colors@.index_of(col);
            assert(colors@[j] == col);
            if counts@[j] == counts@[best as int] {
                assert(j < best);
                assert(met_before(image, colors@[j], colors@[best as int]));
            }
        }
        assert forall|col: Rgb| col != first && col != second && #[trigger] color_count(image, col) > 0 implies ranks_above(image, second, col) by {
            let j = colors@.index_of(col);
            assert(colors@[j] == col);
            assert(j != best && j != next);
            if counts@[j] == counts@[next as int] {
                assert(j < next);
                assert(met_before(image, colors@[j], colors@[next as int]));
            }
        }
    }
    (first, second)
}

/// The name of the CSS colour nearest to the colour `(r, g, b)`.
pub uninterp spec fn css_name(r: u8, g: u8, b: u8) -> Seq<char>;

/// The string `s` in lower case.
pub uninterp spec fn lower_of(s: Seq<char>) -> Seq<char>;

/// Relies on `color_name::css::Color::similar`: the name of the CSS colour
/// nearest to the given one, which depends on that colour alone.
#[verifier::external_body]
fn similar_name(c: Rgb) -> (s: String)
    ensures
        s@ == css_name(c.r, c.g, c.b),
{
    color_name::css::Color::similar([c.r, c.g, c.b])
}

/// Relies on `str::to_lowercase`: the result depends on the characters alone.
#[verifier::external_body]
fn lowercase(s: &String) -> (r: String)
    ensures
        r@ == lower_of(s@),
{
    s.to_lowercase()
}

/// The label under which a colour is offered to the user.
pub open spec fn label_of(c: Rgb) -> Seq<char> {
    lower_of(css_name(c.r, c.g, c.b))
}

/// The lower-case name of the CSS colour nearest to `c`.
pub fn color_label(c: Rgb) -> (s: String)
    ensures
        s@ == label_of(c),
{
    lowercase(&similar_name(c))
}

/// The colour that stays flat when `choice` names the colour to raise: the
/// second colour when `choice` is the first label, else the first colour
/// when it is the second label; `None` when it is neither.
pub fn flat_from_labels(choice: &String, first_label: &String, second_label: &String, first: Rgb, second: Rgb) -> (res: Option<Rgb>)
    ensures
        res == (if choice@ == first_label@ {
            Some(second)
        } else if choice@ == second_label@ {
            Some(first)
        } else {
            None
        }),
{
    if *choice == *first_label {
        Some(second)
    } else if *choice == *second_label {
        Some(first)
    } else {
        None
    }
}

/// The colour that stays flat when the user asks to raise the colour
/// labelled `choice`, out of the two colours `first` and `second`.
pub fn flat_color(choice: &String, first: Rgb, second: Rgb) -> (res: Option<Rgb>)
    ensures
        res == (if choice@ == label_of(first) {
            Some(second)
        } else if choice@ == label_of(second) {
            Some(first)
        } else {
            None
        }),
{
    let first_label = color_label(first);
    let second_label = color_label(second);
    flat_from_labels(choice, &first_label, &second_label, first, second)
}

} // verus!
