use qr_solid::palette::{color_label, flat_color, flat_from_labels, get_colors};
use qr_solid::sampler::{build_representation, Image, Rgb, SampleError};

const BLACK: Rgb = Rgb { r: 0, g: 0, b: 0 };
const WHITE: Rgb = Rgb { r: 255, g: 255, b: 255 };
const GREY: Rgb = Rgb { r: 128, g: 128, b: 128 };

fn image(rows: Vec<Vec<Rgb>>) -> Image {
    Image::from_rows(rows).unwrap()
}

/// A 4 by 4 picture of 2 by 2 blocks: black, white / white, black.
fn checker() -> Image {
    let mut rows = Vec::new();
    for y in 0..4 {
        let mut row = Vec::new();
        for x in 0..4 {
            row.push(if (x / 2 + y / 2) % 2 == 0 { BLACK } else { WHITE });
        }
        rows.push(row);
    }
    image(rows)
}

#[test]
fn samples_cell_centres() {
    let g = build_representation(&checker(), 2, WHITE).unwrap();
    assert_eq!(g, vec![vec![true, false], vec![false, true]]);
    let g = build_representation(&checker(), 2, BLACK).unwrap();
    assert_eq!(g, vec![vec![false, true], vec![true, false]]);
}

#[test]
fn cell_size_one_keeps_every_pixel() {
    let g = build_representation(&checker(), 1, WHITE).unwrap();
    assert_eq!(g.len(), 4);
    assert!(g.iter().all(|r| r.len() == 4));
    assert_eq!(g[0], vec![true, true, false, false]);
}

#[test]
fn centres_stop_before_the_edge() {
    let img = image(vec![vec![BLACK; 5]; 5]);
    let g = build_representation(&img, 2, WHITE).unwrap();
    assert_eq!(g, vec![vec![true, true], vec![true, true]]);
    let g = build_representation(&img, 3, WHITE).unwrap();
    assert_eq!(g, vec![vec![true, true], vec![true, true]]);
    let g = build_representation(&img, 11, WHITE).unwrap();
    assert!(g.is_empty());
}

#[test]
fn zero_cell_size_is_refused() {
    assert_eq!(build_representation(&checker(), 0, WHITE), Err(SampleError::InvalidCellSize));
}

#[test]
fn sampling_twice_gives_the_same_grid() {
    let a = build_representation(&checker(), 2, WHITE);
    let b = build_representation(&checker(), 2, WHITE);
    assert_eq!(a, b);
}

#[test]
fn jagged_picture_is_refused() {
    assert!(Image::from_rows(vec![vec![BLACK, WHITE], vec![BLACK]]).is_none());
    assert_eq!(Image::from_rows(vec![]).unwrap().width, 0);
}

#[test]
fn two_most_frequent_colours() {
    let img = image(vec![vec![GREY, WHITE, BLACK], vec![WHITE, BLACK, WHITE]]);
    assert_eq!(get_colors(&img), (WHITE, BLACK));
}

#[test]
fn equally_frequent_colours_rank_by_later_first_sight() {
    let a = Rgb { r: 1, g: 0, b: 0 };
    let b = Rgb { r: 2, g: 0, b: 0 };
    let c = Rgb { r: 3, g: 0, b: 0 };
    let d = Rgb { r: 4, g: 0, b: 0 };
    assert_eq!(get_colors(&image(vec![vec![a, b]])), (b, a));
    // Scanned column by column: a, c, b, d.
    assert_eq!(get_colors(&image(vec![vec![a, b], vec![c, d]])), (d, b));
    assert_eq!(get_colors(&image(vec![vec![a, c, c], vec![b, d, d]])), (d, c));
}


#[test]
fn colours_are_labelled_in_lower_case() {
    assert_eq!(color_label(WHITE), "white");
    assert_eq!(color_label(BLACK), "black");
    assert_eq!(color_label(Rgb { r: 250, g: 2, b: 3 }), "red");
}

#[test]
fn chosen_colour_is_raised_and_the_other_stays_flat() {
    let (b, w) = ("black".to_string(), "white".to_string());
    assert_eq!(flat_from_labels(&b, &b, &w, BLACK, WHITE), Some(WHITE));
    assert_eq!(flat_from_labels(&w, &b, &w, BLACK, WHITE), Some(BLACK));
    assert_eq!(flat_from_labels(&"red".to_string(), &b, &w, BLACK, WHITE), None);
    assert_eq!(flat_color(&b, BLACK, WHITE), Some(WHITE));
    assert_eq!(flat_color(&w, BLACK, WHITE), Some(BLACK));
    assert_eq!(flat_color(&"Black".to_string(), BLACK, WHITE), None);
}
