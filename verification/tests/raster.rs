use path_walker::cursor_images::{cardinal, diagonal, BitRaster, PixelType};

const DOT: [bool; 25] = [
    false, false, false, false, false, //
    false, false, false, false, false, //
    false, false, true, false, false, //
    false, false, false, false, false, //
    false, false, false, false, false,
];

fn dot() -> BitRaster<'static> {
    BitRaster { width: 5, height: 5, offset_x: 2, offset_y: 2, pixels: &DOT }
}

#[test]
fn set_pixel_is_fill() {
    assert_eq!(dot().get(2, 2), PixelType::Fill);
}

#[test]
fn pixels_around_a_set_pixel_are_border() {
    for (x, y) in [(1, 1), (2, 1), (3, 1), (1, 2), (3, 2), (1, 3), (2, 3), (3, 3)] {
        assert_eq!(dot().get(x, y), PixelType::Border);
    }
}

#[test]
fn pixels_away_from_set_pixels_are_empty() {
    for (x, y) in [(0, 0), (4, 4), (0, 2), (2, 0), (4, 2), (2, 4), (0, 4), (4, 0)] {
        assert_eq!(dot().get(x, y), PixelType::Empty);
    }
}

#[test]
fn bordering_counts_the_pixel_itself() {
    assert!(dot().is_bordering(2, 2));
    assert!(dot().is_bordering(1, 3));
    assert!(!dot().is_bordering(0, 0));
    assert!(!dot().is_bordering(4, 1));
}

#[test]
fn bordering_is_clipped_at_the_edges() {
    let corner = [true, false, false, false, false, false];
    let r = BitRaster { width: 3, height: 2, offset_x: 0, offset_y: 0, pixels: &corner };
    assert_eq!(r.get(0, 0), PixelType::Fill);
    assert_eq!(r.get(1, 0), PixelType::Border);
    assert_eq!(r.get(0, 1), PixelType::Border);
    assert_eq!(r.get(1, 1), PixelType::Border);
    assert_eq!(r.get(2, 0), PixelType::Empty);
    assert_eq!(r.get(2, 1), PixelType::Empty);
    assert!(!r.is_bordering(5, 5));
    assert!(!r.is_bordering(usize::MAX, usize::MAX));
}

#[test]
fn last_column_does_not_touch_the_next_row() {
    let bits = [false, false, false, true, false, false];
    let r = BitRaster { width: 3, height: 2, offset_x: 0, offset_y: 0, pixels: &bits };
    assert_eq!(r.get(0, 1), PixelType::Fill);
    assert_eq!(r.get(2, 0), PixelType::Empty);
    assert_eq!(r.get(2, 1), PixelType::Empty);
    assert_eq!(r.get(1, 0), PixelType::Border);
}

#[test]
fn empty_raster_borders_nothing() {
    let r = BitRaster { width: 0, height: 0, offset_x: 0, offset_y: 0, pixels: &[] };
    assert!(!r.is_bordering(0, 0));
}

fn rows(r: &BitRaster) -> Vec<String> {
    let mut out = Vec::new();
    for y in 0..r.height {
        let mut row = String::new();
        for x in 0..r.width {
            row.push(match r.get(x, y) {
                PixelType::Empty => 'E',
                PixelType::Fill => 'F',
                PixelType::Border => 'B',
            });
        }
        out.push(row);
    }
    out
}

#[test]
fn cardinal_glyph_is_an_arrow_head_with_a_border() {
    let r = cardinal();
    assert_eq!((r.width, r.height, r.offset_x, r.offset_y), (12, 13, 10, 6));
    assert_eq!(r.pixels.len(), 156);
    assert_eq!(
        rows(&r),
        vec![
            "BBBEEEEEEEEE",
            "BFBBBEEEEEEE",
            "BFFFBBBEEEEE",
            "BBFFFFBBBEEE",
            "EBFFFFFFBBBE",
            "EBBFFFFFFFBB",
            "EEBFFFFFFFFB",
            "EBBFFFFFFFBB",
            "EBFFFFFFBBBE",
            "BBFFFFBBBEEE",
            "BFFFBBBEEEEE",
            "BFBBBEEEEEEE",
            "BBBEEEEEEEEE",
        ]
    );
}

#[test]
fn diagonal_glyph_is_an_arrow_head_with_a_border() {
    let r = diagonal();
    assert_eq!((r.width, r.height, r.offset_x, r.offset_y), (12, 12, 10, 1));
    assert_eq!(r.pixels.len(), 144);
    assert_eq!(
        rows(&r),
        vec![
            "EEEEEEEBBBBB",
            "EEEEEBBBFFFB",
            "EEEBBBFFFFFB",
            "BBBBFFFFFFFB",
            "BFFFFFFFFFBB",
            "BBFFFFFFFFBE",
            "EBBBFFFFFBBE",
            "EEEBBFFFFBEE",
            "EEEEBBFFBBEE",
            "EEEEEBFFBEEE",
            "EEEEEBBFBEEE",
            "EEEEEEBBBEEE",
        ]
    );
}
