use ttf_loader::buffers::{pack_glyphs, to_whole_units, GlyphData};
use ttf_loader::font_loader::{GlyphDescription, Point};

fn on(x: i32, y: i32) -> Point {
    Point::from_units(x, y, true)
}

fn off(x: i32, y: i32) -> Point {
    Point::from_units(x, y, false)
}

fn square() -> GlyphDescription {
    GlyphDescription {
        number_of_contours: 1,
        xmin: -1,
        ymin: -2,
        xmax: 100,
        ymax: 101,
        end_pts_of_contours: vec![3],
        coordinates: vec![on(0, 0), on(100, 0), on(100, 100), on(0, 100)],
    }
}

fn pair() -> GlyphDescription {
    GlyphDescription {
        number_of_contours: 2,
        xmin: 0,
        ymin: 0,
        xmax: 9,
        ymax: 9,
        end_pts_of_contours: vec![0, 2],
        coordinates: vec![on(-7, 8), off(1, 2), Point { x: 7, y: -7, on_curve: true }],
    }
}

fn empty() -> GlyphDescription {
    GlyphDescription {
        number_of_contours: -1,
        xmin: 1,
        ymin: 2,
        xmax: 3,
        ymax: 4,
        end_pts_of_contours: vec![],
        coordinates: vec![],
    }
}

#[test]
fn half_units_are_rounded_towards_zero() {
    assert_eq!(to_whole_units(0), 0);
    assert_eq!(to_whole_units(200), 100);
    assert_eq!(to_whole_units(201), 100);
    assert_eq!(to_whole_units(-200), -100);
    assert_eq!(to_whole_units(-201), -100);
    assert_eq!(to_whole_units(1), 0);
    assert_eq!(to_whole_units(-1), 0);
}

#[test]
fn whole_units_are_kept_within_32_bits() {
    assert_eq!(to_whole_units(2 * (i32::MAX as i64)), i32::MAX);
    assert_eq!(to_whole_units(2 * (i32::MAX as i64) + 2), i32::MAX);
    assert_eq!(to_whole_units(2 * (i32::MIN as i64)), i32::MIN);
    assert_eq!(to_whole_units(2 * (i32::MIN as i64) - 2), i32::MIN);
    assert_eq!(to_whole_units(i64::MAX), i32::MAX);
    assert_eq!(to_whole_units(i64::MIN), i32::MIN);
}

#[test]
fn no_glyphs_give_empty_lists() {
    assert_eq!(
        pack_glyphs(&vec![]),
        Some(GlyphData { glyph_data: vec![], point_data: vec![], contour_data: vec![] })
    );
}

#[test]
fn glyph_is_packed_as_eight_numbers_and_its_points_as_three_each() {
    let data = pack_glyphs(&vec![square()]).unwrap();
    assert_eq!(data.glyph_data, vec![-1, -2, 100, 101, 4, 1, 0, 0]);
    assert_eq!(data.point_data, vec![0, 0, 1, 100, 0, 1, 100, 100, 1, 0, 100, 1]);
    assert_eq!(data.contour_data, vec![3]);
}

#[test]
fn later_glyphs_start_where_the_earlier_ones_end() {
    let data = pack_glyphs(&vec![square(), empty(), pair(), square()]).unwrap();
    assert_eq!(
        data.glyph_data,
        vec![
            -1, -2, 100, 101, 4, 1, 0, 0, //
            1, 2, 3, 4, 0, 0, 4, 1, //
            0, 0, 9, 9, 3, 2, 4, 1, //
            -1, -2, 100, 101, 4, 1, 7, 3,
        ]
    );
    assert_eq!(
        data.point_data,
        vec![
            0, 0, 1, 100, 0, 1, 100, 100, 1, 0, 100, 1, //
            -7, 8, 1, 1, 2, 0, 3, -3, 1, //
            0, 0, 1, 100, 0, 1, 100, 100, 1, 0, 100, 1,
        ]
    );
    assert_eq!(data.contour_data, vec![3, 0, 2, 3]);
}

#[test]
fn normalized_glyph_is_packed_with_its_midpoints() {
    let mut glyph = square();
    glyph.insert_inbetween_points();
    let data = pack_glyphs(&vec![glyph]).unwrap();
    assert_eq!(data.glyph_data, vec![-1, -2, 100, 101, 8, 1, 0, 0]);
    assert_eq!(
        data.point_data,
        vec![
            0, 0, 1, 50, 0, 0, 100, 0, 1, 100, 50, 0, 100, 100, 1, 50, 100, 0, 0, 100, 1, 0, 50,
            0,
        ]
    );
    assert_eq!(data.contour_data, vec![7]);
}

#[test]
fn contour_end_beyond_31_bits_cannot_be_packed() {
    let mut glyph = square();
    glyph.end_pts_of_contours = vec![0x8000_0000];
    assert_eq!(pack_glyphs(&vec![square(), glyph]), None);
    let mut glyph = square();
    glyph.end_pts_of_contours = vec![0x7fff_ffff];
    let data = pack_glyphs(&vec![glyph]).unwrap();
    assert_eq!(data.contour_data, vec![0x7fff_ffff]);
}

#[test]
fn lists_become_the_bytes_that_lie_in_memory() {
    let data = pack_glyphs(&vec![square(), pair()]).unwrap();
    let bytes = data.to_bytes();
    let expected = |values: &Vec<i32>| -> Vec<u8> {
        values.iter().flat_map(|value| value.to_ne_bytes()).collect()
    };
    assert_eq!(bytes.glyph_bytes, expected(&data.glyph_data));
    assert_eq!(bytes.point_bytes, expected(&data.point_data));
    assert_eq!(bytes.contour_bytes, expected(&data.contour_data));
    assert_eq!(bytes.glyph_bytes.len(), 64);
    assert_eq!(bytes.point_bytes.len(), 84);
    assert_eq!(bytes.contour_bytes.len(), 12);
    // The number -1 is four bytes of 0xff in either byte order.
    assert_eq!(&bytes.glyph_bytes[0..4], &[0xff, 0xff, 0xff, 0xff]);
    let hundred = &bytes.glyph_bytes[8..12];
    assert!(hundred == [100, 0, 0, 0] || hundred == [0, 0, 0, 100]);
}
