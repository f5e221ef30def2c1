use ttf_loader::font_loader::{GlyphDescription, Point};
use ttf_loader::outline::halfway;
use ttf_loader::utils::get_indices;

fn on(x: i32, y: i32) -> Point {
    Point::from_units(x, y, true)
}

fn off(x: i32, y: i32) -> Point {
    Point::from_units(x, y, false)
}

fn glyph(ends: Vec<usize>, coordinates: Vec<Point>) -> GlyphDescription {
    GlyphDescription {
        number_of_contours: ends.len() as i16,
        xmin: -1,
        ymin: -2,
        xmax: 3,
        ymax: 4,
        end_pts_of_contours: ends,
        coordinates,
    }
}

/// Whether every point of every contour differs in kind from the point
/// after it, the first point following the last.
fn alternates(glyph: &GlyphDescription) -> bool {
    let mut start = 0;
    for &end in &glyph.end_pts_of_contours {
        for j in start..=end {
            let next = if j == end { start } else { j + 1 };
            if glyph.coordinates[j].on_curve == glyph.coordinates[next].on_curve {
                return false;
            }
        }
        start = end + 1;
    }
    true
}

#[test]
fn midpoint_is_halfway_and_of_the_other_kind() {
    assert_eq!(halfway(on(0, 0), on(100, 50)), off(50, 25));
    assert_eq!(halfway(off(-10, 4), off(10, -4)), on(0, 0));
    // An odd sum of units falls on a half unit.
    assert_eq!(halfway(on(0, 0), on(1, 3)), Point { x: 1, y: 3, on_curve: false });
    assert_eq!(halfway(on(-1, 0), on(0, -3)), Point { x: -1, y: -3, on_curve: false });
}

#[test]
fn midpoint_of_half_units_is_rounded_down() {
    let a = Point { x: 1, y: -1, on_curve: true };
    let b = Point { x: 2, y: -2, on_curve: true };
    assert_eq!(halfway(a, b), Point { x: 1, y: -2, on_curve: false });
}

#[test]
fn midpoint_of_extreme_points_does_not_overflow() {
    let a = Point { x: i64::MAX, y: i64::MIN, on_curve: false };
    let b = Point { x: i64::MAX, y: i64::MIN, on_curve: false };
    assert_eq!(halfway(a, b), Point { x: i64::MAX, y: i64::MIN, on_curve: true });
    let c = Point { x: i64::MIN, y: i64::MAX, on_curve: false };
    assert_eq!(halfway(a, c), Point { x: -1, y: -1, on_curve: true });
}

#[test]
fn square_gets_a_control_point_on_every_side() {
    let mut square = glyph(vec![3], vec![on(0, 0), on(100, 0), on(100, 100), on(0, 100)]);
    square.insert_inbetween_points();
    assert_eq!(
        square.coordinates,
        vec![
            on(0, 0),
            off(50, 0),
            on(100, 0),
            off(100, 50),
            on(100, 100),
            off(50, 100),
            on(0, 100),
            off(0, 50),
        ]
    );
    assert_eq!(square.end_pts_of_contours, vec![7]);
    assert!(alternates(&square));
    assert_eq!((square.xmin, square.ymin, square.xmax, square.ymax), (-1, -2, 3, 4));
    assert_eq!(square.number_of_contours, 1);
}

#[test]
fn normalizing_twice_changes_nothing_more() {
    let mut square = glyph(vec![3], vec![on(0, 0), on(100, 0), on(100, 100), on(0, 100)]);
    square.insert_inbetween_points();
    let once = square.clone();
    square.insert_inbetween_points();
    assert_eq!(square, once);
    assert_eq!(square.coordinates.len(), 8);
}

#[test]
fn alternating_contour_is_left_as_it_is() {
    let points = vec![on(0, 0), off(5, 5), on(10, 0), off(5, -5)];
    let mut lens = glyph(vec![3], points.clone());
    lens.insert_inbetween_points();
    assert_eq!(lens.coordinates, points);
    assert_eq!(lens.end_pts_of_contours, vec![3]);
}

#[test]
fn two_control_points_get_a_curve_point_between_them() {
    let mut curve = glyph(vec![2], vec![on(0, 0), off(10, 10), off(30, 10)]);
    curve.insert_inbetween_points();
    assert_eq!(
        curve.coordinates,
        vec![on(0, 0), off(10, 10), on(20, 10), off(30, 10)]
    );
    assert_eq!(curve.end_pts_of_contours, vec![3]);
    assert!(alternates(&curve));
}

#[test]
fn last_point_is_compared_with_the_first() {
    let mut contour = glyph(vec![2], vec![on(0, 0), off(4, 4), on(8, 0)]);
    contour.insert_inbetween_points();
    assert_eq!(contour.coordinates, vec![on(0, 0), off(4, 4), on(8, 0), off(4, 0)]);
    assert!(alternates(&contour));
}

#[test]
fn contour_of_one_point_gets_its_own_midpoint() {
    let mut dot = glyph(vec![0], vec![on(6, 8)]);
    dot.insert_inbetween_points();
    assert_eq!(dot.coordinates, vec![on(6, 8), off(6, 8)]);
    assert_eq!(dot.end_pts_of_contours, vec![1]);
    assert!(alternates(&dot));
}

#[test]
fn contours_are_normalized_one_by_one() {
    let mut two = glyph(
        vec![1, 4],
        vec![on(0, 0), on(10, 0), on(0, 10), off(5, 15), on(10, 10)],
    );
    two.insert_inbetween_points();
    assert_eq!(
        two.coordinates,
        vec![
            on(0, 0),
            off(5, 0),
            on(10, 0),
            off(5, 0),
            on(0, 10),
            off(5, 15),
            on(10, 10),
            off(5, 10),
        ]
    );
    assert_eq!(two.end_pts_of_contours, vec![3, 7]);
    assert!(alternates(&two));
    let once = two.clone();
    two.insert_inbetween_points();
    assert_eq!(two, once);
}

#[test]
fn glyph_without_outline_stays_empty() {
    let mut empty = glyph(vec![], vec![]);
    empty.number_of_contours = -1;
    empty.insert_inbetween_points();
    assert!(empty.coordinates.is_empty());
    assert!(empty.end_pts_of_contours.is_empty());
    assert_eq!(empty.number_of_contours, -1);
}

#[test]
fn contour_that_ends_before_it_starts_is_empty() {
    // The second contour would start at 3 and ends at 1.
    let mut odd = glyph(vec![2, 1], vec![on(0, 0), off(1, 1), on(2, 0)]);
    odd.insert_inbetween_points();
    assert_eq!(odd.coordinates, vec![on(0, 0), off(1, 1), on(2, 0), off(1, 0)]);
    assert_eq!(odd.end_pts_of_contours, vec![3, 3]);
    let once = odd.clone();
    odd.insert_inbetween_points();
    assert_eq!(odd, once);
}

#[test]
fn indices_list_each_contour_from_start_to_end() {
    let two = glyph(
        vec![1, 4],
        vec![on(0, 0), on(10, 0), on(0, 10), off(5, 15), on(10, 10)],
    );
    assert_eq!(get_indices(&two), vec![vec![0, 1], vec![2, 3, 4]]);
    let none = glyph(vec![], vec![]);
    assert_eq!(get_indices(&none), Vec::<Vec<u32>>::new());
    let odd = glyph(vec![2, 1, 2], vec![on(0, 0), off(1, 1), on(2, 0)]);
    assert_eq!(get_indices(&odd), vec![vec![0, 1, 2], vec![], vec![2]]);
}

#[test]
fn indices_follow_the_normalized_contour_ends() {
    let mut square = glyph(vec![3], vec![on(0, 0), on(100, 0), on(100, 100), on(0, 100)]);
    square.insert_inbetween_points();
    assert_eq!(get_indices(&square), vec![vec![0, 1, 2, 3, 4, 5, 6, 7]]);
}

#[test]
fn contours_are_the_parts_between_the_contour_ends() {
    let two = glyph(
        vec![1, 4],
        vec![on(0, 0), on(10, 0), on(0, 10), off(5, 15), on(10, 10)],
    );
    assert_eq!(
        two.contours(),
        vec![vec![on(0, 0), on(10, 0)], vec![on(0, 10), off(5, 15), on(10, 10)]]
    );
    let none = glyph(vec![], vec![]);
    assert_eq!(none.contours(), Vec::<Vec<Point>>::new());
    let odd = glyph(vec![2, 1, 2], vec![on(0, 0), off(1, 1), on(2, 0)]);
    assert_eq!(
        odd.contours(),
        vec![vec![on(0, 0), off(1, 1), on(2, 0)], vec![], vec![on(2, 0)]]
    );
}

#[test]
fn normalized_glyph_has_the_points_of_its_contours() {
    let mut two = glyph(
        vec![1, 4],
        vec![on(0, 0), on(10, 0), on(0, 10), off(5, 15), on(10, 10)],
    );
    two.insert_inbetween_points();
    let parts = two.contours();
    assert_eq!(parts.iter().map(|part| part.len()).sum::<usize>(), two.coordinates.len());
    assert_eq!(parts.concat(), two.coordinates);
}
