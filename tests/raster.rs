use term_raster::raster::{edge_at, is_in_triangle, pixel_box, ScreenPoint, SUBPIXEL};

fn px(x: i32, y: i32) -> ScreenPoint {
    ScreenPoint::new(x * SUBPIXEL as i32, y * SUBPIXEL as i32)
}

#[test]
fn point_in_triangle() {
    let a = px(2, 2);
    let b = px(7, 4);
    let c = px(4, 8);
    assert!(is_in_triangle(px(4, 4), a, b, c));
}

#[test]
fn point_outside_triangle() {
    let a = px(2, 2);
    let b = px(7, 4);
    let c = px(4, 8);
    assert!(!is_in_triangle(px(1, 1), a, b, c));
    assert!(!is_in_triangle(px(7, 8), a, b, c));
}

#[test]
fn corners_and_edges_pass_the_inside_test() {
    let a = px(0, 0);
    let b = px(4, 0);
    let c = px(0, 4);
    assert!(is_in_triangle(a, a, b, c));
    assert!(is_in_triangle(px(2, 2), a, b, c));
    assert!(!is_in_triangle(px(3, 2), a, b, c));
}

#[test]
fn clockwise_triangle_fails_inside_test() {
    let a = px(0, 0);
    let b = px(0, 4);
    let c = px(4, 0);
    assert!(!is_in_triangle(px(1, 1), a, b, c));
}

#[test]
fn edge_function_value() {
    // (b - a) x (p - a) = 4 * 3 - 0 * 1, in sub-pixel units squared.
    let a = ScreenPoint::new(0, 0);
    let b = ScreenPoint::new(4, 0);
    assert_eq!(edge_at(a, b, 1, 3), 12);
    assert_eq!(edge_at(b, a, 1, 3), -12);
}

#[test]
fn stepped_edge_equals_direct() {
    let a = ScreenPoint::new(300, -77);
    let b = ScreenPoint::new(-1000, 2049);
    let step_x = SUBPIXEL as i128 * (a.y as i128 - b.y as i128);
    let step_y = SUBPIXEL as i128 * (b.x as i128 - a.x as i128);
    let mut row = edge_at(a, b, 0, 0);
    for y in 0..10i128 {
        let mut w = row;
        for x in 0..10i128 {
            assert_eq!(w, edge_at(a, b, x * SUBPIXEL as i128, y * SUBPIXEL as i128));
            w += step_x;
        }
        row += step_y;
    }
}

#[test]
fn bounding_box_is_clamped() {
    let a = ScreenPoint::new(-500, -500);
    let b = ScreenPoint::new(100 * SUBPIXEL as i32, 3 * SUBPIXEL as i32 + 1);
    let c = px(2, 9);
    assert_eq!(pixel_box(a, b, c, 10, 6), (0, 0, 9, 5));
}

#[test]
fn bounding_box_rounds_outwards() {
    let a = ScreenPoint::new(SUBPIXEL as i32 + 10, SUBPIXEL as i32 * 2 + 1);
    let b = ScreenPoint::new(SUBPIXEL as i32 * 3 + 1, SUBPIXEL as i32 * 2 + 1);
    let c = ScreenPoint::new(SUBPIXEL as i32 * 2, SUBPIXEL as i32 * 4);
    assert_eq!(pixel_box(a, b, c, 100, 100), (1, 2, 4, 4));
}

#[test]
fn covered_pixels_lie_in_the_box() {
    let a = ScreenPoint::new(300, 200);
    let b = ScreenPoint::new(2000, 900);
    let c = ScreenPoint::new(700, 2500);
    let (x0, y0, x1, y1) = pixel_box(a, b, c, 20, 20);
    for y in 0..20i32 {
        for x in 0..20i32 {
            if is_in_triangle(px(x, y), a, b, c) {
                let (x, y) = (x as usize, y as usize);
                assert!(x0 <= x && x <= x1 && y0 <= y && y <= y1);
            }
        }
    }
}
