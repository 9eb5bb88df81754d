use term_raster::color::Color;
use term_raster::raster::{ScreenPoint, SUBPIXEL};
use term_raster::screen::{next_frame_id, render_scaled, Screen};

fn px(x: i32, y: i32) -> ScreenPoint {
    ScreenPoint::new(x * SUBPIXEL as i32, y * SUBPIXEL as i32)
}

const RED: Color = Color { red: 255, green: 0, blue: 0, alpha: 255 };
const BLUE: Color = Color { red: 0, green: 0, blue: 255, alpha: 255 };

fn colored(screen: &Screen) -> Vec<(usize, usize)> {
    let (w, h) = screen.buffer_size();
    let mut out = Vec::new();
    for r in 0..h {
        for c in 0..w {
            if screen.cell(r, c) != Color::default() {
                out.push((c, r));
            }
        }
    }
    out
}

#[test]
fn new_screen_is_blank() {
    let screen = Screen::new(3, 2);
    assert_eq!(screen.buffer_size(), (3, 2));
    assert!(colored(&screen).is_empty());
}

#[test]
fn render_fills_pixels_whose_corner_is_inside() {
    let mut screen = Screen::new(4, 4);
    screen.render(&vec![px(0, 0), px(4, 0), px(0, 4)], &vec![RED]);
    for y in 0..4 {
        for x in 0..4 {
            let expected = if x + y <= 4 { RED } else { Color::default() };
            assert_eq!(screen.cell(y, x), expected, "pixel ({x}, {y})");
        }
    }
}

#[test]
fn render_skips_clockwise_triangles() {
    let mut screen = Screen::new(4, 4);
    screen.render(&vec![px(0, 0), px(0, 4), px(4, 0)], &vec![RED]);
    assert!(colored(&screen).is_empty());
}

#[test]
fn later_triangles_overwrite_earlier_ones() {
    let mut screen = Screen::new(4, 4);
    let points = vec![px(0, 0), px(4, 0), px(0, 4), px(0, 0), px(2, 0), px(0, 2)];
    screen.render(&points, &vec![RED, BLUE]);
    assert_eq!(screen.cell(0, 0), BLUE);
    assert_eq!(screen.cell(1, 1), BLUE);
    assert_eq!(screen.cell(0, 3), RED);
    assert_eq!(screen.cell(3, 3), Color::default());
}

#[test]
fn render_clamps_to_the_grid() {
    let mut screen = Screen::new(3, 3);
    screen.render(&vec![px(-10, -10), px(20, -10), px(-10, 20)], &vec![RED]);
    assert_eq!(colored(&screen).len(), 9);
}

#[test]
fn scaled_pixels_fill_blocks() {
    let mut screen = Screen::new(2, 2);
    screen.scale(3);
    assert_eq!(screen.buffer_size(), (6, 6));
    // Pixels (0, 0), (1, 0) and (0, 1) have their corners on the triangle.
    screen.render(&vec![px(0, 0), px(1, 0), px(0, 1)], &vec![RED]);
    let mut expected = Vec::new();
    for r in 0..6 {
        for c in 0..6 {
            if r / 3 + c / 3 <= 1 {
                expected.push((c, r));
            }
        }
    }
    assert_eq!(colored(&screen), expected);
}

#[test]
fn render_scaled_writes_one_block() {
    let mut buf = vec![vec![Color::default(); 4]; 4];
    render_scaled(&mut buf, (1, 0), 2, RED);
    for r in 0..4 {
        for c in 0..4 {
            let inside = r < 2 && (2..4).contains(&c);
            assert_eq!(buf[r][c] == RED, inside);
        }
    }
}

#[test]
fn clear_frame_buf_resets_cells() {
    let mut screen = Screen::new(2, 2);
    screen.render(&vec![px(0, 0), px(2, 0), px(0, 2)], &vec![RED]);
    assert!(!colored(&screen).is_empty());
    screen.clear_frame_buf();
    assert!(colored(&screen).is_empty());
}

#[test]
fn frame_ids_wrap_to_two() {
    assert_eq!(next_frame_id(1), 2);
    assert_eq!(next_frame_id(41), 42);
    assert_eq!(next_frame_id(u32::MAX), 2);
}

#[test]
fn zero_sized_screen_renders_nothing() {
    let mut screen = Screen::new(0, 5);
    screen.render(&vec![px(0, 0), px(4, 0), px(0, 4)], &vec![RED]);
    assert_eq!(screen.buffer_size(), (0, 5));
}

/// A unit cube seen head-on, projected as the renderer's caller does it:
/// `pixel = center + (x, y) * (height / 5)`, in sub-pixel units.
#[test]
fn cube_scenario() {
    let vertices = [
        (1.0, 1.0, -1.0),
        (1.0, -1.0, -1.0),
        (1.0, 1.0, 1.0),
        (1.0, -1.0, 1.0),
        (-1.0, 1.0, -1.0),
        (-1.0, -1.0, -1.0),
        (-1.0, 1.0, 1.0),
        (-1.0, -1.0, 1.0),
    ];
    let faces: [[usize; 4]; 6] = [
        [1, 5, 7, 3],
        [4, 3, 7, 8],
        [8, 7, 5, 6],
        [6, 2, 4, 8],
        [2, 1, 3, 4],
        [6, 5, 1, 2],
    ];
    let mut corners = Vec::new();
    for face in faces.iter() {
        let face: Vec<usize> = face.iter().map(|i| i - 1).collect();
        corners.extend(term_raster::mesh::fan_triangulate(&face));
    }
    assert_eq!(corners.len(), 36);

    let size = 64.0f64;
    let unit = size / 5.0;
    let project = |v: (f64, f64, f64)| {
        let x = size / 2.0 + v.0 * unit;
        let y = size / 2.0 + v.1 * unit;
        ScreenPoint::new((x * SUBPIXEL as f64).round() as i32, (y * SUBPIXEL as f64).round() as i32)
    };
    let points: Vec<ScreenPoint> = corners.iter().map(|&i| project(vertices[i])).collect();
    let colors = vec![RED; 12];
    let mut screen = Screen::new(64, 64);
    screen.render(&points, &colors);

    let painted = colored(&screen);
    assert!(!painted.is_empty());
    // Every face projects into the square between 19.2 and 44.8 pixels.
    for &(x, y) in painted.iter() {
        assert!((19..=45).contains(&x) && (19..=45).contains(&y), "({x}, {y})");
    }
    // Pixels well inside the front face are painted.
    for y in 21..44 {
        for x in 21..44 {
            assert_eq!(screen.cell(y, x), RED);
        }
    }
}
