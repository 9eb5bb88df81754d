use term_raster::color::Color;
use term_raster::payload::{buf_to_payload, payload_to_buf};

fn grid() -> Vec<Vec<Color>> {
    vec![
        vec![Color::new(1, 2, 3, 4), Color::new(5, 6, 7, 8)],
        vec![Color::new(9, 10, 11, 12), Color::new(13, 14, 15, 16)],
        vec![Color::new(17, 18, 19, 20), Color::new(21, 22, 23, 24)],
    ]
}

#[test]
fn payload_is_bottom_row_first() {
    assert_eq!(
        buf_to_payload(&grid()),
        vec![
            17, 18, 19, 20, 21, 22, 23, 24, 9, 10, 11, 12, 13, 14, 15, 16, 1, 2, 3, 4, 5, 6, 7, 8
        ]
    );
}

#[test]
fn payload_round_trip() {
    let buf = grid();
    let payload = buf_to_payload(&buf);
    assert_eq!(payload_to_buf(&payload, 2, 3), buf);
}

#[test]
fn empty_buffer_gives_empty_payload() {
    assert!(buf_to_payload(&Vec::new()).is_empty());
    assert!(buf_to_payload(&vec![Vec::new(), Vec::new()]).is_empty());
}
