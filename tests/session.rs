use term_raster::session::{Directive, Event, Session};

#[test]
fn ticks_draw_frames() {
    let mut s = Session::new();
    assert_eq!(s.on_event(Event::Tick), Directive::DrawFrame);
    assert_eq!(s.on_event(Event::Tick), Directive::DrawFrame);
    assert!(s.is_running());
}

#[test]
fn cancellation_deletes_all_images_last() {
    let mut s = Session::new();
    assert_eq!(s.on_event(Event::Tick), Directive::DrawFrame);
    assert_eq!(s.on_event(Event::Cancelled), Directive::DeleteAllImages);
    assert!(!s.is_running());
    assert_eq!(s.on_event(Event::Tick), Directive::Idle);
    assert_eq!(s.on_event(Event::Cancelled), Directive::Idle);
}

#[test]
fn write_failure_deletes_all_images_last() {
    let mut s = Session::new();
    assert_eq!(s.on_event(Event::WriteFailed), Directive::DeleteAllImages);
    assert_eq!(s.on_event(Event::WriteFailed), Directive::Idle);
    assert_eq!(s.on_event(Event::Tick), Directive::Idle);
}
