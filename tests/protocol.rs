use term_raster::color::Color;
use term_raster::protocol::{
    encode, Command, Composition, ControlAction, ControlCommand, ImageAction, ImageCommand,
    Quietness,
};
use term_raster::raster::{ScreenPoint, SUBPIXEL};
use term_raster::screen::Screen;

fn text(bytes: Vec<u8>) -> String {
    String::from_utf8(bytes).unwrap()
}

#[test]
fn delete_all_command() {
    let cmd = Command::Control(ControlCommand { action: ControlAction::DeleteAll, id: 0, quietness: Quietness::SuppressAll });
    assert_eq!(text(encode(&cmd)), "\x1b_Gq=2,a=d,d=A,m=0;\x1b\\");
}

#[test]
fn delete_image_command() {
    let cmd = Command::Control(ControlCommand { action: ControlAction::DeleteImage, id: 7, quietness: Quietness::SuppressAll });
    assert_eq!(text(encode(&cmd)), "\x1b_Gq=2,a=d,d=I,i=7,m=0;\x1b\\");
}

#[test]
fn transmit_command() {
    let cmd = Command::Image(ImageCommand {
        action: ImageAction::TransmitAndDisplay { width: 1, height: 1 },
        id: 2,
        quietness: Quietness::SuppressAll,
        payload: vec![1, 2, 3, 4],
    });
    assert_eq!(
        text(encode(&cmd)),
        "\x1b_Gq=2,a=T,f=32,t=d,s=1,v=1,S=0,O=0,I=0,C=1,i=2,m=0;AQIDBA==\x1b\\"
    );
}

#[test]
fn frame_loading_command() {
    let cmd = Command::Image(ImageCommand {
        action: ImageAction::AnimationFrameLoading {
            frame_number: 0,
            gap: 40,
            composition: Composition::AlphaBlend,
        },
        id: 3,
        quietness: Quietness::SuppressAll,
        payload: vec![0, 0, 0],
    });
    assert_eq!(text(encode(&cmd)), "\x1b_Gq=2,a=f,z=40,i=3,m=0;AAAA\x1b\\");
}

#[test]
fn frame_control_command() {
    let cmd = Command::Control(ControlCommand {
        action: ControlAction::AnimationFrameControl { frame_number: 1, gap: 100, loops: 1 },
        id: 3,
        quietness: Quietness::SuppressAll,
    });
    assert_eq!(text(encode(&cmd)), "\x1b_Gq=2,a=a,s=1,z=100,c=1,v=0,i=3,m=0;\x1b\\");
}

#[test]
fn large_payloads_are_chunked() {
    let cmd = Command::Image(ImageCommand {
        action: ImageAction::TransmitAndDisplay { width: 1000, height: 1 },
        id: 2,
        quietness: Quietness::SuppressAll,
        payload: vec![0; 4000],
    });
    let out = text(encode(&cmd));
    assert_eq!(out.matches("\x1b\\").count(), 2);
    assert!(out.contains("m=1;"));
    assert!(out.contains("\x1b_Ga=T,m=0;"));
}

#[test]
fn empty_image_sends_nothing() {
    let cmd = Command::Image(ImageCommand {
        action: ImageAction::TransmitAndDisplay { width: 0, height: 0 },
        id: 2,
        quietness: Quietness::SuppressAll,
        payload: Vec::new(),
    });
    assert!(encode(&cmd).is_empty());
}

#[test]
fn draw_sends_frame_then_deletes_previous_and_clears() {
    let mut screen = Screen::new(1, 1);
    let s = SUBPIXEL as i32;
    screen.render(
        &vec![ScreenPoint::new(0, 0), ScreenPoint::new(s, 0), ScreenPoint::new(0, s)],
        &vec![Color::new(1, 2, 3, 4)],
    );
    let mut out = Vec::new();
    screen.draw_to(&mut out);
    // Nothing was on the terminal before, so nothing is deleted.
    assert_eq!(
        text(out),
        "\x1b_Gq=2,a=T,f=32,t=d,s=1,v=1,S=0,O=0,I=0,C=1,i=2,m=0;AQIDBA==\x1b\\"
    );
    assert_eq!(screen.cell(0, 0), Color::default());
    let mut out = Vec::new();
    screen.draw_to(&mut out);
    assert!(text(out).ends_with("\x1b_Gq=2,a=d,d=I,i=2,m=0;\x1b\\"));
}

#[test]
fn clear_before_any_frame_is_empty() {
    assert!(Screen::new(2, 2).clear().is_empty());
}

#[test]
fn clear_keeps_the_current_image() {
    let mut screen = Screen::new(1, 1);
    let mut out = Vec::new();
    screen.draw_to(&mut out);
    assert!(screen.clear().is_empty());
    screen.draw_to(&mut out);
    screen.draw_to(&mut out);
    // Each draw already deleted the image before it.
    assert!(screen.clear().is_empty());
}

#[test]
fn delete_all_images_from_screen() {
    let mut screen = Screen::new(2, 2);
    let mut out = Vec::new();
    screen.draw_to(&mut out);
    assert_eq!(text(screen.delete_all_images()), "\x1b_Gq=2,a=d,d=A,m=0;\x1b\\");
    // Nothing is left to delete afterwards.
    assert!(screen.clear().is_empty());
}

#[test]
fn quietness_is_sent_as_given() {
    let verbose = Command::Control(ControlCommand {
        action: ControlAction::DeleteAll,
        id: 0,
        quietness: Quietness::Verbose,
    });
    assert_eq!(text(encode(&verbose)), "\x1b_Ga=d,d=A,m=0;\x1b\\");
    let errors_only = Command::Image(ImageCommand {
        action: ImageAction::TransmitAndDisplay { width: 1, height: 1 },
        id: 2,
        quietness: Quietness::SuppressOk,
        payload: vec![1, 2, 3, 4],
    });
    assert_eq!(
        text(encode(&errors_only)),
        "\x1b_Gq=1,a=T,f=32,t=d,s=1,v=1,S=0,O=0,I=0,C=1,i=2,m=0;AQIDBA==\x1b\\"
    );
}
