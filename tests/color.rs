use term_raster::color::Color;

#[test]
fn test_color_from_str_noalpha() {
    assert_eq!(
        Color::try_from("#fce822"),
        Ok(Color::new(0xfc, 0xe8, 0x22, 0xff))
    )
}

#[test]
fn test_color_from_str_alpha() {
    assert_eq!(
        Color::try_from("#ab23ffa0"),
        Ok(Color::new(0xab, 0x23, 0xff, 0xa0))
    )
}

#[test]
fn test_color_from_str_parse_error() {
    assert_eq!(
        Color::try_from("#ab23ffag"),
        Err(String::from("invalid digit found in string"))
    )
}

#[test]
fn test_color_from_str_error() {
    assert_eq!(
        Color::try_from("ab23ffag"),
        Err(String::from("not a hex string"))
    )
}

#[test]
fn color_uppercase_digits() {
    assert_eq!(
        Color::try_from("#FCE822"),
        Ok(Color::new(0xfc, 0xe8, 0x22, 0xff))
    )
}

#[test]
fn color_wrong_length_is_rejected() {
    assert_eq!(Color::try_from("#abc"), Err(String::from("not a hex string")));
    assert_eq!(Color::try_from(""), Err(String::from("not a hex string")));
}

#[test]
fn color_default_is_transparent_black() {
    assert_eq!(Color::default(), Color::new(0, 0, 0, 0));
}

#[test]
fn color_random_is_opaque() {
    for _ in 0..16 {
        assert_eq!(Color::random().alpha, 0xff);
    }
}

#[test]
fn color_sign_is_not_a_digit() {
    assert_eq!(
        Color::try_from("#+abcde"),
        Err(String::from("invalid digit found in string"))
    );
}
