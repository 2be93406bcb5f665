use rustgames::color_parse::{
    from_hex, named_color, parse_color, parse_named, parse_rgb_hex, parse_rgba_hex, parse_tuple,
    ColorParseError, ColorSpec, NamedColor,
};

#[test]
fn hex_fields() {
    assert_eq!(parse_rgb_hex("ff8000"), Some((255, 128, 0, 255)));
    assert_eq!(parse_rgb_hex("FF8000zz"), Some((255, 128, 0, 255)));
    assert_eq!(parse_rgb_hex("ff80"), None);
    assert_eq!(parse_rgb_hex("ff80g0"), None);
    assert_eq!(parse_rgba_hex("01020304"), Some((1, 2, 3, 4)));
    assert_eq!(parse_rgba_hex("010203"), None);
    // a field is exactly two hex digits: a sign is not a hex digit
    assert_eq!(parse_rgb_hex("+a+b+c"), None);
    assert_eq!(parse_rgb_hex("+f+f+f"), None);
}

#[test]
fn hex_colors() {
    assert_eq!(from_hex("#00ff00"), Some((0, 255, 0, 255)));
    assert_eq!(from_hex("##00ff0080"), Some((0, 255, 0, 128)));
    assert_eq!(from_hex("00ff0"), None);
    assert_eq!(from_hex("#00ff000"), None);
    assert_eq!(from_hex(""), None);
    assert_eq!(from_hex("#+f+f+f"), None);
    assert_eq!(from_hex("ab€def"), None);
}

#[test]
fn tuples() {
    assert_eq!(parse_tuple("(255, 128, 0)"), Some((255, 128, 0, 255)));
    assert_eq!(parse_tuple("1,2,3,4"), Some((1, 2, 3, 4)));
    assert_eq!(parse_tuple("((1 , +2 ,\t003))"), Some((1, 2, 3, 255)));
    assert_eq!(parse_tuple("(1, 2)"), None);
    assert_eq!(parse_tuple("(1, 2, 3, 4, 5)"), None);
    assert_eq!(parse_tuple("(256, 0, 0)"), None);
    assert_eq!(parse_tuple("(1, , 3)"), None);
    assert_eq!(parse_tuple("(-1, 2, 3)"), None);
    assert_eq!(parse_tuple("(+, 2, 3)"), None);
    assert_eq!(parse_tuple("(0000255, 2, 3)"), Some((255, 2, 3, 255)));
    assert_eq!(parse_tuple("(1\u{a0}, 2, 3)"), Some((1, 2, 3, 255)));
}

#[test]
fn names() {
    assert_eq!(parse_named("Red"), Some(NamedColor::Red));
    assert_eq!(parse_named("DARK GRAY"), Some(NamedColor::DarkGray));
    assert_eq!(parse_named("light_gray"), Some(NamedColor::LightGray));
    assert_eq!(parse_named("Transparent"), Some(NamedColor::Transparent));
    assert_eq!(parse_named("grey"), None);
    assert_eq!(named_color("gold"), Some(NamedColor::Gold));
    assert_eq!(named_color("Gold"), None);
}

#[test]
fn from_str_dispatch() {
    assert_eq!(parse_color("  (10, 20, 30)  "), Ok(ColorSpec::Rgba(10, 20, 30, 255)));
    assert_eq!(parse_color("10,20,30,40"), Ok(ColorSpec::Rgba(10, 20, 30, 40)));
    assert_eq!(parse_color("(10, 20)"), Err(ColorParseError::UnknownName));
    assert_eq!(parse_color("#ff0000"), Ok(ColorSpec::Rgba(255, 0, 0, 255)));
    assert_eq!(parse_color("ff0000ff"), Ok(ColorSpec::Rgba(255, 0, 0, 255)));
    assert_eq!(parse_color("#ff00"), Err(ColorParseError::InvalidHex));
    assert_eq!(parse_color("beef"), Err(ColorParseError::InvalidHex));
    assert_eq!(parse_color("#+f+f+f"), Err(ColorParseError::InvalidHex));
    assert_eq!(parse_color(""), Err(ColorParseError::InvalidHex));
    assert_eq!(parse_color(" Cyan\n"), Ok(ColorSpec::Named(NamedColor::Cyan)));
    assert_eq!(parse_color("mauve"), Err(ColorParseError::UnknownName));
}
