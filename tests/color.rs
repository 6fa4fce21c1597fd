use textual::color::{color_or, parse_color, Color};

#[test]
fn as_hex() {
    assert_eq!(Color::white().as_hex(), "FFFFFFFF");
    assert_eq!(Color::black().as_hex(), "000000FF");

    assert_eq!(Color::red().as_hex(), "FF0000FF");
    assert_eq!(Color::green().as_hex(), "00FF00FF");
    assert_eq!(Color::blue().as_hex(), "0000FFFF");
    assert_eq!(Color::transparent().as_hex(), "00000000");
}

#[test]
fn as_hex_mixed_digits() {
    assert_eq!(Color::new(0x12, 0xab, 0x09, 0xf0).as_hex(), "12AB09F0");
}

#[test]
fn named_colors_parse() {
    assert_eq!(parse_color("transparent"), Some(Color::new(0, 0, 0, 0)));
    assert_eq!(parse_color("blue"), Some(Color::new(0, 0, 255, 255)));
    assert_eq!(parse_color("magenta"), Some(Color::new(255, 0, 255, 255)));
    assert_eq!(parse_color("fuchsia"), Some(Color::new(255, 0, 255, 255)));
    assert_eq!(parse_color("cyan"), Some(Color::new(0, 255, 255, 255)));
    assert_eq!(parse_color("aqua"), Some(Color::new(0, 255, 255, 255)));
    assert_eq!(parse_color("yellow"), Some(Color::new(255, 255, 0, 255)));
}

#[test]
fn hex_colors_parse() {
    assert_eq!(parse_color("7f7f7f"), Some(Color::new(127, 127, 127, 255)));
    assert_eq!(parse_color("64349A"), Some(Color::new(100, 52, 154, 255)));
    assert_eq!(parse_color("11223344"), Some(Color::new(0x11, 0x22, 0x33, 0x44)));
    assert_eq!(parse_color("eed"), Some(Color::new(0xee, 0xee, 0xdd, 255)));
    assert_eq!(parse_color("f0a8"), Some(Color::new(0xff, 0x00, 0xaa, 0x88)));
}

#[test]
fn bad_colors_do_not_parse() {
    assert_eq!(parse_color(""), None);
    assert_eq!(parse_color("12345"), None);
    assert_eq!(parse_color("12345g"), None);
    assert_eq!(parse_color("Black"), None);
    assert_eq!(parse_color("ééé"), None);
}

#[test]
fn color_or_falls_back() {
    let white = Color::white();
    assert_eq!(color_or(Some("red"), white), Color::new(255, 0, 0, 255));
    assert_eq!(color_or(Some("nope"), white), white);
    assert_eq!(color_or(None, white), white);
}

#[test]
fn scale_rgb_keeps_alpha_and_clamps() {
    let c = Color::new(200, 100, 10, 77);
    assert_eq!(c.scale_rgb(1, 2), Color::new(100, 50, 5, 77));
    assert_eq!(c.scale_rgb(2, 1), Color::new(255, 200, 20, 77));
    assert_eq!(c.scale_rgb(0, 1), Color::new(0, 0, 0, 77));
}

#[test]
fn color_bytes() {
    let c = Color::from_rgb(1, 2, 3);
    assert_eq!(c.to_bytes(), [1, 2, 3, 255]);
    assert_eq!(Color::from_slice(&[4, 5, 6, 7]), Some(Color::new(4, 5, 6, 7)));
    assert_eq!(Color::from_slice(&[4, 5, 6]), None);
}
