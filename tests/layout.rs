use textual::color::Color;
use textual::font::{FontVariant, FontWeight};
use textual::layout::{
    compose, distinct_faces, fonts_if_same, full_text, get_alt, glyph_image, padding, pattern, render,
    tint_rgb, AspectRatio, FontFace, PlacedGlyph, Visual,
};

#[test]
fn aspect_padding_already_matching() {
    let ratio = AspectRatio { width: 2, height: 1 };
    assert_eq!(padding(100, 50, 20, Some(ratio)), Some((20, 20)));
}

#[test]
fn aspect_padding_grows_width() {
    let ratio = AspectRatio { width: 4, height: 1 };
    let (h, v) = padding(100, 50, 20, Some(ratio)).unwrap();
    assert_eq!((h, v), (180, 20));
    assert_eq!((100 + h) / (50 + v), 4);
}

#[test]
fn aspect_padding_grows_height() {
    let ratio = AspectRatio { width: 1, height: 1 };
    assert_eq!(padding(100, 50, 10, Some(ratio)), Some((10, 60)));
    let wide = AspectRatio { width: 9, height: 5 };
    // (100 + 10) * 5 / 9 - 50 = 11.1.., rounded up
    assert_eq!(padding(100, 50, 10, Some(wide)), Some((10, 12)));
}

#[test]
fn aspect_padding_never_below_flat() {
    // too wide for 4:1; the height padding needed, (410 + 20) / 4 - 100 = 7.5,
    // is less than the flat 20
    let ratio = AspectRatio { width: 4, height: 1 };
    assert_eq!(padding(410, 100, 20, Some(ratio)), Some((20, 20)));
    assert_eq!(padding(60, 50, 20, None), Some((20, 20)));
}

#[test]
fn padding_too_large() {
    assert_eq!(padding(usize::MAX, 1, 1, None), None);
}

#[test]
fn named_patterns() {
    match pattern("trans", 4) {
        Some(Visual::Pattern(s)) => {
            assert_eq!(s.colors, vec![Color::from_rgb(85, 205, 252), Color::white(), Color::from_rgb(247, 168, 184)]);
            assert_eq!(s.stripe_width, 4);
            assert_eq!(s.slope, 2);
        }
        _ => panic!("no trans pattern"),
    }
    match pattern("ace", 1) {
        Some(Visual::Pattern(s)) => assert_eq!(s.colors[3], Color::from_rgb(100, 52, 154)),
        _ => panic!("no ace pattern"),
    }
    assert!(pattern("enby", 2).is_some());
    assert!(pattern("plaid", 2).is_none());
}

#[test]
fn shared_faces_resolve_once() {
    let bold = FontVariant::with_weight(FontWeight::Bold);
    let runs = vec![
        FontFace::new("Lato".to_string(), FontVariant::default()),
        FontFace::new("Lato".to_string(), bold),
        FontFace::new("Lato".to_string(), FontVariant::default()),
        FontFace::new("".to_string(), FontVariant::default()),
    ];
    let (faces, index) = distinct_faces(&runs);
    assert_eq!(faces.len(), 3);
    assert_eq!(index, vec![0, 1, 0, 2]);
    assert!(faces[1].same_as(&runs[1]));
}

#[test]
fn texts_joined_and_fonts_compared() {
    let texts = vec!["ab".to_string(), "".to_string(), "c".to_string()];
    assert_eq!(full_text(&texts), "abc");
    assert_eq!(fonts_if_same(&vec![Some("A".to_string())]), Some(None));
    assert_eq!(fonts_if_same(&vec![Some("A".to_string()), Some("A".to_string())]), Some(Some("A".to_string())));
    assert_eq!(fonts_if_same(&vec![None, None]), Some(None));
    assert_eq!(fonts_if_same(&vec![Some("A".to_string()), None]), None);
}

fn glyph(x: isize, y: isize, run: usize) -> PlacedGlyph {
    PlacedGlyph { x, y, width: 2, height: 1, coverage: vec![255, 0], run }
}

#[test]
fn solid_glyph_image() {
    let img = glyph_image(&Visual::Color(Color::red()), &glyph(0, 0, 0), 5, 5);
    assert_eq!(img.data(), &[255, 0, 0, 255, 255, 0, 0, 0]);
}

#[test]
fn pattern_glyph_image_uses_canvas_position() {
    let stripes = match pattern("trans", 1) {
        Some(v) => v,
        None => panic!(),
    };
    let img = glyph_image(&stripes, &glyph(0, 0, 0), 1, 0);
    // canvas x 1 is the second stripe (white), x 2 the third
    assert_eq!(img.data(), &[255, 255, 255, 255, 247, 168, 184, 0]);
}

#[test]
fn compose_draws_glyphs_in_order() {
    let visuals = vec![Visual::Color(Color::red()), Visual::Color(Color::blue())];
    let glyphs = vec![glyph(0, 0, 0), glyph(1, 0, 1)];
    let img = compose(4, 2, 1, 1, &Visual::Color(Color::black()), &visuals, &glyphs);
    assert_eq!(img.color(1, 1), Color::red());
    assert_eq!(img.color(2, 1), Color::blue());
    assert_eq!(img.color(3, 1), Color::black());
    assert_eq!(img.color(0, 0), Color::black());
}

#[test]
fn render_centres_content() {
    let visuals = vec![Visual::Color(Color::white())];
    let glyphs = vec![glyph(0, 0, 0)];
    let img = render(2, 1, 4, None, &Visual::Color(Color::transparent()), &visuals, &glyphs).unwrap();
    assert_eq!((img.width(), img.height()), (6, 5));
    assert_eq!(img.color(2, 2), Color::white());
    assert_eq!(img.color(3, 2), Color::transparent());
    assert_eq!(img.color(0, 0), Color::transparent());
}

#[test]
fn render_refuses_huge_canvas() {
    let visuals: Vec<Visual> = vec![];
    let glyphs: Vec<PlacedGlyph> = vec![];
    assert!(render(usize::MAX / 2, 1, 0, None, &Visual::Color(Color::black()), &visuals, &glyphs).is_none());
}

#[test]
fn alt_text_names_a_shared_font() {
    let texts = vec!["a".to_string(), "b".to_string()];
    let lato = vec![Some("Lato".to_string()), Some("Lato".to_string())];
    assert_eq!(get_alt(&texts, &lato), "'ab' in the font Lato");
    assert_eq!(get_alt(&texts, &vec![None, None]), "ab");
    assert_eq!(get_alt(&texts, &vec![Some("Lato".to_string()), None]), "ab");
    assert_eq!(get_alt(&vec!["x".to_string()], &vec![Some("Lato".to_string())]), "x");
}

#[test]
fn tinted_rgb_glyphs() {
    let first = PlacedGlyph { x: 0, y: 0, width: 2, height: 1, coverage: vec![255, 128], run: 0 };
    let second = PlacedGlyph { x: 1, y: 0, width: 1, height: 1, coverage: vec![0], run: 0 };
    let buf = tint_rgb(3, 2, 1, 1, &vec![first, second], Color::from_rgb(200, 100, 50));
    assert_eq!(buf.len(), 18);
    // row 0 stays black; row 1: black, full color, then overwritten by zero coverage
    assert_eq!(&buf[0..9], &[0; 9]);
    assert_eq!(&buf[9..18], &[0, 0, 0, 200, 100, 50, 0, 0, 0]);
    let half = tint_rgb(2, 1, 0, 0, &vec![PlacedGlyph { x: 0, y: 0, width: 1, height: 1, coverage: vec![128], run: 0 }], Color::from_rgb(200, 100, 50));
    assert_eq!(half, vec![100, 50, 25, 0, 0, 0]);
}
