use textual::color::Color;
use textual::image::{ColorProvider, Colors, Image, ImageError, Mask, Stripes};

fn pixels(img: &Image) -> Vec<u8> {
    img.data().to_vec()
}

fn sample() -> Image {
    let mut img = Image::with_color(4, 3, Color::new(10, 20, 30, 200));
    img.set_color(1, 1, Color::new(1, 2, 3, 4));
    img.set_color(3, 2, Color::new(9, 8, 7, 0));
    img
}

#[test]
fn with_color_fills_every_pixel() {
    let img = Image::with_color(3, 2, Color::new(1, 2, 3, 4));
    assert_eq!(img.width(), 3);
    assert_eq!(img.height(), 2);
    assert_eq!(img.data(), &[1, 2, 3, 4].repeat(6)[..]);
    let black = Image::new(2, 1);
    assert_eq!(black.data(), &[0, 0, 0, 255, 0, 0, 0, 255]);
}

#[test]
fn draw_transparent_source_keeps_destination() {
    let mut dst = sample();
    let before = pixels(&dst);
    let src = Image::with_color(3, 3, Color::new(255, 0, 0, 0));
    dst.draw_img(src, 1, 0);
    assert_eq!(pixels(&dst), before);
}

#[test]
fn draw_opaque_source_replaces_region() {
    let mut dst = sample();
    let src = Image::with_color(2, 2, Color::new(5, 6, 7, 255));
    dst.draw_img(src, 1, 1);
    for y in 0..3 {
        for x in 0..4 {
            let covered = (1..3).contains(&x) && (1..3).contains(&y);
            if covered {
                assert_eq!(dst.color(x, y), Color::new(5, 6, 7, 255));
            } else {
                assert_eq!(dst.color(x, y), sample().color(x, y));
            }
        }
    }
}

#[test]
fn mix_half_white_on_black() {
    let under = Color::new(0, 0, 0, 255);
    let over = Color::new(255, 255, 255, 128);
    assert_eq!(Image::mix(under, over), Color::new(128, 128, 128, 255));
}

#[test]
fn mix_on_transparent_takes_source() {
    let under = Color::new(1, 2, 3, 0);
    let over = Color::new(200, 100, 50, 100);
    assert_eq!(Image::mix(under, over), Color::new(200, 100, 50, 100));
}

#[test]
fn mix_half_alpha_both() {
    // alpha: (255*128 + 128*127) / 255 = 191; red: (255*200*128) / (255*128 + 128*127)
    let under = Color::new(0, 0, 0, 128);
    let over = Color::new(200, 0, 0, 128);
    let mixed = Image::mix(under, over);
    assert_eq!(mixed.a, 191);
    assert_eq!(mixed.r, (255u32 * 200 * 128 / (255 * 128 + 128 * 127)) as u8);
}

#[test]
fn from_buffer_grey_as_alpha() {
    let color = Color::new(12, 34, 56, 255);
    let img = Image::from_buffer(3, 2, vec![77; 6], Colors::GreyAsAlpha(color)).unwrap();
    for y in 0..2 {
        for x in 0..3 {
            assert_eq!(img.color(x, y), Color::new(12, 34, 56, 77));
        }
    }
}

#[test]
fn from_buffer_layouts() {
    let rgb = Image::from_buffer(2, 1, vec![1, 2, 3, 4, 5, 6], Colors::RGB).unwrap();
    assert_eq!(rgb.data(), &[1, 2, 3, 255, 4, 5, 6, 255]);
    let grey = Image::from_buffer(2, 1, vec![9, 10], Colors::Grey).unwrap();
    assert_eq!(grey.data(), &[9, 9, 9, 9, 10, 10, 10, 10]);
    let rgba = Image::from_buffer(1, 1, vec![1, 2, 3, 4], Colors::RGBA).unwrap();
    assert_eq!(rgba.data(), &[1, 2, 3, 4]);
}

#[test]
fn from_buffer_grey_as_mask() {
    let stripes = Stripes {
        colors: vec![Color::new(255, 0, 0, 255), Color::new(0, 0, 255, 255)],
        stripe_width: 1,
        slope: 1,
    };
    let img = Image::from_buffer(2, 1, vec![50, 60], Colors::GreyAsMask(&stripes)).unwrap();
    assert_eq!(img.data(), &[255, 0, 0, 50, 0, 0, 255, 60]);
}

#[test]
fn from_buffer_wrong_length() {
    let r = Image::from_buffer(2, 2, vec![0; 5], Colors::RGB);
    assert_eq!(r.err(), Some(ImageError::BufferLength { expected: 12, found: 5 }));
}

#[test]
fn overlay_mismatched_mask_is_an_error() {
    let mut dst = sample();
    let before = pixels(&dst);
    let r = dst.overlay(Image::new(2, 2), Mask::new(3, 2), 0, 0);
    assert_eq!(r, Err(ImageError::DimensionMismatch));
    assert_eq!(pixels(&dst), before);
}

#[test]
fn overlay_with_mask() {
    let mut dst = Image::with_color(2, 1, Color::new(0, 0, 0, 255));
    let mut mask = Mask::new(2, 1);
    mask.set_from_buf(2, 1, &[0, 255], 0, 0);
    let over = Image::with_color(2, 1, Color::new(255, 255, 255, 255));
    assert_eq!(dst.overlay(over, mask, 0, 0), Ok(()));
    assert_eq!(dst.color(0, 0), Color::new(255, 255, 255, 255));
    assert_eq!(dst.color(1, 0), Color::new(0, 0, 0, 255));
}

#[test]
fn offscreen_draw_and_mask_leave_destination() {
    let mut dst = sample();
    let before = pixels(&dst);
    dst.draw_img(Image::with_color(2, 2, Color::white()), -2, 0);
    dst.draw_img(Image::with_color(2, 2, Color::white()), 4, 0);
    dst.draw_img(Image::with_color(2, 2, Color::white()), 0, -5);
    dst.draw_img(Image::with_color(2, 2, Color::white()), 0, 3);
    dst.draw_img(Image::with_color(2, 2, Color::white()), isize::MIN, isize::MAX);
    let mut m = Mask::new(2, 2);
    m.set_from_buf(2, 2, &[1, 2, 3, 4], 0, 0);
    dst.mask(m.clone(), -2, -2);
    dst.mask(m, 10, 1);
    assert_eq!(pixels(&dst), before);
}

#[test]
fn partly_clipped_draw() {
    let mut dst = Image::with_color(2, 2, Color::black());
    dst.draw_img(Image::with_color(2, 2, Color::white()), -1, 1);
    assert_eq!(dst.color(0, 1), Color::white());
    assert_eq!(dst.color(1, 1), Color::black());
    assert_eq!(dst.color(0, 0), Color::black());
}

#[test]
fn mask_sets_alpha_only() {
    let mut dst = Image::with_color(2, 2, Color::new(1, 2, 3, 255));
    let mut m = Mask::new(1, 2);
    m.set_from_buf(1, 2, &[10, 20], 0, 0);
    dst.mask(m, 1, 0);
    assert_eq!(dst.color(1, 0), Color::new(1, 2, 3, 10));
    assert_eq!(dst.color(1, 1), Color::new(1, 2, 3, 20));
    assert_eq!(dst.color(0, 0), Color::new(1, 2, 3, 255));
}

#[test]
fn mask_set_from_buf_clips() {
    let mut m = Mask::new(2, 2);
    m.set_from_buf(2, 2, &[1, 2, 3, 4], 1, -1);
    assert_eq!(m.data(), &[0, 3, 0, 0]);
}

#[test]
fn lines_and_rect() {
    let mut img = Image::with_color(4, 4, Color::black());
    img.horizontal_line(1, 0, 3, Color::white());
    assert_eq!(img.color(0, 0), Color::black());
    assert_eq!(img.color(3, 0), Color::white());
    img.vertical_line(0, 1, 2, Color::red());
    assert_eq!(img.color(0, 2), Color::red());
    assert_eq!(img.color(0, 3), Color::black());

    let mut r = Image::with_color(4, 4, Color::black());
    r.rect(0, 0, 2, 2, Color::white());
    let on: Vec<(usize, usize)> = vec![(0, 0), (1, 0), (0, 1), (2, 0), (2, 1), (0, 2), (1, 2)];
    for y in 0..4 {
        for x in 0..4 {
            let expected = if on.contains(&(x, y)) { Color::white() } else { Color::black() };
            assert_eq!(r.color(x, y), expected, "pixel {x},{y}");
        }
    }
}

#[test]
fn index_of_pixel() {
    let img = Image::new(5, 3);
    assert_eq!(img.xy_to_index(2, 1), 28);
}

#[test]
fn stripes_pick_bands() {
    let s = Stripes {
        colors: vec![Color::red(), Color::green(), Color::blue()],
        stripe_width: 2,
        slope: 2,
    };
    assert_eq!(s.color_at(0, 0), Color::red());
    assert_eq!(s.color_at(2, 0), Color::green());
    assert_eq!(s.color_at(4, 1), Color::blue());
    assert_eq!(s.color_at(0, 4), Color::green());
    assert_eq!(s.color_at(6, 0), Color::red());
}

#[test]
fn from_provider_offsets() {
    let s = Stripes { colors: vec![Color::red(), Color::blue()], stripe_width: 1, slope: 1 };
    let img = Image::from_provider(2, 1, 1, 0, &s);
    assert_eq!(img.color(0, 0), Color::blue());
    assert_eq!(img.color(1, 0), Color::red());
}
