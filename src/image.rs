//! RGBA images and coverage masks, and source-over compositing on them.

use vstd::prelude::*;

use crate::color::{spec_color, Color};

verus! {

/// Something that gives a color for each absolute pixel position: a pattern.
pub trait ColorProvider {
    /// Whether the provider can be asked for colors.
    spec fn valid(&self) -> bool;

    /// The color at `(x, y)`.
    spec fn color_spec(&self, x: usize, y: usize) -> Color;

    fn color_at(&self, x: usize, y: usize) -> (c: Color)
        requires
            self.valid(),
        ensures
            c == self.color_spec(x, y),
    ;
}

/// Diagonal stripes: the colors repeat across the image in bands
/// `stripe_width` pixels wide, shifted one pixel to the right for every
/// `slope` rows.
#[derive(Debug, Clone)]
pub struct Stripes {
    pub colors: Vec<Color>,
    pub stripe_width: usize,
    pub slope: usize,
}

/// Which of `n` stripe colors lies at `(x, y)`.
pub open spec fn stripe_index(x: usize, y: usize, stripe_width: usize, slope: usize, n: nat) -> int {
    ((x + y / slope) / stripe_width as int) % (n as int)
}

impl ColorProvider for Stripes {
    open spec fn valid(&self) -> bool {
        self.colors@.len() > 0 && self.stripe_width > 0 && self.slope > 0
    }

    open spec fn color_spec(&self, x: usize, y: usize) -> Color {
        self.colors@[stripe_index(x, y, self.stripe_width, self.slope, self.colors@.len())]
    }

    fn color_at(&self, x: usize, y: usize) -> (c: Color) {
        let shifted: u128 = x as u128 + (y / self.slope) as u128;
        let band: u128 = shifted / (self.stripe_width as u128);
        let i = (band % (self.colors.len() as u128)) as usize;
        self.colors[i]
    }
}

/// What went wrong in an image operation.
#[derive(Debug, Clone, Copy, PartialEq, Eq, Structural)]
pub enum ImageError {
    /// An image and its mask differ in size.
    DimensionMismatch,
    /// A raw buffer holds `found` bytes where `expected` were needed.
    BufferLength { expected: usize, found: usize },
}

/// How the bytes of a raw buffer are read as pixels.
pub enum Colors<'a> {
    /// Four bytes per pixel, red, green, blue, alpha.
    RGBA,
    /// Three bytes per pixel; every pixel is opaque.
    RGB,
    /// One byte per pixel, used for all four channels.
    Grey,
    /// One byte per pixel, the alpha of a pixel of the given color.
    GreyAsAlpha(Color),
    /// One byte per pixel, the alpha of a pixel whose color the pattern gives.
    GreyAsMask(&'a Stripes),
}

/// Bytes per pixel in a raw buffer read as `colors`.
pub open spec fn channels(colors: Colors) -> nat {
    match colors {
        Colors::RGBA => 4,
        Colors::RGB => 3,
        _ => 1,
    }
}

/// The four bytes of pixel number `j` in an RGBA buffer.
pub open spec fn block_color(data: Seq<u8>, j: int) -> Color {
    spec_color(data[4 * j], data[4 * j + 1], data[4 * j + 2], data[4 * j + 3])
}

/// The pixel at `(x, y)` of an RGBA buffer `w` pixels wide.
pub open spec fn pixel_in(data: Seq<u8>, w: int, x: int, y: int) -> Color {
    block_color(data, y * w + x)
}

/// The pixel at `(x, y)` of a raw `w`-wide buffer read as `colors`.
pub open spec fn converted_pixel(colors: Colors, data: Seq<u8>, w: int, x: int, y: int) -> Color {
    let j = y * w + x;
    match colors {
        Colors::RGBA => block_color(data, j),
        Colors::RGB => spec_color(data[3 * j], data[3 * j + 1], data[3 * j + 2], 255),
        Colors::Grey => spec_color(data[j], data[j], data[j], data[j]),
        Colors::GreyAsAlpha(c) => spec_color(c.r, c.g, c.b, data[j]),
        Colors::GreyAsMask(p) => {
            let c = p.color_spec(x as usize, y as usize);
            spec_color(c.r, c.g, c.b, data[j])
        },
    }
}

/// Alpha of `over` drawn on `under`: `a_o + a_u * (1 - a_o)` in units of
/// 1/255, rounded down.
pub open spec fn mix_alpha(under: u8, over: u8) -> u8 {
    ((255 * over + under * (255 - over)) / 255) as u8
}

/// One color channel of source-over compositing: the channels weighted by
/// their share of the mixed alpha, rounded down. A transparent source keeps
/// the destination; a transparent destination takes the source.
pub open spec fn mix_channel(cu: u8, au: u8, co: u8, ao: u8) -> u8 {
    if ao == 0 {
        cu
    } else if au == 0 {
        co
    } else {
        ((255 * co * ao + cu * au * (255 - ao)) / (255 * ao + au * (255 - ao))) as u8
    }
}

/// `over` composited on `under` ("source over").
pub open spec fn mix_spec(under: Color, over: Color) -> Color {
    spec_color(
        mix_channel(under.r, under.a, over.r, over.a),
        mix_channel(under.g, under.a, over.g, over.a),
        mix_channel(under.b, under.a, over.b, over.a),
        mix_alpha(under.a, over.a),
    )
}

/// Whether a `sw` by `sh` layer placed at `(ox, oy)` covers `(x, y)`.
pub open spec fn covers(sw: nat, sh: nat, ox: int, oy: int, x: int, y: int) -> bool {
    0 <= x - ox < sw && 0 <= y - oy < sh
}

/// `c` with its alpha replaced.
pub open spec fn with_alpha(c: Color, a: u8) -> Color {
    spec_color(c.r, c.g, c.b, a)
}

/// The pixel at `(x, y)` after `src` is drawn on `dst` at `(ox, oy)`.
pub open spec fn drawn_pixel(dst: Image, src: Image, ox: int, oy: int, x: int, y: int) -> Color {
    if covers(src.spec_width(), src.spec_height(), ox, oy, x, y) {
        mix_spec(dst.pixel(x, y), src.pixel(x - ox, y - oy))
    } else {
        dst.pixel(x, y)
    }
}

/// The pixel at `(x, y)` after `m` replaces the alpha of `dst` at `(ox, oy)`.
pub open spec fn masked_pixel(dst: Image, m: Mask, ox: int, oy: int, x: int, y: int) -> Color {
    if covers(m.spec_width(), m.spec_height(), ox, oy, x, y) {
        with_alpha(dst.pixel(x, y), m.value(x - ox, y - oy))
    } else {
        dst.pixel(x, y)
    }
}

/// The pixel at `(x, y)` after `src`, made transparent where `m` is set, is
/// drawn on `dst` at `(ox, oy)`.
pub open spec fn overlaid_pixel(dst: Image, src: Image, m: Mask, ox: int, oy: int, x: int, y: int) -> Color {
    if covers(src.spec_width(), src.spec_height(), ox, oy, x, y) {
        mix_spec(
            dst.pixel(x, y),
            with_alpha(src.pixel(x - ox, y - oy), (255 - m.value(x - ox, y - oy)) as u8),
        )
    } else {
        dst.pixel(x, y)
    }
}

/// Whether `(x, y)` lies on the outline of the rectangle with corner
/// `(x1, y1)`, `w` wide and `h` high, as `Image::rect` draws it.
pub open spec fn on_outline(x1: int, y1: int, w: int, h: int, x: int, y: int) -> bool {
    ((x == x1 || x == x1 + w) && y1 <= y < y1 + h) || ((y == y1 || y == y1 + h) && x1 <= x < x1 + w)
}

/// Drawing a fully transparent image changes nothing: every pixel of the
/// destination keeps its value.
pub proof fn lemma_draw_transparent(dst: Image, src: Image, ox: int, oy: int)
    requires
        forall|x: int, y: int| #[trigger] src.in_bounds(x, y) ==> src.pixel(x, y).a == 0,
    ensures
        forall|x: int, y: int| #[trigger]
            dst.in_bounds(x, y) ==> drawn_pixel(dst, src, ox, oy, x, y) == dst.pixel(x, y),
{
    assert forall|x: int, y: int| #[trigger]
        dst.in_bounds(x, y) implies drawn_pixel(dst, src, ox, oy, x, y) == dst.pixel(x, y) by {
        if covers(src.spec_width(), src.spec_height(), ox, oy, x, y) {
            assert(src.in_bounds(x - ox, y - oy));
            let u = dst.pixel(x, y);
            assert(mix_alpha(u.a, 0) == u.a);
        }
    }
}

/// Drawing a fully opaque image replaces every covered pixel with the
/// source's color at full alpha; the other pixels keep their value.
pub proof fn lemma_draw_opaque(dst: Image, src: Image, ox: int, oy: int)
    requires
        forall|x: int, y: int| #[trigger] src.in_bounds(x, y) ==> src.pixel(x, y).a == 255,
    ensures
        forall|x: int, y: int| #[trigger]
            dst.in_bounds(x, y) ==> drawn_pixel(dst, src, ox, oy, x, y) == if covers(
                src.spec_width(),
                src.spec_height(),
                ox,
                oy,
                x,
                y,
            ) {
                with_alpha(src.pixel(x - ox, y - oy), 255)
            } else {
                dst.pixel(x, y)
            },
{
    assert forall|x: int, y: int| #[trigger]
        dst.in_bounds(x, y) implies drawn_pixel(dst, src, ox, oy, x, y) == if covers(
            src.spec_width(),
            src.spec_height(),
            ox,
            oy,
            x,
            y,
        ) {
            with_alpha(src.pixel(x - ox, y - oy), 255)
        } else {
            dst.pixel(x, y)
        } by {
        if covers(src.spec_width(), src.spec_height(), ox, oy, x, y) {
            assert(src.in_bounds(x - ox, y - oy));
            let u = dst.pixel(x, y);
            let o = src.pixel(x - ox, y - oy);
            lemma_mix_channel_opaque(u.r, u.a, o.r);
            lemma_mix_channel_opaque(u.g, u.a, o.g);
            lemma_mix_channel_opaque(u.b, u.a, o.b);
            assert(mix_alpha(u.a, 255) == 255);
        }
    }
}

proof fn lemma_mix_channel_opaque(cu: u8, au: u8, co: u8)
    ensures
        mix_channel(cu, au, co, 255) == co,
{
    if au != 0 {
        assert((255 * co * 255 + cu * au * (255 - 255)) / (255 * 255 + au * (255 - 255)) == co) by (nonlinear_arith);
    }
}

/// Reading a buffer of one grey value `g` as the alpha of `color` gives
/// `color` with alpha `g` at every pixel.
pub proof fn lemma_grey_as_alpha(color: Color, data: Seq<u8>, g: u8, w: int, h: int)
    requires
        data.len() == w * h,
        forall|i: int| 0 <= i < data.len() ==> #[trigger] data[i] == g,
    ensures
        forall|x: int, y: int|
            0 <= x < w && 0 <= y < h ==> #[trigger] converted_pixel(Colors::GreyAsAlpha(color), data, w, x, y)
                == spec_color(color.r, color.g, color.b, g),
{
    assert forall|x: int, y: int|
        0 <= x < w && 0 <= y < h implies #[trigger] converted_pixel(Colors::GreyAsAlpha(color), data, w, x, y)
        == spec_color(color.r, color.g, color.b, g) by {
        lemma_pixel_in_range(w, h, x, y);
    }
}

/// A layer placed wholly off the destination, left of it, right of it,
/// above or below it, covers none of its pixels: drawing an image or
/// applying a mask there leaves every pixel as it was.
pub proof fn lemma_offscreen_untouched(dst: Image, src: Image, m: Mask, ox: int, oy: int)
    requires
        ox >= dst.spec_width() || ox + src.spec_width() <= 0 || oy >= dst.spec_height() || oy
            + src.spec_height() <= 0,
        ox >= dst.spec_width() || ox + m.spec_width() <= 0 || oy >= dst.spec_height() || oy
            + m.spec_height() <= 0,
    ensures
        forall|x: int, y: int| #[trigger]
            dst.in_bounds(x, y) ==> drawn_pixel(dst, src, ox, oy, x, y) == dst.pixel(x, y)
                && masked_pixel(dst, m, ox, oy, x, y) == dst.pixel(x, y),
{
}

pub(crate) proof fn lemma_pixel_in_range(w: int, h: int, x: int, y: int)
    requires
        0 <= x < w,
        0 <= y < h,
    ensures
        0 <= y * w + x < w * h,
        (y * w + x) * 4 + 4 <= w * h * 4,
        (y * w + x) * 3 + 3 <= w * h * 3,
{
    assert(0 <= y * w) by (nonlinear_arith)
        requires
            0 <= y,
            0 <= w,
    ;
    assert(y * w + x < w * h) by (nonlinear_arith)
        requires
            0 <= x < w,
            0 <= y < h,
    ;
}

/// Pixels that come before `(x, y)` in row-major order.
proof fn lemma_pixel_before(w: int, xx: int, yy: int, x: int, y: int)
    requires
        0 <= xx < w,
        0 <= x <= w,
        0 <= yy,
        yy < y || (yy == y && xx < x),
    ensures
        yy * w + xx < y * w + x,
{
    if yy < y {
        assert(yy * w + w <= y * w) by (nonlinear_arith)
            requires
                yy < y,
                0 <= w,
        ;
    }
}

pub(crate) proof fn lemma_pixel_distinct(w: int, x1: int, y1: int, x2: int, y2: int)
    requires
        0 <= x1 < w,
        0 <= x2 < w,
        0 <= y1,
        0 <= y2,
        x1 != x2 || y1 != y2,
    ensures
        y1 * w + x1 != y2 * w + x2,
{
    if y1 < y2 {
        lemma_pixel_before(w, x1, y1, x2, y2);
    } else if y2 < y1 {
        lemma_pixel_before(w, x2, y2, x1, y1);
    }
}

/// An RGBA image, row by row, four bytes per pixel.
#[derive(Debug, Clone)]
pub struct Image {
    width: usize,
    height: usize,
    data: Vec<u8>,
}

impl Image {
    pub closed spec fn spec_width(&self) -> nat {
        self.width as nat
    }

    pub closed spec fn spec_height(&self) -> nat {
        self.height as nat
    }

    /// The RGBA bytes.
    pub closed spec fn bytes(&self) -> Seq<u8> {
        self.data@
    }

    pub open spec fn wf(&self) -> bool {
        &&& self.bytes().len() == self.spec_width() * self.spec_height() * 4
        &&& self.spec_width() * self.spec_height() * 4 <= usize::MAX
        &&& self.spec_width() <= usize::MAX
        &&& self.spec_height() <= usize::MAX
    }

    pub open spec fn in_bounds(&self, x: int, y: int) -> bool {
        0 <= x < self.spec_width() && 0 <= y < self.spec_height()
    }

    pub open spec fn pixel(&self, x: int, y: int) -> Color {
        pixel_in(self.bytes(), self.spec_width() as int, x, y)
    }

    /// An opaque black image.
    pub fn new(width: usize, height: usize) -> (img: Image)
        requires
            width * height * 4 <= usize::MAX,
        ensures
            img.wf(),
            img.spec_width() == width,
            img.spec_height() == height,
            forall|x: int, y: int| img.in_bounds(x, y) ==> #[trigger] img.pixel(x, y) == spec_color(0, 0, 0, 255),
    {
        Self::with_color(width, height, Color::black())
    }

    /// An image filled with one color.
    pub fn with_color(width: usize, height: usize, color: Color) -> (img: Image)
        requires
            width * height * 4 <= usize::MAX,
        ensures
            img.wf(),
            img.spec_width() == width,
            img.spec_height() == height,
            forall|x: int, y: int| img.in_bounds(x, y) ==> #[trigger] img.pixel(x, y) == color,
    {
        let n = width * height;
        let mut data: Vec<u8> = Vec::with_capacity(n * 4);
        let mut i: usize = 0;
        while i < n
            invariant
                n == width * height,
                n * 4 <= usize::MAX,
                i <= n,
                data@.len() == 4 * i,
                forall|j: int| 0 <= j < i ==> #[trigger] block_color(data@, j) == color,
            decreases n - i,
        {
            let ghost before = data@;
            data.push(color.r);
            data.push(color.g);
            data.push(color.b);
            data.push(color.a);
            assert forall|j: int| 0 <= j < i + 1 implies #[trigger] block_color(data@, j) == color by {
                if j < i {
                    assert(block_color(before, j) == color);
                }
            }
            i = i + 1;
        }
        let img = Image { width, height, data };
        assert forall|x: int, y: int| img.in_bounds(x, y) implies #[trigger] img.pixel(x, y) == color by {
            lemma_pixel_in_range(width as int, height as int, x, y);
        }
        img
    }

    /// An image whose pixel `(x, y)` has the provider's color at
    /// `(x + off_x, y + off_y)`, the sum taken modulo the word size as a cast
    /// to `usize` takes it.
    pub fn from_provider<CP: ColorProvider>(
        width: usize,
        height: usize,
        off_x: isize,
        off_y: isize,
        cp: &CP,
    ) -> (img: Image)
        requires
            width * height * 4 <= usize::MAX,
            cp.valid(),
        ensures
            img.wf(),
            img.spec_width() == width,
            img.spec_height() == height,
            forall|x: int, y: int| #[trigger]
                img.in_bounds(x, y) ==> img.pixel(x, y) == cp.color_spec(
                    (x + off_x) as usize,
                    (y + off_y) as usize,
                ),
    {
        let mut data: Vec<u8> = Vec::with_capacity(width * height * 4);
        let mut y: usize = 0;
        while y < height
            invariant
                width * height * 4 <= usize::MAX,
                cp.valid(),
                y <= height,
                data@.len() == (y * width) * 4,
                forall|xx: int, yy: int|
                    0 <= xx < width && 0 <= yy < y ==> #[trigger] pixel_in(data@, width as int, xx, yy)
                        == cp.color_spec((xx + off_x) as usize, (yy + off_y) as usize),
            decreases height - y,
        {
            proof {
                assert(y * width + width <= width * height) by (nonlinear_arith)
                    requires
                        y < height,
                ;
            }
            let mut x: usize = 0;
            while x < width
                invariant
                    width * height * 4 <= usize::MAX,
                    y * width + width <= width * height,
                    cp.valid(),
                    y < height,
                    x <= width,
                    data@.len() == (y * width + x) * 4,
                    forall|xx: int, yy: int|
                        0 <= xx < width && 0 <= yy < y ==> #[trigger] pixel_in(data@, width as int, xx, yy)
                            == cp.color_spec((xx + off_x) as usize, (yy + off_y) as usize),
                    forall|xx: int|
                        0 <= xx < x ==> #[trigger] pixel_in(data@, width as int, xx, y as int)
                            == cp.color_spec((xx + off_x) as usize, (y + off_y) as usize),
                decreases width - x,
            {
                let px = (x as i128 + off_x as i128) as usize;
                let py = (y as i128 + off_y as i128) as usize;
                let color = cp.color_at(px, py);
                let ghost before = data@;
                data.push(color.r);
                data.push(color.g);
                data.push(color.b);
                data.push(color.a);
                proof {
                    assert forall|xx: int, yy: int|
                        0 <= xx < width && 0 <= yy < y implies #[trigger] pixel_in(data@, width as int, xx, yy)
                            == cp.color_spec((xx + off_x) as usize, (yy + off_y) as usize) by {
                        lemma_pixel_before(width as int, xx, yy, x as int, y as int);
                        assert(pixel_in(before, width as int, xx, yy) == pixel_in(data@, width as int, xx, yy));
                    }
                    assert forall|xx: int|
                        0 <= xx < x + 1 implies #[trigger] pixel_in(data@, width as int, xx, y as int)
                            == cp.color_spec((xx + off_x) as usize, (y + off_y) as usize) by {
                        if xx < x {
                            assert(pixel_in(before, width as int, xx, y as int) == pixel_in(data@, width as int, xx, y as int));
                        }
                    }
                }
                x = x + 1;
            }
            assert((y * width + width) == (y + 1) * width) by (nonlinear_arith);
            y = y + 1;
        }
        assert(height * width == width * height) by (nonlinear_arith);
        Image { width, height, data }
    }

    fn converted_at(colors: &Colors, data: &Vec<u8>, width: usize, height: usize, x: usize, y: usize) -> (c: Color)
        requires
            data@.len() == width * height * channels(*colors),
            width * height * 4 <= usize::MAX,
            x < width,
            y < height,
            match *colors {
                Colors::GreyAsMask(p) => p.valid(),
                _ => true,
            },
        ensures
            c == converted_pixel(*colors, data@, width as int, x as int, y as int),
    {
        proof {
            lemma_pixel_in_range(width as int, height as int, x as int, y as int);
        }
        let j = y * width + x;
        match colors {
            Colors::RGBA => Color::new(data[4 * j], data[4 * j + 1], data[4 * j + 2], data[4 * j + 3]),
            Colors::RGB => Color::new(data[3 * j], data[3 * j + 1], data[3 * j + 2], 255),
            Colors::Grey => Color::new(data[j], data[j], data[j], data[j]),
            Colors::GreyAsAlpha(c) => Color::new(c.r, c.g, c.b, data[j]),
            Colors::GreyAsMask(p) => {
                let c = p.color_at(x, y);
                Color::new(c.r, c.g, c.b, data[j])
            },
        }
    }

    /// Reads a raw buffer of `width` by `height` pixels as `colors` says.
    /// Fails where the buffer's length is not that of such a buffer.
    pub fn from_buffer(width: usize, height: usize, data: Vec<u8>, colors: Colors) -> (r: Result<Image, ImageError>)
        requires
            width * height * 4 <= usize::MAX,
            match colors {
                Colors::GreyAsMask(p) => p.valid(),
                _ => true,
            },
        ensures
            match r {
                Ok(img) => {
                    &&& data@.len() == width * height * channels(colors)
                    &&& img.wf()
                    &&& img.spec_width() == width
                    &&& img.spec_height() == height
                    &&& forall|x: int, y: int| #[trigger]
                        img.in_bounds(x, y) ==> img.pixel(x, y) == converted_pixel(
                            colors,
                            data@,
                            width as int,
                            x,
                            y,
                        )
                },
                Err(e) => {
                    &&& data@.len() != width * height * channels(colors)
                    &&& e == ImageError::BufferLength {
                        expected: (width * height * channels(colors)) as usize,
                        found: data@.len() as usize,
                    }
                },
            },
    {
        let expected = match colors {
            Colors::RGBA => width * height * 4,
            Colors::RGB => width * height * 3,
            _ => width * height,
        };
        if data.len() != expected {
            return Err(ImageError::BufferLength { expected, found: data.len() });
        }
        if let Colors::RGBA = colors {
            return Ok(Image { width, height, data });
        }
        let mut out: Vec<u8> = Vec::with_capacity(width * height * 4);
        let mut y: usize = 0;
        while y < height
            invariant
                width * height * 4 <= usize::MAX,
                data@.len() == width * height * channels(colors),
                match colors {
                    Colors::GreyAsMask(p) => p.valid(),
                    _ => true,
                },
                y <= height,
                out@.len() == (y * width) * 4,
                forall|xx: int, yy: int|
                    0 <= xx < width && 0 <= yy < y ==> #[trigger] pixel_in(out@, width as int, xx, yy)
                        == converted_pixel(colors, data@, width as int, xx, yy),
            decreases height - y,
        {
            proof {
                assert(y * width + width <= width * height) by (nonlinear_arith)
                    requires
                        y < height,
                ;
            }
            let mut x: usize = 0;
            while x < width
                invariant
                    width * height * 4 <= usize::MAX,
                    data@.len() == width * height * channels(colors),
                    match colors {
                        Colors::GreyAsMask(p) => p.valid(),
                        _ => true,
                    },
                    y * width + width <= width * height,
                    y < height,
                    x <= width,
                    out@.len() == (y * width + x) * 4,
                    forall|xx: int, yy: int|
                        0 <= xx < width && 0 <= yy < y ==> #[trigger] pixel_in(out@, width as int, xx, yy)
                            == converted_pixel(colors, data@, width as int, xx, yy),
                    forall|xx: int|
                        0 <= xx < x ==> #[trigger] pixel_in(out@, width as int, xx, y as int)
                            == converted_pixel(colors, data@, width as int, xx, y as int),
                decreases width - x,
            {
                let color = Self::converted_at(&colors, &data, width, height, x, y);
                let ghost before = out@;
                out.push(color.r);
                out.push(color.g);
                out.push(color.b);
                out.push(color.a);
                proof {
                    assert forall|xx: int, yy: int|
                        0 <= xx < width && 0 <= yy < y implies #[trigger] pixel_in(out@, width as int, xx, yy)
                            == converted_pixel(colors, data@, width as int, xx, yy) by {
                        lemma_pixel_before(width as int, xx, yy, x as int, y as int);
                        assert(pixel_in(before, width as int, xx, yy) == pixel_in(out@, width as int, xx, yy));
                    }
                    assert forall|xx: int|
                        0 <= xx < x + 1 implies #[trigger] pixel_in(out@, width as int, xx, y as int)
                            == converted_pixel(colors, data@, width as int, xx, y as int) by {
                        if xx < x {
                            assert(pixel_in(before, width as int, xx, y as int) == pixel_in(out@, width as int, xx, y as int));
                        }
                    }
                }
                x = x + 1;
            }
            assert((y * width + width) == (y + 1) * width) by (nonlinear_arith);
            y = y + 1;
        }
        assert(height * width == width * height) by (nonlinear_arith);
        Ok(Image { width, height, data: out })
    }

    pub fn width(&self) -> (r: usize)
        ensures
            r == self.spec_width(),
    {
        self.width
    }

    pub fn height(&self) -> (r: usize)
        ensures
            r == self.spec_height(),
    {
        self.height
    }

    /// The RGBA bytes, row by row.
    pub fn data(&self) -> (r: &[u8])
        ensures
            r@ == self.bytes(),
    {
        self.data.as_slice()
    }

    /// The index of the first byte of pixel `(x, y)`.
    pub fn xy_to_index(&self, x: usize, y: usize) -> (r: usize)
        requires
            (y * self.spec_width() + x) * 4 <= usize::MAX,
        ensures
            r == (y * self.spec_width() + x) * 4,
    {
        (y * self.width + x) * 4
    }

    /// The pixel at `(x, y)`.
    pub fn color(&self, x: usize, y: usize) -> (c: Color)
        requires
            self.wf(),
            self.in_bounds(x as int, y as int),
        ensures
            c == self.pixel(x as int, y as int),
    {
        proof {
            lemma_pixel_in_range(self.width as int, self.height as int, x as int, y as int);
        }
        let i = self.xy_to_index(x, y);
        Color::new(self.data[i], self.data[i + 1], self.data[i + 2], self.data[i + 3])
    }

    /// Sets the pixel at `(x, y)`; every other pixel is kept.
    pub fn set_color(&mut self, x: usize, y: usize, color: Color)
        requires
            old(self).wf(),
            old(self).in_bounds(x as int, y as int),
        ensures
            final(self).wf(),
            final(self).spec_width() == old(self).spec_width(),
            final(self).spec_height() == old(self).spec_height(),
            final(self).pixel(x as int, y as int) == color,
            forall|xx: int, yy: int|
                old(self).in_bounds(xx, yy) && (xx != x || yy != y) ==> #[trigger] final(self).pixel(xx, yy)
                    == old(self).pixel(xx, yy),
    {
        proof {
            lemma_pixel_in_range(self.width as int, self.height as int, x as int, y as int);
        }
        let i = self.xy_to_index(x, y);
        self.data.set(i, color.r);
        self.data.set(i + 1, color.g);
        self.data.set(i + 2, color.b);
        self.data.set(i + 3, color.a);
        proof {
            assert forall|xx: int, yy: int|
                old(self).in_bounds(xx, yy) && (xx != x || yy != y) implies #[trigger] self.pixel(xx, yy)
                    == old(self).pixel(xx, yy) by {
                lemma_pixel_in_range(self.width as int, self.height as int, xx, yy);
                lemma_pixel_distinct(self.width as int, xx, yy, x as int, y as int);
            }
        }
    }

    /// Composites `layer` at `(off_x, off_y)`, clipped to the image: each
    /// covered pixel becomes what the layer makes of it, the others are kept.
    fn composite(&mut self, layer: &Layer, off_x: isize, off_y: isize)
        requires
            old(self).wf(),
            layer.valid(),
        ensures
            final(self).wf(),
            final(self).spec_width() == old(self).spec_width(),
            final(self).spec_height() == old(self).spec_height(),
            forall|x: int, y: int| #[trigger]
                old(self).in_bounds(x, y) ==> final(self).pixel(x, y) == (if covers(
                    layer.spec_width(),
                    layer.spec_height(),
                    off_x as int,
                    off_y as int,
                    x,
                    y,
                ) {
                    layer.apply(old(self).pixel(x, y), x - off_x, y - off_y)
                } else {
                    old(self).pixel(x, y)
                }),
    {
        let ghost pre = *self;
        let ghost ox = off_x as int;
        let ghost oy = off_y as int;
        let (x0, x1) = clip(layer.width(), self.width, off_x);
        let (y0, y1) = clip(layer.height(), self.height, off_y);
        let ghost sw = layer.spec_width();
        let ghost sh = layer.spec_height();
        let mut iy = y0;
        while iy < y1
            invariant
                self.wf(),
                layer.valid(),
                self.spec_width() == pre.spec_width(),
                self.spec_height() == pre.spec_height(),
                clipped(x0 as int, x1 as int, sw as int, pre.spec_width() as int, ox),
                clipped(y0 as int, y1 as int, sh as int, pre.spec_height() as int, oy),
                y0 <= iy <= y1,
                ox == off_x,
                oy == off_y,
                sw == layer.spec_width(),
                sh == layer.spec_height(),
                forall|x: int, y: int| #[trigger]
                    pre.in_bounds(x, y) ==> self.pixel(x, y) == (if covers(sw, sh, ox, oy, x, y) && y - oy
                        < iy {
                        layer.apply(pre.pixel(x, y), x - ox, y - oy)
                    } else {
                        pre.pixel(x, y)
                    }),
            decreases y1 - iy,
        {
            assert(0 <= iy + oy < pre.spec_height());
            let yi: i128 = iy as i128 + off_y as i128;
            let y = yi as usize;
            assert(y == iy + oy);
            let mut ix = x0;
            while ix < x1
                invariant
                    self.wf(),
                    layer.valid(),
                    self.spec_width() == pre.spec_width(),
                    self.spec_height() == pre.spec_height(),
                    clipped(x0 as int, x1 as int, sw as int, pre.spec_width() as int, ox),
                    clipped(y0 as int, y1 as int, sh as int, pre.spec_height() as int, oy),
                    y0 <= iy < y1,
                    ox == off_x,
                    oy == off_y,
                    sw == layer.spec_width(),
                    sh == layer.spec_height(),
                    y == iy + oy,
                    x0 <= ix <= x1,
                    forall|x: int, y: int| #[trigger]
                        pre.in_bounds(x, y) ==> self.pixel(x, y) == (if covers(sw, sh, ox, oy, x, y) && (y
                            - oy < iy || (y - oy == iy && x - ox < ix)) {
                            layer.apply(pre.pixel(x, y), x - ox, y - oy)
                        } else {
                            pre.pixel(x, y)
                        }),
                decreases x1 - ix,
            {
                assert(0 <= ix + ox < pre.spec_width());
                let xi: i128 = ix as i128 + off_x as i128;
                let x = xi as usize;
                assert(x == ix + ox);
                let under = self.color(x, y);
                let c = layer.apply_at(under, ix, iy);
                self.set_color(x, y, c);
                ix = ix + 1;
            }
            iy = iy + 1;
        }
    }

    /// Draws `img` over this image with its top left corner at
    /// `(off_x, off_y)`, compositing source over destination. The parts of
    /// `img` that fall outside this image are left out.
    pub fn draw_img(&mut self, img: Image, off_x: isize, off_y: isize)
        requires
            old(self).wf(),
            img.wf(),
        ensures
            final(self).wf(),
            final(self).spec_width() == old(self).spec_width(),
            final(self).spec_height() == old(self).spec_height(),
            forall|x: int, y: int| #[trigger]
                old(self).in_bounds(x, y) ==> final(self).pixel(x, y) == drawn_pixel(
                    *old(self),
                    img,
                    off_x as int,
                    off_y as int,
                    x,
                    y,
                ),
    {
        self.composite(&Layer::Draw(&img), off_x, off_y);
    }

    /// Replaces the alpha of the pixels that `mask` covers at
    /// `(off_x, off_y)` with the mask's values.
    pub fn mask(&mut self, mask: Mask, off_x: isize, off_y: isize)
        requires
            old(self).wf(),
            mask.wf(),
        ensures
            final(self).wf(),
            final(self).spec_width() == old(self).spec_width(),
            final(self).spec_height() == old(self).spec_height(),
            forall|x: int, y: int| #[trigger]
                old(self).in_bounds(x, y) ==> final(self).pixel(x, y) == masked_pixel(
                    *old(self),
                    mask,
                    off_x as int,
                    off_y as int,
                    x,
                    y,
                ),
    {
        self.composite(&Layer::Alpha(&mask), off_x, off_y);
    }

    /// Draws `overlaid` at `(off_x, off_y)` with each pixel's alpha set to
    /// `255 - m` for the mask's value `m` there. The image and the mask must
    /// be of one size; otherwise nothing is drawn.
    pub fn overlay(&mut self, overlaid: Image, mask: Mask, off_x: isize, off_y: isize) -> (r: Result<
        (),
        ImageError,
    >)
        requires
            old(self).wf(),
            overlaid.wf(),
            mask.wf(),
        ensures
            final(self).wf(),
            final(self).spec_width() == old(self).spec_width(),
            final(self).spec_height() == old(self).spec_height(),
            r is Err <==> (overlaid.spec_width() != mask.spec_width() || overlaid.spec_height()
                != mask.spec_height()),
            r is Err ==> r == Err::<(), ImageError>(ImageError::DimensionMismatch) && *final(self)
                == *old(self),
            r is Ok ==> forall|x: int, y: int| #[trigger]
                old(self).in_bounds(x, y) ==> final(self).pixel(x, y) == overlaid_pixel(
                    *old(self),
                    overlaid,
                    mask,
                    off_x as int,
                    off_y as int,
                    x,
                    y,
                ),
    {
        if overlaid.width != mask.width || overlaid.height != mask.height {
            return Err(ImageError::DimensionMismatch);
        }
        self.composite(&Layer::Masked(&overlaid, &mask), off_x, off_y);
        Ok(())
    }

    /// `color_over` composited on `color_under` ("source over").
    pub fn mix(color_under: Color, color_over: Color) -> (c: Color)
        ensures
            c == mix_spec(color_under, color_over),
    {
        Color::new(
            mix_component(color_under.r, color_under.a, color_over.r, color_over.a),
            mix_component(color_under.g, color_under.a, color_over.g, color_over.a),
            mix_component(color_under.b, color_under.a, color_over.b, color_over.a),
            mix_alpha_of(color_under.a, color_over.a),
        )
    }

    /// Sets `len` pixels from `(x, y)` to the right.
    pub fn horizontal_line(&mut self, x: usize, y: usize, len: usize, color: Color)
        requires
            old(self).wf(),
            x + len <= old(self).spec_width(),
            y < old(self).spec_height(),
        ensures
            final(self).wf(),
            final(self).spec_width() == old(self).spec_width(),
            final(self).spec_height() == old(self).spec_height(),
            forall|xx: int, yy: int| #[trigger]
                old(self).in_bounds(xx, yy) ==> final(self).pixel(xx, yy) == (if yy == y && x <= xx < x
                    + len {
                    color
                } else {
                    old(self).pixel(xx, yy)
                }),
    {
        let ghost pre = *self;
        let mut i: usize = 0;
        while i < len
            invariant
                self.wf(),
                self.spec_width() == pre.spec_width(),
                self.spec_height() == pre.spec_height(),
                x + len <= pre.spec_width(),
                y < pre.spec_height(),
                i <= len,
                forall|xx: int, yy: int| #[trigger]
                    pre.in_bounds(xx, yy) ==> self.pixel(xx, yy) == (if yy == y && x <= xx < x + i {
                        color
                    } else {
                        pre.pixel(xx, yy)
                    }),
            decreases len - i,
        {
            self.set_color(x + i, y, color);
            i = i + 1;
        }
    }

    /// Sets `len` pixels from `(x, y)` downwards.
    pub fn vertical_line(&mut self, x: usize, y: usize, len: usize, color: Color)
        requires
            old(self).wf(),
            x < old(self).spec_width(),
            y + len <= old(self).spec_height(),
        ensures
            final(self).wf(),
            final(self).spec_width() == old(self).spec_width(),
            final(self).spec_height() == old(self).spec_height(),
            forall|xx: int, yy: int| #[trigger]
                old(self).in_bounds(xx, yy) ==> final(self).pixel(xx, yy) == (if xx == x && y <= yy < y
                    + len {
                    color
                } else {
                    old(self).pixel(xx, yy)
                }),
    {
        let ghost pre = *self;
        let mut i: usize = 0;
        while i < len
            invariant
                self.wf(),
                self.spec_width() == pre.spec_width(),
                self.spec_height() == pre.spec_height(),
                x < pre.spec_width(),
                y + len <= pre.spec_height(),
                i <= len,
                forall|xx: int, yy: int| #[trigger]
                    pre.in_bounds(xx, yy) ==> self.pixel(xx, yy) == (if xx == x && y <= yy < y + i {
                        color
                    } else {
                        pre.pixel(xx, yy)
                    }),
            decreases len - i,
        {
            self.set_color(x, y + i, color);
            i = i + 1;
        }
    }

    /// Draws the outline of a rectangle: columns `x1` and `x1 + width` from
    /// row `y1` for `height` pixels, rows `y1` and `y1 + height` from column
    /// `x1` for `width` pixels.
    pub fn rect(&mut self, x1: usize, y1: usize, width: usize, height: usize, color: Color)
        requires
            old(self).wf(),
            x1 + width < old(self).spec_width(),
            y1 + height < old(self).spec_height(),
        ensures
            final(self).wf(),
            final(self).spec_width() == old(self).spec_width(),
            final(self).spec_height() == old(self).spec_height(),
            forall|x: int, y: int| #[trigger]
                old(self).in_bounds(x, y) ==> final(self).pixel(x, y) == (if on_outline(
                    x1 as int,
                    y1 as int,
                    width as int,
                    height as int,
                    x,
                    y,
                ) {
                    color
                } else {
                    old(self).pixel(x, y)
                }),
    {
        let ghost pre = *self;
        self.vertical_line(x1, y1, height, color);
        let ghost s1 = *self;
        self.horizontal_line(x1, y1, width, color);
        let ghost s2 = *self;
        self.vertical_line(x1 + width, y1, height, color);
        let ghost s3 = *self;
        self.horizontal_line(x1, y1 + height, width, color);
        proof {
            assert forall|x: int, y: int| #[trigger] pre.in_bounds(x, y) implies self.pixel(x, y) == (if on_outline(
                x1 as int,
                y1 as int,
                width as int,
                height as int,
                x,
                y,
            ) {
                color
            } else {
                pre.pixel(x, y)
            }) by {
                assert(s1.in_bounds(x, y));
                assert(s2.in_bounds(x, y));
                assert(s3.in_bounds(x, y));
            }
        }
    }
}

/// Whether `[lo, hi)` is the range of positions `i` with `0 <= i < src` and
/// `0 <= i + off < dst`, or is empty where there is none.
spec fn clipped(lo: int, hi: int, src: int, dst: int, off: int) -> bool {
    let first = if off < 0 { -off } else { 0 };
    let end = if src < dst - off { src } else { dst - off };
    &&& 0 <= lo <= hi <= src
    &&& lo < hi ==> lo == first && hi == end
    &&& lo == hi ==> end <= first
}

/// The positions of a `src`-long run placed at `off` that fall inside
/// `[0, dst)`.
fn clip(src: usize, dst: usize, off: isize) -> (r: (usize, usize))
    ensures
        clipped(r.0 as int, r.1 as int, src as int, dst as int, off as int),
{
    let lo: i128 = if off < 0 { -(off as i128) } else { 0 };
    let hi_src: i128 = src as i128;
    let hi_dst: i128 = dst as i128 - off as i128;
    let hi: i128 = if hi_src < hi_dst { hi_src } else { hi_dst };
    if hi <= lo {
        (0, 0)
    } else {
        (lo as usize, hi as usize)
    }
}

/// Something composited onto an image, pixel by pixel.
enum Layer<'a> {
    /// An image drawn source over.
    Draw(&'a Image),
    /// A mask that replaces alpha.
    Alpha(&'a Mask),
    /// An image of the mask's size, transparent where the mask is set.
    Masked(&'a Image, &'a Mask),
}

impl<'a> Layer<'a> {
    spec fn valid(&self) -> bool {
        match *self {
            Layer::Draw(img) => img.wf(),
            Layer::Alpha(m) => m.wf(),
            Layer::Masked(img, m) => img.wf() && m.wf() && img.spec_width() == m.spec_width()
                && img.spec_height() == m.spec_height(),
        }
    }

    spec fn spec_width(&self) -> nat {
        match *self {
            Layer::Draw(img) => img.spec_width(),
            Layer::Alpha(m) => m.spec_width(),
            Layer::Masked(img, _) => img.spec_width(),
        }
    }

    spec fn spec_height(&self) -> nat {
        match *self {
            Layer::Draw(img) => img.spec_height(),
            Layer::Alpha(m) => m.spec_height(),
            Layer::Masked(img, _) => img.spec_height(),
        }
    }

    /// What the layer's pixel `(ix, iy)` makes of the pixel `under` it.
    spec fn apply(&self, under: Color, ix: int, iy: int) -> Color {
        match *self {
            Layer::Draw(img) => mix_spec(under, img.pixel(ix, iy)),
            Layer::Alpha(m) => with_alpha(under, m.value(ix, iy)),
            Layer::Masked(img, m) => mix_spec(
                under,
                with_alpha(img.pixel(ix, iy), (255 - m.value(ix, iy)) as u8),
            ),
        }
    }

    fn width(&self) -> (r: usize)
        ensures
            r == self.spec_width(),
    {
        match self {
            Layer::Draw(img) => img.width,
            Layer::Alpha(m) => m.width,
            Layer::Masked(img, _) => img.width,
        }
    }

    fn height(&self) -> (r: usize)
        ensures
            r == self.spec_height(),
    {
        match self {
            Layer::Draw(img) => img.height,
            Layer::Alpha(m) => m.height,
            Layer::Masked(img, _) => img.height,
        }
    }

    fn apply_at(&self, under: Color, ix: usize, iy: usize) -> (c: Color)
        requires
            self.valid(),
            ix < self.spec_width(),
            iy < self.spec_height(),
        ensures
            c == self.apply(under, ix as int, iy as int),
    {
        match self {
            Layer::Draw(img) => Image::mix(under, img.color(ix, iy)),
            Layer::Alpha(m) => Color::new(under.r, under.g, under.b, m.value_at(ix, iy)),
            Layer::Masked(img, m) => {
                let over = img.color(ix, iy);
                let a = 255 - m.value_at(ix, iy);
                Image::mix(under, Color::new(over.r, over.g, over.b, a))
            },
        }
    }
}

fn mix_alpha_of(under: u8, over: u8) -> (r: u8)
    ensures
        r == mix_alpha(under, over),
{
    let o = over as u32;
    let u = under as u32;
    proof {
        assert(u * (255 - o) <= 255 * (255 - o)) by (nonlinear_arith)
            requires
                u <= 255,
                o <= 255,
        ;
    }
    ((255 * o + u * (255 - o)) / 255) as u8
}

fn mix_component(cu: u8, au: u8, co: u8, ao: u8) -> (r: u8)
    ensures
        r == mix_channel(cu, au, co, ao),
{
    if ao == 0 {
        cu
    } else if au == 0 {
        co
    } else {
        let (cu, au, co, ao) = (cu as u64, au as u64, co as u64, ao as u64);
        proof {
            assert(255 * co * ao <= 255 * 255 * ao && cu * au * (255 - ao) <= 255 * (au * (255 - ao))
                && 255 * co * ao <= 255 * 255 * 255 && cu * au * (255 - ao) <= 255 * 255 * 255
                && au * (255 - ao) <= 255 * 255 && 255 * ao + au * (255 - ao) > 0 && cu * au <= 255 * 255
                && 255 * co <= 255 * 255
                && 255 * co * ao + cu * au * (255 - ao) <= 255 * (255 * ao + au * (255 - ao))) by (nonlinear_arith)
                requires
                    cu <= 255,
                    au <= 255,
                    co <= 255,
                    0 < ao <= 255,
            ;
        }
        let num = 255 * co * ao + cu * au * (255 - ao);
        let den = 255 * ao + au * (255 - ao);
        proof {
            assert(num / den <= 255) by (nonlinear_arith)
                requires
                    num <= 255 * den,
                    den > 0,
            ;
        }
        (num / den) as u8
    }
}

/// A greyscale image: one coverage byte per pixel, row by row.
#[derive(Debug, Clone)]
pub struct Mask {
    width: usize,
    height: usize,
    data: Vec<u8>,
}

impl Mask {
    pub closed spec fn spec_width(&self) -> nat {
        self.width as nat
    }

    pub closed spec fn spec_height(&self) -> nat {
        self.height as nat
    }

    pub closed spec fn bytes(&self) -> Seq<u8> {
        self.data@
    }

    pub open spec fn wf(&self) -> bool {
        &&& self.bytes().len() == self.spec_width() * self.spec_height()
        &&& self.spec_width() * self.spec_height() <= usize::MAX
        &&& self.spec_width() <= usize::MAX
        &&& self.spec_height() <= usize::MAX
    }

    /// The coverage at `(x, y)`.
    pub open spec fn value(&self, x: int, y: int) -> u8 {
        self.bytes()[y * self.spec_width() + x]
    }

    /// A mask that covers nothing.
    pub fn new(width: usize, height: usize) -> (m: Mask)
        requires
            width * height <= usize::MAX,
        ensures
            m.wf(),
            m.spec_width() == width,
            m.spec_height() == height,
            forall|i: int| 0 <= i < width * height ==> #[trigger] m.bytes()[i] == 0,
    {
        Mask { width, height, data: vec![0; width * height] }
    }

    /// The coverage bytes, row by row.
    pub fn data(&self) -> (r: &[u8])
        ensures
            r@ == self.bytes(),
    {
        self.data.as_slice()
    }

    fn value_at(&self, x: usize, y: usize) -> (r: u8)
        requires
            self.wf(),
            x < self.spec_width(),
            y < self.spec_height(),
        ensures
            r == self.value(x as int, y as int),
    {
        proof {
            lemma_pixel_in_range(self.width as int, self.height as int, x as int, y as int);
        }
        self.data[y * self.width + x]
    }

    /// Copies a `width` by `height` coverage buffer into the mask with its top
    /// left corner at `(off_x, off_y)`; what falls outside is left out.
    pub fn set_from_buf(&mut self, width: usize, height: usize, buf: &[u8], off_x: isize, off_y: isize)
        requires
            old(self).wf(),
            width * height <= buf@.len(),
        ensures
            final(self).wf(),
            final(self).spec_width() == old(self).spec_width(),
            final(self).spec_height() == old(self).spec_height(),
            forall|x: int, y: int|
                0 <= x < old(self).spec_width() && 0 <= y < old(self).spec_height() ==> #[trigger] final(self).value(x, y) == (if covers(width as nat, height as nat, off_x as int, off_y as int, x, y) {
                    buf@[(y - off_y) * width + (x - off_x)]
                } else {
                    old(self).value(x, y)
                }),
    {
        let ghost pre = *self;
        let ghost ox = off_x as int;
        let ghost oy = off_y as int;
        let (x0, x1) = clip(width, self.width, off_x);
        let (y0, y1) = clip(height, self.height, off_y);
        let mut iy = y0;
        while iy < y1
            invariant
                self.wf(),
                self.spec_width() == pre.spec_width(),
                self.spec_height() == pre.spec_height(),
                width * height <= buf@.len(),
                clipped(x0 as int, x1 as int, width as int, pre.spec_width() as int, ox),
                clipped(y0 as int, y1 as int, height as int, pre.spec_height() as int, oy),
                y0 <= iy <= y1,
                ox == off_x,
                oy == off_y,
                forall|x: int, y: int|
                    0 <= x < pre.spec_width() && 0 <= y < pre.spec_height() ==> #[trigger] self.value(x, y)
                        == (if covers(width as nat, height as nat, ox, oy, x, y) && y - oy < iy {
                        buf@[(y - oy) * width + (x - ox)]
                    } else {
                        pre.value(x, y)
                    }),
            decreases y1 - iy,
        {
            assert(0 <= iy + oy < pre.spec_height());
            let yi: i128 = iy as i128 + off_y as i128;
            let y = yi as usize;
            assert(y == iy + oy);
            let mut ix = x0;
            while ix < x1
                invariant
                    self.wf(),
                    self.spec_width() == pre.spec_width(),
                    self.spec_height() == pre.spec_height(),
                    width * height <= buf@.len(),
                    clipped(x0 as int, x1 as int, width as int, pre.spec_width() as int, ox),
                    clipped(y0 as int, y1 as int, height as int, pre.spec_height() as int, oy),
                    y0 <= iy < y1,
                    ox == off_x,
                    oy == off_y,
                    y == iy + oy,
                    x0 <= ix <= x1,
                    forall|x: int, y: int|
                        0 <= x < pre.spec_width() && 0 <= y < pre.spec_height() ==> #[trigger] self.value(
                            x,
                            y,
                        ) == (if covers(width as nat, height as nat, ox, oy, x, y) && (y - oy < iy || (y
                            - oy == iy && x - ox < ix)) {
                            buf@[(y - oy) * width + (x - ox)]
                        } else {
                            pre.value(x, y)
                        }),
                decreases x1 - ix,
            {
                assert(0 <= ix + ox < pre.spec_width());
                let xi: i128 = ix as i128 + off_x as i128;
                let x = xi as usize;
                assert(x == ix + ox);
                let buf_len = buf.len();
                proof {
                    lemma_pixel_in_range(width as int, height as int, ix as int, iy as int);
                    lemma_pixel_in_range(self.width as int, self.height as int, x as int, y as int);
                }
                let v = buf[iy * width + ix];
                let ghost before = *self;
                self.data.set(y * self.width + x, v);
                proof {
                    assert forall|xx: int, yy: int|
                        0 <= xx < pre.spec_width() && 0 <= yy < pre.spec_height() implies #[trigger] self.value(
                            xx,
                            yy,
                        ) == (if covers(width as nat, height as nat, ox, oy, xx, yy) && (yy - oy < iy || (yy
                            - oy == iy && xx - ox < ix + 1)) {
                            buf@[(yy - oy) * width + (xx - ox)]
                        } else {
                            pre.value(xx, yy)
                        }) by {
                        lemma_pixel_in_range(self.width as int, self.height as int, xx, yy);
                        if xx != x || yy != y {
                            lemma_pixel_distinct(self.width as int, xx, yy, x as int, y as int);
                            assert(before.value(xx, yy) == self.value(xx, yy));
                        }
                    }
                }
                ix = ix + 1;
            }
            iy = iy + 1;
        }
    }
}

} // verus!
