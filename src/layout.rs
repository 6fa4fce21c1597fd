//! Text runs on a canvas: patterns, shared fonts, padding, and drawing glyphs.

use vstd::prelude::*;

use crate::color::{scaled_channel, spec_color, Color};
use crate::font::FontVariant;
use crate::image::{channels, covers, lemma_pixel_distinct, lemma_pixel_in_range, mix_spec, with_alpha, ColorProvider, Colors, Image, Mask, Stripes};
use crate::strings::str_eq;

verus! {

/// How something is painted: one color, or a pattern.
#[derive(Debug, Clone)]
pub enum Visual {
    Color(Color),
    Pattern(Stripes),
}

pub open spec fn visual_valid(v: Visual) -> bool {
    match v {
        Visual::Color(_) => true,
        Visual::Pattern(p) => p.valid(),
    }
}

/// The color a visual gives at an absolute position.
pub open spec fn visual_color(v: Visual, x: int, y: int) -> Color {
    match v {
        Visual::Color(c) => c,
        Visual::Pattern(p) => p.color_spec(x as usize, y as usize),
    }
}

pub open spec fn spec_rgb(r: u8, g: u8, b: u8) -> Color {
    spec_color(r, g, b, 255)
}

/// The stripes of a named pattern, or `None` where no pattern has that name.
pub open spec fn pattern_colors(name: Seq<char>) -> Option<Seq<Color>> {
    if name == "trans"@ {
        Some(seq![spec_rgb(85, 205, 252), spec_rgb(255, 255, 255), spec_rgb(247, 168, 184)])
    } else if name == "enby"@ {
        Some(
            seq![
                spec_rgb(255, 244, 48),
                spec_rgb(255, 255, 255),
                spec_rgb(156, 89, 209),
                spec_rgb(0, 0, 0),
            ],
        )
    } else if name == "ace"@ {
        Some(
            seq![
                spec_rgb(0, 0, 0),
                spec_rgb(127, 127, 127),
                spec_rgb(255, 255, 255),
                spec_rgb(100, 52, 154),
            ],
        )
    } else {
        None
    }
}

/// The named stripe pattern, its stripes `stripe_width` pixels wide and
/// shifted one pixel for every two rows.
pub fn pattern(name: &str, stripe_width: usize) -> (r: Option<Visual>)
    requires
        stripe_width > 0,
    ensures
        match r {
            Some(Visual::Pattern(s)) => {
                &&& pattern_colors(name@) == Some(s.colors@)
                &&& s.stripe_width == stripe_width
                &&& s.slope == 2
                &&& s.valid()
            },
            Some(Visual::Color(_)) => false,
            None => pattern_colors(name@) is None,
        },
{
    let colors = if str_eq(name, "trans") {
        vec![Color::from_rgb(85, 205, 252), Color::white(), Color::from_rgb(247, 168, 184)]
    } else if str_eq(name, "enby") {
        vec![Color::from_rgb(255, 244, 48), Color::white(), Color::from_rgb(156, 89, 209), Color::black()]
    } else if str_eq(name, "ace") {
        vec![Color::black(), Color::from_rgb(127, 127, 127), Color::white(), Color::from_rgb(100, 52, 154)]
    } else {
        return None;
    };
    assert(pattern_colors(name@) == Some(colors@));
    Some(Visual::Pattern(Stripes { colors, stripe_width, slope: 2 }))
}

/// A font family and variant that a text run asks for.
#[derive(Debug, Clone)]
pub struct FontFace {
    pub typeface: String,
    pub variant: FontVariant,
}

impl FontFace {
    pub open spec fn view(&self) -> (Seq<char>, FontVariant) {
        (self.typeface@, self.variant)
    }

    pub fn new(typeface: String, variant: FontVariant) -> (f: FontFace)
        ensures
            f.typeface == typeface,
            f.variant == variant,
    {
        FontFace { typeface, variant }
    }

    /// Whether two faces name the same family and variant.
    pub fn same_as(&self, other: &FontFace) -> (r: bool)
        ensures
            r == (self.view() == other.view()),
    {
        self.variant == other.variant && str_eq(self.typeface.as_str(), other.typeface.as_str())
    }
}

/// The distinct faces that a list of runs asks for, in the order each is
/// first asked for, and for each run the position of its face among them:
/// two runs asking for one family and variant share one entry, so each is
/// resolved once.
pub fn distinct_faces(runs: &Vec<FontFace>) -> (r: (Vec<FontFace>, Vec<usize>))
    ensures
        r.1@.len() == runs@.len(),
        forall|k: int| 0 <= k < runs@.len() ==> #[trigger] r.1@[k] < r.0@.len() && r.0@[r.1@[k] as int].view()
            == runs@[k].view(),
        forall|a: int, b: int|
            0 <= a < b < r.0@.len() ==> #[trigger] r.0@[a].view() != #[trigger] r.0@[b].view(),
        forall|a: usize| a < r.0@.len() ==> #[trigger] r.1@.contains(a),
{
    let mut faces: Vec<FontFace> = Vec::new();
    let mut index: Vec<usize> = Vec::new();
    let mut k: usize = 0;
    while k < runs.len()
        invariant
            k <= runs@.len(),
            index@.len() == k,
            forall|j: int| 0 <= j < k ==> #[trigger] index@[j] < faces@.len() && faces@[index@[j] as int].view()
                == runs@[j].view(),
            forall|a: int, b: int|
                0 <= a < b < faces@.len() ==> #[trigger] faces@[a].view() != #[trigger] faces@[b].view(),
            forall|a: usize| a < faces@.len() ==> #[trigger] index@.contains(a),
        decreases runs@.len() - k,
    {
        let mut found: Option<usize> = None;
        let mut i: usize = 0;
        while i < faces.len()
            invariant
                i <= faces@.len(),
                k < runs@.len(),
                match found {
                    Some(j) => j < faces@.len() && faces@[j as int].view() == runs@[k as int].view(),
                    None => forall|a: int| 0 <= a < i ==> #[trigger] faces@[a].view() != runs@[k as int].view(),
                },
            decreases faces@.len() - i,
        {
            if found.is_none() && faces[i].same_as(&runs[k]) {
                found = Some(i);
            }
            i = i + 1;
        }
        let ghost index_before = index@;
        assert(forall|a: usize| a < faces@.len() ==> #[trigger] index_before.contains(a));
        match found {
            Some(i) => {
                index.push(i);
                proof {
                    assert forall|a: usize| a < faces@.len() implies #[trigger] index@.contains(a) by {
                        assert(index_before.contains(a));
                        let j = choose|j: int| 0 <= j < index_before.len() && index_before[j] == a;
                        assert(index@[j] == a);
                    }
                }
            },
            None => {
                let face = FontFace::new(runs[k].typeface.clone(), runs[k].variant);
                faces.push(face);
                index.push(faces.len() - 1);
                proof {
                    assert forall|a: usize| a < faces@.len() implies #[trigger] index@.contains(a) by {
                        if a < faces@.len() - 1 {
                            assert(index_before.contains(a));
                            let j = choose|j: int| 0 <= j < index_before.len() && index_before[j] == a;
                            assert(index@[j] == a);
                        } else {
                            assert(index@[k as int] == a);
                        }
                    }
                }
            },
        }
        k = k + 1;
    }
    (faces, index)
}

/// A target aspect ratio, `width / height`.
#[derive(Debug, Clone, Copy, PartialEq, Eq, Structural)]
pub struct AspectRatio {
    pub width: u32,
    pub height: u32,
}

/// `a / b` rounded up, for `a >= 0` and `b > 0`.
pub open spec fn ceil_div(a: int, b: int) -> int {
    if a % b == 0 {
        a / b
    } else {
        a / b + 1
    }
}

pub open spec fn at_least(v: int, floor: int) -> int {
    if v < floor {
        floor
    } else {
        v
    }
}

/// The horizontal and vertical padding around content `w` by `h`: `pad` on
/// both axes, or, with a target ratio, the padding that brings the short
/// axis up to the ratio, never below `pad`.
pub open spec fn padding_spec(w: int, h: int, pad: int, aspect: Option<AspectRatio>) -> (int, int) {
    match aspect {
        None => (pad, pad),
        Some(ratio) => {
            let num = ratio.width as int;
            let den = ratio.height as int;
            if num * h > w * den {
                (at_least(ceil_div((h + pad) * num - w * den, den), pad), pad)
            } else if num * h < w * den {
                (pad, at_least(ceil_div((w + pad) * den - h * num, num), pad))
            } else {
                (pad, pad)
            }
        },
    }
}

/// Padding is never below the flat value, and where the content is too tall
/// (too wide) for the target ratio, the padded width (height) reaches it.
pub proof fn lemma_padding_reaches_ratio(w: int, h: int, pad: int, ratio: AspectRatio)
    requires
        w >= 0,
        h >= 0,
        pad >= 0,
        ratio.width > 0,
        ratio.height > 0,
    ensures
        ({
            let (hp, vp) = padding_spec(w, h, pad, Some(ratio));
            let num = ratio.width as int;
            let den = ratio.height as int;
            &&& hp >= pad
            &&& vp >= pad
            &&& num * h > w * den ==> vp == pad && (w + hp) * den >= (h + pad) * num
            &&& num * h < w * den ==> hp == pad && (h + vp) * num >= (w + pad) * den
        }),
{
    let num = ratio.width as int;
    let den = ratio.height as int;
    if num * h > w * den {
        let a = (h + pad) * num - w * den;
        lemma_ceil_div_covers(a, den);
        let c = ceil_div(a, den);
        let hp = at_least(c, pad);
        assert((w + hp) * den >= (h + pad) * num) by (nonlinear_arith)
            requires
                hp >= c,
                c * den >= a,
                a == (h + pad) * num - w * den,
                den > 0,
        ;
    } else if num * h < w * den {
        let a = (w + pad) * den - h * num;
        lemma_ceil_div_covers(a, num);
        let c = ceil_div(a, num);
        let vp = at_least(c, pad);
        assert((h + vp) * num >= (w + pad) * den) by (nonlinear_arith)
            requires
                vp >= c,
                c * num >= a,
                a == (w + pad) * den - h * num,
                num > 0,
        ;
    }
}

proof fn lemma_ceil_div_covers(a: int, b: int)
    requires
        b > 0,
    ensures
        ceil_div(a, b) * b >= a,
{
    assert((a / b) * b + a % b == a && 0 <= a % b < b) by (nonlinear_arith)
        requires
            b > 0,
    ;
    if a % b != 0 {
        assert((a / b + 1) * b == (a / b) * b + b) by (nonlinear_arith);
    }
}

fn ceil_div_u128(a: u128, b: u128) -> (r: u128)
    requires
        b > 0,
    ensures
        r == ceil_div(a as int, b as int),
{
    proof {
        assert(a / b <= a) by (nonlinear_arith)
            requires
                b > 0,
        ;
    }
    if a % b == 0 {
        a / b
    } else {
        proof {
            assert(a / b < a) by (nonlinear_arith)
                requires
                    b > 0,
                    a % b != 0,
            ;
        }
        a / b + 1
    }
}

/// The padding of a canvas around content `width` by `height`; `None` where
/// the padded size does not fit in memory's address range.
pub fn padding(width: usize, height: usize, pad: usize, aspect: Option<AspectRatio>) -> (r: Option<(usize, usize)>)
    requires
        match aspect {
            Some(a) => a.width > 0 && a.height > 0,
            None => true,
        },
    ensures
        match r {
            Some((hp, vp)) => {
                &&& (hp as int, vp as int) == padding_spec(width as int, height as int, pad as int, aspect)
                &&& width + hp <= usize::MAX
                &&& height + vp <= usize::MAX
            },
            None => {
                let p = padding_spec(width as int, height as int, pad as int, aspect);
                width + p.0 > usize::MAX || height + p.1 > usize::MAX
            },
        },
{
    let (hp, vp): (u128, u128) = match aspect {
        None => (pad as u128, pad as u128),
        Some(ratio) => {
            let num = ratio.width as u128;
            let den = ratio.height as u128;
            let (w, h, p) = (width as u128, height as u128, pad as u128);
            proof {
                assert(num * h <= 0xffff_ffff * 0xffff_ffff_ffff_ffff && h * num == num * h) by (nonlinear_arith)
                    requires
                        num <= 0xffff_ffff,
                        h <= 0xffff_ffff_ffff_ffff,
                ;
                assert(w * den <= 0xffff_ffff * 0xffff_ffff_ffff_ffff) by (nonlinear_arith)
                    requires
                        den <= 0xffff_ffff,
                        w <= 0xffff_ffff_ffff_ffff,
                ;
                assert((h + p) * num <= 0xffff_ffff * 0x1_ffff_ffff_ffff_fffe) by (nonlinear_arith)
                    requires
                        num <= 0xffff_ffff,
                        h + p <= 0x1_ffff_ffff_ffff_fffe,
                ;
                assert((w + p) * den <= 0xffff_ffff * 0x1_ffff_ffff_ffff_fffe) by (nonlinear_arith)
                    requires
                        den <= 0xffff_ffff,
                        w + p <= 0x1_ffff_ffff_ffff_fffe,
                ;
            }
            if num * h > w * den {
                assert((h + p) * num > w * den) by (nonlinear_arith)
                    requires
                        num * h > w * den,
                ;
                let needed = ceil_div_u128((h + p) * num - w * den, den);
                (if needed < p { p } else { needed }, p)
            } else if num * h < w * den {
                assert((w + p) * den > h * num) by (nonlinear_arith)
                    requires
                        num * h < w * den,
                ;
                let needed = ceil_div_u128((w + p) * den - h * num, num);
                (p, if needed < p { p } else { needed })
            } else {
                (p, p)
            }
        },
    };
    if hp > (usize::MAX - width) as u128 || vp > (usize::MAX - height) as u128 {
        None
    } else {
        Some((hp as usize, vp as usize))
    }
}

/// A rasterized glyph placed in the laid-out text: its top left corner, its
/// coverage bitmap (one byte per pixel, row by row), and the text run it
/// belongs to.
#[derive(Debug, Clone)]
pub struct PlacedGlyph {
    pub x: isize,
    pub y: isize,
    pub width: usize,
    pub height: usize,
    pub coverage: Vec<u8>,
    pub run: usize,
}

pub open spec fn glyph_valid(g: PlacedGlyph, visuals: Seq<Visual>) -> bool {
    &&& g.coverage@.len() == g.width * g.height
    &&& g.width * g.height * 4 <= usize::MAX
    &&& g.run < visuals.len()
}

/// Pixel `(ix, iy)` of a glyph drawn at `(gx, gy)` in `vis`: the visual's
/// color there, with the glyph's coverage as alpha.
pub open spec fn glyph_pixel(vis: Visual, g: PlacedGlyph, gx: int, gy: int, ix: int, iy: int) -> Color {
    let a = g.coverage@[iy * g.width + ix];
    match vis {
        Visual::Color(c) => spec_color(c.r, c.g, c.b, a),
        Visual::Pattern(p) => with_alpha(p.color_spec((ix + gx) as usize, (iy + gy) as usize), a),
    }
}

/// The canvas pixel at `(x, y)` once the background is laid and the first
/// `n` glyphs are drawn over it, each at its place shifted by `(ox, oy)`.
pub open spec fn canvas_pixel(
    bg: Visual,
    visuals: Seq<Visual>,
    glyphs: Seq<PlacedGlyph>,
    ox: int,
    oy: int,
    n: nat,
    x: int,
    y: int,
) -> Color
    decreases n,
{
    if n == 0 {
        visual_color(bg, x, y)
    } else {
        let under = canvas_pixel(bg, visuals, glyphs, ox, oy, (n - 1) as nat, x, y);
        let g = glyphs[n - 1];
        let gx = g.x + ox;
        let gy = g.y + oy;
        if covers(g.width as nat, g.height as nat, gx, gy, x, y) {
            mix_spec(under, glyph_pixel(visuals[g.run as int], g, gx, gy, x - gx, y - gy))
        } else {
            under
        }
    }
}

/// The image of one glyph at canvas position `(x, y)`, painted in `vis`.
pub fn glyph_image(vis: &Visual, g: &PlacedGlyph, x: isize, y: isize) -> (img: Image)
    requires
        visual_valid(*vis),
        g.coverage@.len() == g.width * g.height,
        g.width * g.height * 4 <= usize::MAX,
    ensures
        img.wf(),
        img.spec_width() == g.width,
        img.spec_height() == g.height,
        forall|ix: int, iy: int| #[trigger]
            img.in_bounds(ix, iy) ==> img.pixel(ix, iy) == glyph_pixel(*vis, *g, x as int, y as int, ix, iy),
{
    match vis {
        Visual::Color(c) => {
            let cov = g.coverage.clone();
            assert(cov@ =~= g.coverage@);
            let colors = Colors::GreyAsAlpha(*c);
            assert(channels(colors) == 1);
            assert(cov@.len() == g.width * g.height * channels(colors));
            let converted = Image::from_buffer(g.width, g.height, cov, colors);
            match converted {
                Ok(img) => img,
                Err(_) => {
                    proof {
                        assert(false);
                    }
                    Image::new(0, 0)
                },
            }
        },
        Visual::Pattern(p) => {
            let mut mask = Mask::new(g.width, g.height);
            mask.set_from_buf(g.width, g.height, g.coverage.as_slice(), 0, 0);
            let mut img = Image::from_provider(g.width, g.height, x, y, p);
            let ghost patterned = img;
            let ghost coverage = mask;
            img.mask(mask, 0, 0);
            proof {
                assert forall|ix: int, iy: int| #[trigger]
                    img.in_bounds(ix, iy) implies img.pixel(ix, iy) == glyph_pixel(*vis, *g, x as int, y as int, ix, iy) by {
                    assert(patterned.in_bounds(ix, iy));
                    assert(0 <= ix < coverage.spec_width() && 0 <= iy < coverage.spec_height());
                    assert(coverage.value(ix, iy) == g.coverage@[iy * g.width + ix]);
                }
            }
            img
        },
    }
}

/// Lays the background over a `width` by `height` canvas and draws each
/// glyph at its place shifted by `(off_x, off_y)`, in order, source over.
pub fn compose(
    width: usize,
    height: usize,
    off_x: isize,
    off_y: isize,
    background: &Visual,
    visuals: &Vec<Visual>,
    glyphs: &Vec<PlacedGlyph>,
) -> (img: Image)
    requires
        width * height * 4 <= usize::MAX,
        visual_valid(*background),
        forall|k: int| 0 <= k < visuals@.len() ==> visual_valid(#[trigger] visuals@[k]),
        forall|k: int| 0 <= k < glyphs@.len() ==> glyph_valid(#[trigger] glyphs@[k], visuals@),
        forall|k: int|
            0 <= k < glyphs@.len() ==> isize::MIN <= #[trigger] glyphs@[k].x + off_x <= isize::MAX
                && isize::MIN <= glyphs@[k].y + off_y <= isize::MAX,
    ensures
        img.wf(),
        img.spec_width() == width,
        img.spec_height() == height,
        forall|x: int, y: int| #[trigger]
            img.in_bounds(x, y) ==> img.pixel(x, y) == canvas_pixel(
                *background,
                visuals@,
                glyphs@,
                off_x as int,
                off_y as int,
                glyphs@.len(),
                x,
                y,
            ),
{
    let mut img = match background {
        Visual::Color(c) => Image::with_color(width, height, *c),
        Visual::Pattern(p) => Image::from_provider(width, height, 0, 0, p),
    };
    let mut k: usize = 0;
    while k < glyphs.len()
        invariant
            k <= glyphs@.len(),
            img.wf(),
            img.spec_width() == width,
            img.spec_height() == height,
            forall|j: int| 0 <= j < visuals@.len() ==> visual_valid(#[trigger] visuals@[j]),
            forall|j: int| 0 <= j < glyphs@.len() ==> glyph_valid(#[trigger] glyphs@[j], visuals@),
            forall|j: int|
                0 <= j < glyphs@.len() ==> isize::MIN <= #[trigger] glyphs@[j].x + off_x <= isize::MAX
                    && isize::MIN <= glyphs@[j].y + off_y <= isize::MAX,
            forall|x: int, y: int| #[trigger]
                img.in_bounds(x, y) ==> img.pixel(x, y) == canvas_pixel(
                    *background,
                    visuals@,
                    glyphs@,
                    off_x as int,
                    off_y as int,
                    k as nat,
                    x,
                    y,
                ),
        decreases glyphs@.len() - k,
    {
        let g = &glyphs[k];
        assert(glyph_valid(glyphs@[k as int], visuals@));
        let x = g.x + off_x;
        let y = g.y + off_y;
        let glyph = glyph_image(&visuals[g.run], g, x, y);
        let ghost before = img;
        img.draw_img(glyph, x, y);
        proof {
            assert forall|px: int, py: int| #[trigger]
                img.in_bounds(px, py) implies img.pixel(px, py) == canvas_pixel(
                    *background,
                    visuals@,
                    glyphs@,
                    off_x as int,
                    off_y as int,
                    (k + 1) as nat,
                    px,
                    py,
                ) by {
                assert(before.in_bounds(px, py));
                if covers(g.width as nat, g.height as nat, x as int, y as int, px, py) {
                    assert(glyph.in_bounds(px - x, py - y));
                }
            }
        }
        k = k + 1;
    }
    img
}

/// The canvas size for content `w` by `h`: the content rounded up plus the
/// padding that `padding_spec` gives.
pub open spec fn canvas_size(w: int, h: int, pad: int, aspect: Option<AspectRatio>) -> (int, int) {
    let p = padding_spec(w, h, pad, aspect);
    (w + p.0, h + p.1)
}

/// Renders laid-out text: a canvas of the content's size plus padding,
/// filled with the background, each glyph drawn over it at its place
/// shifted by half the padding, so that the content is centred. `None` where
/// the canvas would not fit in memory: more than `usize::MAX` bytes, or a
/// side longer than a quarter of that.
pub fn render(
    content_width: usize,
    content_height: usize,
    pad: usize,
    aspect: Option<AspectRatio>,
    background: &Visual,
    visuals: &Vec<Visual>,
    glyphs: &Vec<PlacedGlyph>,
) -> (r: Option<Image>)
    requires
        match aspect {
            Some(a) => a.width > 0 && a.height > 0,
            None => true,
        },
        visual_valid(*background),
        forall|k: int| 0 <= k < visuals@.len() ==> visual_valid(#[trigger] visuals@[k]),
        forall|k: int| 0 <= k < glyphs@.len() ==> glyph_valid(#[trigger] glyphs@[k], visuals@),
        forall|k: int|
            0 <= k < glyphs@.len() ==> isize::MIN / 2 <= #[trigger] glyphs@[k].x <= isize::MAX / 2
                && isize::MIN / 2 <= glyphs@[k].y <= isize::MAX / 2,
    ensures
        match r {
            Some(img) => {
                let size = canvas_size(content_width as int, content_height as int, pad as int, aspect);
                let p = padding_spec(content_width as int, content_height as int, pad as int, aspect);
                &&& img.wf()
                &&& img.spec_width() == size.0
                &&& img.spec_height() == size.1
                &&& forall|x: int, y: int| #[trigger]
                    img.in_bounds(x, y) ==> img.pixel(x, y) == canvas_pixel(
                        *background,
                        visuals@,
                        glyphs@,
                        p.0 / 2,
                        p.1 / 2,
                        glyphs@.len(),
                        x,
                        y,
                    )
            },
            None => {
                let size = canvas_size(content_width as int, content_height as int, pad as int, aspect);
                size.0 > usize::MAX / 4 || size.1 > usize::MAX / 4 || size.0 * size.1 * 4 > usize::MAX
            },
        },
{
    let (hp, vp) = match padding(content_width, content_height, pad, aspect) {
        Some(p) => p,
        None => {
            return None;
        },
    };
    let width = content_width + hp;
    let height = content_height + vp;
    if width > usize::MAX / 4 || height > usize::MAX / 4 {
        return None;
    }
    proof {
        assert(width <= 0xffff_ffff_ffff_ffffu64 && height <= 0xffff_ffff_ffff_ffffu64);
        assert((width as u128) * (height as u128) <= 0xffff_ffff_ffff_ffffu128 * 0xffff_ffff_ffff_ffffu128) by (nonlinear_arith)
            requires
                width <= 0xffff_ffff_ffff_ffffu64,
                height <= 0xffff_ffff_ffff_ffffu64,
        ;
    }
    if (width as u128) * (height as u128) > (usize::MAX / 4) as u128 {
        return None;
    }
    proof {
        assert(hp <= width && vp <= height);
    }
    let off_x = (hp / 2) as isize;
    let off_y = (vp / 2) as isize;
    Some(compose(width, height, off_x, off_y, background, visuals, glyphs))
}

/// All the runs' text, in order.
pub open spec fn joined(texts: Seq<String>) -> Seq<char>
    decreases texts.len(),
{
    if texts.len() == 0 {
        Seq::empty()
    } else {
        joined(texts.drop_last()) + texts.last()@
    }
}

/// The text of all runs, one after another.
pub fn full_text(texts: &Vec<String>) -> (r: String)
    ensures
        r@ == joined(texts@),
{
    let mut s = String::new();
    let mut i: usize = 0;
    while i < texts.len()
        invariant
            i <= texts@.len(),
            s@ == joined(texts@.subrange(0, i as int)),
        decreases texts@.len() - i,
    {
        assert(texts@.subrange(0, i + 1).drop_last() =~= texts@.subrange(0, i as int));
        s.append(texts[i].as_str());
        i = i + 1;
    }
    assert(texts@.subrange(0, texts@.len() as int) =~= texts@);
    s
}

pub open spec fn opt_view(o: Option<String>) -> Option<Seq<char>> {
    match o {
        Some(s) => Some(s@),
        None => None,
    }
}

/// The font that every run names, where they all name the same one:
/// `Some(None)` where there are fewer than two runs or all use the default
/// font, `Some(Some(name))` where all name `name`, `None` where they differ.
pub fn fonts_if_same(fonts: &Vec<Option<String>>) -> (r: Option<Option<String>>)
    ensures
        fonts@.len() < 2 ==> r matches Some(None),
        fonts@.len() >= 2 ==> match r {
            Some(f) => forall|k: int| 0 <= k < fonts@.len() ==> opt_view(#[trigger] fonts@[k]) == opt_view(f),
            None => exists|k: int| 0 <= k < fonts@.len() && opt_view(#[trigger] fonts@[k]) != opt_view(fonts@[0]),
        },
{
    if fonts.len() < 2 {
        return Some(None);
    }
    let mut i: usize = 1;
    while i < fonts.len()
        invariant
            2 <= fonts@.len(),
            1 <= i <= fonts@.len(),
            forall|k: int| 0 <= k < i ==> opt_view(#[trigger] fonts@[k]) == opt_view(fonts@[0]),
        decreases fonts@.len() - i,
    {
        let same = match (&fonts[0], &fonts[i]) {
            (Some(a), Some(b)) => str_eq(a.as_str(), b.as_str()),
            (None, None) => true,
            _ => false,
        };
        if !same {
            assert(opt_view(fonts@[i as int]) != opt_view(fonts@[0]));
            return None;
        }
        i = i + 1;
    }
    match &fonts[0] {
        Some(name) => Some(Some(name.clone())),
        None => Some(None),
    }
}

/// The font that at least two runs share with no run naming another.
pub open spec fn common_font(fonts: Seq<Option<String>>) -> Option<Seq<char>> {
    if fonts.len() >= 2 && fonts[0] is Some && forall|k: int|
        0 <= k < fonts.len() ==> opt_view(#[trigger] fonts[k]) == opt_view(fonts[0]) {
        Some(fonts[0]->0@)
    } else {
        None
    }
}

/// A description of the rendered text for readers that cannot see the
/// image: the text, and the font where every run names the same one.
pub fn get_alt(texts: &Vec<String>, fonts: &Vec<Option<String>>) -> (r: String)
    ensures
        r@ == match common_font(fonts@) {
            Some(f) => "'"@ + joined(texts@) + "' in the font "@ + f,
            None => joined(texts@),
        },
{
    let text = full_text(texts);
    match fonts_if_same(fonts) {
        Some(Some(font)) => {
            let mut s = String::from_str("'");
            s.append(text.as_str());
            s.append("' in the font ");
            s.append(font.as_str());
            s
        },
        _ => {
            proof {
                if common_font(fonts@) is Some {
                    assert(opt_view(fonts@[0]) is Some);
                }
            }
            text
        },
    }
}

/// The red, green and blue bytes of pixel `(x, y)` of an RGB buffer `w`
/// pixels wide.
pub open spec fn rgb_in(buf: Seq<u8>, w: int, x: int, y: int) -> (u8, u8, u8) {
    let j = 3 * (y * w + x);
    (buf[j], buf[j + 1], buf[j + 2])
}

/// The legacy rendering's pixel at `(x, y)` after the first `n` glyphs:
/// black where no glyph lies, else the color scaled by the coverage of the
/// last glyph there (`coverage / 255`, rounded down).
pub open spec fn tinted_pixel(
    glyphs: Seq<PlacedGlyph>,
    color: Color,
    ox: int,
    oy: int,
    n: nat,
    x: int,
    y: int,
) -> (u8, u8, u8)
    decreases n,
{
    if n == 0 {
        (0, 0, 0)
    } else {
        let g = glyphs[n - 1];
        let gx = g.x + ox;
        let gy = g.y + oy;
        if covers(g.width as nat, g.height as nat, gx, gy, x, y) {
            let cov = g.coverage@[(y - gy) * g.width + (x - gx)] as u32;
            (
                scaled_channel(color.r, cov, 255),
                scaled_channel(color.g, cov, 255),
                scaled_channel(color.b, cov, 255),
            )
        } else {
            tinted_pixel(glyphs, color, ox, oy, (n - 1) as nat, x, y)
        }
    }
}

fn set_rgb(buf: &mut Vec<u8>, width: usize, height: usize, x: usize, y: usize, c: Color)
    requires
        old(buf)@.len() == width * height * 3,
        width * height * 3 <= usize::MAX,
        x < width,
        y < height,
    ensures
        final(buf)@.len() == old(buf)@.len(),
        rgb_in(final(buf)@, width as int, x as int, y as int) == (c.r, c.g, c.b),
        forall|xx: int, yy: int|
            0 <= xx < width && 0 <= yy < height && (xx != x || yy != y) ==> #[trigger] rgb_in(
                final(buf)@,
                width as int,
                xx,
                yy,
            ) == rgb_in(old(buf)@, width as int, xx, yy),
{
    proof {
        lemma_pixel_in_range(width as int, height as int, x as int, y as int);
    }
    let j = 3 * (y * width + x);
    buf.set(j, c.r);
    buf.set(j + 1, c.g);
    buf.set(j + 2, c.b);
    proof {
        assert forall|xx: int, yy: int|
            0 <= xx < width && 0 <= yy < height && (xx != x || yy != y) implies #[trigger] rgb_in(
                buf@,
                width as int,
                xx,
                yy,
            ) == rgb_in(old(buf)@, width as int, xx, yy) by {
            lemma_pixel_in_range(width as int, height as int, xx, yy);
            lemma_pixel_distinct(width as int, xx, yy, x as int, y as int);
        }
    }
}

/// The legacy rendering: an RGB buffer, black, into which each glyph is
/// copied at its place shifted by `(off_x, off_y)`, each pixel the color
/// scaled by the glyph's coverage there. Later glyphs overwrite earlier
/// ones; nothing is blended. Every glyph must lie inside the buffer.
pub fn tint_rgb(
    width: usize,
    height: usize,
    off_x: isize,
    off_y: isize,
    glyphs: &Vec<PlacedGlyph>,
    color: Color,
) -> (r: Vec<u8>)
    requires
        width * height * 3 <= usize::MAX,
        forall|k: int| 0 <= k < glyphs@.len() ==> {
            let g = #[trigger] glyphs@[k];
            &&& g.coverage@.len() == g.width * g.height
            &&& g.width * g.height <= usize::MAX
            &&& 0 <= g.x + off_x
            &&& g.x + off_x + g.width <= width
            &&& 0 <= g.y + off_y
            &&& g.y + off_y + g.height <= height
        },
    ensures
        r@.len() == width * height * 3,
        forall|x: int, y: int|
            0 <= x < width && 0 <= y < height ==> #[trigger] rgb_in(r@, width as int, x, y) == tinted_pixel(
                glyphs@,
                color,
                off_x as int,
                off_y as int,
                glyphs@.len(),
                x,
                y,
            ),
{
    let mut buf: Vec<u8> = vec![0; width * height * 3];
    let ghost ox = off_x as int;
    let ghost oy = off_y as int;
    assert forall|x: int, y: int|
        0 <= x < width && 0 <= y < height implies #[trigger] rgb_in(buf@, width as int, x, y)
        == tinted_pixel(glyphs@, color, ox, oy, 0, x, y) by {
        lemma_pixel_in_range(width as int, height as int, x, y);
    }
    let mut k: usize = 0;
    while k < glyphs.len()
        invariant
            ox == off_x,
            oy == off_y,
            k <= glyphs@.len(),
            width * height * 3 <= usize::MAX,
            buf@.len() == width * height * 3,
            forall|j: int| 0 <= j < glyphs@.len() ==> {
                let g = #[trigger] glyphs@[j];
                &&& g.coverage@.len() == g.width * g.height
                &&& g.width * g.height <= usize::MAX
                &&& 0 <= g.x + off_x
                &&& g.x + off_x + g.width <= width
                &&& 0 <= g.y + off_y
                &&& g.y + off_y + g.height <= height
            },
            forall|x: int, y: int|
                0 <= x < width && 0 <= y < height ==> #[trigger] rgb_in(buf@, width as int, x, y)
                    == tinted_pixel(glyphs@, color, ox, oy, k as nat, x, y),
        decreases glyphs@.len() - k,
    {
        let g = &glyphs[k];
        assert(0 <= g.x + off_x && g.x + off_x + g.width <= width);
        let x0 = (g.x as i128 + off_x as i128) as usize;
        let y0 = (g.y as i128 + off_y as i128) as usize;
        let mut gy: usize = 0;
        while gy < g.height
            invariant
                ox == off_x,
                oy == off_y,
                k < glyphs@.len(),
                *g == glyphs@[k as int],
                g.coverage@.len() == g.width * g.height,
                g.width * g.height <= usize::MAX,
                width * height * 3 <= usize::MAX,
                x0 == g.x + ox,
                y0 == g.y + oy,
                x0 + g.width <= width,
                y0 + g.height <= height,
                gy <= g.height,
                buf@.len() == width * height * 3,
                forall|x: int, y: int|
                    0 <= x < width && 0 <= y < height ==> #[trigger] rgb_in(buf@, width as int, x, y) == if covers(
                        g.width as nat,
                        g.height as nat,
                        x0 as int,
                        y0 as int,
                        x,
                        y,
                    ) && y - y0 < gy {
                        tinted_pixel(glyphs@, color, ox, oy, (k + 1) as nat, x, y)
                    } else {
                        tinted_pixel(glyphs@, color, ox, oy, k as nat, x, y)
                    },
            decreases g.height - gy,
        {
            let mut gx: usize = 0;
            while gx < g.width
                invariant
                    ox == off_x,
                    oy == off_y,
                    k < glyphs@.len(),
                    *g == glyphs@[k as int],
                    g.coverage@.len() == g.width * g.height,
                    g.width * g.height <= usize::MAX,
                    width * height * 3 <= usize::MAX,
                    x0 == g.x + ox,
                    y0 == g.y + oy,
                    x0 + g.width <= width,
                    y0 + g.height <= height,
                    gy < g.height,
                    gx <= g.width,
                    buf@.len() == width * height * 3,
                    forall|x: int, y: int|
                        0 <= x < width && 0 <= y < height ==> #[trigger] rgb_in(buf@, width as int, x, y) == if covers(
                            g.width as nat,
                            g.height as nat,
                            x0 as int,
                            y0 as int,
                            x,
                            y,
                        ) && (y - y0 < gy || (y - y0 == gy && x - x0 < gx)) {
                            tinted_pixel(glyphs@, color, ox, oy, (k + 1) as nat, x, y)
                        } else {
                            tinted_pixel(glyphs@, color, ox, oy, k as nat, x, y)
                        },
                decreases g.width - gx,
            {
                proof {
                    lemma_pixel_in_range(g.width as int, g.height as int, gx as int, gy as int);
                }
                let grey = g.coverage[gy * g.width + gx];
                let c = color.scale_rgb(grey as u32, 255);
                set_rgb(&mut buf, width, height, x0 + gx, y0 + gy, c);
                gx = gx + 1;
            }
            gy = gy + 1;
        }
        k = k + 1;
    }
    buf
}

} // verus!
