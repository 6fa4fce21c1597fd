//! Font weights, styles and variants, their names, and cache file names.

use vstd::prelude::*;

use crate::strings::{push_char, str_eq};

verus! {

/// Font weight names, from the thinnest to the heaviest.
#[derive(Debug, Clone, Copy, PartialEq, Eq, Structural)]
pub enum FontWeight {
    Thin,
    ExtraLight,
    Light,
    Regular,
    Medium,
    SemiBold,
    Bold,
    ExtraBold,
    Black,
    ExtraBlack,
}

#[derive(Debug, Clone, Copy, PartialEq, Eq, Structural)]
pub enum FontStyle {
    Normal,
    Italic,
    Oblique,
}

/// One renderable instance of a font family: a weight and a style.
#[derive(Debug, Clone, Copy, PartialEq, Eq, Structural)]
pub struct FontVariant {
    pub weight: FontWeight,
    pub style: FontStyle,
}

/// A name that is not a known weight or style.
#[derive(Debug, Clone)]
pub enum FontVariantParseError {
    UnknownStyleName { style: String },
    UnknownWeightName { weight: String },
}

/// The characters of `s` in lower case, as `str::to_lowercase` gives them.
pub uninterp spec fn lower_of(s: Seq<char>) -> Seq<char>;

/// Relies on `str::to_lowercase`: the lowercase form of a string depends on
/// its characters alone.
#[verifier::external_body]
fn lowercase(s: &str) -> (r: String)
    ensures
        r@ == lower_of(s@),
{
    s.to_lowercase()
}

/// The CSS weight number of each weight.
pub open spec fn weight_number(w: FontWeight) -> nat {
    match w {
        FontWeight::Thin => 100,
        FontWeight::ExtraLight => 200,
        FontWeight::Light => 300,
        FontWeight::Regular => 400,
        FontWeight::Medium => 500,
        FontWeight::SemiBold => 600,
        FontWeight::Bold => 700,
        FontWeight::ExtraBold => 800,
        FontWeight::Black => 900,
        FontWeight::ExtraBlack => 950,
    }
}

/// The weight that an alias names, exactly as written.
pub open spec fn weight_alias(s: Seq<char>) -> Option<FontWeight> {
    if s == "thin"@ || s == "100"@ {
        Some(FontWeight::Thin)
    } else if s == "extralight"@ || s == "extra-light"@ || s == "ultralight"@ || s == "ultra-light"@
        || s == "200"@ {
        Some(FontWeight::ExtraLight)
    } else if s == "light"@ || s == "300"@ {
        Some(FontWeight::Light)
    } else if s == "normal"@ || s == "regular"@ || s == "400"@ {
        Some(FontWeight::Regular)
    } else if s == "medium"@ || s == "500"@ {
        Some(FontWeight::Medium)
    } else if s == "semibold"@ || s == "semi-bold"@ || s == "demibold"@ || s == "demi-bold"@ || s
        == "600"@ {
        Some(FontWeight::SemiBold)
    } else if s == "bold"@ || s == "700"@ {
        Some(FontWeight::Bold)
    } else if s == "extrabold"@ || s == "extra-bold"@ || s == "ultrabold"@ || s == "ultra-bold"@
        || s == "800"@ {
        Some(FontWeight::ExtraBold)
    } else if s == "black"@ || s == "heavy"@ || s == "900"@ {
        Some(FontWeight::Black)
    } else if s == "extrablack"@ || s == "extra-black"@ || s == "ultrablack"@ || s
        == "ultra-black"@ || s == "950"@ {
        Some(FontWeight::ExtraBlack)
    } else {
        None
    }
}

/// The weight that `s` names, whatever its case.
pub open spec fn weight_of(s: Seq<char>) -> Option<FontWeight> {
    match weight_alias(s) {
        Some(w) => Some(w),
        None => weight_alias(lower_of(s)),
    }
}

/// The style that `s` names; styles are matched exactly.
pub open spec fn style_of(s: Seq<char>) -> Option<FontStyle> {
    if s == "normal"@ {
        Some(FontStyle::Normal)
    } else if s == "italic"@ {
        Some(FontStyle::Italic)
    } else if s == "oblique"@ {
        Some(FontStyle::Oblique)
    } else {
        None
    }
}

pub open spec fn weight_name(w: FontWeight) -> Seq<char> {
    match w {
        FontWeight::Thin => "thin"@,
        FontWeight::ExtraLight => "extralight"@,
        FontWeight::Light => "light"@,
        FontWeight::Regular => "regular"@,
        FontWeight::Medium => "medium"@,
        FontWeight::SemiBold => "semibold"@,
        FontWeight::Bold => "bold"@,
        FontWeight::ExtraBold => "extrabold"@,
        FontWeight::Black => "black"@,
        FontWeight::ExtraBlack => "extrablack"@,
    }
}

pub open spec fn style_name(s: FontStyle) -> Seq<char> {
    match s {
        FontStyle::Normal => "normal"@,
        FontStyle::Italic => "italic"@,
        FontStyle::Oblique => "oblique"@,
    }
}

/// A variant written as its weight, a space and its style.
pub open spec fn variant_name(v: FontVariant) -> Seq<char> {
    weight_name(v.weight) + " "@ + style_name(v.style)
}

/// Whether `i` is the first position of `c` in `s`.
pub open spec fn is_first(s: Seq<char>, c: char, i: int) -> bool {
    0 <= i < s.len() && s[i] == c && forall|j: int| 0 <= j < i ==> s[j] != c
}

/// Whether `i` is the last position of `c` in `s`.
pub open spec fn is_last(s: Seq<char>, c: char, i: int) -> bool {
    0 <= i < s.len() && s[i] == c && forall|j: int| i < j < s.len() ==> s[j] != c
}

/// `s` cut at the first `c`, without it.
pub open spec fn split_first(s: Seq<char>, c: char) -> Option<(Seq<char>, Seq<char>)> {
    if exists|i: int| is_first(s, c, i) {
        let i = choose|i: int| is_first(s, c, i);
        Some((s.subrange(0, i), s.subrange(i + 1, s.len() as int)))
    } else {
        None
    }
}

/// `s` cut at the last `c`, without it.
pub open spec fn split_last(s: Seq<char>, c: char) -> Option<(Seq<char>, Seq<char>)> {
    if exists|i: int| is_last(s, c, i) {
        let i = choose|i: int| is_last(s, c, i);
        Some((s.subrange(0, i), s.subrange(i + 1, s.len() as int)))
    } else {
        None
    }
}

/// The variant that `"weight style"` names.
pub open spec fn variant_of(s: Seq<char>) -> Option<FontVariant> {
    match split_first(s, ' ') {
        Some((w, st)) => match (weight_of(w), style_of(st)) {
            (Some(weight), Some(style)) => Some(FontVariant { weight, style }),
            _ => None,
        },
        None => None,
    }
}

/// The family and variant that a cache file's stem, `family-weight style`,
/// names. The family is what comes before the last `-`.
pub open spec fn cache_name_of(s: Seq<char>) -> Option<(Seq<char>, FontVariant)> {
    match split_last(s, '-') {
        Some((family, rest)) => match variant_of(rest) {
            Some(v) => Some((family, v)),
            None => None,
        },
        None => None,
    }
}

/// The stem of the cache file that holds a variant of a family.
pub open spec fn cache_stem(family: Seq<char>, v: FontVariant) -> Seq<char> {
    family + "-"@ + variant_name(v)
}

/// Whether `c` does not occur in `s`.
pub open spec fn lacks(s: Seq<char>, c: char) -> bool {
    forall|i: int| 0 <= i < s.len() ==> s[i] != c
}

proof fn lemma_weight_name(w: FontWeight)
    ensures
        weight_alias(weight_name(w)) == Some(w),
        lacks(weight_name(w), ' '),
        lacks(weight_name(w), '-'),
{
    reveal_strlit("thin");
    reveal_strlit("100");
    reveal_strlit("extralight");
    reveal_strlit("extra-light");
    reveal_strlit("ultralight");
    reveal_strlit("ultra-light");
    reveal_strlit("200");
    reveal_strlit("light");
    reveal_strlit("300");
    reveal_strlit("normal");
    reveal_strlit("regular");
    reveal_strlit("400");
    reveal_strlit("medium");
    reveal_strlit("500");
    reveal_strlit("semibold");
    reveal_strlit("semi-bold");
    reveal_strlit("demibold");
    reveal_strlit("demi-bold");
    reveal_strlit("600");
    reveal_strlit("bold");
    reveal_strlit("700");
    reveal_strlit("extrabold");
    reveal_strlit("extra-bold");
    reveal_strlit("ultrabold");
    reveal_strlit("ultra-bold");
    reveal_strlit("800");
    reveal_strlit("black");
    reveal_strlit("heavy");
    reveal_strlit("900");
    reveal_strlit("extrablack");
    reveal_strlit("extra-black");
    reveal_strlit("ultrablack");
    reveal_strlit("ultra-black");
    reveal_strlit("950");
    match w {
        FontWeight::Thin => {
            assert("thin"@.len() == 4);
            assert(weight_name(w) == "thin"@);
            assert(weight_alias("thin"@) == Some(FontWeight::Thin));
            assert(weight_alias(weight_name(w)) == Some(w));
        },
        FontWeight::ExtraLight => {
            assert("extralight"@.len() == 10);
            assert("thin"@.len() == 4);
            assert("100"@.len() == 3);
            assert(weight_alias(weight_name(w)) == Some(w));
        },
        FontWeight::Light => {
            assert("light"@.len() == 5);
            assert("thin"@.len() == 4);
            assert("100"@.len() == 3);
            assert("extralight"@.len() == 10);
            assert("extra-light"@.len() == 11);
            assert("ultralight"@.len() == 10);
            assert("ultra-light"@.len() == 11);
            assert("200"@.len() == 3);
            assert(weight_alias(weight_name(w)) == Some(w));
        },
        FontWeight::Regular => {
            assert("regular"@.len() == 7);
            assert("thin"@.len() == 4);
            assert("100"@.len() == 3);
            assert("extralight"@.len() == 10);
            assert("extra-light"@.len() == 11);
            assert("ultralight"@.len() == 10);
            assert("ultra-light"@.len() == 11);
            assert("200"@.len() == 3);
            assert("light"@.len() == 5);
            assert("300"@.len() == 3);
            assert("normal"@.len() == 6);
            assert(weight_alias(weight_name(w)) == Some(w));
        },
        FontWeight::Medium => {
            assert("medium"@.len() == 6);
            assert("thin"@.len() == 4);
            assert("100"@.len() == 3);
            assert("extralight"@.len() == 10);
            assert("extra-light"@.len() == 11);
            assert("ultralight"@.len() == 10);
            assert("ultra-light"@.len() == 11);
            assert("200"@.len() == 3);
            assert("light"@.len() == 5);
            assert("300"@.len() == 3);
            assert("regular"@.len() == 7);
            assert("400"@.len() == 3);
            assert("medium"@[0] != "normal"@[0]);
            assert(weight_alias(weight_name(w)) == Some(w));
        },
        FontWeight::SemiBold => {
            assert("semibold"@.len() == 8);
            assert("thin"@.len() == 4);
            assert("100"@.len() == 3);
            assert("extralight"@.len() == 10);
            assert("extra-light"@.len() == 11);
            assert("ultralight"@.len() == 10);
            assert("ultra-light"@.len() == 11);
            assert("200"@.len() == 3);
            assert("light"@.len() == 5);
            assert("300"@.len() == 3);
            assert("normal"@.len() == 6);
            assert("regular"@.len() == 7);
            assert("400"@.len() == 3);
            assert("medium"@.len() == 6);
            assert("500"@.len() == 3);
            assert(weight_alias(weight_name(w)) == Some(w));
        },
        FontWeight::Bold => {
            assert("bold"@.len() == 4);
            assert("100"@.len() == 3);
            assert("extralight"@.len() == 10);
            assert("extra-light"@.len() == 11);
            assert("ultralight"@.len() == 10);
            assert("ultra-light"@.len() == 11);
            assert("200"@.len() == 3);
            assert("light"@.len() == 5);
            assert("300"@.len() == 3);
            assert("normal"@.len() == 6);
            assert("regular"@.len() == 7);
            assert("400"@.len() == 3);
            assert("medium"@.len() == 6);
            assert("500"@.len() == 3);
            assert("semibold"@.len() == 8);
            assert("semi-bold"@.len() == 9);
            assert("demibold"@.len() == 8);
            assert("demi-bold"@.len() == 9);
            assert("600"@.len() == 3);
            assert("bold"@[0] != "thin"@[0]);
            assert(weight_alias(weight_name(w)) == Some(w));
        },
        FontWeight::ExtraBold => {
            assert("extrabold"@.len() == 9);
            assert("thin"@.len() == 4);
            assert("100"@.len() == 3);
            assert("extralight"@.len() == 10);
            assert("extra-light"@.len() == 11);
            assert("ultralight"@.len() == 10);
            assert("ultra-light"@.len() == 11);
            assert("200"@.len() == 3);
            assert("light"@.len() == 5);
            assert("300"@.len() == 3);
            assert("normal"@.len() == 6);
            assert("regular"@.len() == 7);
            assert("400"@.len() == 3);
            assert("medium"@.len() == 6);
            assert("500"@.len() == 3);
            assert("semibold"@.len() == 8);
            assert("demibold"@.len() == 8);
            assert("600"@.len() == 3);
            assert("bold"@.len() == 4);
            assert("700"@.len() == 3);
            assert("extrabold"@[0] != "semi-bold"@[0]);
            assert("extrabold"@[0] != "demi-bold"@[0]);
            assert(weight_alias(weight_name(w)) == Some(w));
        },
        FontWeight::Black => {
            assert("black"@.len() == 5);
            assert("thin"@.len() == 4);
            assert("100"@.len() == 3);
            assert("extralight"@.len() == 10);
            assert("extra-light"@.len() == 11);
            assert("ultralight"@.len() == 10);
            assert("ultra-light"@.len() == 11);
            assert("200"@.len() == 3);
            assert("300"@.len() == 3);
            assert("normal"@.len() == 6);
            assert("regular"@.len() == 7);
            assert("400"@.len() == 3);
            assert("medium"@.len() == 6);
            assert("500"@.len() == 3);
            assert("semibold"@.len() == 8);
            assert("semi-bold"@.len() == 9);
            assert("demibold"@.len() == 8);
            assert("demi-bold"@.len() == 9);
            assert("600"@.len() == 3);
            assert("bold"@.len() == 4);
            assert("700"@.len() == 3);
            assert("extrabold"@.len() == 9);
            assert("extra-bold"@.len() == 10);
            assert("ultrabold"@.len() == 9);
            assert("ultra-bold"@.len() == 10);
            assert("800"@.len() == 3);
            assert("black"@[0] != "light"@[0]);
            assert(weight_alias(weight_name(w)) == Some(w));
        },
        FontWeight::ExtraBlack => {
            assert("extrablack"@.len() == 10);
            assert("thin"@.len() == 4);
            assert("100"@.len() == 3);
            assert("extra-light"@.len() == 11);
            assert("ultra-light"@.len() == 11);
            assert("200"@.len() == 3);
            assert("light"@.len() == 5);
            assert("300"@.len() == 3);
            assert("normal"@.len() == 6);
            assert("regular"@.len() == 7);
            assert("400"@.len() == 3);
            assert("medium"@.len() == 6);
            assert("500"@.len() == 3);
            assert("semibold"@.len() == 8);
            assert("semi-bold"@.len() == 9);
            assert("demibold"@.len() == 8);
            assert("demi-bold"@.len() == 9);
            assert("600"@.len() == 3);
            assert("bold"@.len() == 4);
            assert("700"@.len() == 3);
            assert("extrabold"@.len() == 9);
            assert("ultrabold"@.len() == 9);
            assert("800"@.len() == 3);
            assert("black"@.len() == 5);
            assert("heavy"@.len() == 5);
            assert("900"@.len() == 3);
            assert("extrablack"@[5] != "extralight"@[5]);
            assert("extrablack"@[0] != "ultralight"@[0]);
            assert("extrablack"@[5] != "extra-bold"@[5]);
            assert("extrablack"@[0] != "ultra-bold"@[0]);
            assert(weight_alias(weight_name(w)) == Some(w));
        },
    }
}

proof fn lemma_style_name(st: FontStyle)
    ensures
        style_of(style_name(st)) == Some(st),
        lacks(style_name(st), ' '),
        lacks(style_name(st), '-'),
{
    reveal_strlit("normal");
    reveal_strlit("italic");
    reveal_strlit("oblique");
    assert("italic"@[0] != "normal"@[0]);
}

/// A variant's written form parses back to that variant.
pub proof fn lemma_variant_round_trip(v: FontVariant)
    ensures
        variant_of(variant_name(v)) == Some(v),
{
    lemma_weight_name(v.weight);
    lemma_style_name(v.style);
    reveal_strlit(" ");
    let s = variant_name(v);
    let w = weight_name(v.weight);
    let n = w.len() as int;
    assert(is_first(s, ' ', n));
    let k = choose|k: int| is_first(s, ' ', k);
    lemma_first_unique(s, ' ', n, k);
    assert(s.subrange(0, n) =~= w);
    assert(s.subrange(n + 1, s.len() as int) =~= style_name(v.style));
}

proof fn lemma_variant_name_lacks_dash(v: FontVariant)
    ensures
        lacks(variant_name(v), '-'),
{
    lemma_weight_name(v.weight);
    lemma_style_name(v.style);
    reveal_strlit(" ");
    let w = weight_name(v.weight);
    let s = variant_name(v);
    assert forall|j: int| 0 <= j < s.len() implies s[j] != '-' by {
        if j < w.len() {
            assert(s[j] == w[j]);
        } else if j > w.len() {
            assert(s[j] == style_name(v.style)[j - w.len() - 1]);
        }
    }
}

/// The stem of a cache file reads back as the family and variant it was
/// made from, whatever the family's name holds.
pub proof fn lemma_cache_name_round_trip(family: Seq<char>, v: FontVariant)
    ensures
        cache_name_of(cache_stem(family, v)) == Some((family, v)),
{
    lemma_variant_round_trip(v);
    lemma_variant_name_lacks_dash(v);
    reveal_strlit("-");
    let vn = variant_name(v);
    let s = cache_stem(family, v);
    let n = family.len() as int;
    assert forall|j: int| n < j < s.len() implies s[j] != '-' by {
        assert(s[j] == vn[j - n - 1]);
    }
    assert(is_last(s, '-', n));
    let k = choose|k: int| is_last(s, '-', k);
    lemma_last_unique(s, '-', n, k);
    assert(s.subrange(0, n) =~= family);
    assert(s.subrange(n + 1, s.len() as int) =~= vn);
}

impl FontWeight {
    /// The CSS weight number (100 for thin up to 950 for extra black).
    pub fn into_weight_number(&self) -> (r: usize)
        ensures
            r == weight_number(*self),
    {
        match self {
            FontWeight::Thin => 100,
            FontWeight::ExtraLight => 200,
            FontWeight::Light => 300,
            FontWeight::Regular => 400,
            FontWeight::Medium => 500,
            FontWeight::SemiBold => 600,
            FontWeight::Bold => 700,
            FontWeight::ExtraBold => 800,
            FontWeight::Black => 900,
            FontWeight::ExtraBlack => 950,
        }
    }

    pub fn default() -> (r: FontWeight)
        ensures
            r == FontWeight::Regular,
    {
        FontWeight::Regular
    }

    /// The weight that an alias names, exactly as written
    /// (`"demibold"`, `"ultra-light"`, `"600"`).
    pub fn from_alias(s: &str) -> (r: Option<FontWeight>)
        ensures
            r == weight_alias(s@),
    {
        if str_eq(s, "thin") || str_eq(s, "100") {
            Some(FontWeight::Thin)
        } else if str_eq(s, "extralight") || str_eq(s, "extra-light") || str_eq(s, "ultralight")
            || str_eq(s, "ultra-light") || str_eq(s, "200") {
            Some(FontWeight::ExtraLight)
        } else if str_eq(s, "light") || str_eq(s, "300") {
            Some(FontWeight::Light)
        } else if str_eq(s, "normal") || str_eq(s, "regular") || str_eq(s, "400") {
            Some(FontWeight::Regular)
        } else if str_eq(s, "medium") || str_eq(s, "500") {
            Some(FontWeight::Medium)
        } else if str_eq(s, "semibold") || str_eq(s, "semi-bold") || str_eq(s, "demibold")
            || str_eq(s, "demi-bold") || str_eq(s, "600") {
            Some(FontWeight::SemiBold)
        } else if str_eq(s, "bold") || str_eq(s, "700") {
            Some(FontWeight::Bold)
        } else if str_eq(s, "extrabold") || str_eq(s, "extra-bold") || str_eq(s, "ultrabold")
            || str_eq(s, "ultra-bold") || str_eq(s, "800") {
            Some(FontWeight::ExtraBold)
        } else if str_eq(s, "black") || str_eq(s, "heavy") || str_eq(s, "900") {
            Some(FontWeight::Black)
        } else if str_eq(s, "extrablack") || str_eq(s, "extra-black") || str_eq(s, "ultrablack")
            || str_eq(s, "ultra-black") || str_eq(s, "950") {
            Some(FontWeight::ExtraBlack)
        } else {
            None
        }
    }

    /// Parses a weight name or number in any case.
    pub fn parse(s: &str) -> (r: Result<FontWeight, FontVariantParseError>)
        ensures
            match r {
                Ok(w) => weight_of(s@) == Some(w),
                Err(FontVariantParseError::UnknownWeightName { weight }) => weight_of(s@) is None
                    && weight@ == s@,
                Err(_) => false,
            },
    {
        if let Some(w) = Self::from_alias(s) {
            return Ok(w);
        }
        let lower = lowercase(s);
        match Self::from_alias(lower.as_str()) {
            Some(w) => Ok(w),
            None => Err(FontVariantParseError::UnknownWeightName { weight: s.to_owned() }),
        }
    }

    /// The weight's canonical name.
    pub fn name(&self) -> (r: &'static str)
        ensures
            r@ == weight_name(*self),
    {
        match self {
            FontWeight::Thin => "thin",
            FontWeight::ExtraLight => "extralight",
            FontWeight::Light => "light",
            FontWeight::Regular => "regular",
            FontWeight::Medium => "medium",
            FontWeight::SemiBold => "semibold",
            FontWeight::Bold => "bold",
            FontWeight::ExtraBold => "extrabold",
            FontWeight::Black => "black",
            FontWeight::ExtraBlack => "extrablack",
        }
    }
}

impl FontStyle {
    pub fn default() -> (r: FontStyle)
        ensures
            r == FontStyle::Normal,
    {
        FontStyle::Normal
    }

    /// Parses `normal`, `italic` or `oblique`.
    pub fn parse(s: &str) -> (r: Result<FontStyle, FontVariantParseError>)
        ensures
            match r {
                Ok(st) => style_of(s@) == Some(st),
                Err(FontVariantParseError::UnknownStyleName { style }) => style_of(s@) is None
                    && style@ == s@,
                Err(_) => false,
            },
    {
        if str_eq(s, "normal") {
            Ok(FontStyle::Normal)
        } else if str_eq(s, "italic") {
            Ok(FontStyle::Italic)
        } else if str_eq(s, "oblique") {
            Ok(FontStyle::Oblique)
        } else {
            Err(FontVariantParseError::UnknownStyleName { style: s.to_owned() })
        }
    }

    /// The style's name.
    pub fn name(&self) -> (r: &'static str)
        ensures
            r@ == style_name(*self),
    {
        match self {
            FontStyle::Normal => "normal",
            FontStyle::Italic => "italic",
            FontStyle::Oblique => "oblique",
        }
    }
}

impl std::str::FromStr for FontWeight {
    type Err = FontVariantParseError;

    fn from_str(s: &str) -> Result<FontWeight, FontVariantParseError> {
        FontWeight::parse(s)
    }
}

impl std::str::FromStr for FontStyle {
    type Err = FontVariantParseError;

    fn from_str(s: &str) -> Result<FontStyle, FontVariantParseError> {
        FontStyle::parse(s)
    }
}

/// The first position of `c` in `s`, if any.
pub fn find_first(s: &str, c: char) -> (r: Option<usize>)
    ensures
        match r {
            Some(i) => is_first(s@, c, i as int),
            None => forall|i: int| 0 <= i < s@.len() ==> s@[i] != c,
        },
{
    let n = s.unicode_len();
    let mut i: usize = 0;
    while i < n
        invariant
            n == s@.len(),
            i <= n,
            forall|j: int| 0 <= j < i ==> s@[j] != c,
        decreases n - i,
    {
        if s.get_char(i) == c {
            return Some(i);
        }
        i = i + 1;
    }
    None
}

/// The last position of `c` in `s`, if any.
pub fn find_last(s: &str, c: char) -> (r: Option<usize>)
    ensures
        match r {
            Some(i) => is_last(s@, c, i as int),
            None => forall|i: int| 0 <= i < s@.len() ==> s@[i] != c,
        },
{
    let n = s.unicode_len();
    let mut i: usize = n;
    while i > 0
        invariant
            n == s@.len(),
            i <= n,
            forall|j: int| i <= j < n ==> s@[j] != c,
        decreases i,
    {
        if s.get_char(i - 1) == c {
            return Some(i - 1);
        }
        i = i - 1;
    }
    None
}

proof fn lemma_first_unique(s: Seq<char>, c: char, i: int, k: int)
    requires
        is_first(s, c, i),
        is_first(s, c, k),
    ensures
        i == k,
{
}

proof fn lemma_last_unique(s: Seq<char>, c: char, i: int, k: int)
    requires
        is_last(s, c, i),
        is_last(s, c, k),
    ensures
        i == k,
{
}

impl FontVariant {
    /// Regular weight, normal style.
    pub open spec fn spec_default() -> FontVariant {
        FontVariant { weight: FontWeight::Regular, style: FontStyle::Normal }
    }

    pub fn new(weight: FontWeight, style: FontStyle) -> (v: FontVariant)
        ensures
            v == (FontVariant { weight, style }),
    {
        FontVariant { weight, style }
    }

    /// Regular weight, normal style.
    pub fn default() -> (v: FontVariant)
        ensures
            v == (FontVariant { weight: FontWeight::Regular, style: FontStyle::Normal }),
    {
        FontVariant { weight: FontWeight::Regular, style: FontStyle::Normal }
    }

    /// The given weight in the normal style.
    pub fn with_weight(weight: FontWeight) -> (v: FontVariant)
        ensures
            v == (FontVariant { weight, style: FontStyle::Normal }),
    {
        FontVariant { weight, style: FontStyle::Normal }
    }

    /// The given style at regular weight.
    pub fn with_style(style: FontStyle) -> (v: FontVariant)
        ensures
            v == (FontVariant { weight: FontWeight::Regular, style }),
    {
        FontVariant { weight: FontWeight::Regular, style }
    }

    /// The weight's name, a space, and the style's name (`"bold italic"`).
    pub fn to_string(&self) -> (r: String)
        ensures
            r@ == variant_name(*self),
    {
        let mut s = String::from_str(self.weight.name());
        push_char(&mut s, ' ');
        s.append(self.style.name());
        proof {
            reveal_strlit(" ");
            assert(s@ =~= variant_name(*self));
        }
        s
    }

    /// Parses a weight and a style separated by the first space.
    pub fn parse(s: &str) -> (r: Option<FontVariant>)
        ensures
            r == variant_of(s@),
    {
        match find_first(s, ' ') {
            None => {
                assert(!exists|i: int| is_first(s@, ' ', i));
                None
            },
            Some(i) => {
                proof {
                    let k = choose|k: int| is_first(s@, ' ', k);
                    lemma_first_unique(s@, ' ', i as int, k);
                }
                let n = s.unicode_len();
                let weight = s.substring_char(0, i);
                let style = s.substring_char(i + 1, n);
                match (FontWeight::parse(weight), FontStyle::parse(style)) {
                    (Ok(weight), Ok(style)) => Some(FontVariant { weight, style }),
                    _ => None,
                }
            },
        }
    }
}

/// Reads the family and variant back from a cache file's stem,
/// `family-weight style`; `None` where the stem is not of that shape.
pub fn parse_cache_name(stem: &str) -> (r: Option<(String, FontVariant)>)
    ensures
        match r {
            Some((family, v)) => cache_name_of(stem@) == Some((family@, v)),
            None => cache_name_of(stem@) is None,
        },
{
    match find_last(stem, '-') {
        None => {
            assert(!exists|i: int| is_last(stem@, '-', i));
            None
        },
        Some(i) => {
            proof {
                let k = choose|k: int| is_last(stem@, '-', k);
                lemma_last_unique(stem@, '-', i as int, k);
            }
            let n = stem.unicode_len();
            let family = stem.substring_char(0, i);
            let rest = stem.substring_char(i + 1, n);
            match FontVariant::parse(rest) {
                Some(v) => Some((family.to_owned(), v)),
                None => None,
            }
        },
    }
}

/// The name of the cache file that holds a variant of a family:
/// `family-weight style.ttf`.
pub fn cache_file_name(family: &str, v: FontVariant) -> (r: String)
    ensures
        r@ == cache_stem(family@, v) + ".ttf"@,
{
    let mut s = String::from_str(family);
    push_char(&mut s, '-');
    let name = v.to_string();
    s.append(name.as_str());
    s.append(".ttf");
    proof {
        reveal_strlit("-");
        assert(s@ =~= cache_stem(family@, v) + ".ttf"@);
    }
    s
}

} // verus!
