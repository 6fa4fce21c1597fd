//! Where font variants are found: the cache of fetched files and the catalog.

use vstd::prelude::*;

use crate::font::{cache_name_of, parse_cache_name, weight_of, FontStyle, FontVariant, FontWeight};
use crate::strings::{ends_with, str_eq};

verus! {

/// A font family and where each of its variants is found: a file path for
/// the cache, a URL for the catalog.
#[derive(Debug, Clone)]
pub struct FontFamily {
    pub face: String,
    pub variants: Vec<(FontVariant, String)>,
}

/// Whether `j` is the first entry of `vs` for variant `v`.
pub open spec fn first_variant(vs: Seq<(FontVariant, String)>, v: FontVariant, j: int) -> bool {
    0 <= j < vs.len() && vs[j].0 == v && forall|k: int| 0 <= k < j ==> #[trigger] vs[k].0 != v
}

/// The locator of the first entry of `vs` for `v`.
pub open spec fn variant_in(vs: Seq<(FontVariant, String)>, v: FontVariant) -> Option<Seq<char>> {
    if exists|j: int| first_variant(vs, v, j) {
        let j = choose|j: int| first_variant(vs, v, j);
        Some(vs[j].1@)
    } else {
        None
    }
}

/// Whether `i` is the first family of `fams` named `face`.
pub open spec fn first_family(fams: Seq<FontFamily>, face: Seq<char>, i: int) -> bool {
    0 <= i < fams.len() && fams[i].face@ == face && forall|k: int| 0 <= k < i ==> #[trigger] fams[k].face@
        != face
}

/// Where variant `v` of family `face` is found: the family is matched by its
/// exact name, the variant exactly, the first entry of each winning.
pub open spec fn lookup(fams: Seq<FontFamily>, face: Seq<char>, v: FontVariant) -> Option<Seq<char>> {
    if exists|i: int| first_family(fams, face, i) {
        let i = choose|i: int| first_family(fams, face, i);
        variant_in(fams[i].variants@, v)
    } else {
        None
    }
}

/// `new` is `old` with `path` recorded for variant `v` of `family`: that
/// variant is found at `path` unless it was found before, and nothing else
/// changes.
pub open spec fn inserted(
    old: Seq<FontFamily>,
    new: Seq<FontFamily>,
    family: Seq<char>,
    v: FontVariant,
    path: Seq<char>,
) -> bool {
    forall|f: Seq<char>, w: FontVariant| #[trigger]
        lookup(new, f, w) == if f == family && w == v && lookup(old, f, w) is None {
            Some(path)
        } else {
            lookup(old, f, w)
        }
}

proof fn lemma_variant_at(vs: Seq<(FontVariant, String)>, v: FontVariant, j: int)
    requires
        first_variant(vs, v, j),
    ensures
        variant_in(vs, v) == Some(vs[j].1@),
{
    let k = choose|k: int| first_variant(vs, v, k);
    assert(k == j) by {
        if k < j {
            assert(vs[k].0 != v);
        } else if j < k {
            assert(vs[j].0 != v);
        }
    }
}

proof fn lemma_variant_none(vs: Seq<(FontVariant, String)>, v: FontVariant)
    requires
        forall|k: int| 0 <= k < vs.len() ==> #[trigger] vs[k].0 != v,
    ensures
        variant_in(vs, v) is None,
{
}

proof fn lemma_family_at(fams: Seq<FontFamily>, face: Seq<char>, i: int, v: FontVariant)
    requires
        first_family(fams, face, i),
    ensures
        lookup(fams, face, v) == variant_in(fams[i].variants@, v),
{
    let k = choose|k: int| first_family(fams, face, k);
    assert(k == i) by {
        if k < i {
            assert(fams[k].face@ != face);
        } else if i < k {
            assert(fams[i].face@ != face);
        }
    }
}

proof fn lemma_family_none(fams: Seq<FontFamily>, face: Seq<char>, v: FontVariant)
    requires
        forall|k: int| 0 <= k < fams.len() ==> #[trigger] fams[k].face@ != face,
    ensures
        lookup(fams, face, v) is None,
{
}

/// Whether some variant of `face` is listed at all.
pub open spec fn has_family(fams: Seq<FontFamily>, face: Seq<char>) -> bool {
    exists|i: int| first_family(fams, face, i)
}

/// Where some family is named `face`, a first one is.
proof fn lemma_first_family_exists(fams: Seq<FontFamily>, face: Seq<char>, k: int)
    requires
        0 <= k < fams.len(),
        fams[k].face@ == face,
    ensures
        exists|i: int| first_family(fams, face, i),
    decreases k,
{
    if exists|j: int| 0 <= j < k && #[trigger] fams[j].face@ == face {
        let j = choose|j: int| 0 <= j < k && #[trigger] fams[j].face@ == face;
        lemma_first_family_exists(fams, face, j);
    } else {
        assert(first_family(fams, face, k));
    }
}

/// Where some entry is for `v`, a first one is.
proof fn lemma_first_variant_exists(vs: Seq<(FontVariant, String)>, v: FontVariant, k: int)
    requires
        0 <= k < vs.len(),
        vs[k].0 == v,
    ensures
        exists|j: int| first_variant(vs, v, j),
    decreases k,
{
    if exists|j: int| 0 <= j < k && #[trigger] vs[j].0 == v {
        let j = choose|j: int| 0 <= j < k && #[trigger] vs[j].0 == v;
        lemma_first_variant_exists(vs, v, j);
    } else {
        assert(first_variant(vs, v, k));
    }
}

/// Pushing one more entry onto a variant list.
proof fn lemma_variant_push(vs: Seq<(FontVariant, String)>, e: (FontVariant, String), w: FontVariant)
    ensures
        variant_in(vs.push(e), w) == if w == e.0 && variant_in(vs, w) is None {
            Some(e.1@)
        } else {
            variant_in(vs, w)
        },
{
    let ns = vs.push(e);
    if exists|j: int| first_variant(vs, w, j) {
        let j = choose|j: int| first_variant(vs, w, j);
        assert(first_variant(ns, w, j));
        lemma_variant_at(ns, w, j);
    } else {
        assert forall|k: int| 0 <= k < vs.len() implies #[trigger] vs[k].0 != w by {
            if vs[k].0 == w {
                lemma_first_variant_exists(vs, w, k);
            }
        }
        if w == e.0 {
            assert(first_variant(ns, w, vs.len() as int));
            lemma_variant_at(ns, w, vs.len() as int);
        } else {
            assert forall|k: int| 0 <= k < ns.len() implies #[trigger] ns[k].0 != w by {
                if k < vs.len() {
                    assert(ns[k] == vs[k]);
                }
            }
        }
    }
}

impl FontFamily {
    /// A family with no variants yet.
    pub fn new(face: &str) -> (f: FontFamily)
        ensures
            f.face@ == face@,
            f.variants@.len() == 0,
    {
        FontFamily { face: face.to_owned(), variants: Vec::new() }
    }

    /// Adds where a variant is found, after those already listed.
    pub fn push(&mut self, variant: FontVariant, path: String)
        ensures
            final(self).face == old(self).face,
            final(self).variants@ == old(self).variants@.push((variant, path)),
    {
        self.variants.push((variant, path));
    }

    /// Where the variant is found: a file path or a URL, whichever this
    /// family lists. Only an exact match counts.
    pub fn variant_path(&self, variant: FontVariant) -> (r: Option<&String>)
        ensures
            match r {
                Some(p) => variant_in(self.variants@, variant) == Some(p@),
                None => variant_in(self.variants@, variant) is None,
            },
    {
        let mut j: usize = 0;
        while j < self.variants.len()
            invariant
                j <= self.variants@.len(),
                forall|k: int| 0 <= k < j ==> #[trigger] self.variants@[k].0 != variant,
            decreases self.variants@.len() - j,
        {
            if self.variants[j].0 == variant {
                proof {
                    lemma_variant_at(self.variants@, variant, j as int);
                }
                return Some(&self.variants[j].1);
            }
            j = j + 1;
        }
        None
    }
}

/// The position of the first family named `face`.
fn family_position(fams: &Vec<FontFamily>, face: &str) -> (r: Option<usize>)
    ensures
        match r {
            Some(i) => first_family(fams@, face@, i as int),
            None => forall|k: int| 0 <= k < fams@.len() ==> #[trigger] fams@[k].face@ != face@,
        },
{
    let mut i: usize = 0;
    while i < fams.len()
        invariant
            i <= fams@.len(),
            forall|k: int| 0 <= k < i ==> #[trigger] fams@[k].face@ != face@,
        decreases fams@.len() - i,
    {
        if str_eq(fams[i].face.as_str(), face) {
            return Some(i);
        }
        i = i + 1;
    }
    None
}

/// Where variant `v` of family `face` is found in `fams`.
fn find_variant<'a>(fams: &'a Vec<FontFamily>, face: &str, v: FontVariant) -> (r: Option<&'a String>)
    ensures
        match r {
            Some(p) => lookup(fams@, face@, v) == Some(p@),
            None => lookup(fams@, face@, v) is None,
        },
{
    match family_position(fams, face) {
        Some(i) => {
            proof {
                lemma_family_at(fams@, face@, i as int, v);
            }
            fams[i].variant_path(v)
        },
        None => {
            proof {
                lemma_family_none(fams@, face@, v);
            }
            None
        },
    }
}

/// Records `path` for variant `v` of `family`, appending to the family's
/// entries or starting a new family.
fn insert_variant(fams: &mut Vec<FontFamily>, family: &str, v: FontVariant, path: String)
    ensures
        inserted(old(fams)@, final(fams)@, family@, v, path@),
{
    let ghost pre = fams@;
    match family_position(fams, family) {
        Some(i) => {
            fams[i].push(v, path);
            proof {
                let post = fams@;
                assert forall|f: Seq<char>, w: FontVariant| #[trigger]
                    lookup(post, f, w) == if f == family@ && w == v && lookup(pre, f, w) is None {
                        Some(path@)
                    } else {
                        lookup(pre, f, w)
                    } by {
                    if exists|k: int| first_family(pre, f, k) {
                        let k = choose|k: int| first_family(pre, f, k);
                        assert(first_family(post, f, k));
                        lemma_family_at(pre, f, k, w);
                        lemma_family_at(post, f, k, w);
                        if k == i {
                            lemma_variant_push(pre[k].variants@, (v, path), w);
                        } else {
                            assert(post[k] == pre[k]);
                        }
                    } else {
                        assert forall|k: int| 0 <= k < pre.len() implies #[trigger] pre[k].face@ != f by {
                            if pre[k].face@ == f {
                                lemma_first_family_exists(pre, f, k);
                            }
                        }
                        assert forall|k: int| 0 <= k < post.len() implies #[trigger] post[k].face@ != f by {
                            assert(pre[k].face@ != f);
                        }
                        lemma_family_none(post, f, w);
                        lemma_family_none(pre, f, w);
                    }
                }
            }
        },
        None => {
            let mut fam = FontFamily::new(family);
            fam.push(v, path);
            fams.push(fam);
            proof {
                let post = fams@;
                assert forall|f: Seq<char>, w: FontVariant| #[trigger]
                    lookup(post, f, w) == if f == family@ && w == v && lookup(pre, f, w) is None {
                        Some(path@)
                    } else {
                        lookup(pre, f, w)
                    } by {
                    lemma_family_none(pre, family@, w);
                    if f == family@ {
                        assert(first_family(post, f, pre.len() as int));
                        lemma_family_at(post, f, pre.len() as int, w);
                        lemma_variant_push(Seq::empty(), (v, path), w);
                        assert(post[pre.len() as int].variants@ =~= Seq::<(FontVariant, String)>::empty().push((v, path)));
                        lemma_variant_none(Seq::<(FontVariant, String)>::empty(), w);
                    } else if exists|k: int| first_family(pre, f, k) {
                        let k = choose|k: int| first_family(pre, f, k);
                        assert(first_family(post, f, k));
                        lemma_family_at(pre, f, k, w);
                        lemma_family_at(post, f, k, w);
                    } else {
                        assert forall|k: int| 0 <= k < pre.len() implies #[trigger] pre[k].face@ != f by {
                            if pre[k].face@ == f {
                                lemma_first_family_exists(pre, f, k);
                            }
                        }
                        assert forall|k: int| 0 <= k < post.len() implies #[trigger] post[k].face@ != f by {
                            if k < pre.len() {
                                assert(post[k] == pre[k]);
                            }
                        }
                        lemma_family_none(post, f, w);
                        lemma_family_none(pre, f, w);
                    }
                }
            }
        },
    }
}

/// The variant that a key of the web font catalog's file list names:
/// `regular`, a weight such as `700`, or a weight followed by `italic`
/// (`700italic`; `italic` alone is regular italic).
pub open spec fn catalog_variant_of(key: Seq<char>) -> Option<FontVariant> {
    if key == "regular"@ {
        Some(FontVariant { weight: FontWeight::Regular, style: FontStyle::Normal })
    } else if 6 <= key.len() && key.subrange(key.len() - 6, key.len() as int) == "italic"@ {
        let weight = match weight_of(key.subrange(0, key.len() - 6)) {
            Some(w) => w,
            None => FontWeight::Regular,
        };
        Some(FontVariant { weight, style: FontStyle::Italic })
    } else {
        match weight_of(key) {
            Some(w) => Some(FontVariant { weight: w, style: FontStyle::Normal }),
            None => None,
        }
    }
}

/// Reads a key of the web font catalog's file list.
pub fn catalog_variant(key: &str) -> (r: Option<FontVariant>)
    ensures
        r == catalog_variant_of(key@),
{
    if str_eq(key, "regular") {
        return Some(FontVariant::default());
    }
    if ends_with(key, "italic") {
        proof {
            reveal_strlit("italic");
        }
        let n = key.unicode_len();
        let prefix = key.substring_char(0, n - 6);
        let weight = match FontWeight::parse(prefix) {
            Ok(w) => w,
            Err(_) => FontWeight::Regular,
        };
        return Some(FontVariant::new(weight, FontStyle::Italic));
    }
    match FontWeight::parse(key) {
        Ok(w) => Some(FontVariant::with_weight(w)),
        Err(_) => None,
    }
}

/// The entries of a variant list with their locators as character sequences.
pub open spec fn entries_view(vs: Seq<(FontVariant, String)>) -> Seq<(FontVariant, Seq<char>)> {
    vs.map_values(|e: (FontVariant, String)| (e.0, e.1@))
}

/// The variants that a catalog file list names, in order; keys that name no
/// variant are left out.
pub open spec fn catalog_entries(files: Seq<(String, String)>) -> Seq<(FontVariant, Seq<char>)>
    decreases files.len(),
{
    if files.len() == 0 {
        Seq::empty()
    } else {
        let rest = catalog_entries(files.drop_last());
        match catalog_variant_of(files.last().0@) {
            Some(v) => rest.push((v, files.last().1@)),
            None => rest,
        }
    }
}

/// A catalog family from its name and its file list, pairs of a variant key
/// and the URL of that variant's font file.
pub fn catalog_family(name: &str, files: &Vec<(String, String)>) -> (f: FontFamily)
    ensures
        f.face@ == name@,
        entries_view(f.variants@) == catalog_entries(files@),
{
    let mut fam = FontFamily::new(name);
    let mut i: usize = 0;
    while i < files.len()
        invariant
            i <= files@.len(),
            fam.face@ == name@,
            entries_view(fam.variants@) == catalog_entries(files@.subrange(0, i as int)),
        decreases files@.len() - i,
    {
        let ghost before = fam.variants@;
        assert(files@.subrange(0, i + 1).drop_last() =~= files@.subrange(0, i as int));
        match catalog_variant(files[i].0.as_str()) {
            Some(v) => {
                fam.push(v, files[i].1.clone());
                assert(entries_view(fam.variants@) =~= entries_view(before).push((v, files@[i as int].1@)));
            },
            None => {},
        }
        i = i + 1;
    }
    assert(files@.subrange(0, files@.len() as int) =~= files@);
    fam
}

/// The index of the font files already stored: which file holds each
/// fetched variant.
#[derive(Debug, Clone)]
pub struct FontCache {
    fonts: Vec<FontFamily>,
}

/// The entry of `es` that a cache scan records for variant `w` of `f`: the
/// first whose file stem names them.
pub open spec fn scanned(es: Seq<(String, String)>, f: Seq<char>, w: FontVariant) -> Option<Seq<char>>
    decreases es.len(),
{
    if es.len() == 0 {
        None
    } else {
        match scanned(es.drop_last(), f, w) {
            Some(p) => Some(p),
            None => if cache_name_of(es.last().0@) == Some((f, w)) {
                Some(es.last().1@)
            } else {
                None
            },
        }
    }
}

impl FontCache {
    pub closed spec fn families(&self) -> Seq<FontFamily> {
        self.fonts@
    }

    /// An empty cache.
    pub fn new() -> (c: FontCache)
        ensures
            c.families().len() == 0,
    {
        FontCache { fonts: Vec::new() }
    }

    /// The cached family named exactly `name`.
    pub fn family(&self, name: &str) -> (r: Option<&FontFamily>)
        ensures
            match r {
                Some(f) => exists|i: int| first_family(self.families(), name@, i) && self.families()[i] == *f,
                None => !has_family(self.families(), name@),
            },
    {
        match family_position(&self.fonts, name) {
            Some(i) => {
                let f = &self.fonts[i];
                assert(first_family(self.families(), name@, i as int) && self.families()[i as int] == *f);
                assert(exists|k: int| first_family(self.families(), name@, k) && self.families()[k] == *f);
                Some(f)
            },
            None => {
                proof {
                    assert forall|i: int| !first_family(self.families(), name@, i) by {
                        if 0 <= i < self.fonts@.len() {
                            assert(self.fonts@[i].face@ != name@);
                        }
                    }
                }
                None
            },
        }
    }

    /// The file that holds variant `v` of `family`.
    pub fn variant(&self, family: &str, v: FontVariant) -> (r: Option<String>)
        ensures
            match r {
                Some(p) => lookup(self.families(), family@, v) == Some(p@),
                None => lookup(self.families(), family@, v) is None,
            },
    {
        match find_variant(&self.fonts, family, v) {
            Some(p) => Some(p.clone()),
            None => None,
        }
    }

    /// The file that holds the regular variant of `family`.
    pub fn regular(&self, family: &str) -> (r: Option<String>)
        ensures
            match r {
                Some(p) => lookup(self.families(), family@, FontVariant::spec_default()) == Some(p@),
                None => lookup(self.families(), family@, FontVariant::spec_default()) is None,
            },
    {
        self.variant(family, FontVariant::default())
    }

    /// Records the file that holds variant `v` of `family`.
    pub fn insert(&mut self, family: &str, v: FontVariant, path: String)
        ensures
            inserted(old(self).families(), final(self).families(), family@, v, path@),
    {
        insert_variant(&mut self.fonts, family, v, path);
    }

    /// Records the files found in the cache directory, each given by its
    /// stem and its path. Files whose stem is not `family-weight style` are
    /// skipped; their positions are returned.
    pub fn populate(&mut self, entries: &Vec<(String, String)>) -> (skipped: Vec<usize>)
        ensures
            forall|f: Seq<char>, w: FontVariant| #[trigger]
                lookup(final(self).families(), f, w) == match lookup(old(self).families(), f, w) {
                    Some(p) => Some(p),
                    None => scanned(entries@, f, w),
                },
            forall|j: int|
                0 <= j < entries@.len() ==> (cache_name_of(#[trigger] entries@[j].0@) is None
                    <==> skipped@.contains(j as usize)),
            forall|k: int| 0 <= k < skipped@.len() ==> skipped@[k] < entries@.len(),
    {
        let ghost pre = self.fonts@;
        let mut skipped: Vec<usize> = Vec::new();
        let mut i: usize = 0;
        while i < entries.len()
            invariant
                i <= entries@.len(),
                forall|f: Seq<char>, w: FontVariant| #[trigger]
                    lookup(self.fonts@, f, w) == match lookup(pre, f, w) {
                        Some(p) => Some(p),
                        None => scanned(entries@.subrange(0, i as int), f, w),
                    },
                forall|j: int|
                    0 <= j < i ==> (cache_name_of(#[trigger] entries@[j].0@) is None
                        <==> skipped@.contains(j as usize)),
                forall|k: int| 0 <= k < skipped@.len() ==> skipped@[k] < i,
            decreases entries@.len() - i,
        {
            let ghost prefix = entries@.subrange(0, i as int);
            let ghost next = entries@.subrange(0, i + 1);
            assert(next.drop_last() =~= prefix);
            let ghost before = self.fonts@;
            let ghost skipped_before = skipped@;
            match parse_cache_name(entries[i].0.as_str()) {
                Some((family, v)) => {
                    insert_variant(&mut self.fonts, family.as_str(), v, entries[i].1.clone());
                },
                None => {
                    skipped.push(i);
                },
            }
            proof {
                assert forall|j: int|
                    0 <= j < i + 1 implies (cache_name_of(#[trigger] entries@[j].0@) is None
                    <==> skipped@.contains(j as usize)) by {
                    if j < i {
                        if skipped_before.contains(j as usize) {
                            let k = choose|k: int| 0 <= k < skipped_before.len() && skipped_before[k] == j as usize;
                            assert(skipped@[k] == j as usize);
                        }
                        if skipped@.contains(j as usize) {
                            let k = choose|k: int| 0 <= k < skipped@.len() && skipped@[k] == j as usize;
                            if k < skipped_before.len() {
                                assert(skipped_before[k] == j as usize);
                            }
                        }
                    } else {
                        if cache_name_of(entries@[j].0@) is None {
                            assert(skipped@[skipped@.len() - 1] == j as usize);
                        } else {
                            if skipped@.contains(j as usize) {
                                let k = choose|k: int| 0 <= k < skipped@.len() && skipped@[k] == j as usize;
                                assert(skipped_before[k] < i);
                            }
                        }
                    }
                }
            }
            i = i + 1;
        }
        assert(entries@.subrange(0, entries@.len() as int) =~= entries@);
        skipped
    }

    /// How many variants the cache holds, or `usize::MAX` if more.
    pub fn count(&self) -> (r: usize)
        ensures
            r == (if variant_count(self.families()) > usize::MAX {
                usize::MAX as int
            } else {
                variant_count(self.families())
            }),
    {
        let mut total: usize = 0;
        let mut i: usize = 0;
        while i < self.fonts.len()
            invariant
                i <= self.fonts@.len(),
                total == (if variant_count(self.fonts@.subrange(0, i as int)) > usize::MAX {
                    usize::MAX as int
                } else {
                    variant_count(self.fonts@.subrange(0, i as int))
                }),
            decreases self.fonts@.len() - i,
        {
            assert(self.fonts@.subrange(0, i + 1).drop_last() =~= self.fonts@.subrange(0, i as int));
            total = total.saturating_add(self.fonts[i].variants.len());
            i = i + 1;
        }
        assert(self.fonts@.subrange(0, self.fonts@.len() as int) =~= self.fonts@);
        total
    }
}

/// How many variants the families list in all.
pub open spec fn variant_count(fams: Seq<FontFamily>) -> int
    decreases fams.len(),
{
    if fams.len() == 0 {
        0
    } else {
        variant_count(fams.drop_last()) + fams.last().variants@.len()
    }
}

/// What a lookup of a font variant finds.
#[derive(Debug, Clone)]
pub enum CachedFont {
    /// The variant is stored in the cache, in this file.
    Available { path: String },
    /// The variant is not cached but the catalog lists it, at this URL.
    Known { url: String },
    /// Neither the cache nor the catalog has the variant.
    Unknown,
}

/// Whether `r` is what resolving variant `v` of `family` gives: the cache
/// first, the catalog where the cache misses.
pub open spec fn resolves_to(
    r: CachedFont,
    cache: Seq<FontFamily>,
    catalog: Seq<FontFamily>,
    family: Seq<char>,
    v: FontVariant,
) -> bool {
    match r {
        CachedFont::Available { path } => lookup(cache, family, v) == Some(path@),
        CachedFont::Known { url } => lookup(cache, family, v) is None && lookup(catalog, family, v)
            == Some(url@),
        CachedFont::Unknown => lookup(cache, family, v) is None && lookup(catalog, family, v) is None,
    }
}

/// The fonts this service can draw with: a catalog of fetchable variants and
/// the cache of those already fetched.
#[derive(Debug, Clone)]
pub struct FontProvider {
    fonts: Vec<FontFamily>,
    font_cache: FontCache,
}

impl FontProvider {
    pub closed spec fn catalog(&self) -> Seq<FontFamily> {
        self.fonts@
    }

    pub closed spec fn cache(&self) -> Seq<FontFamily> {
        self.font_cache.families()
    }

    pub fn new(catalog: Vec<FontFamily>, cache: FontCache) -> (p: FontProvider)
        ensures
            p.catalog() == catalog@,
            p.cache() == cache.families(),
    {
        FontProvider { fonts: catalog, font_cache: cache }
    }

    /// How many variants the cache holds, or `usize::MAX` if more.
    pub fn cached(&self) -> (r: usize)
        ensures
            r == (if variant_count(self.cache()) > usize::MAX {
                usize::MAX as int
            } else {
                variant_count(self.cache())
            }),
    {
        self.font_cache.count()
    }

    /// Adds a family to the catalog.
    pub fn push(&mut self, fam: FontFamily)
        ensures
            final(self).catalog() == old(self).catalog().push(fam),
            final(self).cache() == old(self).cache(),
    {
        self.fonts.push(fam);
    }

    /// The catalog family named exactly `face`.
    pub fn family(&self, face: &str) -> (r: Option<&FontFamily>)
        ensures
            match r {
                Some(f) => exists|i: int| first_family(self.catalog(), face@, i) && self.catalog()[i] == *f,
                None => !has_family(self.catalog(), face@),
            },
    {
        match family_position(&self.fonts, face) {
            Some(i) => {
                let f = &self.fonts[i];
                assert(first_family(self.catalog(), face@, i as int) && self.catalog()[i as int] == *f);
                assert(exists|k: int| first_family(self.catalog(), face@, k) && self.catalog()[k] == *f);
                Some(f)
            },
            None => {
                proof {
                    assert forall|i: int| !first_family(self.catalog(), face@, i) by {
                        if 0 <= i < self.fonts@.len() {
                            assert(self.fonts@[i].face@ != face@);
                        }
                    }
                }
                None
            },
        }
    }

    /// Resolves variant `variant` of `family`: the cached file if there is
    /// one, else the catalog URL to fetch it from, else unknown.
    pub fn variant_cached(&self, family: &str, variant: FontVariant) -> (r: CachedFont)
        ensures
            resolves_to(r, self.cache(), self.catalog(), family@, variant),
    {
        match self.font_cache.variant(family, variant) {
            Some(path) => CachedFont::Available { path },
            None => match find_variant(&self.fonts, family, variant) {
                Some(url) => CachedFont::Known { url: url.clone() },
                None => CachedFont::Unknown,
            },
        }
    }

    /// Resolves the regular variant of `family`.
    pub fn regular(&self, family: &str) -> (r: CachedFont)
        ensures
            resolves_to(r, self.cache(), self.catalog(), family@, FontVariant::spec_default()),
    {
        self.variant_cached(family, FontVariant::default())
    }

    /// Records that variant `variant` of `family`, fetched from the
    /// catalog, is now stored in the file at `path`.
    pub fn record_fetched(&mut self, family: &str, variant: FontVariant, path: String)
        ensures
            inserted(old(self).cache(), final(self).cache(), family@, variant, path@),
            final(self).catalog() == old(self).catalog(),
    {
        self.font_cache.insert(family, variant, path);
    }
}

/// A variant that the cache misses and the catalog lists is resolved to
/// its catalog URL, one fetch; once the fetched file is recorded, the same
/// request resolves to that file and needs no further fetch.
pub proof fn lemma_fetch_then_cached(
    cache: Seq<FontFamily>,
    cache_after: Seq<FontFamily>,
    catalog: Seq<FontFamily>,
    family: Seq<char>,
    v: FontVariant,
    path: Seq<char>,
)
    requires
        lookup(cache, family, v) is None,
        lookup(catalog, family, v) is Some,
        inserted(cache, cache_after, family, v, path),
    ensures
        lookup(cache_after, family, v) == Some(path),
        forall|r: CachedFont| resolves_to(r, cache, catalog, family, v) ==> r is Known,
        forall|r: CachedFont| resolves_to(r, cache_after, catalog, family, v) ==> r is Available,
{
    assert(lookup(cache_after, family, v) == Some(path));
}

/// Neither the cache nor the catalog listing a variant, it resolves to
/// unknown, which fetches nothing.
pub proof fn lemma_unknown_variant(
    cache: Seq<FontFamily>,
    catalog: Seq<FontFamily>,
    family: Seq<char>,
    v: FontVariant,
)
    requires
        lookup(cache, family, v) is None,
        lookup(catalog, family, v) is None,
    ensures
        forall|r: CachedFont| resolves_to(r, cache, catalog, family, v) <==> r is Unknown,
{
}

} // verus!
