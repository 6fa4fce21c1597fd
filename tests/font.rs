use textual::font::{cache_file_name, parse_cache_name, FontStyle, FontVariant, FontVariantParseError, FontWeight};
use textual::provider::{catalog_family, catalog_variant, CachedFont, FontCache, FontFamily, FontProvider};

const WEIGHTS: [FontWeight; 10] = [
    FontWeight::Thin,
    FontWeight::ExtraLight,
    FontWeight::Light,
    FontWeight::Regular,
    FontWeight::Medium,
    FontWeight::SemiBold,
    FontWeight::Bold,
    FontWeight::ExtraBold,
    FontWeight::Black,
    FontWeight::ExtraBlack,
];

const STYLES: [FontStyle; 3] = [FontStyle::Normal, FontStyle::Italic, FontStyle::Oblique];

#[test]
fn every_variant_reads_back_from_its_name() {
    for w in WEIGHTS {
        for s in STYLES {
            let v = FontVariant::new(w, s);
            assert_eq!(FontVariant::parse(&v.to_string()), Some(v));
        }
    }
}

#[test]
fn variant_names() {
    let v = FontVariant::new(FontWeight::SemiBold, FontStyle::Oblique);
    assert_eq!(v.to_string(), "semibold oblique");
    assert_eq!(FontVariant::default(), FontVariant::new(FontWeight::Regular, FontStyle::Normal));
    assert_eq!(FontVariant::with_weight(FontWeight::Bold).style, FontStyle::Normal);
    assert_eq!(FontVariant::with_style(FontStyle::Italic).weight, FontWeight::Regular);
}

#[test]
fn weight_numbers() {
    let numbers: Vec<usize> = WEIGHTS.iter().map(|w| w.into_weight_number()).collect();
    assert_eq!(numbers, vec![100, 200, 300, 400, 500, 600, 700, 800, 900, 950]);
}

#[test]
fn weight_aliases_any_case() {
    assert_eq!(FontWeight::parse("demibold").unwrap(), FontWeight::SemiBold);
    assert_eq!(FontWeight::parse("DemiBold").unwrap(), FontWeight::SemiBold);
    assert_eq!(FontWeight::parse("ULTRA-LIGHT").unwrap(), FontWeight::ExtraLight);
    assert_eq!(FontWeight::parse("600").unwrap(), FontWeight::SemiBold);
    assert_eq!(FontWeight::parse("Heavy").unwrap(), FontWeight::Black);
    assert_eq!(FontWeight::from_alias("Heavy"), None);
    match FontWeight::parse("book") {
        Err(FontVariantParseError::UnknownWeightName { weight }) => assert_eq!(weight, "book"),
        other => panic!("unexpected {:?}", other),
    }
}

#[test]
fn styles_are_exact() {
    assert_eq!(FontStyle::parse("italic").unwrap(), FontStyle::Italic);
    match FontStyle::parse("Italic") {
        Err(FontVariantParseError::UnknownStyleName { style }) => assert_eq!(style, "Italic"),
        other => panic!("unexpected {:?}", other),
    }
}

#[test]
fn cache_file_names() {
    let v = FontVariant::new(FontWeight::Bold, FontStyle::Italic);
    assert_eq!(cache_file_name("Open Sans", v), "Open Sans-bold italic.ttf");
    assert_eq!(parse_cache_name("Fira-Sans-bold italic"), Some(("Fira-Sans".to_string(), v)));
    assert_eq!(parse_cache_name("NoDash"), None);
    assert_eq!(parse_cache_name("Fam-bold"), None);
    assert_eq!(parse_cache_name("Fam-bold slanted"), None);
}

#[test]
fn catalog_keys() {
    let regular = FontVariant::default();
    assert_eq!(catalog_variant("regular"), Some(regular));
    assert_eq!(catalog_variant("700"), Some(FontVariant::with_weight(FontWeight::Bold)));
    assert_eq!(catalog_variant("700italic"), Some(FontVariant::new(FontWeight::Bold, FontStyle::Italic)));
    assert_eq!(catalog_variant("italic"), Some(FontVariant::new(FontWeight::Regular, FontStyle::Italic)));
    assert_eq!(catalog_variant("wide"), None);
}

#[test]
fn catalog_family_keeps_known_keys() {
    let files = vec![
        ("regular".to_string(), "https://f/r.ttf".to_string()),
        ("odd".to_string(), "https://f/o.ttf".to_string()),
        ("300italic".to_string(), "https://f/3i.ttf".to_string()),
    ];
    let fam = catalog_family("Lato", &files);
    assert_eq!(fam.face, "Lato");
    assert_eq!(fam.variants.len(), 2);
    let light_italic = FontVariant::new(FontWeight::Light, FontStyle::Italic);
    assert_eq!(fam.variant_path(light_italic), Some(&"https://f/3i.ttf".to_string()));
}

fn catalog() -> Vec<FontFamily> {
    let mut lato = FontFamily::new("Lato");
    lato.push(FontVariant::default(), "https://fonts/lato-regular.ttf".to_string());
    lato.push(
        FontVariant::with_weight(FontWeight::Bold),
        "https://fonts/lato-bold.ttf".to_string(),
    );
    vec![lato]
}

#[test]
fn miss_then_fetch_then_hit() {
    let mut provider = FontProvider::new(catalog(), FontCache::new());
    let bold = FontVariant::with_weight(FontWeight::Bold);
    match provider.variant_cached("Lato", bold) {
        CachedFont::Known { url } => assert_eq!(url, "https://fonts/lato-bold.ttf"),
        other => panic!("unexpected {:?}", other),
    }
    assert_eq!(provider.cached(), 0);
    provider.record_fetched("Lato", bold, "/cache/Lato-bold normal.ttf".to_string());
    match provider.variant_cached("Lato", bold) {
        CachedFont::Available { path } => assert_eq!(path, "/cache/Lato-bold normal.ttf"),
        other => panic!("unexpected {:?}", other),
    }
    assert_eq!(provider.cached(), 1);
    match provider.regular("Lato") {
        CachedFont::Known { url } => assert_eq!(url, "https://fonts/lato-regular.ttf"),
        other => panic!("unexpected {:?}", other),
    }
}

#[test]
fn unknown_family_or_variant() {
    let provider = FontProvider::new(catalog(), FontCache::new());
    assert!(matches!(provider.variant_cached("Arial", FontVariant::default()), CachedFont::Unknown));
    assert!(matches!(provider.variant_cached("lato", FontVariant::default()), CachedFont::Unknown));
    let thin = FontVariant::with_weight(FontWeight::Thin);
    assert!(matches!(provider.variant_cached("Lato", thin), CachedFont::Unknown));
    assert!(provider.family("Lato").is_some());
    assert!(provider.family("Arial").is_none());
}

#[test]
fn cache_populates_from_file_stems() {
    let mut cache = FontCache::new();
    let entries = vec![
        ("Lato-bold normal".to_string(), "/c/Lato-bold normal.ttf".to_string()),
        ("README".to_string(), "/c/README".to_string()),
        ("Lato-regular normal".to_string(), "/c/Lato-regular normal.ttf".to_string()),
        ("Lato-bold normal".to_string(), "/c/dup.ttf".to_string()),
        ("Lato-bold fuzzy".to_string(), "/c/Lato-bold fuzzy.ttf".to_string()),
    ];
    let skipped = cache.populate(&entries);
    assert_eq!(skipped, vec![1, 4]);
    assert_eq!(cache.count(), 3);
    assert_eq!(
        cache.variant("Lato", FontVariant::with_weight(FontWeight::Bold)),
        Some("/c/Lato-bold normal.ttf".to_string())
    );
    assert_eq!(cache.regular("Lato"), Some("/c/Lato-regular normal.ttf".to_string()));
    assert_eq!(cache.family("Lato").map(|f| f.variants.len()), Some(3));
    cache.insert("Mono", FontVariant::default(), "/c/Mono-regular normal.ttf".to_string());
    assert_eq!(cache.regular("Mono"), Some("/c/Mono-regular normal.ttf".to_string()));
}

#[test]
fn weights_and_styles_from_str() {
    let w: FontWeight = "Bold".parse().unwrap();
    assert_eq!(w, FontWeight::Bold);
    let s: FontStyle = "oblique".parse().unwrap();
    assert_eq!(s, FontStyle::Oblique);
    assert!("slanted".parse::<FontStyle>().is_err());
}
