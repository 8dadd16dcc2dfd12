use std::path::Component;

use slint_layer_support::path_map::PathMap;
use slint_layer_support::paths::PathComponent;
use slint_layer_support::sharedfontique::{
    canonical_font_path, design_metric_units, has_extension, metric_units_from_face,
    register_font_from_memory, register_font_from_path, DesignMetricUnits, RegisteredFontMemory,
    RegisteredFontPaths,
};

#[test]
fn font_paths_register_once() {
    let mut registered = RegisteredFontPaths::new();
    assert!(register_font_from_path(&mut registered, "/fonts/Mio.ttf".to_string()));
    for _ in 0..100 {
        assert!(!register_font_from_path(&mut registered, "/fonts/Mio.ttf".to_string()));
    }
    assert!(register_font_from_path(&mut registered, "/fonts/Mio-Bold.ttf".to_string()));
    assert!(registered.contains("/fonts/Mio.ttf"));
    assert!(registered.contains("/fonts/Mio-Bold.ttf"));
    assert!(!registered.contains("/fonts/Other.ttf"));
}

#[test]
fn embedded_fonts_register_once_per_range() {
    let mut registered = RegisteredFontMemory::new();
    assert!(register_font_from_memory(&mut registered, 0x1000, 64));
    assert!(!register_font_from_memory(&mut registered, 0x1000, 64));
    // The same start with another length is another font.
    assert!(register_font_from_memory(&mut registered, 0x1000, 32));
    assert!(register_font_from_memory(&mut registered, 0x2000, 64));
    assert!(!register_font_from_memory(&mut registered, 0x2000, 64));
}

#[test]
fn canonical_path_prefers_the_resolved_form() {
    assert_eq!(
        canonical_font_path("fonts/../fonts/a.ttf", Some("/home/x/fonts/a.ttf".to_string())),
        "/home/x/fonts/a.ttf"
    );
    assert_eq!(canonical_font_path("missing.ttf", None), "missing.ttf");
}

#[test]
fn repeated_path_lookup_uses_same_mapping() {
    let mut mappings: PathMap<u32> = PathMap::new();
    assert!(mappings.get("/fonts/a.ttf").is_none());
    mappings.insert("/fonts/a.ttf".to_string(), 7);
    assert_eq!(mappings.get("/fonts/a.ttf"), Some(&7));
    assert_eq!(mappings.get("/fonts/a.ttf"), Some(&7));
    assert!(mappings.get("/fonts/b.ttf").is_none());
    mappings.insert("/fonts/b.ttf".to_string(), 9);
    mappings.insert("/fonts/a.ttf".to_string(), 8);
    assert_eq!(mappings.get("/fonts/a.ttf"), Some(&8));
    assert_eq!(mappings.get("/fonts/b.ttf"), Some(&9));
    assert_eq!(mappings.len(), 2);
}

/// The components of `p` as `std::path::Path::components` yields them here.
fn components_of(p: &str) -> Vec<PathComponent> {
    std::path::Path::new(p)
        .components()
        .map(|c| match c {
            Component::Prefix(x) => PathComponent::Prefix(x.as_os_str().to_string_lossy().into_owned()),
            Component::RootDir => PathComponent::RootDir,
            Component::CurDir => PathComponent::CurDir,
            Component::ParentDir => PathComponent::ParentDir,
            Component::Normal(n) => PathComponent::Normal(n.to_string_lossy().into_owned()),
        })
        .collect()
}

fn path_has_ext(p: &str) -> bool {
    has_extension(&components_of(p))
}

#[test]
fn default_font_setting_with_extension_is_one_file() {
    assert!(path_has_ext("/usr/share/fonts/Mio.ttf"));
    assert!(path_has_ext("Mio.ttf"));
    assert!(path_has_ext("dir/font.ttf/"));
    assert!(path_has_ext("dir/font.ttf/."));
    assert!(path_has_ext("a.b.c"));
    assert!(path_has_ext("name."));
    assert!(!path_has_ext("/usr/share/fonts"));
    assert!(!path_has_ext("/usr/share/fonts/.hidden"));
    assert!(!path_has_ext("fonts.d/.."));
    assert!(!path_has_ext("/"));
    assert!(!path_has_ext("."));
    assert!(!path_has_ext(""));
    assert!(!path_has_ext("fonts.d/sub"));
}

#[test]
fn default_font_extension_of_components() {
    let n = |s: &str| PathComponent::Normal(s.to_string());
    assert!(has_extension(&[PathComponent::RootDir, n("fonts"), n("Mio.ttf")]));
    assert!(!has_extension(&[PathComponent::RootDir]));
    assert!(!has_extension(&[n("fonts.d"), PathComponent::ParentDir]));
    assert!(!has_extension(&[n("..")]));
    assert!(!has_extension(&[n(".ttf")]));
    assert!(has_extension(&[n("..ttf")]));
    assert!(!has_extension(&[]));
    assert!(!has_extension(&[PathComponent::Prefix("C:".to_string())]));
}

#[test]
fn default_font_extension_agrees_with_std() {
    for p in [
        "/usr/share/fonts/Mio.ttf", "Mio", ".bashrc", "a/.b.c", "x/y/", "x/y/.", "..", "a/..",
        "./", "./f.ttf", "//a//b.c//", "a.", ".", "", "..a", "a\\b.c", "C:\\fonts\\x.ttf",
    ] {
        assert_eq!(path_has_ext(p), std::path::Path::new(p).extension().is_some(), "{p}");
    }
}

#[test]
fn missing_heights_count_as_zero() {
    let m = metric_units_from_face((800, -200, None, Some(700), 1000));
    assert_eq!(
        m,
        DesignMetricUnits { ascent: 800, descent: -200, x_height: 0, cap_height: 700, units_per_em: 1000 }
    );
    let m = metric_units_from_face((1900, -500, Some(1000), None, 2048));
    assert_eq!(m.x_height, 1000);
    assert_eq!(m.cap_height, 0);
}

fn be16(v: &mut Vec<u8>, x: u16) {
    v.extend_from_slice(&x.to_be_bytes());
}

fn be32(v: &mut Vec<u8>, x: u32) {
    v.extend_from_slice(&x.to_be_bytes());
}

/// A font with only the `head`, `hhea` and `maxp` tables.
fn minimal_font(units_per_em: u16, ascender: i16, descender: i16) -> Vec<u8> {
    let mut v = Vec::new();
    be32(&mut v, 0x0001_0000);
    be16(&mut v, 3);
    be16(&mut v, 32);
    be16(&mut v, 1);
    be16(&mut v, 16);
    for (tag, offset, len) in [(b"head", 60u32, 54u32), (b"hhea", 114, 36), (b"maxp", 150, 6)] {
        v.extend_from_slice(tag);
        be32(&mut v, 0);
        be32(&mut v, offset);
        be32(&mut v, len);
    }
    // head
    be32(&mut v, 0x0001_0000);
    be32(&mut v, 0x0001_0000);
    be32(&mut v, 0);
    be32(&mut v, 0x5F0F_3CF5);
    be16(&mut v, 0);
    be16(&mut v, units_per_em);
    v.extend_from_slice(&[0u8; 16]);
    v.extend_from_slice(&[0u8; 8]);
    be16(&mut v, 0);
    be16(&mut v, 8);
    be16(&mut v, 2);
    be16(&mut v, 0);
    be16(&mut v, 0);
    // hhea
    be32(&mut v, 0x0001_0000);
    be16(&mut v, ascender as u16);
    be16(&mut v, descender as u16);
    be16(&mut v, 0);
    v.extend_from_slice(&[0u8; 24]);
    be16(&mut v, 1);
    // maxp
    be32(&mut v, 0x0000_5000);
    be16(&mut v, 1);
    v
}

#[test]
fn design_metrics_come_from_the_font_tables() {
    let font = minimal_font(1000, 800, -200);
    let m = design_metric_units(&font, 0).expect("minimal font parses");
    assert_eq!(
        m,
        DesignMetricUnits { ascent: 800, descent: -200, x_height: 0, cap_height: 0, units_per_em: 1000 }
    );
    // A face index beyond a single font is no face.
    assert!(design_metric_units(&font, 1).is_none());
}

#[test]
fn design_metrics_of_garbage_are_none() {
    assert!(design_metric_units(b"not a font at all", 0).is_none());
    assert!(design_metric_units(&[], 0).is_none());
    // units per em outside 16..=16384 is rejected by the parser.
    assert!(design_metric_units(&minimal_font(8, 800, -200), 0).is_none());
}
