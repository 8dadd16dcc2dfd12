use slint_layer_support::collect_custom_fonts::{
    embedded_resource_id, font_registrations, mapped_font_path, parse_prefix_map,
    sorted_custom_fonts, EmbeddedResource, EmbeddedResourcesKind, FontRegistration,
};
use slint_layer_support::path_map::PathMap;

fn pairs(v: &[(String, String)]) -> Vec<(&str, &str)> {
    v.iter().map(|(a, b)| (a.as_str(), b.as_str())).collect()
}

#[test]
fn prefix_map_entries_are_split_at_the_first_equals() {
    let m = parse_prefix_map("/src/fonts=/usr/share/fonts;;broken;/a=b=c;=x;/y=");
    assert_eq!(
        pairs(&m),
        vec![("/src/fonts", "/usr/share/fonts"), ("/a", "b=c"), ("", "x"), ("/y", "")]
    );
    assert!(parse_prefix_map("").is_empty());
    assert!(parse_prefix_map(";;;").is_empty());
    assert_eq!(pairs(&parse_prefix_map("a=b")), vec![("a", "b")]);
}

#[test]
fn custom_fonts_are_collected_once_and_sorted() {
    let docs = vec![
        vec!["b.ttf".to_string(), "a.ttf".to_string()],
        vec![],
        vec!["c.otf".to_string(), "a.ttf".to_string(), "B.ttf".to_string()],
    ];
    assert_eq!(sorted_custom_fonts(&docs), vec!["B.ttf", "a.ttf", "b.ttf", "c.otf"]);
    assert!(sorted_custom_fonts(&[]).is_empty());
    let prefixed = vec![vec!["ab".to_string(), "a".to_string(), "abc".to_string(), "é".to_string(), "z".to_string()]];
    assert_eq!(sorted_custom_fonts(&prefixed), vec!["a", "ab", "abc", "z", "é"]);
}

fn image(id: usize) -> EmbeddedResource {
    EmbeddedResource { id, kind: EmbeddedResourcesKind::Other }
}

fn raw(id: usize) -> EmbeddedResource {
    EmbeddedResource { id, kind: EmbeddedResourcesKind::RawData }
}

#[test]
fn embedded_resources_get_stable_ids() {
    let mut resources: PathMap<EmbeddedResource> = PathMap::new();
    resources.insert("logo.png".to_string(), image(0));
    assert_eq!(embedded_resource_id(&mut resources, "a.ttf"), 1);
    assert_eq!(embedded_resource_id(&mut resources, "b.ttf"), 2);
    assert_eq!(embedded_resource_id(&mut resources, "a.ttf"), 1);
    assert_eq!(embedded_resource_id(&mut resources, "logo.png"), 0);
    assert_eq!(resources.len(), 3);
    assert_eq!(resources.get("a.ttf"), Some(&raw(1)));
    assert_eq!(resources.get("b.ttf"), Some(&raw(2)));
    // An existing resource keeps its kind.
    assert_eq!(resources.get("logo.png"), Some(&image(0)));
}

#[test]
fn fonts_register_by_memory_or_by_path() {
    let fonts = vec!["a.ttf".to_string(), "b.ttf".to_string()];
    let mut resources: PathMap<EmbeddedResource> = PathMap::new();
    resources.insert("b.ttf".to_string(), raw(0));
    let regs = font_registrations(&fonts, true, &mut resources, &[], &[]);
    assert!(matches!(regs[0], FontRegistration::ByMemory(1)));
    assert!(matches!(regs[1], FontRegistration::ByMemory(0)));
    // A second exported component gets the same ids.
    let again = font_registrations(&fonts, true, &mut resources, &[], &[]);
    assert!(matches!(again[0], FontRegistration::ByMemory(1)));
    assert!(matches!(again[1], FontRegistration::ByMemory(0)));
    assert_eq!(resources.len(), 2);
    assert_eq!(resources.get("a.ttf"), Some(&raw(1)));

    let mut untouched: PathMap<EmbeddedResource> = PathMap::new();
    let canonical = vec!["/src/fonts/a.ttf".to_string(), "/elsewhere/b.ttf".to_string()];
    let regs = font_registrations(&fonts, false, &mut untouched, &canonical, &[]);
    match (&regs[0], &regs[1]) {
        (FontRegistration::ByPath(a), FontRegistration::ByPath(b)) => {
            assert_eq!(a, "a.ttf");
            assert_eq!(b, "b.ttf");
        }
        _ => panic!("registration by path expected"),
    }
    let map = vec![("/src/fonts".to_string(), "/usr/share/fonts".to_string())];
    let regs = font_registrations(&fonts, false, &mut untouched, &canonical, &map);
    match (&regs[0], &regs[1]) {
        (FontRegistration::ByPath(a), FontRegistration::ByPath(b)) => {
            assert_eq!(a, "/usr/share/fonts/a.ttf");
            assert_eq!(b, "b.ttf");
        }
        _ => panic!("registration by path expected"),
    }
    assert_eq!(untouched.len(), 0);
}

#[test]
fn font_paths_are_remapped_by_the_first_matching_prefix() {
    let entries = vec![
        ("/opt/other".to_string(), "/nowhere".to_string()),
        ("/src/fonts".to_string(), "/usr/share/fonts".to_string()),
        ("/src".to_string(), "/data".to_string()),
    ];
    assert_eq!(
        mapped_font_path("fonts/Mio.ttf", "/src/fonts/Mio.ttf", &entries),
        "/usr/share/fonts/Mio.ttf"
    );
    assert_eq!(mapped_font_path("x.ttf", "/src/x.ttf", &entries), "/data/x.ttf");
    // Components are compared whole: `/src/fontsX` is not under `/src/fonts`.
    assert_eq!(mapped_font_path("y.ttf", "/src/fontsX/y.ttf", &entries), "/data/fontsX/y.ttf");
    // No match: the font path stays as given, not in canonical form.
    assert_eq!(mapped_font_path("rel/z.ttf", "/home/z.ttf", &entries), "rel/z.ttf");
    assert_eq!(mapped_font_path("a.ttf", "/a.ttf", &[]), "a.ttf");
}
