use slint_layer_support::fileaccess::{
    load_builtin_file, lookup_file, styles, BuiltinDirectory, BuiltinFile, FileLookup, VirtualFile,
};

static STD_WIDGETS: &[u8] = b"export { Button } from \"button.slint\";";
static BUTTON: &[u8] = b"export component Button {}";
static LOGO: &[u8] = b"<svg/>";

fn library() -> Vec<BuiltinDirectory<'static>> {
    vec![
        BuiltinDirectory {
            style: "fluent2",
            files: vec![
                BuiltinFile { path: "std-widgets.slint", contents: STD_WIDGETS },
                BuiltinFile { path: "button.slint", contents: BUTTON },
            ],
        },
        BuiltinDirectory {
            style: "common",
            files: vec![BuiltinFile { path: "MadeWithSlint-logo-dark.svg", contents: LOGO }],
        },
        BuiltinDirectory {
            style: "material",
            files: vec![BuiltinFile { path: "std-widgets.slint", contents: STD_WIDGETS }],
        },
    ]
}

fn load_file(path: &str) -> Option<VirtualFile> {
    match lookup_file(&library(), path) {
        FileLookup::Builtin(file) => file,
        FileLookup::Disk => panic!("{path} should be a builtin path"),
    }
}

#[test]
fn test_fluent2_style_is_discoverable() {
    let styles = styles(&library());
    assert!(styles.contains(&"fluent2"));
    assert!(styles.contains(&"fluent2-light"));
    assert!(styles.contains(&"fluent2-dark"));

    let fluent2 = load_file("builtin:/fluent2/std-widgets.slint")
        .expect("fluent2 std widgets should be built in");
    assert!(fluent2.is_builtin());
    assert_eq!(fluent2.canon_path, "builtin:/fluent2/std-widgets.slint");

    let fluent2_light = load_file("builtin:/fluent2-light/std-widgets.slint")
        .expect("fluent2-light should alias fluent2");
    assert!(fluent2_light.is_builtin());
    assert_eq!(fluent2_light.canon_path, "builtin:/fluent2/std-widgets.slint");

    let fluent2_dark = load_file("builtin:/fluent2-dark/std-widgets.slint")
        .expect("fluent2-dark should alias fluent2");
    assert!(fluent2_dark.is_builtin());
    assert_eq!(fluent2_dark.canon_path, "builtin:/fluent2/std-widgets.slint");
}

#[test]
fn builtin_paths_resolve_dot_and_dotdot() {
    let builtin = load_file("builtin:/foo/../common/./MadeWithSlint-logo-dark.svg").unwrap();
    assert!(builtin.is_builtin());
    assert_eq!(builtin.canon_path, "builtin:/common/MadeWithSlint-logo-dark.svg");
    assert_eq!(builtin.builtin_contents, Some(LOGO));
}

#[test]
fn styles_lists_library_styles_then_aliases() {
    let names = styles(&library());
    assert_eq!(
        names,
        vec![
            "fluent2",
            "material",
            "cosmic-light",
            "cosmic-dark",
            "fluent-light",
            "fluent-dark",
            "fluent2-light",
            "fluent2-dark",
            "material-light",
            "material-dark",
            "cupertino-light",
            "cupertino-dark",
            "retrotone-light",
            "retrotone-dark",
        ]
    );
}

#[test]
fn non_builtin_paths_are_read_from_disk() {
    let lib = library();
    assert!(matches!(lookup_file(&lib, "Cargo.toml"), FileLookup::Disk));
    assert!(matches!(lookup_file(&lib, "/builtin:/fluent2/button.slint"), FileLookup::Disk));
    assert!(matches!(lookup_file(&lib, "builtin:x/fluent2/button.slint"), FileLookup::Disk));
    assert!(matches!(lookup_file(&lib, "builtin"), FileLookup::Disk));
}

#[test]
fn builtin_lookup_misses() {
    // Unknown style, unknown file, wrong depth, the bare prefix.
    assert!(load_file("builtin:/cosmic/std-widgets.slint").is_none());
    assert!(load_file("builtin:/fluent2/nothing.slint").is_none());
    assert!(load_file("builtin:/fluent2").is_none());
    assert!(load_file("builtin:/fluent2/sub/button.slint").is_none());
    assert!(load_file("builtin:").is_none());
    // `..` above the root is dropped.
    let f = load_file("builtin:/../../fluent2//button.slint").unwrap();
    assert_eq!(f.canon_path, "builtin:/fluent2/button.slint");
    assert_eq!(f.builtin_contents, Some(BUTTON));
}

#[test]
fn load_builtin_file_reads_relative_paths() {
    let lib = library();
    let f = load_builtin_file(&lib, "material-dark/./std-widgets.slint").unwrap();
    assert_eq!(f.canon_path, "builtin:/material/std-widgets.slint");
    assert!(f.is_builtin());
    assert!(load_builtin_file(&lib, "material-dark/button.slint").is_none());
}

#[test]
fn disk_files_are_not_builtin() {
    let f = VirtualFile { canon_path: "/tmp/a.slint".to_string(), builtin_contents: None };
    assert!(!f.is_builtin());
}

#[test]
fn builtin_prefix_is_matched_as_std_strip_prefix_matches_it() {
    for p in [
        "builtin:",
        "builtin:/",
        "builtin://fluent2/std-widgets.slint",
        "builtin:/fluent2/std-widgets.slint",
        "builtin:/./common/x",
        "builtin:x",
        "builtin:./x",
        "/builtin:/x",
        "./builtin:/x",
        "builtin",
        "",
        "src/main.slint",
    ] {
        let ours = matches!(lookup_file(&library(), p), FileLookup::Builtin(_));
        let std_says = std::path::Path::new(p).strip_prefix("builtin:/").is_ok();
        assert_eq!(ours, std_says, "{p}");
    }
}

#[test]
fn load_builtin_file_keeps_a_leading_root() {
    let lib = library();
    // The root is a component of its own: three components name no file.
    assert!(load_builtin_file(&lib, "/fluent2/std-widgets.slint").is_none());
    assert!(load_builtin_file(&lib, "//common/MadeWithSlint-logo-dark.svg").is_none());
    // A `..` right after the root removes it.
    let f = load_builtin_file(&lib, "/../fluent2/std-widgets.slint").unwrap();
    assert_eq!(f.canon_path, "builtin:/fluent2/std-widgets.slint");
    // After `builtin:` the separators are stripped, as `Path::strip_prefix` does.
    let g = load_file("builtin:///fluent2/std-widgets.slint").unwrap();
    assert_eq!(g.canon_path, "builtin:/fluent2/std-widgets.slint");
}
