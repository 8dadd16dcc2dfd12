use std::path::{Component, Path};

use slint_layer_support::paths::{clean_components, resolve_path, PathComponent};

/// The components that the compiler keeps of a relative builtin path, read
/// with std's `Path::iter`.
fn std_components(p: &str) -> Vec<String> {
    let mut components: Vec<String> = Vec::new();
    for part in std::path::Path::new(p).iter() {
        if part == ".." {
            components.pop();
        } else if part != "." {
            components.push(part.to_string_lossy().into_owned());
        }
    }
    components
}

#[test]
fn relative_paths_resolve_like_std_path_iter() {
    for p in [
        "foo/../common/./MadeWithSlint-logo-dark.svg",
        "fluent2/std-widgets.slint",
        "a//b///c/",
        "./a/./b/.",
        "../../x/y",
        "a/b/../../..",
        "..",
        ".",
        "",
        "a/.../b",
        ".hidden/..x/x..",
        "é/ü/../ß",
        "/a/b",
        "//a//b/",
        "/../a/b",
        "/..",
        "/",
        "/./x/../y",
    ] {
        let chars: Vec<char> = p.chars().collect();
        let ours: Vec<String> =
            resolve_path(&chars).into_iter().map(|c| c.into_iter().collect()).collect();
        assert_eq!(ours, std_components(p), "{p}");
    }
}

fn components_of(p: &str) -> Vec<PathComponent> {
    Path::new(p)
        .components()
        .map(|c| match c {
            Component::Prefix(x) => PathComponent::Prefix(x.as_os_str().to_string_lossy().into_owned()),
            Component::RootDir => PathComponent::RootDir,
            Component::CurDir => PathComponent::CurDir,
            Component::ParentDir => PathComponent::ParentDir,
            Component::Normal(n) => PathComponent::Normal(n.to_string_lossy().into_owned()),
        })
        .collect()
}

#[test]
fn cleaning_drops_dots_and_resolves_parents() {
    let n = |s: &str| PathComponent::Normal(s.to_string());
    let input = [
        PathComponent::RootDir,
        n("a"),
        PathComponent::ParentDir,
        PathComponent::ParentDir,
        n("b"),
        PathComponent::CurDir,
    ];
    assert_eq!(clean_components(&input), vec![PathComponent::RootDir, n("b")]);
    assert_eq!(
        clean_components(&components_of("/home/x/./fonts/../ui/main.slint")),
        components_of("/home/x/ui/main.slint")
    );
    assert_eq!(clean_components(&components_of("/..")), vec![PathComponent::RootDir]);
    assert_eq!(clean_components(&components_of("/a/b/c")), components_of("/a/b/c"));
    assert!(clean_components(&[]).is_empty());
}

#[test]
fn absolute_and_relative_forms_clean_alike() {
    // The current directory joined with "./tests/../Cargo.toml" and the
    // absolute path of the same file clean to the same components.
    let cwd = Path::new("/work/internal/compiler");
    let relative = cwd.join("./tests/../Cargo.toml");
    let absolute = Path::new("/work/internal/compiler/Cargo.toml");
    assert_eq!(clean_components(&components_of(&relative.to_string_lossy())), components_of(&absolute.to_string_lossy()));
    assert_eq!(
        clean_components(&components_of("/work/./a/b/../c")),
        clean_components(&components_of("/work/a/c"))
    );
}
