//! Paths as lists of components.

use nocompile::path::{
    bytes_precede, lexical_join, listed, same_bytes, sort, Component, Order, PathBuf,
};

fn path(text: &str) -> PathBuf {
    PathBuf::new(text)
}

fn name(text: &str) -> Component {
    Component::Normal(text.as_bytes().to_vec())
}

#[test]
fn a_path_is_read_by_its_components() {
    assert_eq!(
        path("/a//b/./c/").components,
        [Component::RootDir, name("a"), name("b"), name("c")]
    );
    assert_eq!(
        path("./a/../b").components,
        [
            Component::CurDir,
            name("a"),
            Component::ParentDir,
            name("b")
        ]
    );
    assert_eq!(path("").components, []);
    assert_eq!(path("/").components, [Component::RootDir]);
    assert_eq!(path(".").components, [Component::CurDir]);
    assert_eq!(path("...").components, [name("...")]);
    assert_eq!(path("a/..b").components, [name("a"), name("..b")]);
}

#[test]
fn a_path_is_shown_with_slashes() {
    for text in ["/a/b", "a/b", "/", "", "../a", "./a", "/a/../b"] {
        assert_eq!(path(text).display(), text);
    }
    assert_eq!(path("/a//b/./c/").display(), "/a/b/c");
}

/// A name that is not UTF-8 is shown, but not carried as text.
#[test]
fn a_name_that_is_not_utf8_is_shown_lossily() {
    let raw = PathBuf::from_bytes(&b"ui/a\x80.rs".to_vec());
    assert!(!raw.is_utf8());
    assert_eq!(raw.display(), "ui/a\u{fffd}.rs");
    let text = path("ui/\u{e9}.rs");
    assert!(text.is_utf8());
    assert_eq!(text.display(), "ui/\u{e9}.rs");
    let other = PathBuf::from_bytes(&b"ui/a\x81.rs".to_vec());
    assert_eq!(raw.display(), other.display());
    assert!(!raw.same(&other));
    assert!(raw.same(&raw.copied()));
}

#[test]
fn joining_folds_every_dot() {
    let base = path("/w/host");
    for (given, resolved) in [
        ("ui/a.rs", "/w/host/ui/a.rs"),
        ("./ui/a.rs", "/w/host/ui/a.rs"),
        ("ui/../ui/a.rs", "/w/host/ui/a.rs"),
        ("../other", "/w/other"),
        ("../../../../x", "/x"),
        ("/elsewhere/./a", "/elsewhere/a"),
        (".", "/w/host"),
        ("", "/w/host"),
    ] {
        assert_eq!(lexical_join(&base, &path(given)), path(resolved), "{given}");
    }
    assert_eq!(lexical_join(&path("a"), &path("../../b")), path("../b"));
}

/// A resolved path resolves to itself, whatever it is resolved against.
#[test]
fn resolving_again_changes_nothing() {
    let once = lexical_join(&path("/w/host"), &path("../x/./y/../z"));
    assert_eq!(once, path("/w/x/z"));
    assert_eq!(lexical_join(&path("/elsewhere"), &once), once);
}

#[test]
fn a_prefix_is_stripped_by_whole_components() {
    assert_eq!(
        path("/w/a/b").strip_prefix(&path("/w")),
        Some(path("a/b"))
    );
    assert_eq!(path("/work/a").strip_prefix(&path("/w")), None);
    assert_eq!(path("/w").strip_prefix(&path("/w")), Some(path("")));
    assert_eq!(path("/x/a").from_base(&path("/w")), path("/x/a"));
    assert_eq!(path("/w/a").from_base(&path("/w")), path("a"));
    assert_eq!(path("/w").child("a").child_named(&vec![b'b']), path("/w/a/b"));
    assert_eq!(path("/w/a/b").up_to(2), path("/w"));
}

#[test]
fn extensions_are_what_follows_the_last_dot() {
    assert!(path("ui/a.rs").has_extension("rs"));
    assert!(path("ui/a.b.rs").has_extension("rs"));
    assert!(path("ui/a.").has_extension(""));
    assert!(!path("ui/.rs").has_extension("rs"));
    assert!(!path("ui/a.rs.bak").has_extension("rs"));
    assert!(!path("ui/rs").has_extension("rs"));
    assert!(!path("..").has_extension(""));
    assert_eq!(
        path("ui/a.b.rs").with_extension("stderr"),
        path("ui/a.b.stderr")
    );
    assert_eq!(path("ui/a").with_extension("stderr"), path("ui/a.stderr"));
    assert_eq!(
        path("ui/.rs").with_extension("stderr"),
        path("ui/.rs.stderr")
    );
    assert_eq!(path("/").with_extension("stderr"), path("/"));
    assert_eq!(
        path("/w/Cargo.toml").with_file_name("Cargo.lock"),
        path("/w/Cargo.lock")
    );
    assert_eq!(path("/").with_file_name("Cargo.lock"), path("/Cargo.lock"));
    assert_eq!(path("a/b").file_name(), Some(&vec![b'b']));
    assert_eq!(path("a/..").file_name(), None);
}

/// Different fixtures never share a golden, though they may share a stem with a
/// dot in it.
#[test]
fn two_fixtures_have_two_goldens() {
    let goldens: Vec<PathBuf> = ["ui/a.rs", "ui/a.b.rs", "ui/.a.rs", "ui/b.rs"]
        .iter()
        .map(|fixture| path(fixture).with_extension("stderr"))
        .collect();
    for (i, golden) in goldens.iter().enumerate() {
        assert!(!goldens[i + 1..].contains(golden), "{golden:?}");
    }
}

/// Paths are ordered component by component, not by their text.
#[test]
fn paths_are_ordered_by_their_components() {
    assert!(path("ui/a").precedes(&path("ui-pass")));
    assert!(!path("ui-pass").precedes(&path("ui/a")));
    assert!(path("ui").precedes(&path("ui/a")));
    assert!(!path("ui").precedes(&path("ui")));
    assert!(path("/a").precedes(&path("a")));
    assert!(path("../a").precedes(&path("a")));
    assert!(bytes_precede(&vec![1], &vec![1, 0]));
    assert!(!bytes_precede(&vec![2], &vec![1, 0]));
    assert!(same_bytes(&vec![1, 2], &vec![1, 2]));
    assert!(!same_bytes(&vec![1, 2], &vec![1]));
}

#[test]
fn sorting_does_not_depend_on_the_order_given() {
    let texts = ["ui/sub/b.rs", "ui/a.rs", "ui/sub/a.rs", "ui-x/a.rs"];
    let forward: Vec<PathBuf> = texts.iter().map(|text| path(text)).collect();
    let backward: Vec<PathBuf> = texts.iter().rev().map(|text| path(text)).collect();
    let sorted = sort(forward, Order::Path);
    assert_eq!(
        sorted,
        [
            path("ui/a.rs"),
            path("ui/sub/a.rs"),
            path("ui/sub/b.rs"),
            path("ui-x/a.rs")
        ]
    );
    assert_eq!(sort(backward, Order::Path), sorted);
    assert!(listed(&sorted, &path("ui/sub/b.rs")));
    assert!(!listed(&sorted, &path("ui/b.rs")));
}

/// A path on a drive is told with it, and shown as its own platform shows it.
#[test]
fn a_path_on_a_drive_keeps_its_drive() {
    let drive = |letter: &str, names: &[&str]| {
        let mut components = vec![
            Component::Prefix(letter.as_bytes().to_vec()),
            Component::RootDir,
        ];
        for part in names {
            components.push(name(part));
        }
        PathBuf { components }
    };
    let base = drive("C:", &["w", "host"]);
    let outside = drive("D:", &["x", "a.rs"]);
    assert_eq!(outside.told_from(&base), outside);
    assert_eq!(outside.told_from(&base).display(), "D:/x/a.rs");
    let inside = drive("C:", &["w", "host", "ui", "a.rs"]);
    assert_eq!(inside.told_from(&base), path("ui/a.rs"));

    assert_eq!(outside.display_native(), "D:\\x\\a.rs");
    assert_eq!(inside.from_base(&base).display_like(&inside), "ui\\a.rs");
    assert_eq!(path("/w/host").display_native(), "/w/host");
    assert_eq!(path("ui/a.rs").display_like(&path("/w")), "ui/a.rs");
}
