//! The scratch project.

use nocompile::path::PathBuf;
use nocompile::scratch::{bin_name, manifest, target_dir, Dependency, Layout};

fn path(text: &str) -> PathBuf {
    PathBuf::new(text)
}

#[test]
fn everything_lives_under_the_target_directory() {
    let layout = Layout::new(&path("/w/host/target"), "host");
    assert_eq!(layout.root, path("/w/host/target/nocompile-scratch/host"));
    assert_eq!(
        layout.project,
        path("/w/host/target/nocompile-scratch/host/project")
    );
    assert_eq!(
        layout.target,
        path("/w/host/target/nocompile-scratch/host/target")
    );
    assert_eq!(layout.manifest(), layout.project.child("Cargo.toml"));
    assert_eq!(layout.lockfile(), layout.project.child("Cargo.lock"));
    assert_eq!(layout.lock_path(), layout.root.child(".lock"));
    assert_eq!(
        layout.bin_path("f_a"),
        layout.project.child("src").child("bin").child("f_a.rs")
    );
    assert_eq!(layout.copied().root, layout.root);
}

#[test]
fn the_configured_target_directory_comes_first() {
    let host = path("/w/host");
    let test = Some(path("/w/target/debug/deps/ui-0123"));
    assert_eq!(
        target_dir(&host, &Some(path("/elsewhere")), &test),
        path("/elsewhere")
    );
    // Relative to the host crate, folded.
    assert_eq!(
        target_dir(&host, &Some(path("../shared/./target")), &test),
        path("/w/shared/target")
    );
    assert_eq!(target_dir(&host, &None, &test), path("/w/target"));
    // The nearest one.
    assert_eq!(
        target_dir(&host, &None, &Some(path("/target/w/target/debug/ui"))),
        path("/target/w/target")
    );
    assert_eq!(
        target_dir(&host, &None, &Some(path("/w/out/ui"))),
        path("/w/host/target")
    );
    assert_eq!(target_dir(&host, &None, &None), path("/w/host/target"));
}

/// The name is a function of the path, and the hash is what tells two paths apart
/// that read alike.
#[test]
fn a_bin_is_named_by_its_fixture_alone() {
    assert_eq!(bin_name(""), "f__cbf29ce484222325");
    assert_eq!(bin_name("a"), "f_a_af63dc4c8601ec8c");
    assert_eq!(
        bin_name("foobar"),
        "f_foobar_85944171f73967e8"
    );
    let one = bin_name("ui/no_main.rs");
    let other = bin_name("ui/no-main.rs");
    assert!(one.starts_with("f_ui_no_main_rs_"), "{one}");
    assert!(other.starts_with("f_ui_no_main_rs_"), "{other}");
    assert_ne!(one, other);
    assert!(bin_name("\u{e9}.rs").starts_with("f___rs_"));
}

#[test]
fn the_manifest_lists_dependencies_bins_and_raw_text() {
    let dependencies = vec![Dependency {
        name: "my-crate".to_string(),
        path: path("/w/my crate"),
    }];
    let raw = vec!["[features]\nx = []".to_string()];
    let bins = vec!["f_a".to_string(), "f_b".to_string()];
    assert_eq!(
        manifest("2021", &dependencies, &raw, &bins),
        "[package]\nname = \"nocompile-scratch\"\nversion = \"0.0.0\"\npublish = false\nautobins = false\nedition = \"2021\"\n\n[workspace]\n\n[dependencies]\n\"my-crate\" = { path = \"/w/my crate\" }\n\n[[bin]]\nname = \"f_a\"\npath = \"src/bin/f_a.rs\"\n\n[[bin]]\nname = \"f_b\"\npath = \"src/bin/f_b.rs\"\n\n[features]\nx = []\n"
    );
}

/// What would end a TOML string is escaped in it.
#[test]
fn the_manifest_escapes_what_it_quotes() {
    let dependencies = vec![Dependency {
        name: "a\"b".to_string(),
        path: path("/w/c\\d\n\u{7f}"),
    }];
    let written = manifest("2024", &dependencies, &vec![], &vec![]);
    assert!(
        written.contains("\"a\\\"b\" = { path = \"/w/c\\\\d\\u000a\\u007f\" }\n"),
        "{written}"
    );
}
