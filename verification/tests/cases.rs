//! Registering fixtures, dependencies and manifest text.

use nocompile::cases::{golden_path, overwrite_from, relative_to, Entry, Listing};
use nocompile::outcome::{Failure, Kind};
use nocompile::path::{Component, PathBuf, Spelled};
use nocompile::run::{Step, Surroundings};
use nocompile::{Outcome, TestCases};

fn path(text: &str) -> PathBuf {
    PathBuf::new(text)
}

/// The path spelled by bytes that need not be UTF-8.
fn raw_path(bytes: &[u8]) -> PathBuf {
    PathBuf::from_bytes(&bytes.to_vec())
}

fn suite(manifest_dir: &str) -> TestCases {
    TestCases::new(path(manifest_dir), "host")
}

/// What a directory that holds files of these names lists as.
fn files(names: &[&str]) -> Listing {
    Listing::Entries(
        names
            .iter()
            .map(|name| Entry {
                name: name.as_bytes().to_vec(),
                is_file: true,
            })
            .collect(),
    )
}

fn nowhere() -> Surroundings {
    Surroundings {
        target_dir: None,
        executable: None,
        overwrite: None,
        cargo_home: None,
        fold: false,
    }
}

/// The outcome of a run that is over before it asks for anything.
fn immediate(step: Step) -> Outcome {
    match step {
        Step::Done(outcome) => outcome,
        other => panic!("the run asked for something: {other:?}"),
    }
}

#[test]
fn the_golden_sits_beside_the_fixture() {
    assert_eq!(
        golden_path(&path("tests/ui/a.rs")),
        path("tests/ui/a.stderr")
    );
}

#[test]
fn relative_to_uses_forward_slashes() {
    assert_eq!(
        relative_to(&path("/w"), &path("/w/tests/ui/a.rs")),
        "tests/ui/a.rs"
    );
}

#[test]
fn relative_to_keeps_paths_outside_the_base_whole() {
    assert_eq!(relative_to(&path("/w"), &path("/x/a.rs")), "/x/a.rs");
}

#[test]
fn dir_registration_records_a_readable_error_rather_than_panicking() {
    let mut t = suite("/nonexistent-base");
    t.compile_fail_dir(
        &Spelled::new("tests/ui"),
        &Listing::Unreadable("No such file or directory (os error 2)".to_string()),
    );
    let outcome = immediate(t.run(&nowhere()));
    assert!(!outcome.is_success());
    assert!(
        outcome
            .report()
            .contains("could not read the fixture directory tests/ui"),
        "{}",
        outcome.report()
    );
}

/// Every spelling of one registration is one case, since each would be a
/// `[[bin]]` of the same name and cargo rejects the manifest for that.
#[test]
fn a_fixture_registered_twice_under_one_kind_is_one_case() {
    let mut t = suite("/w");
    t.compile_fail(&path("ui/a.rs"));
    t.compile_fail(&path("./ui/a.rs"));
    t.compile_fail(&path("ui/../ui/a.rs"));
    t.compile_fail(&path("/w/ui/a.rs"));
    assert_eq!(t.registered_cases().len(), 1);
    assert!(t.setup_failures().is_empty(), "{:?}", t.setup_failures());
}

#[test]
fn a_fixture_registered_under_both_kinds_is_refused_by_name() {
    let mut t = suite("/w");
    t.pass(&path("ui/a.rs"));
    t.compile_fail(&path("ui/a.rs"));
    assert_eq!(t.registered_cases().len(), 1);
    assert_eq!(
        t.registered_cases()[0].kind,
        Kind::Pass,
        "the first registration stands"
    );
    let [
        Failure::ConflictingRegistration {
            fixture,
            registered: Kind::Pass,
            conflicting: Kind::CompileFail,
        },
    ] = t.setup_failures().as_slice()
    else {
        panic!("{:?}", t.setup_failures());
    };
    assert_eq!(*fixture, path("ui/a.rs"));
    let message = t.setup_failures()[0].message();
    assert!(
        message.contains("ui/a.rs is registered as both pass and compile_fail"),
        "{message}"
    );
}

#[test]
fn raw_manifest_lines_must_open_with_a_table_header() {
    let mut t = suite("/w");
    t.raw_manifest_lines("[features]\nfoo = []");
    t.raw_manifest_lines("\n# a comment first\n  [[example]]\nname = \"e\"");
    t.raw_manifest_lines("# nothing but a comment\n\n");
    assert!(t.setup_failures().is_empty(), "{:?}", t.setup_failures());
    assert_eq!(t.appended_lines().len(), 3);

    t.raw_manifest_lines("# a comment first\nfoo = \"bar\"\n[features]");
    assert_eq!(
        t.appended_lines().len(),
        3,
        "the refused text is not kept"
    );
    let [Failure::RawManifestLinesWithoutHeader { line }] = t.setup_failures().as_slice() else {
        panic!("{:?}", t.setup_failures());
    };
    assert_eq!(line, "foo = \"bar\"");
}

#[test]
fn an_empty_dependency_name_is_refused() {
    let mut t = suite("/w");
    t.dependency_path("", &path("helper"));
    assert!(t.declared_dependencies().is_empty());
    let [Failure::EmptyDependencyName { path: resolved }] = t.setup_failures().as_slice() else {
        panic!("{:?}", t.setup_failures());
    };
    assert_eq!(*resolved, path("/w/helper"));
}

/// Refused by name, including a dependency inside the host crate that would
/// never have received a placeholder, and including the `-` spelling.
#[test]
fn cases_a_dependency_named_like_a_reserved_placeholder_is_refused() {
    for (name, reserved) in [
        ("dir", "$DIR"),
        ("rust", "$RUST"),
        ("cargo-home", "$CARGO_HOME"),
        ("cargo_registry", "$CARGO_REGISTRY"),
        ("n", "$N"),
        ("Crate", "$CRATE"),
    ] {
        let mut t = suite("/w");
        t.dependency_path(name, &path("inside"));
        assert!(t.declared_dependencies().is_empty(), "{name}");
        let [
            Failure::ReservedDependencyName {
                name: given,
                placeholder,
            },
        ] = t.setup_failures().as_slice()
        else {
            panic!("{name}: {:?}", t.setup_failures());
        };
        assert_eq!((given.as_str(), placeholder.as_str()), (name, reserved));
        let message = t.setup_failures()[0].message();
        assert!(
            message.contains(&format!("`{name}`")) && message.contains(reserved),
            "{message}"
        );
    }

    let mut t = suite("/w");
    t.dependency_path("my-crate", &path("."));
    t.dependency_path("rusty", &path("../rusty"));
    assert!(t.setup_failures().is_empty(), "{:?}", t.setup_failures());
    assert_eq!(t.declared_dependencies().len(), 2);
}

/// A refused dependency stops the run before anything is built, rather than
/// building the fixtures without it and, when blessing, recording that.
#[test]
fn a_refused_dependency_stops_the_run_before_the_build() {
    let mut t = suite("/nonexistent-base");
    t.dependency_path("rust", &path("helper"));
    t.compile_fail(&path("ui/a.rs"));
    let outcome = immediate(t.overwrite(true).run(&nowhere()));
    assert!(outcome.cases().is_empty(), "{}", outcome.report());
    assert!(
        matches!(
            outcome.setup_failures(),
            [Failure::ReservedDependencyName { .. }]
        ),
        "{}",
        outcome.report()
    );
}

#[test]
fn a_non_utf8_fixture_path_is_refused_rather_than_converted_lossily() {
    let mut t = suite("/w");
    t.compile_fail(&raw_path(b"ui/a\x80.rs"));
    t.compile_fail(&raw_path(b"ui/a\x81.rs"));
    t.compile_fail(&path("ui/fine.rs"));
    let names: Vec<&str> = t
        .registered_cases()
        .iter()
        .map(|c| c.relative.as_str())
        .collect();
    assert_eq!(names, ["ui/fine.rs"]);
    let [
        Failure::NonUtf8Fixture { fixture: first },
        Failure::NonUtf8Fixture { fixture: second },
    ] = t.setup_failures().as_slice()
    else {
        panic!("{:?}", t.setup_failures());
    };
    // Kept exactly, so the two stay distinguishable.
    assert_eq!(first.path, raw_path(b"ui/a\x80.rs"));
    assert_eq!(second.path, raw_path(b"ui/a\x81.rs"));
    assert!(t.setup_failures()[0].message().contains("not valid UTF-8"));
}

#[test]
fn a_non_utf8_dependency_path_is_refused() {
    let mut t = suite("/w");
    t.dependency_path("dep", &raw_path(b"../dep-\xff"));
    assert!(t.declared_dependencies().is_empty());
    let [Failure::NonUtf8Dependency { name, path: resolved }] = t.setup_failures().as_slice()
    else {
        panic!("{:?}", t.setup_failures());
    };
    assert_eq!(name, "dep");
    assert_eq!(*resolved, raw_path(b"/dep-\xff"));
}

/// A golden must not move until a suite opts in to eliding.
#[test]
fn implementor_lists_are_not_elided_by_default() {
    assert!(!suite("/w").elides_implementors());
}

#[test]
fn the_overwrite_variable_blesses_in_any_case() {
    for value in ["overwrite", "OVERWRITE", "Overwrite"] {
        assert!(overwrite_from(None, Some(value)), "{value:?}");
    }
}

/// A variable that happens to be set is not a request to rewrite goldens.
/// Only the documented value is, whole: near misses such as a trailing
/// space or a truthy value are as good as unset.
#[test]
fn any_other_value_or_no_variable_does_not_bless() {
    assert!(!overwrite_from(None, None));
    for value in ["", "1", "true", "yes", "overwrite ", "overwrites", "bless"] {
        assert!(!overwrite_from(None, Some(value)), "{value:?}");
    }
}

/// A directory is named as it was spelled, so the message can be found in the
/// code that registers it.
#[test]
fn a_directory_that_cannot_be_read_is_named_as_it_was_spelled() {
    for spelling in ["ui/", "./ui", "ui//deep/", "ui/../ui"] {
        let mut t = suite("/w");
        t.compile_fail_dir(
            &Spelled::new(spelling),
            &Listing::Unreadable("permission denied".to_string()),
        );
        t.pass_dir(
            &Spelled::new(spelling),
            &Listing::Broken("input/output error".to_string()),
        );
        let outcome = immediate(t.run(&nowhere()));
        let said: Vec<(&str, &str)> = outcome
            .setup_failures()
            .iter()
            .map(|failure| match failure {
                Failure::Io { context, message } => (context.as_str(), message.as_str()),
                other => panic!("{other:?}"),
            })
            .collect();
        let unreadable = format!("could not read the fixture directory {spelling}");
        let broken = format!("could not read an entry of {spelling}");
        assert_eq!(
            said,
            [
                (unreadable.as_str(), "permission denied"),
                (broken.as_str(), "input/output error"),
            ]
        );
    }
}

/// However a directory is spelled, its fixtures are the same.
#[test]
fn a_directory_is_registered_once_however_it_is_spelled() {
    let mut t = suite("/w");
    t.compile_fail_dir(&Spelled::new("ui/"), &files(&["a.rs"]));
    t.compile_fail_dir(&Spelled::new("./ui"), &files(&["a.rs"]));
    let names: Vec<&str> = t
        .registered_cases()
        .iter()
        .map(|c| c.relative.as_str())
        .collect();
    assert_eq!(names, ["ui/a.rs"]);
}

/// `overwrite(bool)` is documented as overriding the variable, in both
/// directions: a checking run must not bless because the shell it runs in
/// happens to say so.
#[test]
fn an_explicit_setting_outranks_the_variable_either_way() {
    assert!(!overwrite_from(Some(false), Some("overwrite")));
    assert!(overwrite_from(Some(true), None));
    assert!(overwrite_from(Some(true), Some("no")));
}

#[test]
fn fixtures_are_registered_in_file_name_order() {
    let mut t = suite("/w");
    t.compile_fail_dir(
        &Spelled::new("ui"),
        &files(&["c.rs", "a.rs", "b.rs", "ignored.txt"]),
    );
    let names: Vec<&str> = t
        .registered_cases()
        .iter()
        .map(|c| c.relative.as_str())
        .collect();
    assert_eq!(names, ["ui/a.rs", "ui/b.rs", "ui/c.rs"]);
}

/// A suite that registers nothing must not report success -- the same hazard
/// `NoFixtures` covers, one level up.
#[test]
fn a_suite_that_registers_nothing_is_reported() {
    let t = suite("/w");
    let outcome = immediate(t.run(&nowhere()));
    assert!(!outcome.is_success());
    assert!(
        matches!(outcome.setup_failures(), [Failure::NothingRegistered]),
        "{:?}",
        outcome.setup_failures()
    );
}

/// A fixture on a drive that is not UTF-8 is named as its platform does.
#[test]
fn a_refused_fixture_on_a_drive_is_named_as_its_platform_does() {
    let on = |names: &[&[u8]]| {
        let mut components = vec![Component::Prefix(b"C:".to_vec()), Component::RootDir];
        for name in names {
            components.push(Component::Normal(name.to_vec()));
        }
        PathBuf { components }
    };
    let mut t = TestCases::new(on(&[b"w"]), "host");
    t.compile_fail(&on(&[b"w", b"ui", b"a\x80.rs"]));
    assert!(
        t.setup_failures()[0]
            .message()
            .starts_with("the fixture path ui\\a\u{fffd}.rs is not valid UTF-8"),
        "{:?}",
        t.setup_failures()
    );
}

/// A reserved placeholder is refused however a name comes to it.
#[test]
fn a_name_whose_upper_case_is_reserved_is_refused() {
    let mut t = suite("/w");
    t.dependency_path("d\u{131}r", &path("helper"));
    assert!(
        matches!(
            t.setup_failures().as_slice(),
            [Failure::ReservedDependencyName { .. }]
        ),
        "{:?}",
        t.setup_failures()
    );
}
