//! What a run reports.

use nocompile::path::{Component, PathBuf, Spelled};
use nocompile::{CaseOutcome, Failure, Kind, Mode, Outcome};

fn path(text: &str) -> PathBuf {
    PathBuf::new(text)
}

fn held_up(at: &str) -> CaseOutcome {
    CaseOutcome::new(path(at), Kind::Pass, Ok(()))
}

fn failed(at: &str, failure: Failure) -> CaseOutcome {
    CaseOutcome::new(path(at), Kind::CompileFail, Err(failure))
}

fn mismatch(expected: &str, actual: &str, mode: Mode) -> Failure {
    Failure::Mismatch {
        golden: path("ui/a.stderr"),
        expected: expected.to_string(),
        actual: actual.to_string(),
        mode,
    }
}

/// One failure of each kind, and whether it refuses the manifest.
fn every_failure() -> Vec<(Failure, bool, &'static str)> {
    vec![
        (
            Failure::Compiled,
            false,
            "expected a compile error, but the fixture compiled",
        ),
        (
            Failure::DidNotCompile {
                stderr: "error: x\n".to_string(),
            },
            false,
            "expected the fixture to compile, but it did not:\n\nerror: x\n",
        ),
        (
            Failure::NoDiagnostics {
                stderr: " \n".to_string(),
            },
            false,
            "the fixture failed to build but produced no diagnostics the harness could attribute to it; refusing to write an empty golden.\n\nCargo suppresses any diagnostic whose message begins with `aborting due to`, or ends with `warning emitted` or `warnings emitted`, which is how it strips rustc's own summary lines -- and a `compile_error!` worded any of those ways goes with them, before any harness can see it. If that is what happened, reword the message.",
        ),
        (
            Failure::MissingGolden {
                golden: path("ui/a.stderr"),
            },
            false,
            "no golden at ui/a.stderr\nrun with NOCOMPILE=overwrite to create it, then read what it captured",
        ),
        (
            mismatch("a\nb\n", "a\nc\n", Mode::Brief),
            false,
            "diagnostics do not match ui/a.stderr (Brief mode), first difference at line 2\n\n--- ui/a.stderr\n+++ actual\n@@ -1,2 +1,2 @@\n a\n-b\n+c\n\nrun with NOCOMPILE=overwrite to update the golden",
        ),
        (
            Failure::NoFixtures {
                directory: path("ui"),
            },
            false,
            "no .rs fixtures directly in ui -- registering it tests nothing. Registration is not recursive: a fixture in a subdirectory is registered only by registering that subdirectory.",
        ),
        (
            Failure::NothingRegistered,
            false,
            "no fixtures were registered -- the suite would pass without testing anything",
        ),
        (
            Failure::UnregisteredFixtures {
                directory: path("ui"),
                fixtures: vec![path("ui/sub/a.rs"), path("ui/sub/b.rs")],
            },
            false,
            "2 .rs file(s) under ui are not registered, so they are not tested:\n\n    ui/sub/a.rs\n    ui/sub/b.rs\n\nRegistering a directory is not recursive: it takes the .rs files directly in ui and nothing below it. Register the subdirectory that holds them, or move a file that is not a fixture out from under ui.",
        ),
        (
            Failure::OrphanGolden {
                golden: path("ui/a.stderr"),
            },
            false,
            "ui/a.stderr is not the golden of any registered compile_fail fixture, so nothing compares against it. Its fixture was likely renamed or deleted, or is registered as a pass fixture, which has no golden. Rename the golden to follow its fixture, or delete it; NOCOMPILE=overwrite never deletes a golden.",
        ),
        (
            Failure::ConflictingRegistration {
                fixture: path("ui/a.rs"),
                registered: Kind::Pass,
                conflicting: Kind::CompileFail,
            },
            false,
            "ui/a.rs is registered as both pass and compile_fail, and a fixture can only be one. This run checks it as pass; remove the other registration, or move the fixture into a directory registered for the kind it is.",
        ),
        (
            Failure::NonUtf8Fixture {
                fixture: Spelled {
                    path: PathBuf::from_bytes(&b"a\x80.rs".to_vec()),
                    text: "a\u{fffd}.rs".to_string(),
                },
            },
            false,
            "the fixture path a\u{fffd}.rs is not valid UTF-8, so it was not registered. A fixture's path is written into its golden and into the generated Cargo manifest, both of which are text, and cannot be carried there faithfully. Rename the fixture.",
        ),
        (
            Failure::RawManifestLinesWithoutHeader {
                line: "foo = 1".to_string(),
            },
            true,
            "raw_manifest_lines was given text that does not begin with a table header:\n\n    foo = 1\n\nThe text is appended after the generated [[bin]] tables, so a bare key there would silently become metadata of the last fixture's bin target. Begin it with the header of the table it belongs in, such as [features]. Nothing was built.",
        ),
        (
            Failure::EmptyDependencyName {
                path: path("/w/helper"),
            },
            true,
            "dependency_path was given an empty name for the dependency at /w/helper. The name must be the dependency's package name, exactly as its Cargo.toml spells it. Nothing was built.",
        ),
        (
            Failure::ReservedDependencyName {
                name: "rust".to_string(),
                placeholder: "$RUST".to_string(),
            },
            true,
            "dependency_path was given the name `rust`, whose normalization placeholder $RUST is reserved for something else: a path into the dependency would read in every golden as that, not as the dependency. A crate with this package name can still be declared through raw_manifest_lines, as a [dependencies.rust] table, at the cost of having no placeholder. Nothing was built.",
        ),
        (
            Failure::NonUtf8Dependency {
                name: "helper".to_string(),
                path: PathBuf::from_bytes(&b"/w/a\x80".to_vec()),
            },
            true,
            "the path of dependency `helper`, /w/a\u{fffd}, is not valid UTF-8. A Cargo manifest is UTF-8 and cannot name it, so cargo could not find the dependency. Move it to a path that is valid UTF-8. Nothing was built.",
        ),
        (
            Failure::Cargo {
                message: "error: x".to_string(),
            },
            false,
            "cargo could not run the fixture build:\n\nerror: x",
        ),
        (
            Failure::ManifestMismatch {
                handed: path("/w/a/Cargo.toml"),
                reported: path("/w/b/Cargo.toml"),
            },
            false,
            "cargo reported every message against a different spelling of the scratch project's manifest path, so none of them could be attributed to a fixture.\n\n    handed to cargo: /w/a/Cargo.toml\n    reported back:   /w/b/Cargo.toml\n\nBoth name the same file, so this is a difference of spelling rather than of location: a normalization cargo applies that the harness does not. Attribution compares the two as paths, and it has to -- target names are not a namespace, so a dependency is free to have a target named like a fixture's bin.\n\nSetting CARGO_TARGET_DIR to an absolute path is the workaround. The mismatch itself is a bug in this harness, and the two paths above are what it needs to be reported.",
        ),
        (
            Failure::Io {
                context: "could not read x".to_string(),
                message: "gone".to_string(),
            },
            false,
            "could not read x: gone",
        ),
    ]
}

#[test]
fn every_failure_says_what_it_is() {
    for (failure, refuses, text) in every_failure() {
        assert_eq!(failure.message(), text);
        assert_eq!(failure.refuses_the_manifest(), refuses, "{text}");
        assert_eq!(failure.copied().message(), text);
    }
}

/// What cargo said is shown where it said something.
#[test]
fn a_fixture_without_diagnostics_shows_what_cargo_said() {
    let failure = Failure::NoDiagnostics {
        stderr: "error: could not compile\n\n".to_string(),
    };
    assert!(
        failure.message().ends_with(
            "reword the message.\n\ncargo said this. Where it names the rustc command it ran, running that command with its `--error-format` and `--json` flags removed prints the suppressed diagnostic in full -- rustc emits it, and only cargo drops it:\n\nerror: could not compile"
        ),
        "{}",
        failure.message()
    );
}

/// A difference no line shows is named in words, and one that reaches into the
/// standard library carries its hint.
#[test]
fn a_mismatch_carries_the_hints_that_apply() {
    let invisible = mismatch("a\nb", "a\nb\n", Mode::Exact).message();
    assert!(
        invisible.starts_with(
            "diagnostics do not match ui/a.stderr (Exact mode)\n\n--- ui/a.stderr\n+++ actual\n\nthe two texts differ only in characters this diff cannot show"
        ),
        "{invisible}"
    );
    assert!(!invisible.contains("rust-src"), "{invisible}");
    let outside = mismatch("$RUST/a.rs\n", "b\n", Mode::BriefLocal).message();
    assert!(outside.contains("(BriefLocal mode)"), "{outside}");
    assert!(outside.contains("rustup component add rust-src"), "{outside}");
    assert!(!outside.contains("cannot show"), "{outside}");
}

#[test]
fn a_clean_run_counts_its_cases() {
    let outcome = Outcome::new(vec![], vec![held_up("ui/a.rs"), held_up("ui/b.rs")], vec![]);
    assert!(outcome.is_success());
    assert_eq!(outcome.report(), "nocompile: 2 case(s) passed");
    assert!(outcome.failures().is_empty());
    assert_eq!(outcome.panic_message(), None);
}

#[test]
fn a_report_names_every_failure() {
    let outcome = Outcome::new(
        vec![Failure::NothingRegistered],
        vec![
            held_up("ui/a.rs"),
            failed("ui/b.rs", Failure::Compiled),
            failed(
                "ui/c.rs",
                Failure::MissingGolden {
                    golden: path("ui/c.stderr"),
                },
            ),
        ],
        vec![],
    );
    assert!(!outcome.is_success());
    assert_eq!(
        outcome.report(),
        "nocompile: 2 of 3 case(s) failed\n\nSETUP FAILED\n    no fixtures were registered -- the suite would pass without testing anything\n\nFAIL ui/b.rs (compile_fail)\n    expected a compile error, but the fixture compiled\n\nFAIL ui/c.rs (compile_fail)\n    no golden at ui/c.stderr\n    run with NOCOMPILE=overwrite to create it, then read what it captured\n"
    );
    let bad = outcome.failures();
    assert_eq!(bad.len(), 2);
    assert_eq!(bad[0].path(), &path("ui/b.rs"));
    assert_eq!(bad[0].kind(), Kind::CompileFail);
    assert!(bad[0].failure().is_some());
    assert!(outcome.cases()[0].is_success());
    assert!(outcome.cases()[0].failure().is_none());
    assert_eq!(outcome.setup_failures().len(), 1);
    assert_eq!(
        outcome.panic_message(),
        Some(format!("\n{}\n", outcome.report()))
    );
}

/// A clean setup is not enough, and neither are cases that held up.
#[test]
fn a_setup_failure_alone_fails_the_run() {
    let outcome = Outcome::new(
        vec![Failure::NothingRegistered],
        vec![held_up("ui/a.rs")],
        vec![],
    );
    assert!(!outcome.is_success());
    assert!(outcome.report().starts_with("nocompile: 0 of 1 case(s) failed\n"));
}

#[test]
fn a_blessing_run_lists_what_it_wrote() {
    let outcome = Outcome::new(
        vec![],
        vec![],
        vec![path("ui/a.stderr"), path("ui/b.stderr")],
    );
    assert_eq!(outcome.blessed().len(), 2);
    assert_eq!(
        outcome.bless_notice(),
        "nocompile: wrote ui/a.stderr\nnocompile: wrote ui/b.stderr\n"
    );
    assert_eq!(Outcome::new(vec![], vec![], vec![]).bless_notice(), "");
}

/// Where a path on a drive is named whole, it is named as its platform does.
#[test]
fn a_path_on_a_drive_is_named_as_its_platform_does() {
    let at = PathBuf {
        components: vec![
            Component::Prefix(b"C:".to_vec()),
            Component::RootDir,
            Component::Normal(b"w".to_vec()),
            Component::Normal(b"a".to_vec()),
        ],
    };
    assert!(Failure::EmptyDependencyName { path: at.clone() }
        .message()
        .contains("the dependency at C:\\w\\a. "));
    assert!(Failure::NonUtf8Dependency {
        name: "a".to_string(),
        path: at.clone(),
    }
    .message()
    .contains(", C:\\w\\a, "));
    assert!(Failure::ManifestMismatch {
        handed: at.clone(),
        reported: at.clone(),
    }
    .message()
    .contains("handed to cargo: C:\\w\\a\n    reported back:   C:\\w\\a\n"));
    // A golden is named as the registration was, with slashes.
    assert!(Failure::MissingGolden { golden: at }
        .message()
        .starts_with("no golden at C:/w/a\n"));
}
