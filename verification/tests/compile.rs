//! What cargo is asked, and how what it prints is sorted.

use std::collections::BTreeMap;

use nocompile::compile::{
    absorb, cargo, fixture_build, has_changed, host_lockfile, ingest, locate_workspace,
    lock_notice, profile_keys, read_build, same_file, Argument, Build, Command,
};
use nocompile::json::parse;
use nocompile::path::{Component, PathBuf};
use nocompile::scratch::Layout;

const OURS: &str = "/scratch/Cargo.toml";

fn path(text: &str) -> PathBuf {
    PathBuf::new(text)
}

fn empty() -> Build {
    Build::new(String::new())
}

/// Feed `build` one cargo message written the way cargo writes it.
fn feed(build: &mut Build, line: &str) {
    let message = parse(line).expect("valid cargo json");
    absorb(build, &message, &path(OURS));
}

/// `text` as the inside of a JSON string, the way cargo writes it.
///
/// A Windows manifest path is full of `\`, which is an escape on the wire,
/// so interpolating one raw is not the line cargo would have printed.
fn escaped(text: &str) -> String {
    text.replace('\\', "\\\\")
        .replace('"', "\\\"")
        .replace('\n', "\\n")
}

fn message(manifest: &str, target: &str, level: &str, rendered: &str) -> String {
    let (manifest, rendered) = (escaped(manifest), escaped(rendered));
    format!(
        r#"{{"reason":"compiler-message","manifest_path":"{manifest}","target":{{"name":"{target}"}},"message":{{"level":"{level}","rendered":"{rendered}"}}}}"#
    )
}

fn artifact(manifest: &str, target: &str) -> String {
    let manifest = escaped(manifest);
    format!(
        r#"{{"reason":"compiler-artifact","manifest_path":"{manifest}","target":{{"name":"{target}"}}}}"#
    )
}

#[test]
fn files_a_diagnostic_under_its_own_target() {
    let mut build = empty();
    feed(&mut build, &message(OURS, "f_a", "error", "error: one\n"));
    feed(&mut build, &message(OURS, "f_b", "error", "error: two\n"));
    feed(
        &mut build,
        &message(OURS, "f_a", "warning", "warning: three\n"),
    );

    assert_eq!(build.diagnostics("f_a"), "error: one\nwarning: three\n");
    assert_eq!(build.diagnostics("f_b"), "error: two\n");
    assert_eq!(build.diagnostics("f_missing"), "");
}

#[test]
fn drops_the_explain_footer() {
    // `For more information about this error...` is about the run, not the
    // code, and would otherwise be blessed into every golden.
    let mut build = empty();
    feed(
        &mut build,
        &message(OURS, "f_a", "failure-note", "For more information...\n"),
    );
    assert_eq!(build.diagnostics("f_a"), "");
}

#[test]
fn an_artifact_is_what_proves_a_target_compiled() {
    let mut build = empty();
    feed(&mut build, &artifact(OURS, "f_a"));
    assert!(build.compiled("f_a"));
    // Not merely "produced no errors": a target cargo never reached also
    // produces none.
    assert!(!build.compiled("f_b"));
}

/// Target names are not a namespace. A declared dependency is free to be
/// called the same thing as a generated bin, and its artifact must not stand
/// as proof that the fixture compiled -- that would pass a `pass` fixture
/// that never built, and report a `compile_fail` fixture as compiling.
#[test]
fn another_packages_artifact_is_not_evidence_about_a_fixture() {
    let mut build = empty();
    feed(&mut build, &artifact("/elsewhere/Cargo.toml", "f_a"));
    assert!(!build.compiled("f_a"));
}

/// Cargo forwards anything a proc macro prints to stdout into this stream.
#[test]
fn a_forged_artifact_without_our_manifest_is_ignored() {
    let mut build = empty();
    feed(
        &mut build,
        r#"{"reason":"compiler-artifact","target":{"name":"f_a"}}"#,
    );
    assert!(!build.compiled("f_a"));
}

#[test]
fn another_packages_diagnostic_does_not_reach_a_fixture() {
    let mut build = empty();
    feed(
        &mut build,
        &message("/elsewhere/Cargo.toml", "helper", "error", "error: dep\n"),
    );
    assert_eq!(build.diagnostics("helper"), "");
}

/// A dependency that will not build leaves every fixture with nothing. Its
/// errors are the only description of what actually happened.
#[test]
fn a_dependency_failure_is_reported_rather_than_discarded() {
    let mut build = empty();
    feed(
        &mut build,
        &message("/elsewhere/Cargo.toml", "helper", "error", "error: dep\n"),
    );
    assert_eq!(build.nothing_built().as_deref(), Some("error: dep"));
}

/// Nothing built and no other package to blame is not a failure of the run:
/// it is every fixture failing with diagnostics cargo suppressed, and it is
/// reported on each fixture, where the reader can act on it.
#[test]
fn nothing_built_stays_quiet_when_no_other_package_explains_it() {
    let build = Build::new("error: could not compile `scratch` (bin \"f_a\")\n".to_string());
    assert_eq!(build.nothing_built(), None);
}

#[test]
fn nothing_built_stays_quiet_when_something_was() {
    let mut build = empty();
    feed(
        &mut build,
        &message("/elsewhere/Cargo.toml", "helper", "error", "error: dep\n"),
    );
    feed(&mut build, &message(OURS, "f_a", "error", "error: mine\n"));
    assert_eq!(build.nothing_built(), None);

    let mut build = empty();
    feed(&mut build, &artifact(OURS, "f_a"));
    assert_eq!(build.nothing_built(), None);
}

#[test]
fn build_finished_is_what_says_cargo_got_that_far() {
    let mut build = empty();
    assert!(!build.started());
    feed(&mut build, r#"{"reason":"build-finished","success":false}"#);
    assert!(build.started());
}

#[test]
fn unknown_reasons_are_ignored() {
    let mut build = empty();
    feed(&mut build, r#"{"reason":"build-script-executed"}"#);
    feed(&mut build, r#"{"no-reason-at-all":1}"#);
    assert!(build.is_detached());
}

/// The mismatch is a claim about *our* manifest, so a package that really is
/// somewhere else must not be mistaken for one. Otherwise a dependency that
/// fails to build -- the case `nothing_built` exists for -- would be
/// reported as a harness bug.
#[test]
fn another_packages_manifest_is_not_a_mismatch() {
    // Neither path canonicalizes, and `same_file` answers no rather than
    // treating two failures as a match.
    let ours = path(OURS);
    let mut build = empty();
    feed(
        &mut build,
        &message("/elsewhere/Cargo.toml", "dep", "error", "e\n"),
    );
    assert_eq!(build.manifest_mismatch(&ours, &None, &vec![None]), None);
}

/// Cargo forwards anything a proc macro prints to stdout into this stream.
/// Those lines are not cargo's JSON and are skipped, which is right: a
/// `println!` left in a derive has nothing to do with the fixtures, and the
/// messages around it are still read.
#[test]
fn a_line_that_is_not_cargos_json_is_skipped() {
    let mut build = empty();
    let stdout = format!(
        "debugging my derive\n{}\nnoise: {{not a message\n",
        message(OURS, "f_a", "error", "error: x\n")
    );
    ingest(&mut build, &stdout, &path(OURS)).expect("cargo json still parses");
    assert_eq!(build.diagnostics("f_a"), "error: x\n");
}

/// Skipping a whole line is only safe while cargo keeps its own messages on
/// lines of their own, which cargo does not document. Cargo 1.98 terminates
/// forwarded output that has no trailing newline, so this does not arise --
/// but a diagnostic silently missing from a golden is what it would cost,
/// which is too quiet a failure to leave to an undocumented behaviour
/// staying put. The message is read from where it begins instead.
#[test]
fn a_message_with_something_in_front_of_it_is_still_read() {
    let mut build = empty();
    let stdout = format!("hi{}\n", message(OURS, "f_a", "error", "error: x\n"));
    ingest(&mut build, &stdout, &path(OURS)).expect("the buried message parses");
    assert_eq!(build.diagnostics("f_a"), "error: x\n");
}

/// Recovery goes no further than "the rest of this line is a whole cargo
/// message". Anything less is ordinary output that happened to look like
/// one, and failing the run over a proc macro's debug print would be a worse
/// answer than the skip it replaced.
#[test]
fn output_that_only_resembles_a_message_is_skipped_rather_than_failing() {
    let mut build = empty();
    for line in [
        "pm debug: {\"reason\":\"compiler-message\"} and then some prose\n",
        "pm debug: {\"reason\":\n",
        "pm debug: {\"reason\":\"build-finished\",\"success\":true}\n",
    ] {
        ingest(&mut build, line, &path(OURS)).expect("not a failure of the run");
    }
    // The third line *is* a whole message, and an unknown-shaped one is
    // ignored the same way it would be at the start of a line -- but a proc
    // macro could forge one, exactly as it could by printing it unprefixed.
    // `manifest_path` is what guards attribution, here as everywhere.
    assert!(build.is_detached());
}

/// The check looks for a cargo message, not for a brace, so ordinary output
/// that happens to contain JSON-ish text is still skipped quietly -- in the
/// middle of a line or at the start of one, and valid JSON or not.
#[test]
fn other_text_that_is_not_a_message_is_still_skipped() {
    let mut build = empty();
    ingest(
        &mut build,
        "look: {\"a\":1} and {\"level\":\"error\"}\n\
         {\"level\": 3}\n\
         {\"a\":1} {\"level\":\"error\"}\n\
         {not json at all\n",
        &path(OURS),
    )
    .expect("nothing here is a cargo message");
    assert!(build.is_detached());
}

/// A derive printing a map with `{:?}` writes a line that opens with a brace and is not JSON. It is the
/// macro's output, not cargo's, and the messages around it are still read.
#[test]
fn a_debug_printed_map_at_the_start_of_a_line_is_skipped() {
    let mut build = empty();
    let stdout = format!(
        "{{1: \"a\"}}\n{}\n{{}}\n",
        message(OURS, "f_a", "error", "error: x\n")
    );
    ingest(&mut build, &stdout, &path(OURS)).expect("not a failure of the run");
    assert_eq!(build.diagnostics("f_a"), "error: x\n");
}

/// A message forwarded output ran into is still recovered when that output
/// opens with a brace, exactly as when it opens with anything else.
#[test]
fn a_message_behind_brace_led_output_is_still_read() {
    let mut build = empty();
    let stdout = format!(
        "{{1: \"a\"}}{}\n",
        message(OURS, "f_a", "error", "error: x\n")
    );
    ingest(&mut build, &stdout, &path(OURS)).expect("the buried message parses");
    assert_eq!(build.diagnostics("f_a"), "error: x\n");
}

/// A line that opens like a cargo message but will not parse is a different
/// matter: the alternative to failing is a silently short golden.
#[test]
fn a_broken_cargo_message_still_fails_the_run() {
    let mut build = empty();
    let error = ingest(&mut build, "{\"reason\":\n", &path(OURS))
        .expect_err("should not be guessed at");
    assert!(
        error.contains("could not parse cargo's JSON"),
        "{error}"
    );
}

/// Attribution compares manifest paths by their names, so two spellings of one
/// file detach every message from every fixture at once.
#[test]
fn one_manifest_under_two_spellings_is_recognized() {
    let ours = path("/target/mismatch/project/Cargo.toml");
    let theirs = "/target/mismatch/project/../project/Cargo.toml";

    let mut build = empty();
    let line = message(theirs, "f_a", "error", "error: x\n");
    let parsed = parse(&line).expect("valid cargo json");
    absorb(&mut build, &parsed, &ours);

    assert_eq!(build.manifests_to_check(), [theirs]);
    let file = Some(path("/target/mismatch/project/Cargo.toml"));
    let (handed, reported) = build
        .manifest_mismatch(&ours, &file, &vec![file.clone()])
        .expect("a mismatch");
    assert_eq!(handed, ours);
    assert_eq!(reported, path(theirs));
}

/// Anything attributed at all rules the mismatch out: a single spelling
/// difference detaches everything, so a run with attributed messages cannot
/// be one.
#[test]
fn a_mismatch_is_not_claimed_when_something_was_attributed() {
    let ours = path("/target/attributed/project/Cargo.toml");
    let theirs = "/target/attributed/project/../project/Cargo.toml";

    let mut build = empty();
    for line in [
        message(theirs, "f_a", "error", "error: x\n"),
        message(&ours.display(), "f_b", "error", "error: y\n"),
    ] {
        let parsed = parse(&line).expect("valid cargo json");
        absorb(&mut build, &parsed, &ours);
    }
    assert!(build.manifests_to_check().is_empty());
    let file = Some(ours.clone());
    assert_eq!(
        build.manifest_mismatch(&ours, &file, &vec![file.clone()]),
        None
    );
}

/// The first manifest in order that is the same file is the one reported.
#[test]
fn the_first_matching_manifest_in_order_is_reported() {
    let ours = path(OURS);
    let mut build = empty();
    for manifest in ["/z/Cargo.toml", "/b/Cargo.toml", "/a/Cargo.toml", "/b/Cargo.toml"] {
        feed(&mut build, &message(manifest, "t", "error", "e\n"));
    }
    assert_eq!(
        build.manifests_to_check(),
        ["/a/Cargo.toml", "/b/Cargo.toml", "/z/Cargo.toml"]
    );
    let file = Some(path("/real/Cargo.toml"));
    let found = build.manifest_mismatch(&ours, &file, &vec![None, file.clone(), file.clone()]);
    assert_eq!(found, Some((ours, path("/b/Cargo.toml"))));
}

#[test]
fn only_two_canonical_paths_can_be_one_file() {
    let a = Some(path("/a"));
    assert!(same_file(&a, &Some(path("/a"))));
    assert!(!same_file(&a, &Some(path("/b"))));
    assert!(!same_file(&a, &None));
    assert!(!same_file(&None, &None));
}

// ---------------------------------------------------------------------------
// The environment.
// ---------------------------------------------------------------------------

fn keys(names: &[&str]) -> Vec<String> {
    let names: Vec<Vec<u8>> = names.iter().map(|name| name.as_bytes().to_vec()).collect();
    profile_keys(&names)
        .into_iter()
        .map(|key| String::from_utf8(key).expect("utf-8"))
        .collect()
}

#[test]
fn every_profile_key_is_swept_whatever_its_profile_or_setting() {
    assert_eq!(
        keys(&[
            "CARGO_PROFILE_DEV_DEBUG_ASSERTIONS",
            "CARGO_PROFILE_DEV_OPT_LEVEL",
            "CARGO_PROFILE_RELEASE_PANIC",
            // Not a key this harness knows about, which is the point of
            // matching a prefix rather than a list.
            "CARGO_PROFILE_DEV_SOMETHING_CARGO_ADDS_LATER",
        ]),
        [
            "CARGO_PROFILE_DEV_DEBUG_ASSERTIONS",
            "CARGO_PROFILE_DEV_OPT_LEVEL",
            "CARGO_PROFILE_RELEASE_PANIC",
            "CARGO_PROFILE_DEV_SOMETHING_CARGO_ADDS_LATER",
        ]
    );
}

#[test]
fn variables_that_are_not_profile_settings_are_left_alone() {
    assert!(
        keys(&[
            "CARGO",
            "CARGO_HOME",
            "CARGO_PKG_NAME",
            "RUSTC",
            "RUSTUP_TOOLCHAIN",
            "CARGO_BUILD_TARGET",
            "PATH",
            "NOT_CARGO_PROFILE_DEV_DEBUG",
        ])
        .is_empty()
    );
}

/// A key that is not UTF-8 is not one cargo reads, and is left alone.
#[test]
fn a_key_that_is_not_utf8_is_not_a_profile_key() {
    assert!(profile_keys(&vec![b"CARGO_PROFILE_DEV_\xff".to_vec()]).is_empty());
}

/// A host triple, for the tests below. Not this machine's: which branch a
/// test takes must not depend on where it runs.
const A_HOST: &str = "x86_64-unknown-linux-gnu";

fn scratch_layout(name: &str) -> Layout {
    Layout::new(&path("/w/target"), name)
}

/// The fixture build for a suite built for the host, in a process whose
/// environment holds exactly `inherited`.
fn fixture_build_inheriting(inherited: &[&str]) -> (Layout, Command) {
    let layout = scratch_layout("fixture-build");
    let inherited: Vec<Vec<u8>> = inherited.iter().map(|key| key.as_bytes().to_vec()).collect();
    let command = fixture_build(cargo(None), &layout, &inherited, A_HOST, A_HOST);
    (layout, command)
}

/// Every change the command makes to the environment it inherits: `None`
/// for a variable removed, `Some` for one set. A variable it leaves alone is
/// absent.
fn environment(command: &Command) -> BTreeMap<String, Option<String>> {
    command
        .environment
        .iter()
        .map(|edit| {
            (
                String::from_utf8(edit.key.clone()).expect("utf-8"),
                edit.value.clone(),
            )
        })
        .collect()
}

fn arguments(command: &Command) -> Vec<String> {
    command
        .arguments
        .iter()
        .map(|argument| match argument {
            Argument::Text(text) => text.clone(),
            Argument::Path(path) => path.display(),
        })
        .collect()
}

/// Asserted whole: a variable this starts setting or removing is a change to
/// what the goldens depend on, and should have to say so here.
#[test]
fn the_fixture_build_clears_every_inherited_flag_and_profile_key() {
    let (_, command) = fixture_build_inheriting(&[
        "PATH",
        "RUSTFLAGS",
        "CARGO_BUILD_RUSTFLAGS",
        "CARGO_ENCODED_RUSTFLAGS",
        "CARGO_TARGET_DIR",
        "CARGO_PROFILE_DEV_DEBUG_ASSERTIONS",
        "CARGO_PROFILE_DEV_OPT_LEVEL",
        "CARGO_PROFILE_RELEASE_PANIC",
        // Both inherited and set by the harness. The harness's setting is the
        // one that must survive, which it does only if the sweep runs first.
        "CARGO_PROFILE_DEV_DEBUG",
        "CARGO_INCREMENTAL",
    ]);

    let removed = None;
    let set = |value: &str| Some(value.to_string());
    let expected = BTreeMap::from([
        ("RUSTFLAGS".to_string(), removed.clone()),
        ("CARGO_BUILD_RUSTFLAGS".to_string(), removed.clone()),
        // Empty rather than removed: that is what overrides a discovered
        // `[build] rustflags`.
        ("CARGO_ENCODED_RUSTFLAGS".to_string(), set("")),
        ("CARGO_TARGET_DIR".to_string(), removed.clone()),
        (
            "CARGO_PROFILE_DEV_DEBUG_ASSERTIONS".to_string(),
            removed.clone(),
        ),
        ("CARGO_PROFILE_DEV_OPT_LEVEL".to_string(), removed.clone()),
        ("CARGO_PROFILE_RELEASE_PANIC".to_string(), removed.clone()),
        ("CARGO_PROFILE_DEV_DEBUG".to_string(), set("none")),
        ("CARGO_INCREMENTAL".to_string(), set("0")),
    ]);
    assert_eq!(environment(&command), expected);
}

/// The flags and variables a user's shell is most likely to carry are
/// cleared whether or not the harness saw them, so the guarantee does not
/// rest on the environment it was handed being complete.
#[test]
fn the_fixture_build_clears_flags_it_was_not_told_about() {
    let (_, command) = fixture_build_inheriting(&[]);
    let environment = environment(&command);
    for key in ["RUSTFLAGS", "CARGO_BUILD_RUSTFLAGS", "CARGO_TARGET_DIR"] {
        assert_eq!(environment.get(key), Some(&None), "{key}");
    }
    assert_eq!(
        environment.get("CARGO_ENCODED_RUSTFLAGS"),
        Some(&Some(String::new()))
    );
}

/// What selects the compiler, the target, and the features they have is
/// inherited untouched, so that the fixtures build with the toolchain the crate
/// under test does.
#[test]
fn the_fixture_build_leaves_the_toolchain_to_inherit() {
    const TOOLCHAIN: [&str; 8] = [
        "RUSTC",
        "RUSTUP_TOOLCHAIN",
        "CARGO_BUILD_TARGET",
        "RUSTC_BOOTSTRAP",
        "CARGO_UNSTABLE_BUILD_STD",
        "RUSTC_WRAPPER",
        "RUSTC_WORKSPACE_WRAPPER",
        "CARGO_BUILD_RUSTC_WRAPPER",
    ];
    let (_, command) = fixture_build_inheriting(&TOOLCHAIN);
    let environment = environment(&command);
    for key in TOOLCHAIN {
        assert_eq!(environment.get(key), None, "{key}");
    }
}

#[test]
fn the_fixture_build_compiles_every_fixture_into_the_scratch_target_dir() {
    let (layout, command) = fixture_build_inheriting(&[]);
    let manifest = layout.manifest();
    let expected = [
        "build",
        "--bins",
        "--keep-going",
        "--message-format=json",
        "--quiet",
        "--color=never",
        "--offline",
        "--target-dir",
        &layout.target.display(),
        "--manifest-path",
        &manifest.display(),
    ];
    assert_eq!(arguments(&command), expected);
    assert_eq!(command.current_dir, layout.project);
}

/// A suite cross-compiled with `cargo test --target <triple>` has its
/// fixtures built for that triple.
#[test]
fn a_suite_built_for_another_target_builds_its_fixtures_for_it() {
    let layout = scratch_layout("fixture-build");
    let command = fixture_build(
        cargo(None),
        &layout,
        &Vec::new(),
        "thumbv7em-none-eabihf",
        A_HOST,
    );
    let arguments = arguments(&command);
    let named: Vec<_> = arguments
        .windows(2)
        .filter(|pair| pair[0] == "--target")
        .map(|pair| pair[1].as_str())
        .collect();
    assert_eq!(named, ["thumbv7em-none-eabihf"], "{arguments:?}");
}

/// A suite built for the host names no target. Naming even the host's would
/// move the scratch build's output under a triple component a diagnostic
/// can quote, and make every host golden specific to the machine that
/// blessed it.
#[test]
fn a_suite_built_for_the_host_names_no_target() {
    let (_, command) = fixture_build_inheriting(&[]);
    let arguments = arguments(&command);
    assert!(
        !arguments.iter().any(|argument| argument == "--target"),
        "{arguments:?}"
    );
}

#[test]
fn cargo_is_the_configured_one_or_the_bare_name() {
    assert_eq!(cargo(Some(b"/opt/cargo".to_vec())), b"/opt/cargo");
    assert_eq!(cargo(None), b"cargo");
}

/// The lockfile is the one beside the workspace manifest cargo printed.
#[test]
fn the_host_lockfile_is_beside_the_workspace_manifest() {
    assert_eq!(
        host_lockfile(true, "/w/workspace/Cargo.toml\n", &path("/w/workspace/member")),
        Some(path("/w/workspace/Cargo.lock"))
    );
    assert_eq!(host_lockfile(false, "", &path("/w")), None);
    let command = locate_workspace(cargo(None), &path("/w/workspace/member"));
    assert_eq!(
        arguments(&command),
        ["locate-project", "--workspace", "--message-format", "plain"]
    );
    assert_eq!(command.current_dir, path("/w/workspace/member"));
    assert!(command.environment.is_empty());
}

#[test]
fn the_wait_notice_names_the_lock_file() {
    assert_eq!(
        lock_notice(&scratch_layout("lock-wait")),
        "nocompile: waiting for another nocompile run to finish (lock file: \
         /w/target/nocompile-scratch/lock-wait/.lock)\n"
    );
}

#[test]
fn a_file_is_written_only_where_it_differs() {
    assert!(has_changed(&None, "a"));
    assert!(has_changed(&Some("b".to_string()), "a"));
    assert!(!has_changed(&Some("a".to_string()), "a"));
}

/// A broken message ends the reading with what came before it filed.
#[test]
fn what_came_before_a_broken_message_is_still_filed() {
    let mut build = empty();
    let stdout = format!(
        "{}\n{{\"reason\":\n{}\n",
        message(OURS, "f_a", "error", "error: x\n"),
        message(OURS, "f_b", "error", "error: y\n")
    );
    let error = ingest(&mut build, &stdout, &path(OURS)).expect_err("broken");
    assert_eq!(
        error,
        "could not parse cargo's JSON output: not a JSON value"
    );
    assert_eq!(build.diagnostics("f_a"), "error: x\n");
    assert_eq!(build.diagnostics("f_b"), "");
    assert!(read_build(&stdout, String::new(), &path(OURS)).is_err());
}

#[test]
fn a_whole_build_is_read_with_cargos_stderr() {
    let stdout = format!(
        "{}\n{}\n",
        artifact(OURS, "f_a"),
        r#"{"reason":"build-finished","success":true}"#
    );
    let build = read_build(&stdout, "cargo said\n".to_string(), &path(OURS)).expect("a build");
    assert!(build.started());
    assert!(build.compiled("f_a"));
    assert_eq!(build.stderr(), "cargo said\n");
}

/// A path on a drive, whose separators lean the other way.
fn on_drive(names: &[&str]) -> PathBuf {
    let mut components = vec![Component::Prefix(b"C:".to_vec()), Component::RootDir];
    for name in names {
        components.push(Component::Normal(name.as_bytes().to_vec()));
    }
    PathBuf { components }
}

/// A manifest on a drive is ours whichever way cargo spells its separators.
#[test]
fn a_manifest_path_on_a_drive_is_recognized() {
    let manifest = on_drive(&["w", "project", "Cargo.toml"]);
    for spelling in [r"C:\w\project\Cargo.toml", r"C:/w/project\Cargo.toml"] {
        let mut build = empty();
        let line = artifact(spelling, "f_a");
        absorb(&mut build, &parse(&line).expect("valid cargo json"), &manifest);
        assert!(build.compiled("f_a"), "{spelling}");
    }
    for spelling in [r"D:\w\project\Cargo.toml", r"C:\w\other\Cargo.toml"] {
        let mut build = empty();
        let line = artifact(spelling, "f_a");
        absorb(&mut build, &parse(&line).expect("valid cargo json"), &manifest);
        assert!(!build.compiled("f_a"), "{spelling}");
    }
    assert_eq!(
        host_lockfile(true, "C:\\w\\Cargo.toml\r\n", &on_drive(&["w", "member"])),
        Some(on_drive(&["w", "Cargo.lock"]))
    );
    // Where paths have no prefix, a backslash is part of a name.
    assert_eq!(
        PathBuf::like("a\\b/c", &path("/w")).components,
        path("a\\b/c").components
    );
    assert_eq!(path("a\\b/c").components.len(), 2);
}
