//! Whole runs of a suite, in a world that is only imagined: its files are kept
//! in memory, and cargo answers each fixture as the test says it would.

use std::collections::{HashMap, HashSet};

use nocompile::cases::{Entry, Listing};
use nocompile::path::{Component, PathBuf, Spelled};
use nocompile::run::{Contents, Found, Output, Scan, Step, Surroundings, Task, What};
use nocompile::scratch::Layout;
use nocompile::{Failure, Mode, Outcome, TestCases};

fn path(text: &str) -> PathBuf {
    PathBuf::new(text)
}

/// A fixture that cannot compile, for a reason rustc has spelled the same way
/// for many releases.
const REJECTED: &str = "fn main() {\n    let _x: u8 = \"not a u8\";\n}\n";

/// What rustc says of it, `{bin}` being the crate it is compiled as.
const REJECTION: &str = r#"error[E0308]: mismatched types
 --> src/bin/{bin}.rs:2:18
  |
2 |     let _x: u8 = "not a u8";
  |             --   ^^^^^^^^^^ expected `u8`, found `&str`
  |             |
  |             expected due to this

"#;

/// A fixture that compiles cleanly, with no warnings to leak into a golden.
const ACCEPTED: &str = "fn main() {\n    let _x: u8 = 0;\n    println!(\"{_x}\");\n}\n";

/// A fixture broken in another way.
const UNDEFINED: &str = "fn main() {\n    undefined_function();\n}\n";

const UNDEFINED_REJECTION: &str = r#"error[E0425]: cannot find function `undefined_function` in this scope
 --> src/bin/{bin}.rs:2:5
  |
2 |     undefined_function();
  |     ^^^^^^^^^^^^^^^^^^ not found in this scope

"#;

const NO_SUCH_FILE: &str = "No such file or directory (os error 2)";

/// What compiling a fixture comes to.
#[derive(Clone)]
enum Verdict {
    /// An artifact.
    Compiles,
    /// An error, rendered.
    Fails(String),
    /// No artifact and no diagnostic either.
    Suppressed,
}

/// A host crate and everything around it.
struct World {
    dir: PathBuf,
    package: String,
    files: HashMap<PathBuf, String>,
    directories: Vec<PathBuf>,
    /// What compiling a source comes to.
    verdicts: HashMap<String, Verdict>,
    /// What compiling a source comes to under one edition in particular.
    verdicts_under: HashMap<(String, String), Verdict>,
    /// Messages of other packages: manifest, level, text.
    elsewhere: Vec<(String, String, String)>,
    /// Whether a dependency stops the build short of the fixtures.
    stuck: bool,
    /// The lockfile of the host's workspace, where there is one.
    lockfile: Option<PathBuf>,
    /// The manifest path cargo reports, where it spells it differently.
    spelling: Option<String>,
    /// Every path written, in order.
    written: Vec<PathBuf>,
    locked: bool,
    /// Tasks that fail.
    broken: HashSet<PathBuf>,
    overwrite: Option<String>,
}

impl World {
    fn new(name: &str) -> World {
        let mut world = World {
            dir: path("/w/selftest").child(name),
            package: name.to_string(),
            files: HashMap::new(),
            directories: Vec::new(),
            verdicts: HashMap::new(),
            verdicts_under: HashMap::new(),
            elsewhere: Vec::new(),
            stuck: false,
            lockfile: None,
            spelling: None,
            written: Vec::new(),
            locked: false,
            broken: HashSet::new(),
            overwrite: None,
        };
        world.compiles(ACCEPTED);
        world.fails(REJECTED, REJECTION);
        world.fails(UNDEFINED, UNDEFINED_REJECTION);
        world
    }

    fn at(&self, relative: &str) -> PathBuf {
        nocompile::path::lexical_join(&self.dir, &path(relative))
    }

    fn write(&mut self, relative: &str, contents: &str) {
        let at = self.at(relative);
        self.files.insert(at, contents.to_string());
    }

    fn read(&self, relative: &str) -> String {
        self.files
            .get(&self.at(relative))
            .expect("the file is there")
            .clone()
    }

    fn holds(&self, relative: &str) -> bool {
        self.files.contains_key(&self.at(relative))
    }

    fn compiles(&mut self, source: &str) {
        self.verdicts.insert(source.to_string(), Verdict::Compiles);
    }

    fn fails(&mut self, source: &str, rendered: &str) {
        self.verdicts
            .insert(source.to_string(), Verdict::Fails(rendered.to_string()));
    }

    fn cases(&self) -> TestCases {
        TestCases::new(self.dir.copied(), &self.package)
    }

    fn layout(&self) -> Layout {
        Layout::new(&self.dir.child("target"), &self.package)
    }

    fn surroundings(&self) -> Surroundings {
        Surroundings {
            target_dir: None,
            executable: None,
            overwrite: self.overwrite.clone(),
            cargo_home: Some(path("/home/me/.cargo")),
            fold: false,
        }
    }

    /// The names in a directory, and whether each is a directory.
    fn children(&self, directory: &PathBuf) -> Option<Vec<(Vec<u8>, bool)>> {
        let mut names: Vec<(Vec<u8>, bool)> = Vec::new();
        let mut there = self.directories.contains(directory);
        for file in self.files.keys() {
            if let Some(rest) = file.strip_prefix(directory) {
                there = true;
                if let Some(Component::Normal(name)) = rest.components.first() {
                    let entry = (name.clone(), rest.components.len() > 1);
                    if !names.contains(&entry) {
                        names.push(entry);
                    }
                }
            }
        }
        if there {
            Some(names)
        } else {
            None
        }
    }

    /// What registering a directory reads.
    fn listing(&self, relative: &str) -> Listing {
        match self.children(&self.at(relative)) {
            None => Listing::Unreadable(NO_SUCH_FILE.to_string()),
            Some(names) => Listing::Entries(
                names
                    .into_iter()
                    .map(|(name, is_directory)| Entry {
                        name,
                        is_file: !is_directory,
                    })
                    .collect(),
            ),
        }
    }

    fn scan(&self, directory: &PathBuf) -> Scan {
        match self.children(directory) {
            None => Scan::Unreadable(NO_SUCH_FILE.to_string()),
            Some(names) => Scan::Entries(
                names
                    .into_iter()
                    .map(|(name, is_directory)| Found {
                        name,
                        what: if is_directory {
                            What::Directory
                        } else {
                            What::File
                        },
                    })
                    .collect(),
                None,
            ),
        }
    }

    fn perform(&mut self, task: Task) -> Result<(), String> {
        let (at, contents) = match task {
            Task::Lock(layout) => {
                if self.broken.contains(&layout.root) {
                    return Err("Permission denied (os error 13)".to_string());
                }
                self.locked = true;
                return Ok(());
            }
            Task::CreateDirectory(at) => {
                if self.broken.contains(&at) {
                    return Err("Permission denied (os error 13)".to_string());
                }
                self.directories.push(at);
                return Ok(());
            }
            Task::WriteIfChanged(at, contents) | Task::Write(at, contents) => (at, contents),
        };
        assert!(self.locked, "written before the lock was taken");
        if self.broken.contains(&at) {
            return Err("Permission denied (os error 13)".to_string());
        }
        self.written.push(at.copied());
        self.files.insert(at, contents);
        Ok(())
    }

    fn contents(&self, at: &PathBuf) -> Contents {
        if self.broken.contains(at) {
            return Contents::Unreadable("Permission denied (os error 13)".to_string());
        }
        match self.files.get(at) {
            Some(text) => Contents::Text(text.clone()),
            None => Contents::Missing(NO_SUCH_FILE.to_string()),
        }
    }

    /// The one `cargo build` of a run.
    fn cargo(&self, layout: &Layout) -> Output {
        let manifest = self
            .files
            .get(&layout.manifest())
            .expect("the manifest was written");
        if manifest.contains("this is not valid toml [[[") {
            return Output {
                stdout: String::new(),
                stderr: "error: key with no value, expected `=`\n  --> Cargo.toml:20:6\n\n"
                    .to_string(),
            };
        }
        let edition = quoted(manifest, "edition = ");
        let ours = match &self.spelling {
            Some(spelling) => spelling.clone(),
            None => layout.manifest().display(),
        };
        let mut stdout = String::new();
        let mut stderr = String::new();
        for (from, level, rendered) in &self.elsewhere {
            stdout.push_str(&message(from, "helper", level, rendered));
        }
        for bin in manifest.split("[[bin]]\n").skip(1) {
            if self.stuck {
                break;
            }
            let bin = quoted(bin, "name = ");
            let source = self
                .files
                .get(&layout.bin_path(&bin))
                .expect("the fixture was staged");
            let under = self.verdicts_under.get(&(edition.clone(), source.clone()));
            let verdict = match under {
                Some(verdict) => verdict,
                None => self
                    .verdicts
                    .get(source)
                    .unwrap_or_else(|| panic!("nobody said what becomes of:\n{source}")),
            };
            match verdict {
                Verdict::Compiles => stdout.push_str(&artifact(&ours, &bin)),
                Verdict::Fails(rendered) => {
                    let rendered = rendered.replace("{bin}", &bin);
                    stdout.push_str(&message(&ours, &bin, "error", &rendered));
                    stdout.push_str(&message(
                        &ours,
                        &bin,
                        "failure-note",
                        "For more information about this error, try `rustc --explain`.\n",
                    ));
                }
                Verdict::Suppressed => stderr.push_str(&format!(
                    "error: could not compile `nocompile-scratch` (bin \"{bin}\") due to 1 previous error\n"
                )),
            }
        }
        stdout.push_str("{\"reason\":\"build-finished\",\"success\":false}\n");
        Output { stdout, stderr }
    }
}

/// What stands between the quotes behind `key`.
fn quoted(text: &str, key: &str) -> String {
    let start = text.find(key).expect("the key is there") + key.len() + 1;
    let rest = &text[start..];
    rest[..rest.find('"').expect("a closing quote")].to_string()
}

fn escaped(text: &str) -> String {
    text.replace('\\', "\\\\")
        .replace('"', "\\\"")
        .replace('\n', "\\n")
}

fn message(manifest: &str, target: &str, level: &str, rendered: &str) -> String {
    let (manifest, rendered) = (escaped(manifest), escaped(rendered));
    format!(
        "{{\"reason\":\"compiler-message\",\"manifest_path\":\"{manifest}\",\"target\":{{\"name\":\"{target}\"}},\"message\":{{\"level\":\"{level}\",\"rendered\":\"{rendered}\"}}}}\n"
    )
}

fn artifact(manifest: &str, target: &str) -> String {
    let manifest = escaped(manifest);
    format!(
        "{{\"reason\":\"compiler-artifact\",\"manifest_path\":\"{manifest}\",\"target\":{{\"name\":\"{target}\"}}}}\n"
    )
}

/// Run a suite to its end.
fn run(suite: &TestCases, world: &mut World) -> Outcome {
    world.locked = false;
    let mut step = suite.run(&world.surroundings());
    loop {
        step = match step {
            Step::List(walking) => {
                let scan = world.scan(walking.directory());
                walking.listed(&scan)
            }
            Step::Do(doing) => {
                let result = world.perform(doing.task());
                doing.done(result)
            }
            Step::Read(reading) => {
                let contents = world.contents(&reading.path());
                reading.read(contents)
            }
            Step::Find(finding) => {
                assert_eq!(finding.manifest_dir(), &world.dir);
                finding.found(Ok(world.lockfile.clone()))
            }
            Step::Build(building) => {
                let output = world.cargo(building.layout());
                building.built(Ok(output))
            }
            Step::Resolve(resolving) => {
                // Every path is its own canonical form here, but for the
                // spelling cargo reported.
                let ours = Some(resolving.handed());
                let theirs = resolving
                    .manifests()
                    .iter()
                    .map(|manifest| match &world.spelling {
                        Some(spelling) if spelling == manifest => Some(resolving.handed()),
                        _ => Some(path(manifest)),
                    })
                    .collect();
                resolving.resolved(&ours, &theirs)
            }
            Step::Done(outcome) => return outcome,
        };
    }
}

/// The single failure of a one-case run.
fn sole_failure(outcome: &Outcome) -> &Failure {
    assert!(
        outcome.setup_failures().is_empty(),
        "unexpected setup failure:\n{}",
        outcome.report()
    );
    assert_eq!(outcome.cases().len(), 1, "expected exactly one case");
    outcome.cases()[0]
        .failure()
        .unwrap_or_else(|| panic!("expected the case to fail, but it passed"))
}

fn assert_passed(outcome: &Outcome) {
    assert!(
        outcome.is_success(),
        "expected a pass:\n{}",
        outcome.report()
    );
}

/// A fixture that fails to compile, with a correct golden, passes.
#[test]
fn a_rejected_fixture_with_a_correct_golden_passes() {
    let mut world = World::new("correct-golden");
    world.write("ui/rejected.rs", REJECTED);

    let mut t = world.cases();
    t.compile_fail(&path("ui/rejected.rs"));

    // Bless, then read what it captured.
    assert_passed(&run(t.overwrite(true), &mut world));
    let golden = world.read("ui/rejected.stderr");
    assert!(
        golden.contains("error[E0308]: mismatched types"),
        "{golden}"
    );
    assert!(
        golden.contains("--> ui/rejected.rs:2:18"),
        "the span should point at the fixture, not the scratch project:\n{golden}"
    );
    assert!(
        !golden.contains("nocompile-scratch") && !golden.contains("src/bin/"),
        "the scratch project leaked into the golden:\n{golden}"
    );

    assert_passed(&run(t.overwrite(false), &mut world));
}

/// The same fixture with a deliberately wrong golden must fail.
#[test]
fn a_rejected_fixture_with_a_wrong_golden_fails() {
    let mut world = World::new("wrong-golden");
    world.write("ui/rejected.rs", REJECTED);

    let mut t = world.cases();
    t.compile_fail(&path("ui/rejected.rs"));
    assert_passed(&run(t.overwrite(true), &mut world));

    let corrupted = world
        .read("ui/rejected.stderr")
        .replace("mismatched types", "some other problem entirely");
    world.write("ui/rejected.stderr", &corrupted);

    let outcome = run(t.overwrite(false), &mut world);
    let failure = sole_failure(&outcome);
    let Failure::Mismatch { golden, mode, .. } = failure else {
        panic!("expected Mismatch, got {failure:?}");
    };
    assert_eq!(golden, &path("ui/rejected.stderr"));
    assert_eq!(*mode, Mode::Exact);

    // The report has to name the fixture and show the difference, or nobody can
    // act on it.
    let report = outcome.report();
    assert!(report.contains("ui/rejected.rs"), "{report}");
    assert!(
        report.contains("-error[E0308]: some other problem entirely"),
        "{report}"
    );
    assert!(
        report.contains("+error[E0308]: mismatched types"),
        "{report}"
    );
}

/// A golden checked out with Windows line endings still matches.
#[test]
fn a_golden_checked_out_with_crlf_still_matches() {
    let mut world = World::new("crlf-golden");
    world.write("ui/rejected.rs", REJECTED);

    let mut t = world.cases();
    t.compile_fail(&path("ui/rejected.rs"));
    assert_passed(&run(t.overwrite(true), &mut world));

    let golden = world.read("ui/rejected.stderr");
    assert!(
        !golden.contains('\r'),
        "the harness wrote CRLF itself: {golden:?}"
    );
    world.write("ui/rejected.stderr", &golden.replace('\n', "\r\n"));

    assert_passed(&run(t.overwrite(false), &mut world));
}

/// A real difference is still caught when the golden arrives as CRLF.
#[test]
fn a_crlf_golden_that_is_wrong_still_fails() {
    let mut world = World::new("crlf-golden-wrong");
    world.write("ui/rejected.rs", REJECTED);

    let mut t = world.cases();
    t.compile_fail(&path("ui/rejected.rs"));
    assert_passed(&run(t.overwrite(true), &mut world));

    let corrupted = world
        .read("ui/rejected.stderr")
        .replace("mismatched types", "some other problem entirely")
        .replace('\n', "\r\n");
    world.write("ui/rejected.stderr", &corrupted);

    let outcome = run(t.overwrite(false), &mut world);
    let report = outcome.report();
    assert!(
        matches!(sole_failure(&outcome), Failure::Mismatch { .. }),
        "{report}"
    );
    assert!(
        report.contains("-error[E0308]: some other problem entirely"),
        "{report}"
    );
}

const ADD: &str = "fn main() {\n    let _ = 1u8 + \"s\";\n}\n";

const ADD_REJECTION: &str = r#"error[E0277]: cannot add `&str` to `u8`
   --> src/bin/{bin}.rs:2:17
    |
2   |     let _ = 1u8 + "s";
    |                 ^ no implementation for `u8 + &str`
    |
    = help: the trait `Add<&str>` is not implemented for `u8`
note: the trait `Add` must be implemented
   --> /home/me/.rustup/toolchains/stable-x86_64-unknown-linux-gnu/lib/rustlib/src/rust/library/core/src/ops/arith.rs:76:1
    |
76  | pub const trait Add<Rhs = Self> {
    | ^^^^^^^^^^^^^^^^^^^^^^^^^^^^^^^

"#;

/// A mismatch on a diagnostic that reaches into the standard library says why
/// it might not be the fixture's fault.
#[test]
fn a_mismatch_reaching_into_std_explains_the_rust_src_dependency() {
    let mut world = World::new("std-source-hint");
    world.write("ui/add.rs", ADD);
    world.fails(ADD, ADD_REJECTION);

    let mut t = world.cases();
    t.compile_fail(&path("ui/add.rs"));
    assert_passed(&run(t.overwrite(true), &mut world));

    let golden = world.read("ui/add.stderr");
    assert!(
        golden.contains("$RUST"),
        "fixture no longer reaches std: {golden}"
    );
    world.write("ui/add.stderr", &golden.replace("E0277", "E0999"));

    let report = run(t.overwrite(false), &mut world).report();
    assert!(report.contains("rustup component add rust-src"), "{report}");
}

/// An ordinary mismatch that never leaves the fixture must not carry the hint.
#[test]
fn a_mismatch_that_stays_in_the_fixture_carries_no_hint() {
    let mut world = World::new("no-std-source-hint");
    world.write("ui/rejected.rs", REJECTED);

    let mut t = world.cases();
    t.compile_fail(&path("ui/rejected.rs"));
    assert_passed(&run(t.overwrite(true), &mut world));

    let corrupted = world
        .read("ui/rejected.stderr")
        .replace("mismatched types", "some other problem entirely");
    world.write("ui/rejected.stderr", &corrupted);

    let report = run(t.overwrite(false), &mut world).report();
    assert!(!report.contains("rust-src"), "{report}");
}

/// A fixture that compiles, declared `compile_fail`, must fail.
#[test]
fn a_fixture_that_compiles_fails_a_compile_fail_case() {
    let mut world = World::new("unexpectedly-compiles");
    world.write("ui/accepted.rs", ACCEPTED);

    let mut t = world.cases();
    t.compile_fail(&path("ui/accepted.rs"));

    let outcome = run(t.overwrite(false), &mut world);
    let failure = sole_failure(&outcome);
    assert!(matches!(failure, Failure::Compiled), "{failure:?}");
    assert!(
        outcome.report().contains("but the fixture compiled"),
        "{}",
        outcome.report()
    );
}

/// A fixture with no golden must fail, not bless.
#[test]
fn a_missing_golden_is_a_failure_not_an_implicit_bless() {
    let mut world = World::new("missing-golden");
    world.write("ui/rejected.rs", REJECTED);

    let mut t = world.cases();
    t.compile_fail(&path("ui/rejected.rs")).overwrite(false);

    let outcome = run(&t, &mut world);
    let failure = sole_failure(&outcome);
    let Failure::MissingGolden { golden } = failure else {
        panic!("expected MissingGolden, got {failure:?}");
    };
    assert_eq!(golden, &path("ui/rejected.stderr"));
    assert!(
        !world.holds("ui/rejected.stderr"),
        "a failing run must not write the golden it was missing"
    );
}

/// A `pass` fixture that does not compile must fail.
#[test]
fn a_pass_fixture_that_does_not_compile_fails() {
    let mut world = World::new("pass-does-not-compile");
    world.write("ui/rejected.rs", REJECTED);

    let mut t = world.cases();
    t.pass(&path("ui/rejected.rs"));

    let outcome = run(t.overwrite(false), &mut world);
    let failure = sole_failure(&outcome);
    let Failure::DidNotCompile { stderr } = failure else {
        panic!("expected DidNotCompile, got {failure:?}");
    };
    assert!(stderr.contains("error[E0308]"), "{stderr}");
    assert!(
        stderr.contains("ui/rejected.rs"),
        "the message should point at the fixture:\n{stderr}"
    );
}

/// Proof that the *allowed* form still compiles.
#[test]
fn a_pass_fixture_that_compiles_passes() {
    let mut world = World::new("pass-compiles");
    world.write("ui/accepted.rs", ACCEPTED);

    let mut t = world.cases();
    t.pass(&path("ui/accepted.rs"));
    assert_passed(&run(t.overwrite(false), &mut world));
}

/// `edition` reaches the compiler, and the default is 2024.
///
/// `gen` is an ordinary identifier in 2021 and a reserved keyword from 2024, so
/// whether this fixture compiles depends on nothing but this setting.
#[test]
fn the_edition_decides_what_a_fixture_compiles_under() {
    let source = "fn main() {\n    let gen: u8 = 0;\n    let _ = gen;\n}\n";
    let mut world = World::new("edition");
    world.write("ui/gen_as_identifier.rs", source);
    world.verdicts_under.insert(
        ("2021".to_string(), source.to_string()),
        Verdict::Compiles,
    );
    world.verdicts_under.insert(
        ("2024".to_string(), source.to_string()),
        Verdict::Fails(
            "error: expected identifier, found reserved keyword `gen`\n --> src/bin/{bin}.rs:2:9\n"
                .to_string(),
        ),
    );

    let mut t = world.cases();
    t.pass(&path("ui/gen_as_identifier.rs")).overwrite(false);
    assert_passed(&run(t.edition("2021"), &mut world));

    // A fresh `TestCases`, so the edition is the default rather than 2021.
    let mut t = world.cases();
    t.pass(&path("ui/gen_as_identifier.rs")).overwrite(false);
    let outcome = run(&t, &mut world);
    let Failure::DidNotCompile { stderr } = sole_failure(&outcome) else {
        panic!("expected DidNotCompile:\n{}", outcome.report());
    };
    assert!(
        stderr.contains("reserved keyword `gen`"),
        "the fixture failed under 2024 for some other reason:\n{stderr}"
    );
}

/// Blessing must never write a golden for a fixture that compiled.
#[test]
fn blessing_refuses_a_fixture_that_compiled() {
    let mut world = World::new("bless-refuses");
    world.write("ui/accepted.rs", ACCEPTED);

    let mut t = world.cases();
    t.compile_fail(&path("ui/accepted.rs"));

    let outcome = run(t.overwrite(true), &mut world);
    assert!(matches!(sole_failure(&outcome), Failure::Compiled));
    assert!(
        !world.holds("ui/accepted.stderr"),
        "bless wrote a golden for a fixture that compiled"
    );
}

/// A fixture is copied verbatim, `fn main` or not.
#[test]
fn a_fixture_is_never_rewritten_before_compiling() {
    let source = "fn main_helper() -> u8 {\n    0\n}\n\nconst _: u8 = \"not a u8\";\n";
    let mut world = World::new("verbatim");
    // Contains the substring `fn main` but declares no `main`.
    world.write("ui/helper.rs", source);
    world.fails(
        source,
        "error[E0308]: mismatched types\n --> src/bin/{bin}.rs:5:15\n  |\n5 | const _: u8 = \"not a u8\";\n  |               ^^^^^^^^^^ expected `u8`, found `&str`\n\n",
    );

    let mut t = world.cases();
    t.compile_fail(&path("ui/helper.rs"));
    assert_passed(&run(t.overwrite(true), &mut world));

    let golden = world.read("ui/helper.stderr");
    assert!(
        golden.contains("--> ui/helper.rs:5:15"),
        "spans must match the fixture as written:\n{golden}"
    );
    assert!(
        !golden.contains("fn main() {}"),
        "the harness injected source into the golden:\n{golden}"
    );
    let staged = world
        .layout()
        .bin_path(t.registered_cases()[0].bin.as_str());
    assert_eq!(world.files.get(&staged), Some(&source.to_string()));
}

/// A fixture's own diagnostic must never be mistaken for a summary.
#[test]
fn a_fixture_error_worded_like_a_summary_reaches_the_golden() {
    let source =
        "compile_error!(\"could not compile `this input` due to a missing impl\");\n\nfn main() {}\n";
    let mut world = World::new("summary-wording");
    world.write("ui/worded.rs", source);
    world.fails(
        source,
        "error: could not compile `this input` due to a missing impl\n --> src/bin/{bin}.rs:1:1\n\n",
    );
    world.compiles("\n\nfn main() {}\n");

    let mut t = world.cases();
    t.compile_fail(&path("ui/worded.rs"));
    assert_passed(&run(t.overwrite(true), &mut world));

    let golden = world.read("ui/worded.stderr");
    assert!(
        golden.contains("could not compile `this input` due to a missing impl"),
        "the fixture's own diagnostic was dropped as a summary:\n{golden}"
    );

    // And deleting the guarded construct must now be caught rather than pass.
    world.write("ui/worded.rs", "\n\nfn main() {}\n");
    assert!(
        !run(t.overwrite(false), &mut world).is_success(),
        "removing the guarded construct went unnoticed"
    );
}

/// A fixture whose diagnostic reads like one of cargo's own failures must still
/// be blessable.
#[test]
fn a_fixture_error_worded_like_a_cargo_failure_reaches_the_golden() {
    let source = "compile_error!(\"failed to parse the codec attribute\");\n\nfn main() {}\n";
    let mut world = World::new("cargo-wording");
    world.write("ui/worded.rs", source);
    world.fails(
        source,
        "error: failed to parse the codec attribute\n --> src/bin/{bin}.rs:1:1\n\n",
    );

    let mut t = world.cases();
    t.compile_fail(&path("ui/worded.rs"));
    assert_passed(&run(t.overwrite(true), &mut world));

    let golden = world.read("ui/worded.stderr");
    assert!(
        golden.contains("failed to parse the codec attribute"),
        "the fixture's own diagnostic was misreported as a cargo failure:\n{golden}"
    );
}

/// Normalization must not rewrite the fixture's own source text.
#[test]
fn normalization_leaves_quoted_source_alone() {
    let source = "fn main() {\n    let _x: u8 = \"src/bin/f_not_ours.rs\";\n}\n";
    let mut world = World::new("quoted-source");
    world.write("ui/quotes_a_path.rs", source);
    world.fails(
        source,
        "error[E0308]: mismatched types\n --> src/bin/{bin}.rs:2:18\n  |\n2 |     let _x: u8 = \"src/bin/f_not_ours.rs\";\n  |             --   ^^^^^^^^^^^^^^^^^^^^^^^ expected `u8`, found `&str`\n\n",
    );

    let mut t = world.cases();
    t.compile_fail(&path("ui/quotes_a_path.rs"));
    assert_passed(&run(t.overwrite(true), &mut world));

    let golden = world.read("ui/quotes_a_path.stderr");
    assert!(
        golden.contains("let _x: u8 = \"src/bin/f_not_ours.rs\""),
        "the fixture's source was rewritten inside its own snippet:\n{golden}"
    );
    assert!(
        golden.contains("--> ui/quotes_a_path.rs:2:18"),
        "the span was not rewritten:\n{golden}"
    );
}

/// `Brief` filters both sides, so switching modes does not force a re-bless
/// before the suite can go green.
#[test]
fn brief_mode_accepts_an_exact_golden() {
    let mut world = World::new("brief-mode");
    world.write("ui/rejected.rs", REJECTED);

    let mut t = world.cases();
    t.compile_fail(&path("ui/rejected.rs"));
    assert_passed(&run(t.overwrite(true), &mut world));
    let exact = world.read("ui/rejected.stderr");

    assert_passed(&run(t.mode(Mode::Brief).overwrite(false), &mut world));

    // Blessing in `Brief` then shrinks the golden to what it actually compares.
    assert_passed(&run(t.overwrite(true), &mut world));
    let brief = world.read("ui/rejected.stderr");
    assert!(
        brief.len() < exact.len(),
        "Brief golden was not smaller:\n{brief}"
    );
    assert!(brief.contains("error[E0308]: mismatched types"), "{brief}");
    assert!(brief.contains("--> ui/rejected.rs:2:18"), "{brief}");
    assert!(
        !brief.contains("let _x"),
        "Brief kept the source snippet:\n{brief}"
    );
}

/// `Brief` must still catch a fixture that starts failing for a different
/// reason.
#[test]
fn brief_mode_still_catches_a_changed_error() {
    let mut world = World::new("brief-catches");
    world.write("ui/rejected.rs", REJECTED);

    let mut t = world.cases();
    t.compile_fail(&path("ui/rejected.rs")).mode(Mode::Brief);
    assert_passed(&run(t.overwrite(true), &mut world));

    // Same fixture name, different invariant broken.
    world.write("ui/rejected.rs", UNDEFINED);
    let outcome = run(t.overwrite(false), &mut world);
    assert!(matches!(sole_failure(&outcome), Failure::Mismatch { .. }));
}

/// Directory registration takes every `.rs` file, in file-name order, and pairs
/// each with the golden beside it.
#[test]
fn a_directory_registers_every_fixture_in_order() {
    let mut world = World::new("directory");
    world.write("ui/b_second.rs", REJECTED);
    world.write("ui/a_first.rs", UNDEFINED);
    world.write("ui/notes.txt", "not a fixture");

    let mut t = world.cases();
    t.compile_fail_dir(&Spelled::new("ui"), &world.listing("ui"));
    let outcome = run(t.overwrite(true), &mut world);
    assert_passed(&outcome);

    let paths: Vec<&PathBuf> = outcome.cases().iter().map(|case| case.path()).collect();
    assert_eq!(paths, [&path("ui/a_first.rs"), &path("ui/b_second.rs")]);
    assert!(world.holds("ui/a_first.stderr"));
    assert!(world.holds("ui/b_second.stderr"));
}

/// A fixture directory that matches nothing means the suite is not running.
#[test]
fn an_empty_fixture_directory_is_reported() {
    let mut world = World::new("empty-dir");
    let ui = world.at("ui");
    world.directories.push(ui);

    let mut t = world.cases();
    t.compile_fail_dir(&Spelled::new("ui"), &world.listing("ui"));

    let outcome = run(&t, &mut world);
    assert!(!outcome.is_success());
    assert!(
        matches!(outcome.setup_failures(), [Failure::NoFixtures { .. }]),
        "{:?}",
        outcome.setup_failures()
    );
}

/// A missing fixture directory is reported rather than panicking.
#[test]
fn a_missing_fixture_directory_is_reported() {
    let mut world = World::new("missing-dir");

    let mut t = world.cases();
    t.compile_fail_dir(&Spelled::new("does-not-exist"), &world.listing("does-not-exist"));

    let outcome = run(&t, &mut world);
    assert!(!outcome.is_success());
    assert!(
        outcome
            .report()
            .contains("could not read the fixture directory does-not-exist"),
        "{}",
        outcome.report()
    );
}

/// Registering one fixture more than once runs it once.
#[test]
fn a_fixture_registered_twice_runs_once() {
    let mut world = World::new("registered-twice");
    world.write("ui/rejected.rs", REJECTED);

    let mut t = world.cases();
    t.compile_fail_dir(&Spelled::new("ui"), &world.listing("ui"));
    t.compile_fail(&path("ui/rejected.rs"));
    t.compile_fail(&path("./ui/rejected.rs"));
    t.compile_fail_dir(&Spelled::new("ui"), &world.listing("ui"));

    let outcome = run(t.overwrite(true), &mut world);
    assert_passed(&outcome);
    assert_eq!(outcome.cases().len(), 1, "{}", outcome.report());
}

/// One directory registered under both kinds cannot be de-duplicated, since the
/// assertions contradict each other.
#[test]
fn a_fixture_registered_under_both_kinds_is_reported() {
    let mut world = World::new("registered-both-kinds");
    world.write("ui/accepted.rs", ACCEPTED);

    let mut t = world.cases();
    t.pass_dir(&Spelled::new("ui"), &world.listing("ui"));
    t.compile_fail_dir(&Spelled::new("ui"), &world.listing("ui"));

    let outcome = run(&t, &mut world);
    assert!(!outcome.is_success());
    let [Failure::ConflictingRegistration { fixture, .. }] = outcome.setup_failures() else {
        panic!("{}", outcome.report());
    };
    assert_eq!(fixture, &path("ui/accepted.rs"));
    assert_eq!(outcome.cases().len(), 1);
    assert!(outcome.cases()[0].is_success(), "{}", outcome.report());
    assert!(
        outcome
            .report()
            .contains("ui/accepted.rs is registered as both pass and compile_fail"),
        "{}",
        outcome.report()
    );
}

/// A fixture filed into a subdirectory of a registered directory is not
/// registered by it. Registering the subdirectory settles it, whichever order
/// the two registrations come in.
#[test]
fn a_fixture_in_an_unregistered_subdirectory_fails_the_run() {
    let mut world = World::new("nested-fixture");
    world.write("ui/top.rs", REJECTED);
    world.write("ui/sub/hidden.rs", REJECTED);
    world.write("ui/sub/deeper/also_hidden.rs", ACCEPTED);
    world.write("ui/sub/notes.txt", "not a fixture");

    let mut t = world.cases();
    t.compile_fail_dir(&Spelled::new("ui"), &world.listing("ui"));
    let outcome = run(t.overwrite(true), &mut world);
    assert!(!outcome.is_success());
    let [Failure::UnregisteredFixtures {
        directory,
        fixtures,
    }] = outcome.setup_failures()
    else {
        panic!("{}", outcome.report());
    };
    assert_eq!(directory, &path("ui"));
    assert_eq!(
        fixtures,
        &[
            path("ui/sub/deeper/also_hidden.rs"),
            path("ui/sub/hidden.rs"),
        ]
    );
    let report = outcome.report();
    assert!(report.contains("not recursive"), "{report}");
    // The top-level fixture still ran; only the nested ones are missing.
    assert_eq!(outcome.cases().len(), 1);
    assert!(outcome.cases()[0].is_success(), "{report}");

    // The subdirectory's own registration, after the parent's, covers the
    // file directly in it and reports the one below that against itself.
    let mut t = world.cases();
    t.compile_fail_dir(&Spelled::new("ui"), &world.listing("ui"));
    t.compile_fail_dir(&Spelled::new("ui/sub"), &world.listing("ui/sub"));
    let outcome = run(t.overwrite(true), &mut world);
    let [Failure::UnregisteredFixtures {
        directory,
        fixtures,
    }] = outcome.setup_failures()
    else {
        panic!("{}", outcome.report());
    };
    assert_eq!(directory, &path("ui/sub"));
    assert_eq!(fixtures, &[path("ui/sub/deeper/also_hidden.rs")]);

    // And before it, with every level registered, nothing is left over.
    let mut t = world.cases();
    t.pass_dir(&Spelled::new("ui/sub/deeper"), &world.listing("ui/sub/deeper"));
    t.compile_fail_dir(&Spelled::new("ui"), &world.listing("ui"));
    t.compile_fail_dir(&Spelled::new("ui/sub"), &world.listing("ui/sub"));
    assert_passed(&run(t.overwrite(true), &mut world));
    assert_passed(&run(t.overwrite(false), &mut world));
}

/// A directory whose fixtures are all nested is reported as contributing none
/// of them, not as empty.
#[test]
fn a_directory_with_only_nested_fixtures_is_not_called_empty() {
    let mut world = World::new("only-nested");
    world.write("ui/sub/a.rs", REJECTED);

    let mut t = world.cases();
    t.compile_fail_dir(&Spelled::new("ui"), &world.listing("ui"));
    let outcome = run(&t, &mut world);
    assert!(
        matches!(
            outcome.setup_failures(),
            [
                Failure::NoFixtures { .. },
                Failure::UnregisteredFixtures { .. }
            ]
        ),
        "{}",
        outcome.report()
    );
    let report = outcome.report();
    assert!(
        report.contains("no .rs fixtures directly in ui"),
        "{report}"
    );
    assert!(report.contains("ui/sub/a.rs"), "{report}");
}

/// A golden with no registered `compile_fail` fixture beside it is reported by
/// name. A blessing run reports it too, and leaves it where it is.
#[test]
fn an_orphan_golden_fails_the_run_and_is_never_deleted() {
    let mut world = World::new("orphan-golden");
    world.write("ui/rejected.rs", REJECTED);
    world.write("ui/renamed_away.stderr", "error: stale\n");
    world.write("ui-pass/accepted.rs", ACCEPTED);
    world.write(
        "ui-pass/accepted.stderr",
        "error: a pass fixture has none\n",
    );

    let mut t = world.cases();
    t.compile_fail_dir(&Spelled::new("ui"), &world.listing("ui"));
    t.pass_dir(&Spelled::new("ui-pass"), &world.listing("ui-pass"));
    for overwrite in [true, false] {
        let outcome = run(t.overwrite(overwrite), &mut world);
        let goldens: Vec<&PathBuf> = outcome
            .setup_failures()
            .iter()
            .map(|failure| match failure {
                Failure::OrphanGolden { golden } => golden,
                other => panic!("expected OrphanGolden, got {other:?}"),
            })
            .collect();
        assert_eq!(
            goldens,
            [
                &path("ui/renamed_away.stderr"),
                &path("ui-pass/accepted.stderr")
            ]
        );
        assert!(
            outcome.cases().iter().all(|case| case.is_success()),
            "{}",
            outcome.report()
        );
        assert!(
            outcome.report().contains("never deletes a golden"),
            "{}",
            outcome.report()
        );
        assert!(world.holds("ui/renamed_away.stderr"));
        assert!(world.holds("ui-pass/accepted.stderr"));
    }
}

/// A golden beside an unregistered fixture is that fixture's problem, reported
/// once as such rather than a second time as an orphan.
#[test]
fn a_golden_beside_an_unregistered_fixture_is_not_also_an_orphan() {
    let mut world = World::new("orphan-beside-nested");
    world.write("ui/top.rs", REJECTED);
    world.write("ui/sub/nested.rs", REJECTED);
    world.write("ui/sub/nested.stderr", "error: whatever it was\n");

    let mut t = world.cases();
    t.compile_fail_dir(&Spelled::new("ui"), &world.listing("ui"));
    let outcome = run(t.overwrite(true), &mut world);
    assert!(
        matches!(
            outcome.setup_failures(),
            [Failure::UnregisteredFixtures { .. }]
        ),
        "{}",
        outcome.report()
    );
}

/// A bare key in raw manifest text is refused, and nothing is built.
#[test]
fn raw_manifest_lines_without_a_table_header_are_refused() {
    let mut world = World::new("raw-without-header");
    world.write("ui/rejected.rs", REJECTED);

    let mut t = world.cases();
    t.compile_fail(&path("ui/rejected.rs"));
    t.raw_manifest_lines("foo = \"bar\"");

    let outcome = run(t.overwrite(true), &mut world);
    let [Failure::RawManifestLinesWithoutHeader { line }] = outcome.setup_failures() else {
        panic!("{}", outcome.report());
    };
    assert_eq!(line, "foo = \"bar\"");
    assert!(outcome.cases().is_empty(), "{}", outcome.report());
    assert!(outcome.report().contains("foo = \"bar\""));
    assert!(
        !world.holds("ui/rejected.stderr"),
        "a golden was blessed with part of the manifest refused"
    );
    assert!(world.written.is_empty(), "{:?}", world.written);
}

/// A dependency whose placeholder would be one normalization already uses is
/// refused by name, and nothing is built.
#[test]
fn self_test_a_dependency_named_like_a_reserved_placeholder_is_refused() {
    let mut world = World::new("reserved-dependency");
    world.write("rust/src/lib.rs", "pub fn small() -> u8 {\n    0\n}\n");
    world.write(
        "ui/rejected.rs",
        "fn main() {\n    let _x: String = rust::small();\n}\n",
    );

    let mut t = world.cases();
    t.dependency_path("rust", &path("rust"));
    t.compile_fail(&path("ui/rejected.rs"));

    let outcome = run(t.overwrite(true), &mut world);
    let [Failure::ReservedDependencyName { name, placeholder }] = outcome.setup_failures() else {
        panic!("{}", outcome.report());
    };
    assert_eq!((name.as_str(), placeholder.as_str()), ("rust", "$RUST"));
    assert!(outcome.cases().is_empty(), "{}", outcome.report());
    assert!(!world.holds("ui/rejected.stderr"));
}

/// A directory holding a fixture whose name is not UTF-8 refuses that fixture
/// by name and runs the rest.
#[test]
fn a_fixture_directory_with_a_non_utf8_name_refuses_just_that_fixture() {
    let mut world = World::new("non-utf8-fixture");
    world.write("ui/rejected.rs", REJECTED);
    let ui = world.at("ui");
    for name in [b"a\x80.rs", b"a\x81.rs"] {
        world
            .files
            .insert(ui.child_named(&name.to_vec()), REJECTED.to_string());
    }

    let mut t = world.cases();
    t.compile_fail_dir(&Spelled::new("ui"), &world.listing("ui"));
    let outcome = run(t.overwrite(true), &mut world);

    let refused: Vec<&PathBuf> = outcome
        .setup_failures()
        .iter()
        .map(|failure| match failure {
            Failure::NonUtf8Fixture { fixture } => &fixture.path,
            other => panic!("expected NonUtf8Fixture, got {other:?}"),
        })
        .collect();
    assert_eq!(
        refused,
        [
            &PathBuf::from_bytes(&b"ui/a\x80.rs".to_vec()),
            &PathBuf::from_bytes(&b"ui/a\x81.rs".to_vec())
        ]
    );
    assert_eq!(outcome.cases().len(), 1);
    assert!(outcome.cases()[0].is_success(), "{}", outcome.report());
}

const USES_HELPER: &str = "fn main() {\n    let _x: u8 = helper::small();\n}\n";
const MISUSES_HELPER: &str = "fn main() {\n    let _x: String = helper::small();\n}\n";

const MISUSE: &str = r#"error[E0308]: mismatched types
 --> src/bin/{bin}.rs:2:22
  |
2 |     let _x: String = helper::small();
  |             ------   ^^^^^^^^^^^^^^^- help: try using a conversion method: `.to_string()`
  |             |        |
  |             |        expected `String`, found `u8`
  |             expected due to this

"#;

/// A fixture can use the crate under test, and only the crates the caller named.
#[test]
fn a_declared_path_dependency_reaches_the_fixtures() {
    let mut world = World::new("path-dependency");
    world.write("helper/src/lib.rs", "pub fn small() -> u8 {\n    0\n}\n");
    world.write("ui-pass/uses_helper.rs", USES_HELPER);
    world.write("ui/misuses_helper.rs", MISUSES_HELPER);
    world.compiles(USES_HELPER);
    world.fails(MISUSES_HELPER, MISUSE);

    let mut t = world.cases();
    t.dependency_path("helper", &path("helper"));
    t.pass(&path("ui-pass/uses_helper.rs"));
    t.compile_fail(&path("ui/misuses_helper.rs"));

    assert_passed(&run(t.overwrite(true), &mut world));
    let golden = world.read("ui/misuses_helper.stderr");
    assert!(
        golden.contains("error[E0308]: mismatched types"),
        "{golden}"
    );
    assert!(golden.contains("--> ui/misuses_helper.rs:2:22"), "{golden}");
    let manifest = &world.files[&world.layout().manifest()];
    assert!(
        manifest.contains("[dependencies]\n\"helper\" = { path = \"/w/selftest/path-dependency/helper\" }\n"),
        "{manifest}"
    );
}

const TOO_WIDE: &str = "fn main() {\n    helper::take::<70>();\n}\n";

/// What the guard of a crate at `dir` says when `file` instantiates it.
fn guard_rejection(dir: &str, file: &str, line: u32) -> String {
    format!(
        "error[E0080]: evaluation panicked: N must be below 64\n  --> {dir}/helper/src/lib.rs:3:24\n   |\n3  |     pub const OK: () = assert!(N < 64, \"N must be below 64\");\n   |                        ^^^^^ evaluation of `helper::Width::<70>::OK` failed here\n\nnote: erroneous constant encountered\n  --> {dir}/helper/src/{file}:{line}:14\n   |\n{line}  |     let () = crate::Width::<N>::OK;\n   |              ^^^^^^^^^^^^^^^^^^^^^\n\nnote: the above error was encountered while instantiating `fn helper::take::<70>`\n  --> src/bin/{{bin}}.rs:2:5\n   |\n2  |     helper::take::<70>();\n   |     ^^^^^^^^^^^^^^^^^^^^\n\n"
    )
}

/// `BriefLocal` exists for a crate under test that reorganizes itself: this moves
/// the function that instantiates the guard into a module of its own and requires
/// the golden to hold. The same move breaks a `Brief` golden.
#[test]
fn a_brief_local_golden_survives_the_crate_under_test_moving_its_code() {
    let mut world = World::new("brief-local");
    let dir = world.dir.display();
    world.write("ui/too_wide.rs", TOO_WIDE);
    world.fails(TOO_WIDE, &guard_rejection(&dir, "lib.rs", 7));

    let mut t = world.cases();
    t.dependency_path("helper", &path("helper"));
    t.compile_fail(&path("ui/too_wide.rs"))
        .mode(Mode::BriefLocal);
    assert_passed(&run(t.overwrite(true), &mut world));
    let golden = world.read("ui/too_wide.stderr");
    assert!(golden.contains("N must be below 64"), "{golden}");
    assert!(
        !golden.contains("helper/src"),
        "a span outside the fixture reached the golden:\n{golden}"
    );

    world.fails(TOO_WIDE, &guard_rejection(&dir, "take.rs", 2));
    assert_passed(&run(t.overwrite(false), &mut world));

    // The premise: the same move is a mismatch under `Brief`.
    let mut brief = world.cases();
    brief.dependency_path("helper", &path("helper"));
    brief.compile_fail(&path("ui/too_wide.rs")).mode(Mode::Brief);
    world.fails(TOO_WIDE, &guard_rejection(&dir, "lib.rs", 7));
    assert_passed(&run(brief.overwrite(true), &mut world));
    world.fails(TOO_WIDE, &guard_rejection(&dir, "take.rs", 2));
    let outcome = run(brief.overwrite(false), &mut world);
    let failure = sole_failure(&outcome);
    assert!(
        matches!(failure, Failure::Mismatch { .. }),
        "expected the move to break the Brief golden, got {failure:?}"
    );
}

/// `BriefLocal` must still catch a fixture that starts failing for a different
/// reason, for the reason `Brief` must.
#[test]
fn brief_local_mode_still_catches_a_changed_error() {
    let mut world = World::new("brief-local-catches");
    world.write("ui/rejected.rs", REJECTED);

    let mut t = world.cases();
    t.compile_fail(&path("ui/rejected.rs"))
        .mode(Mode::BriefLocal);
    assert_passed(&run(t.overwrite(true), &mut world));

    world.write("ui/rejected.rs", UNDEFINED);
    let outcome = run(t.overwrite(false), &mut world);
    assert!(matches!(sole_failure(&outcome), Failure::Mismatch { .. }));
}

/// The twelve implementors the golden is blessed against, and the one added
/// afterwards, which sorts ahead of all of them.
const IMPLEMENTORS: [&str; 12] = [
    "Tab", "Tbb", "Tcb", "Tdb", "Teb", "Tfb", "Tgb", "Thb", "Tib", "Tjb", "Tkb", "Tlb",
];
const ADDED: &str = "Aaa";

const UNIMPLEMENTED: &str = "fn main() {\n    helper::take(\"not small\");\n}\n";

/// What rustc says where a trait has these implementors: it lists eight.
fn unimplemented_rejection(types: &[&str]) -> String {
    let mut rendered = String::from(
        "error[E0277]: the trait bound `&str: Small` is not satisfied\n --> src/bin/{bin}.rs:2:18\n  |\n2 |     helper::take(\"not small\");\n  |                  ^^^^^^^^^^^ the trait `Small` is not implemented for `&str`\n  |\n  = help: the following other types implement trait `Small`:\n",
    );
    for name in &types[..8] {
        rendered.push_str(&format!("            {name}\n"));
    }
    rendered.push_str(&format!("          and {} others\n\n", types.len() - 8));
    rendered
}

/// An implementor list is the one part of a diagnostic whose content is decided
/// by code the fixture never mentions. The elided golden survives an impl added
/// elsewhere, and the same addition breaks the same golden when the list is in it.
#[test]
fn an_elided_implementor_list_survives_an_impl_added_to_the_crate_under_test() {
    let mut world = World::new("elided-implementors");
    world.write("ui/unimplemented.rs", UNIMPLEMENTED);
    world.fails(UNIMPLEMENTED, &unimplemented_rejection(&IMPLEMENTORS));

    let mut t = world.cases();
    t.dependency_path("helper", &path("helper"));
    t.elide_implementors(true);
    t.compile_fail(&path("ui/unimplemented.rs"));

    assert_passed(&run(t.overwrite(true), &mut world));
    let golden = world.read("ui/unimplemented.stderr");
    // The heading names the trait, which the crate under test does own, so it
    // stays and is still asserted.
    assert!(
        golden.contains("implement trait `Small`"),
        "the heading should survive:\n{golden}"
    );
    assert!(
        golden.contains("$IMPLEMENTORS"),
        "the entries should have collapsed:\n{golden}"
    );
    assert!(
        !golden.contains(IMPLEMENTORS[0]),
        "an implementor reached the golden:\n{golden}"
    );

    // One public impl added, and nothing else.
    let grown: Vec<&str> = std::iter::once(ADDED).chain(IMPLEMENTORS).collect();
    world.fails(UNIMPLEMENTED, &unimplemented_rejection(&grown));
    assert_passed(&run(t.overwrite(false), &mut world));

    // The premise: with the list in the golden, that same addition is a
    // failure.
    let mut listing = world.cases();
    listing.dependency_path("helper", &path("helper"));
    listing.compile_fail(&path("ui/unimplemented.rs"));
    world.fails(UNIMPLEMENTED, &unimplemented_rejection(&IMPLEMENTORS));
    assert_passed(&run(listing.overwrite(true), &mut world));
    world.fails(UNIMPLEMENTED, &unimplemented_rejection(&grown));

    let outcome = run(listing.overwrite(false), &mut world);
    let failure = sole_failure(&outcome);
    assert!(
        matches!(failure, Failure::Mismatch { .. }),
        "expected the added impl to break the un-elided golden, got {failure:?}"
    );
}

/// A run reports every case, not just the first to fail.
#[test]
fn all_cases_are_reported_not_just_the_first_failure() {
    let mut world = World::new("reports-all");
    world.write("ui/a.rs", ACCEPTED);
    world.write("ui/b.rs", ACCEPTED);

    let mut t = world.cases();
    t.compile_fail_dir(&Spelled::new("ui"), &world.listing("ui"))
        .overwrite(false);

    let outcome = run(&t, &mut world);
    assert_eq!(outcome.failures().len(), 2);
    let report = outcome.report();
    assert!(report.contains("2 of 2 case(s) failed"), "{report}");
    assert!(report.contains("FAIL ui/a.rs (compile_fail)"), "{report}");
    assert!(report.contains("FAIL ui/b.rs (compile_fail)"), "{report}");
}

/// One failing fixture must not stop the others being judged, however many there
/// are.
#[test]
fn every_failing_fixture_is_built_even_past_the_parallelism_width() {
    let mut world = World::new("keep-going");
    let width = 16;
    // Zero-padded so file-name order, which is registration order, is numeric.
    let fixtures: Vec<String> = (0..width + 2)
        .map(|i| format!("ui/fails_{i:03}.rs"))
        .collect();
    for fixture in &fixtures {
        world.write(fixture, REJECTED);
    }

    let mut t = world.cases();
    t.compile_fail_dir(&Spelled::new("ui"), &world.listing("ui"));
    let outcome = run(t.overwrite(true), &mut world);
    // A fixture left unbuilt would be a `NoDiagnostics` failure here, reported
    // with the rest of the run.
    assert_passed(&outcome);
    assert_eq!(outcome.cases().len(), fixtures.len());

    // And each golden is that fixture's own diagnostic, not merely a golden.
    for fixture in &fixtures {
        let golden = world.read(&fixture.replace(".rs", ".stderr"));
        assert!(
            golden.contains("error[E0308]: mismatched types")
                && golden.contains(&format!("--> {fixture}:2:18")),
            "{fixture} was not blessed from its own diagnostic:\n{golden}"
        );
    }
}

/// What a suite panics with is the report rather than a bare assertion failure.
#[test]
fn assert_panics_with_the_report() {
    let mut world = World::new("assert-panics");
    world.write("ui/accepted.rs", ACCEPTED);

    let mut t = world.cases();
    t.compile_fail(&path("ui/accepted.rs")).overwrite(false);

    let outcome = run(&t, &mut world);
    let message = outcome
        .panic_message()
        .expect("the suite should have panicked");
    assert!(message.contains("FAIL ui/accepted.rs"), "{message}");
    assert!(message.contains("but the fixture compiled"), "{message}");
    assert_eq!(message, format!("\n{}\n", outcome.report()));

    let mut t = world.cases();
    t.pass(&path("ui/accepted.rs"));
    assert_eq!(run(&t, &mut world).panic_message(), None);
}

/// Cargo failing on its own terms is not a property of the fixture. It is
/// reported once, against the run, rather than once per fixture.
#[test]
fn a_cargo_failure_is_not_reported_as_a_diagnostic() {
    let mut world = World::new("cargo-failure");
    world.write("ui/rejected.rs", REJECTED);
    world.write("ui/other.rs", REJECTED);

    let mut t = world.cases();
    t.compile_fail(&path("ui/rejected.rs"));
    t.compile_fail(&path("ui/other.rs"));
    t.raw_manifest_lines("[features]\nthis is not valid toml [[[");

    let outcome = run(t.overwrite(true), &mut world);
    assert!(!outcome.is_success());
    assert_eq!(
        outcome.setup_failures().len(),
        1,
        "one manifest error should be reported once:\n{}",
        outcome.report()
    );
    let Failure::Cargo { message } = &outcome.setup_failures()[0] else {
        panic!("expected Cargo, got {:?}", outcome.setup_failures()[0]);
    };
    assert!(message.contains("Cargo.toml"), "{message}");
    assert!(message.ends_with("Cargo.toml:20:6"), "{message}");
    assert!(
        !world.holds("ui/rejected.stderr") && !world.holds("ui/other.stderr"),
        "bless wrote a golden from a manifest cargo could not parse"
    );
}

const VIOLATES_BOUND: &str = "fn main() {\n    outsider::take(\"not small\");\n}\n";

/// What rustc says where the bound stands on `line` of a crate at `dir`.
fn bound_rejection(dir: &str, line: u32, gutter: &str) -> String {
    let own = format!("{:<width$}", 2, width = gutter.len());
    let theirs = format!("{:<width$}", line, width = gutter.len());
    format!(
        "error[E0277]: the trait bound `&str: Small` is not satisfied\n{gutter}--> src/bin/{{bin}}.rs:2:20\n{gutter} |\n{own} |     outsider::take(\"not small\");\n{gutter} |                    ^^^^^^^^^^^ the trait `Small` is not implemented for `&str`\n{gutter} |\nnote: required by a bound in `take`\n{gutter}--> {dir}/src/lib.rs:{line}:16\n{gutter} |\n{theirs} | pub fn take<T: Small>(_value: T) {{}}\n{gutter} |                ^^^^^ required by this bound in `take`\n\n"
    )
}

/// A diagnostic that reaches into a path dependency living *outside* the host
/// crate must not put that dependency's absolute path, or its line numbers, in
/// the golden.
#[test]
fn a_diagnostic_reaching_into_an_outside_dependency_is_portable() {
    let mut world = World::new("outside-dependency");
    // A sibling of the host crate, which is the case `$DIR` cannot cover.
    let outsider = "/w/selftest/outside-dependency-dep";
    world.write("ui/violates_bound.rs", VIOLATES_BOUND);
    world.fails(VIOLATES_BOUND, &bound_rejection(outsider, 2, " "));

    let mut t = world.cases();
    t.dependency_path("outsider", &path("../outside-dependency-dep"));
    t.compile_fail(&path("ui/violates_bound.rs"));
    assert_passed(&run(t.overwrite(true), &mut world));

    let golden = world.read("ui/violates_bound.stderr");
    assert!(
        !golden.contains(outsider),
        "the dependency's absolute path reached the golden:\n{golden}"
    );
    assert!(
        golden.contains("$OUTSIDER/src/lib.rs"),
        "expected a dependency placeholder:\n{golden}"
    );
    assert!(
        !golden.contains("$OUTSIDER/src/lib.rs:"),
        "the dependency's line and column reached the golden:\n{golden}"
    );
    // The fixture's own span is the thing under test, and keeps its position.
    assert!(
        golden.contains("--> ui/violates_bound.rs:2:20"),
        "the fixture's own span lost its position:\n{golden}"
    );

    // Now move the dependency's code down, a line and then a hundred, changing
    // nothing the golden has any business recording. The unchanged golden must
    // still match.
    for (line, gutter) in [(3, " "), (103, "   ")] {
        world.fails(VIOLATES_BOUND, &bound_rejection(outsider, line, gutter));
        let mut t = world.cases();
        t.dependency_path("outsider", &path("../outside-dependency-dep"));
        t.compile_fail(&path("ui/violates_bound.rs"));
        assert_passed(&run(t.overwrite(false), &mut world));
    }
}

/// A diagnostic that reaches into the standard library must not put the
/// toolchain's location in the golden.
#[test]
fn a_diagnostic_reaching_into_the_standard_library_is_portable() {
    let source =
        "struct Token;\nfn main() {\n    let _v: Vec<u8> = std::iter::once(Token).collect();\n}\n";
    let mut world = World::new("sysroot-span");
    world.write("ui/collects_wrong.rs", source);
    world.fails(
        source,
        "error[E0277]: a value of type `Vec<u8>` cannot be built from an iterator over elements of type `Token`\n    --> src/bin/{bin}.rs:3:46\n     |\n3    |     let _v: Vec<u8> = std::iter::once(Token).collect();\n     |                                              ^^^^^^^ value of type `Vec<u8>` cannot be built from `std::iter::Iterator<Item=Token>`\n     |\nnote: required by a bound in `collect`\n    --> /home/me/.rustup/toolchains/stable-x86_64-unknown-linux-gnu/lib/rustlib/src/rust/library/core/src/iter/traits/iterator.rs:2015:19\n\n",
    );

    let mut t = world.cases();
    t.compile_fail(&path("ui/collects_wrong.rs"));
    assert_passed(&run(t.overwrite(true), &mut world));

    let golden = world.read("ui/collects_wrong.stderr");
    assert!(
        golden.contains("$RUST/"),
        "expected a toolchain placeholder:\n{golden}"
    );
    assert!(
        !golden.contains("rustlib") && !golden.contains(".rustup"),
        "the toolchain's location reached the golden:\n{golden}"
    );
    assert!(
        !golden.contains("/home/me"),
        "the home directory reached the golden:\n{golden}"
    );
}

/// A warning in a path dependency belongs to that dependency's build, not to any
/// fixture's golden.
#[test]
fn a_dependency_warning_does_not_reach_a_fixtures_golden() {
    let mut world = World::new("dependency-warning");
    world.write("ui/misuses_helper.rs", MISUSES_HELPER);
    world.fails(MISUSES_HELPER, MISUSE);
    let manifest = world.at("helper/Cargo.toml").display();
    world.elsewhere.push((
        manifest,
        "warning".to_string(),
        "warning: unused variable: `unused`\n".to_string(),
    ));

    let mut t = world.cases();
    t.dependency_path("helper", &path("helper"));
    t.compile_fail(&path("ui/misuses_helper.rs"));
    assert_passed(&run(t.overwrite(true), &mut world));

    let golden = world.read("ui/misuses_helper.stderr");
    assert!(
        golden.contains("error[E0308]: mismatched types"),
        "{golden}"
    );
    assert!(
        !golden.contains("unused"),
        "a dependency's warning reached the fixture's golden:\n{golden}"
    );
}

/// A dependency that will not build leaves every fixture with no diagnostics and
/// no artifact. It is reported once, with its own error.
#[test]
fn a_dependency_that_does_not_build_is_reported_once_with_its_own_error() {
    let mut world = World::new("dependency-broken");
    world.write(
        "helper/src/lib.rs",
        "pub fn broken() -> u8 { \"not a u8\" }\n",
    );
    world.write("ui/a.rs", REJECTED);
    world.write("ui/b.rs", REJECTED);
    let manifest = world.at("helper/Cargo.toml").display();
    world.elsewhere.push((
        manifest,
        "error".to_string(),
        "error[E0308]: mismatched types\n --> helper/src/lib.rs:1:25\n\n".to_string(),
    ));
    world.stuck = true;

    let mut t = world.cases();
    t.dependency_path("helper", &path("helper"));
    t.compile_fail_dir(&Spelled::new("ui"), &world.listing("ui"));

    let outcome = run(t.overwrite(true), &mut world);
    assert!(!outcome.is_success());
    assert_eq!(
        outcome.setup_failures().len(),
        1,
        "one broken dependency should be reported once:\n{}",
        outcome.report()
    );
    let report = outcome.report();
    assert!(
        report.contains("mismatched types"),
        "the dependency's own error should be what is shown:\n{report}"
    );
    assert!(
        !world.holds("ui/a.stderr") && !world.holds("ui/b.stderr"),
        "bless wrote a golden from a run in which nothing compiled"
    );
}

const NO_MAIN: &str = "const _X: u8 = 0;\n";

const NO_MAIN_REJECTION: &str = r#"error[E0601]: `main` function not found in crate `{bin}`
 --> src/bin/{bin}.rs:1:18
  |
1 | const _X: u8 = 0;
  |                  ^ consider adding a `main` function to `src/bin/{bin}.rs`

"#;

/// A fixture with no `fn main` is reported by naming the *crate*, a bin target
/// the harness generated, so its name must not reach the golden.
#[test]
fn a_fixture_without_main_does_not_record_harness_internals() {
    let mut world = World::new("no-main");
    world.write("ui/no_main.rs", NO_MAIN);
    world.fails(NO_MAIN, NO_MAIN_REJECTION);

    let mut t = world.cases();
    t.compile_fail(&path("ui/no_main.rs"));
    assert_passed(&run(t.overwrite(true), &mut world));

    let golden = world.read("ui/no_main.stderr");
    assert!(golden.contains("E0601"), "{golden}");
    assert!(
        !golden.contains("src/bin/") && !golden.contains("f_ui_no_main"),
        "a generated bin name or path reached the golden:\n{golden}"
    );
    assert!(
        golden.contains("$CRATE"),
        "the generated crate should normalize to a placeholder:\n{golden}"
    );
}

/// Registering another fixture must not change an existing fixture's golden.
#[test]
fn adding_a_fixture_does_not_disturb_another_fixtures_golden() {
    let mut world = World::new("golden-stability");
    world.write("ui/no_main.rs", NO_MAIN);
    world.fails(NO_MAIN, NO_MAIN_REJECTION);
    world.fails("const _Y: u8 = 0;\n", NO_MAIN_REJECTION);

    let mut t = world.cases();
    t.compile_fail(&path("ui/no_main.rs"));
    assert_passed(&run(t.overwrite(true), &mut world));
    let before = world.read("ui/no_main.stderr");

    // Sorts before `no_main.rs`, and sanitizes to the same text.
    world.write("ui/no-main.rs", "const _Y: u8 = 0;\n");
    let mut t = world.cases();
    t.compile_fail_dir(&Spelled::new("ui"), &world.listing("ui"));
    let outcome = run(t.overwrite(true), &mut world);
    assert!(outcome.is_success(), "{}", outcome.report());

    assert_eq!(
        before,
        world.read("ui/no_main.stderr"),
        "adding an unrelated fixture rewrote this one's golden"
    );
}

/// A fixture left with no diagnostics at all must be reported, and must never be
/// blessed into an empty golden.
fn assert_suppressed_wording_is_reported(name: &str, message: &str) {
    let source = format!("compile_error!(\"{message}\");\n\nfn main() {{}}\n");
    let mut world = World::new(name);
    world.write("ui/suppressed.rs", &source);
    world.verdicts.insert(source, Verdict::Suppressed);

    let mut t = world.cases();
    t.compile_fail(&path("ui/suppressed.rs"));

    // A blessing run, because blessing is where the damage would be done.
    let outcome = run(t.overwrite(true), &mut world);
    let failure = sole_failure(&outcome);
    assert!(
        matches!(failure, Failure::NoDiagnostics { .. }),
        "expected NoDiagnostics for a suppressed `{message}`, got: {}",
        failure.message()
    );
    assert!(
        !world.holds("ui/suppressed.stderr"),
        "an empty golden was blessed for a suppressed `{message}`"
    );
    // The reader cannot see the cause anywhere else, so the failure must name it.
    let report = outcome.report();
    assert!(
        report.contains("aborting due to") && report.contains("warnings emitted"),
        "the failure does not say what cargo suppressed:\n{report}"
    );
    assert!(report.contains("error: could not compile"), "{report}");
}

#[test]
fn a_fixture_whose_only_error_is_worded_like_an_abort_is_reported() {
    assert_suppressed_wording_is_reported("abort-wording", "aborting due to a missing impl");
}

#[test]
fn a_fixture_whose_only_error_is_worded_like_a_warning_count_is_reported() {
    assert_suppressed_wording_is_reported("warning-count-wording", "3 warnings emitted");
}

/// The same fixture in a suite alongside a healthy one reaches the same verdict.
#[test]
fn a_suppressed_wording_is_reported_the_same_way_beside_a_healthy_fixture() {
    let source = "compile_error!(\"aborting due to a missing impl\");\n\nfn main() {}\n";
    let mut world = World::new("suppressed-beside-healthy");
    world.write("ui/suppressed.rs", source);
    world.write("ui/healthy.rs", REJECTED);
    world
        .verdicts
        .insert(source.to_string(), Verdict::Suppressed);

    let mut t = world.cases();
    t.compile_fail(&path("ui/suppressed.rs"));
    t.compile_fail(&path("ui/healthy.rs"));
    let outcome = run(t.overwrite(true), &mut world);

    assert!(
        outcome.setup_failures().is_empty(),
        "a fixture-level problem was reported as a failure of the run:\n{}",
        outcome.report()
    );
    let failures = outcome.failures();
    assert_eq!(
        failures.len(),
        1,
        "expected one failure:\n{}",
        outcome.report()
    );
    assert_eq!(failures[0].path(), &path("ui/suppressed.rs"));
    assert!(matches!(
        failures[0].failure(),
        Some(Failure::NoDiagnostics { .. })
    ));

    // The healthy fixture is unaffected: one bad fixture must not cost the run.
    assert!(
        world.holds("ui/healthy.stderr"),
        "a healthy fixture beside a suppressed one was not blessed"
    );
}

/// The scratch project is seeded with the lockfile of the workspace the host
/// belongs to, and with none where there is none.
#[test]
fn the_scratch_project_takes_the_host_workspace_lockfile() {
    let mut world = World::new("nocompile-lockfile-member");
    world.write("ui/accepted.rs", ACCEPTED);
    world.write("Cargo.lock", "# a stray one\n");
    let workspace = path("/w/selftest/Cargo.lock");
    world
        .files
        .insert(workspace.copied(), "# the workspace's\n".to_string());
    world.lockfile = Some(workspace);

    let mut t = world.cases();
    t.pass(&path("ui/accepted.rs"));
    assert_passed(&run(&t, &mut world));
    assert_eq!(
        world.files[&world.layout().lockfile()],
        "# the workspace's\n"
    );

    let mut bare = World::new("nocompile-lockfile-bare");
    bare.write("ui/accepted.rs", ACCEPTED);
    let mut t = bare.cases();
    t.pass(&path("ui/accepted.rs"));
    assert_passed(&run(&t, &mut bare));
    assert!(!bare.files.contains_key(&bare.layout().lockfile()));
}

/// A blessing run lists the goldens it wrote, and writes only those whose
/// content changed.
#[test]
fn a_blessing_run_writes_only_what_changed() {
    let mut world = World::new("bless-changed");
    world.write("ui/a.rs", REJECTED);
    world.write("ui/b.rs", UNDEFINED);

    let mut t = world.cases();
    t.compile_fail_dir(&Spelled::new("ui"), &world.listing("ui"));
    let outcome = run(t.overwrite(true), &mut world);
    assert_eq!(outcome.blessed(), [path("ui/a.stderr"), path("ui/b.stderr")]);
    assert_eq!(
        outcome.bless_notice(),
        "nocompile: wrote ui/a.stderr\nnocompile: wrote ui/b.stderr\n"
    );

    // Checked out with other line endings, nothing has changed.
    let golden = world.read("ui/a.stderr").replace('\n', "\r\n");
    world.write("ui/a.stderr", &golden);
    world.write("ui/b.rs", REJECTED);
    let outcome = run(t.overwrite(true), &mut world);
    assert_passed(&outcome);
    assert_eq!(outcome.blessed(), [path("ui/b.stderr")]);
    assert_eq!(world.read("ui/a.stderr"), golden);
    assert!(world.read("ui/b.stderr").contains("--> ui/b.rs:2:18"));

    // And what was blessed is accepted, in every mode.
    for mode in [Mode::Exact, Mode::Brief, Mode::BriefLocal] {
        assert_passed(&run(t.mode(mode).overwrite(true), &mut world));
        let outcome = run(t.overwrite(false), &mut world);
        assert_passed(&outcome);
        assert!(outcome.blessed().is_empty());
    }
}

/// One golden cannot hold what the compiler says of two fixtures: blessing them
/// leaves what it says of the last.
#[test]
fn two_fixtures_with_one_golden_do_not_both_check() {
    let mut world = World::new("bless-shared");
    world.write("ui/a.rs", REJECTED);
    world.write("ui/a.txt", UNDEFINED);
    let mut t = world.cases();
    t.compile_fail(&path("ui/a.rs")).compile_fail(&path("ui/a.txt"));
    let outcome = run(t.overwrite(true), &mut world);
    assert_passed(&outcome);
    assert_eq!(outcome.blessed(), [path("ui/a.stderr"), path("ui/a.stderr")]);

    let outcome = run(t.overwrite(false), &mut world);
    assert!(outcome.cases()[0].failure().is_some(), "{}", outcome.report());
    assert!(outcome.cases()[1].failure().is_none(), "{}", outcome.report());
}

/// The environment turns a run into a blessing run, unless the suite says
/// otherwise.
#[test]
fn the_environment_blesses_unless_told_otherwise() {
    let mut world = World::new("bless-env");
    world.write("ui/a.rs", REJECTED);
    world.overwrite = Some("overwrite".to_string());
    let mut t = world.cases();
    t.compile_fail(&path("ui/a.rs"));
    t.overwrite(false);
    assert!(!run(&t, &mut world).is_success());
    assert!(!world.holds("ui/a.stderr"));

    let mut t = world.cases();
    t.compile_fail(&path("ui/a.rs"));
    assert_passed(&run(&t, &mut world));
    assert!(world.holds("ui/a.stderr"));
}

/// A run in which something of the host's is missing says what, once.
fn sole_setup_message(outcome: &Outcome) -> String {
    assert!(outcome.cases().is_empty(), "{}", outcome.report());
    assert_eq!(outcome.setup_failures().len(), 1, "{}", outcome.report());
    outcome.setup_failures()[0].message()
}

#[test]
fn a_step_that_fails_stops_the_run() {
    let denied = "Permission denied (os error 13)";
    let mut world = World::new("steps");
    world.write("ui/a.rs", REJECTED);
    let mut t = world.cases();
    t.compile_fail(&path("ui/a.rs")).overwrite(true);
    let layout = world.layout();
    let staged = layout.bin_path(t.registered_cases()[0].bin.as_str());
    for (broken, said) in [
        (
            layout.root.copied(),
            format!(
                "could not lock the scratch project at {}: {denied}",
                layout.root.display()
            ),
        ),
        (
            layout.target.copied(),
            format!(
                "could not create the scratch target directory at {}: {denied}",
                layout.target.display()
            ),
        ),
        (
            world.at("ui/a.rs"),
            format!("could not read the fixture ui/a.rs: {denied}"),
        ),
        (
            staged.copied(),
            format!("could not write {}: {denied}", staged.display()),
        ),
        (
            layout.manifest(),
            format!("could not write {}: {denied}", layout.manifest().display()),
        ),
    ] {
        world.broken = HashSet::from([broken]);
        assert_eq!(sole_setup_message(&run(&t, &mut world)), said);
    }

    world.broken = HashSet::new();
    let lockfile = path("/w/selftest/Cargo.lock");
    world.lockfile = Some(lockfile.copied());
    assert_eq!(
        sole_setup_message(&run(&t, &mut world)),
        format!("could not read the host's lockfile /w/selftest/Cargo.lock: {NO_SUCH_FILE}")
    );
    world.files.insert(lockfile, String::new());
    world.broken = HashSet::from([layout.lockfile()]);
    assert_eq!(
        sole_setup_message(&run(&t, &mut world)),
        format!("could not write {}: {denied}", layout.lockfile().display())
    );
    assert!(!world.holds("ui/a.stderr"));
}

/// A fixture that is gone by the time the suite runs is named.
#[test]
fn a_fixture_that_is_not_there_is_named() {
    let mut world = World::new("gone");
    let mut t = world.cases();
    t.compile_fail(&path("ui/gone.rs"));
    assert_eq!(
        sole_setup_message(&run(&t, &mut world)),
        format!("could not read the fixture ui/gone.rs: {NO_SUCH_FILE}")
    );
}

/// A golden that cannot be read or written fails its own fixture and no other.
#[test]
fn a_golden_out_of_reach_fails_its_fixture_alone() {
    let mut world = World::new("golden-denied");
    world.write("ui/a.rs", REJECTED);
    world.write("ui/b.rs", UNDEFINED);
    let mut t = world.cases();
    t.compile_fail_dir(&Spelled::new("ui"), &world.listing("ui"));
    assert_passed(&run(t.overwrite(true), &mut world));

    world.broken = HashSet::from([world.at("ui/a.stderr")]);
    let outcome = run(t.overwrite(false), &mut world);
    assert!(outcome.setup_failures().is_empty());
    assert_eq!(outcome.failures().len(), 1);
    let Some(Failure::Io { context, message }) = outcome.cases()[0].failure() else {
        panic!("{}", outcome.report());
    };
    assert_eq!(context, "could not read the golden ui/a.stderr");
    assert_eq!(message, "Permission denied (os error 13)");

    world.write("ui/a.rs", UNDEFINED);
    let outcome = run(t.overwrite(true), &mut world);
    assert_eq!(outcome.failures().len(), 1);
    assert!(
        matches!(outcome.cases()[0].failure(), Some(Failure::Io { .. })),
        "{}",
        outcome.report()
    );
    assert!(outcome.blessed().is_empty());
}

/// Cargo spelling the scratch project's manifest differently is named as that,
/// and not as a dependency's failure.
#[test]
fn a_manifest_under_another_spelling_is_recognized() {
    let mut world = World::new("spelling");
    world.write("ui/a.rs", REJECTED);
    world.spelling = Some("/link/to/project/Cargo.toml".to_string());
    let mut t = world.cases();
    t.compile_fail(&path("ui/a.rs"));
    let outcome = run(t.overwrite(true), &mut world);
    let [Failure::ManifestMismatch { handed, reported }] = outcome.setup_failures() else {
        panic!("{}", outcome.report());
    };
    assert_eq!(handed, &world.layout().manifest());
    assert_eq!(reported, &path("/link/to/project/Cargo.toml"));
    assert!(!world.holds("ui/a.stderr"));
}

/// Drive a run to its build and hand it `output`.
fn built(t: &TestCases, world: &mut World, output: Result<Output, String>) -> Outcome {
    let mut step = t.run(&world.surroundings());
    let mut output = Some(output);
    loop {
        step = match step {
            Step::Do(doing) => {
                let result = world.perform(doing.task());
                doing.done(result)
            }
            Step::Read(reading) => {
                let contents = world.contents(&reading.path());
                reading.read(contents)
            }
            Step::Find(finding) => finding.found(Ok(None)),
            Step::Build(building) => building.built(output.take().expect("one build")),
            Step::Done(outcome) => return outcome,
            other => panic!("{other:?}"),
        };
    }
}

#[test]
fn a_build_that_cannot_be_run_or_read_stops_the_run() {
    let mut world = World::new("no-cargo");
    world.write("ui/a.rs", REJECTED);
    let mut t = world.cases();
    t.compile_fail(&path("ui/a.rs"));
    assert_eq!(
        sole_setup_message(&built(&t, &mut world, Err(NO_SUCH_FILE.to_string()))),
        format!("could not run cargo for the scratch project: {NO_SUCH_FILE}")
    );
    let torn = Output {
        stdout: "{\"reason\":\"build-fin\n".to_string(),
        stderr: String::new(),
    };
    assert_eq!(
        sole_setup_message(&built(&t, &mut world, Ok(torn))),
        "could not run cargo for the scratch project: could not parse cargo's JSON output: not a JSON value"
    );
}

/// A host whose workspace cargo cannot be asked about is a failure of the run.
#[test]
fn a_workspace_that_cannot_be_asked_for_stops_the_run() {
    let mut world = World::new("no-workspace");
    world.write("ui/a.rs", REJECTED);
    let mut t = world.cases();
    t.compile_fail(&path("ui/a.rs"));
    let mut step = t.run(&world.surroundings());
    let outcome = loop {
        step = match step {
            Step::Do(doing) => {
                let result = world.perform(doing.task());
                doing.done(result)
            }
            Step::Read(reading) => {
                let contents = world.contents(&reading.path());
                reading.read(contents)
            }
            Step::Find(finding) => finding.found(Err(NO_SUCH_FILE.to_string())),
            Step::Done(outcome) => break outcome,
            other => panic!("{other:?}"),
        };
    };
    assert_eq!(
        sole_setup_message(&outcome),
        format!("could not ask cargo where the host's workspace is: {NO_SUCH_FILE}")
    );
}

/// What could not be looked through is reported, and the rest still is.
#[test]
fn directories_that_cannot_be_looked_through_are_reported() {
    let mut world = World::new("walk");
    world.write("ui/top.rs", ACCEPTED);
    let mut t = world.cases();
    t.pass_dir(&Spelled::new("ui"), &world.listing("ui"));
    let entry = |name: &str, what: What| Found {
        name: name.as_bytes().to_vec(),
        what,
    };
    let mut step = t.run(&world.surroundings());
    let mut seen: Vec<String> = Vec::new();
    let outcome = loop {
        step = match step {
            Step::List(walking) => {
                let directory = walking.directory().from_base(&world.dir).display();
                seen.push(directory.clone());
                let scan = match directory.as_str() {
                    "ui" => Scan::Entries(
                        vec![
                            entry("top.rs", What::File),
                            entry("strange", What::Unknown("who knows".to_string())),
                            entry("pipe.rs", What::Other),
                            entry("closed", What::Directory),
                            entry("torn", What::Directory),
                        ],
                        None,
                    ),
                    "ui/torn" => Scan::Entries(
                        vec![entry("early.rs", What::File)],
                        Some("input/output error".to_string()),
                    ),
                    _ => Scan::Unreadable("closed to us".to_string()),
                };
                walking.listed(&scan)
            }
            Step::Do(doing) => {
                let result = world.perform(doing.task());
                doing.done(result)
            }
            Step::Read(reading) => {
                let contents = world.contents(&reading.path());
                reading.read(contents)
            }
            Step::Find(finding) => finding.found(Ok(None)),
            Step::Build(building) => {
                let output = world.cargo(building.layout());
                building.built(Ok(output))
            }
            Step::Done(outcome) => break outcome,
            other => panic!("{other:?}"),
        };
    };
    assert_eq!(seen, ["ui", "ui/torn", "ui/closed"]);
    let said: Vec<String> = outcome
        .setup_failures()
        .iter()
        .map(|failure| failure.message())
        .collect();
    assert_eq!(said.len(), 4, "{}", outcome.report());
    assert_eq!(said[0], "could not tell what ui/strange is: who knows");
    assert_eq!(
        said[1],
        "could not read an entry of ui/torn to check ui for unregistered fixtures: input/output error"
    );
    assert_eq!(
        said[2],
        "could not read ui/closed to check ui for unregistered fixtures: closed to us"
    );
    let Failure::UnregisteredFixtures { fixtures, .. } = &outcome.setup_failures()[3] else {
        panic!("{}", outcome.report());
    };
    assert_eq!(fixtures, &[path("ui/torn/early.rs")]);
    // The registered fixture still ran.
    assert_eq!(outcome.cases().len(), 1);
    assert!(outcome.cases()[0].is_success());
}

/// A file a report names is named as it is shown, so a name that is not UTF-8 is
/// named lossily.
#[test]
fn an_unregistered_file_is_named_as_it_is_shown() {
    let mut world = World::new("lossy-name");
    world.write("ui/top.rs", ACCEPTED);
    let nested = world.at("ui/sub").child_named(&b"a\x80.rs".to_vec());
    world.files.insert(nested, REJECTED.to_string());
    let mut t = world.cases();
    t.pass_dir(&Spelled::new("ui"), &world.listing("ui"));
    let outcome = run(&t, &mut world);
    let [Failure::UnregisteredFixtures { fixtures, .. }] = outcome.setup_failures() else {
        panic!("{}", outcome.report());
    };
    assert_eq!(fixtures, &[path("ui/sub/a\u{fffd}.rs")]);
}
