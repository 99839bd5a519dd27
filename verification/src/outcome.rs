//! What a run produced: one [`CaseOutcome`] per fixture, plus any setup failure
//! that prevented the run from starting.

use vstd::prelude::*;

use crate::compare;
use crate::compare::Mode;
use crate::diff;
use crate::diff::{first_difference, same_lines, unified};
use crate::normalize::RUST;
use crate::path;
use crate::path::{copy_paths, Part, PathBuf, Spelled};
use crate::text;
use crate::text::{
    blank, chars_of, copy_of, decimal_of, extend, extend_str, holds, lines_of, string_of,
    without_tail,
};

verus! {

/// Shown when the two texts differ only outside what a line-based diff can show.
///
/// Reading a text by its lines drops a trailing newline and the `\r` of a CRLF
/// pair, so two texts can compare unequal while every line of them matches. CRLF
/// itself is handled before the comparison, but a golden hand-edited to lose its
/// final newline still lands here.
pub const INVISIBLE_DIFFERENCE_HINT: &'static str = "the two texts differ only in characters this diff cannot show: a trailing newline, or a carriage return that is not part of a CRLF pair. Re-bless the golden to settle it.";

/// Shown when a mismatch involves a span into the standard library.
///
/// The rendering of such a span depends on whether the `rust-src` component is
/// installed, which typically differs between a developer's machine and a CI
/// runner. Nothing normalizes it away: without the source rustc re-renders each
/// annotation as a `= note:` and splits one annotated block into one span header
/// per annotation.
pub const STD_SOURCE_HINT: &'static str = "this diagnostic reaches into the standard library, whose source rustc renders only where the `rust-src` component is installed. A golden blessed with it does not match a machine without it, or the reverse -- so this diff may be the environment differing rather than the fixture. Install it wherever the goldens are blessed and wherever they are checked (`rustup component add rust-src`; a `--profile minimal` toolchain omits it). `Mode::Brief` narrows this but does not close it; `Mode::BriefLocal` drops the spans into the standard library.";

/// What a fixture is asserted to do.
#[derive(Debug, Clone, Copy, PartialEq, Eq, Hash, Structural)]
pub enum Kind {
    /// The fixture must not compile, and its diagnostics must match its golden.
    CompileFail,
    /// The fixture must compile. There is no golden; the assertion is the exit
    /// status.
    Pass,
}

/// What a kind is called in a report.
pub open spec fn kind_label(kind: Kind) -> Seq<char> {
    match kind {
        Kind::CompileFail => "compile_fail"@,
        Kind::Pass => "pass"@,
    }
}

impl Kind {
    /// What the kind is called in a report.
    pub fn label(self) -> (label: &'static str)
        ensures
            label@ == kind_label(self),
    {
        match self {
            Kind::CompileFail => "compile_fail",
            Kind::Pass => "pass",
        }
    }
}

/// Why a single fixture, or the run as a whole, did not hold up.
///
/// A structured failure rather than a panic or a text, so a test can assert that
/// a bad fixture *fails*, and fails for the stated reason.
#[derive(Debug, Clone)]
#[non_exhaustive]
pub enum Failure {
    /// A `compile_fail` fixture compiled. The most important failure the harness
    /// reports, and the one a diff would obscure.
    Compiled,
    /// A `pass` fixture did not compile.
    DidNotCompile {
        /// The normalized diagnostics, for the report.
        stderr: String,
    },
    /// A `compile_fail` fixture failed to build but produced no diagnostics the
    /// harness could attribute to it. Blessing this would write an empty golden
    /// and make the fixture permanently, silently useless.
    NoDiagnostics {
        /// The fixture's unfiltered diagnostics if there were any, and otherwise
        /// cargo's own stderr. Either may be empty.
        stderr: String,
    },
    /// The golden does not exist. A missing golden is a failure, never an
    /// implicit bless.
    MissingGolden {
        /// Path the golden was expected at.
        golden: PathBuf,
    },
    /// The diagnostics do not match the golden.
    Mismatch {
        /// Path of the golden that was compared against.
        golden: PathBuf,
        /// Golden content, after mode filtering.
        expected: String,
        /// Fixture diagnostics, after normalization and mode filtering.
        actual: String,
        /// The comparison mode in force.
        mode: Mode,
    },
    /// A registered fixture directory with no `.rs` file directly in it. The
    /// directory need not be empty: registration is not recursive, so one whose
    /// fixtures all sit in subdirectories contributes none of them.
    NoFixtures {
        /// The directory that matched nothing.
        directory: PathBuf,
    },
    /// No fixtures were registered at all. A suite that asserts nothing must not
    /// report success.
    NothingRegistered,
    /// `.rs` files under a registered directory that no registration covers. One
    /// failure per registered directory, found when the suite runs rather than
    /// when it registers, because the registration that would cover a
    /// subdirectory may come later.
    UnregisteredFixtures {
        /// The registered directory the files were found under.
        directory: PathBuf,
        /// The files no registration covers, in path order.
        fixtures: Vec<PathBuf>,
    },
    /// A `.stderr` file in a registered directory that is not the golden of any
    /// registered `compile_fail` fixture, so nothing compares against it.
    OrphanGolden {
        /// The golden no registered fixture claims.
        golden: PathBuf,
    },
    /// One fixture registered both as `compile_fail` and as `pass`. The first
    /// registration is the one the run checks; the run fails on this regardless.
    ConflictingRegistration {
        /// The fixture registered twice.
        fixture: PathBuf,
        /// The kind it was registered as first.
        registered: Kind,
        /// The kind a later registration asked for.
        conflicting: Kind,
    },
    /// A fixture path, relative to the host manifest directory, that is not
    /// valid UTF-8. The fixture is not registered.
    NonUtf8Fixture {
        /// The fixture's path, exactly as registered. Spelled lossily.
        fixture: Spelled,
    },
    /// A `raw_manifest_lines` entry whose first line that is not blank or a
    /// comment is not a table header. Nothing is built while this stands.
    RawManifestLinesWithoutHeader {
        /// The offending line.
        line: String,
    },
    /// `dependency_path` was given an empty name. Nothing is built while this
    /// stands.
    EmptyDependencyName {
        /// The dependency's resolved path, to say which call it was.
        path: PathBuf,
    },
    /// `dependency_path` was given a name whose normalization placeholder is one
    /// the harness reserves for something else -- `rust` would become `$RUST`,
    /// the toolchain's source. Nothing is built while this stands.
    ReservedDependencyName {
        /// The name as given.
        name: String,
        /// The reserved placeholder it would have produced.
        placeholder: String,
    },
    /// A dependency path that is not valid UTF-8, which a Cargo manifest cannot
    /// name. Nothing is built while this stands.
    NonUtf8Dependency {
        /// The dependency's name as given.
        name: String,
        /// Its resolved path, exactly. Shown lossily.
        path: PathBuf,
    },
    /// Cargo itself failed -- a manifest it could not parse, a dependency it
    /// could not resolve. Not a property of the fixture.
    Cargo {
        /// Cargo's own message.
        message: String,
    },
    /// Cargo reported its messages against a path that names the scratch
    /// project's manifest differently from the path the harness handed it.
    /// Attribution is by that path, so this detaches every message from every
    /// fixture at once.
    ManifestMismatch {
        /// The manifest path the harness gave cargo.
        handed: PathBuf,
        /// The path cargo reported back. A different spelling of `handed`.
        reported: PathBuf,
    },
    /// The harness could not read or write a file.
    Io {
        /// What it was trying to do.
        context: String,
        /// The underlying error, rendered.
        message: String,
    },
}

/// What a [`Failure`] stands for.
pub enum Problem {
    /// A `compile_fail` fixture compiled. The most important failure the harness
    /// reports, and the one a diff would obscure.
    Compiled,
    /// A `pass` fixture did not compile.
    DidNotCompile {
        /// The normalized diagnostics, for the report.
        stderr: Seq<char>,
    },
    /// A `compile_fail` fixture failed to build but produced no diagnostics the
    /// harness could attribute to it. Blessing this would write an empty golden
    /// and make the fixture permanently, silently useless.
    NoDiagnostics {
        /// The fixture's unfiltered diagnostics if there were any, and otherwise
        /// cargo's own stderr. Either may be empty.
        stderr: Seq<char>,
    },
    /// The golden does not exist. A missing golden is a failure, never an
    /// implicit bless.
    MissingGolden {
        /// Path the golden was expected at.
        golden: Seq<Part>,
    },
    /// The diagnostics do not match the golden.
    Mismatch {
        /// Path of the golden that was compared against.
        golden: Seq<Part>,
        /// Golden content, after mode filtering.
        expected: Seq<char>,
        /// Fixture diagnostics, after normalization and mode filtering.
        actual: Seq<char>,
        /// The comparison mode in force.
        mode: Mode,
    },
    /// A registered fixture directory with no `.rs` file directly in it. The
    /// directory need not be empty: registration is not recursive, so one whose
    /// fixtures all sit in subdirectories contributes none of them.
    NoFixtures {
        /// The directory that matched nothing.
        directory: Seq<Part>,
    },
    /// No fixtures were registered at all. A suite that asserts nothing must not
    /// report success.
    NothingRegistered,
    /// `.rs` files under a registered directory that no registration covers. One
    /// failure per registered directory, found when the suite runs rather than
    /// when it registers, because the registration that would cover a
    /// subdirectory may come later.
    UnregisteredFixtures {
        /// The registered directory the files were found under.
        directory: Seq<Part>,
        /// The files no registration covers, in path order.
        fixtures: Seq<Seq<Part>>,
    },
    /// A `.stderr` file in a registered directory that is not the golden of any
    /// registered `compile_fail` fixture, so nothing compares against it.
    OrphanGolden {
        /// The golden no registered fixture claims.
        golden: Seq<Part>,
    },
    /// One fixture registered both as `compile_fail` and as `pass`. The first
    /// registration is the one the run checks; the run fails on this regardless.
    ConflictingRegistration {
        /// The fixture registered twice.
        fixture: Seq<Part>,
        /// The kind it was registered as first.
        registered: Kind,
        /// The kind a later registration asked for.
        conflicting: Kind,
    },
    /// A fixture path, relative to the host manifest directory, that is not
    /// valid UTF-8. The fixture is not registered.
    NonUtf8Fixture {
        /// The fixture's path, exactly as registered.
        fixture: Seq<Part>,
        /// How it is spelled, lossily.
        spelled: Seq<char>,
    },
    /// A `raw_manifest_lines` entry whose first line that is not blank or a
    /// comment is not a table header. Nothing is built while this stands.
    RawManifestLinesWithoutHeader {
        /// The offending line.
        line: Seq<char>,
    },
    /// `dependency_path` was given an empty name. Nothing is built while this
    /// stands.
    EmptyDependencyName {
        /// The dependency's resolved path, to say which call it was.
        path: Seq<Part>,
    },
    /// `dependency_path` was given a name whose normalization placeholder is one
    /// the harness reserves for something else -- `rust` would become `$RUST`,
    /// the toolchain's source. Nothing is built while this stands.
    ReservedDependencyName {
        /// The name as given.
        name: Seq<char>,
        /// The reserved placeholder it would have produced.
        placeholder: Seq<char>,
    },
    /// A dependency path that is not valid UTF-8, which a Cargo manifest cannot
    /// name. Nothing is built while this stands.
    NonUtf8Dependency {
        /// The dependency's name as given.
        name: Seq<char>,
        /// Its resolved path, exactly. Shown lossily.
        path: Seq<Part>,
    },
    /// Cargo itself failed -- a manifest it could not parse, a dependency it
    /// could not resolve. Not a property of the fixture.
    Cargo {
        /// Cargo's own message.
        message: Seq<char>,
    },
    /// Cargo reported its messages against a path that names the scratch
    /// project's manifest differently from the path the harness handed it.
    /// Attribution is by that path, so this detaches every message from every
    /// fixture at once.
    ManifestMismatch {
        /// The manifest path the harness gave cargo.
        handed: Seq<Part>,
        /// The path cargo reported back. A different spelling of `handed`.
        reported: Seq<Part>,
    },
    /// The harness could not read or write a file.
    Io {
        /// What it was trying to do.
        context: Seq<char>,
        /// The underlying error, rendered.
        message: Seq<char>,
    },
}

impl View for Failure {
    type V = Problem;

    open spec fn view(&self) -> Problem {
        match *self {
            Failure::Compiled => Problem::Compiled,
            Failure::DidNotCompile { stderr } => Problem::DidNotCompile {
                stderr: stderr@,
            },
            Failure::NoDiagnostics { stderr } => Problem::NoDiagnostics {
                stderr: stderr@,
            },
            Failure::MissingGolden { golden } => Problem::MissingGolden {
                golden: golden@,
            },
            Failure::Mismatch { golden, expected, actual, mode } => Problem::Mismatch {
                golden: golden@,
                expected: expected@,
                actual: actual@,
                mode,
            },
            Failure::NoFixtures { directory } => Problem::NoFixtures {
                directory: directory@,
            },
            Failure::NothingRegistered => Problem::NothingRegistered,
            Failure::UnregisteredFixtures { directory, fixtures } => Problem::UnregisteredFixtures {
                directory: directory@,
                fixtures: path::paths(fixtures@),
            },
            Failure::OrphanGolden { golden } => Problem::OrphanGolden {
                golden: golden@,
            },
            Failure::ConflictingRegistration { fixture, registered, conflicting } => Problem::ConflictingRegistration {
                fixture: fixture@,
                registered,
                conflicting,
            },
            Failure::NonUtf8Fixture { fixture } => Problem::NonUtf8Fixture {
                fixture: fixture.path@,
                spelled: fixture.text@,
            },
            Failure::RawManifestLinesWithoutHeader { line } => Problem::RawManifestLinesWithoutHeader {
                line: line@,
            },
            Failure::EmptyDependencyName { path } => Problem::EmptyDependencyName {
                path: path@,
            },
            Failure::ReservedDependencyName { name, placeholder } => Problem::ReservedDependencyName {
                name: name@,
                placeholder: placeholder@,
            },
            Failure::NonUtf8Dependency { name, path } => Problem::NonUtf8Dependency {
                name: name@,
                path: path@,
            },
            Failure::Cargo { message } => Problem::Cargo {
                message: message@,
            },
            Failure::ManifestMismatch { handed, reported } => Problem::ManifestMismatch {
                handed: handed@,
                reported: reported@,
            },
            Failure::Io { context, message } => Problem::Io {
                context: context@,
                message: message@,
            },
        }
    }
}

/// What each of `all` stands for.
pub open spec fn problems(all: Seq<Failure>) -> Seq<Problem> {
    all.map_values(|failure: Failure| failure@)
}

/// The failure refused part of the scratch project's manifest, so that nothing
/// may be built while it stands.
pub open spec fn refuses(problem: Problem) -> bool {
    match problem {
        Problem::RawManifestLinesWithoutHeader { .. } => true,
        Problem::EmptyDependencyName { .. } => true,
        Problem::ReservedDependencyName { .. } => true,
        Problem::NonUtf8Dependency { .. } => true,
        _ => false,
    }
}

impl Failure {
    /// A copy of the failure.
    pub fn copied(&self) -> (copy: Failure)
        ensures
            copy@ == self@,
    {
        match self {
            Failure::Compiled => Failure::Compiled,
            Failure::DidNotCompile { stderr } => Failure::DidNotCompile {
                stderr: copy_of(stderr.as_str()),
            },
            Failure::NoDiagnostics { stderr } => Failure::NoDiagnostics {
                stderr: copy_of(stderr.as_str()),
            },
            Failure::MissingGolden { golden } => Failure::MissingGolden {
                golden: golden.copied(),
            },
            Failure::Mismatch { golden, expected, actual, mode } => Failure::Mismatch {
                golden: golden.copied(),
                expected: copy_of(expected.as_str()),
                actual: copy_of(actual.as_str()),
                mode: *mode,
            },
            Failure::NoFixtures { directory } => Failure::NoFixtures {
                directory: directory.copied(),
            },
            Failure::NothingRegistered => Failure::NothingRegistered,
            Failure::UnregisteredFixtures { directory, fixtures } => Failure::UnregisteredFixtures {
                directory: directory.copied(),
                fixtures: copy_paths(fixtures),
            },
            Failure::OrphanGolden { golden } => Failure::OrphanGolden {
                golden: golden.copied(),
            },
            Failure::ConflictingRegistration { fixture, registered, conflicting } => Failure::ConflictingRegistration {
                fixture: fixture.copied(),
                registered: *registered,
                conflicting: *conflicting,
            },
            Failure::NonUtf8Fixture { fixture } => Failure::NonUtf8Fixture {
                fixture: Spelled {
                    path: fixture.path.copied(),
                    text: copy_of(fixture.text.as_str()),
                },
            },
            Failure::RawManifestLinesWithoutHeader { line } => Failure::RawManifestLinesWithoutHeader {
                line: copy_of(line.as_str()),
            },
            Failure::EmptyDependencyName { path } => Failure::EmptyDependencyName {
                path: path.copied(),
            },
            Failure::ReservedDependencyName { name, placeholder } => Failure::ReservedDependencyName {
                name: copy_of(name.as_str()),
                placeholder: copy_of(placeholder.as_str()),
            },
            Failure::NonUtf8Dependency { name, path } => Failure::NonUtf8Dependency {
                name: copy_of(name.as_str()),
                path: path.copied(),
            },
            Failure::Cargo { message } => Failure::Cargo {
                message: copy_of(message.as_str()),
            },
            Failure::ManifestMismatch { handed, reported } => Failure::ManifestMismatch {
                handed: handed.copied(),
                reported: reported.copied(),
            },
            Failure::Io { context, message } => Failure::Io {
                context: copy_of(context.as_str()),
                message: copy_of(message.as_str()),
            },
        }
    }

    /// Whether this failure refused part of the scratch project's manifest, so
    /// that nothing may be built while it stands.
    ///
    /// Building the manifest without the refused part would compile the fixtures
    /// against a configuration nobody asked for, and a blessing run would write
    /// that into the goldens. A refused *fixture* is different: it is left out,
    /// and the rest of the suite is as valid without it as it was with it.
    ///
    /// The match is exhaustive on purpose, so a new variant has to answer.
    pub fn refuses_the_manifest(&self) -> (yes: bool)
        ensures
            yes == refuses(self@),
    {
        match self {
            Failure::Compiled => false,
            Failure::DidNotCompile { .. } => false,
            Failure::NoDiagnostics { .. } => false,
            Failure::MissingGolden { .. } => false,
            Failure::Mismatch { .. } => false,
            Failure::NoFixtures { .. } => false,
            Failure::NothingRegistered => false,
            Failure::UnregisteredFixtures { .. } => false,
            Failure::OrphanGolden { .. } => false,
            Failure::ConflictingRegistration { .. } => false,
            Failure::NonUtf8Fixture { .. } => false,
            Failure::RawManifestLinesWithoutHeader { .. } => true,
            Failure::EmptyDependencyName { .. } => true,
            Failure::ReservedDependencyName { .. } => true,
            Failure::NonUtf8Dependency { .. } => true,
            Failure::Cargo { .. } => false,
            Failure::ManifestMismatch { .. } => false,
            Failure::Io { .. } => false,
        }
    }
}

/// A copy of `all`.
pub fn copy_failures(all: &Vec<Failure>) -> (copy: Vec<Failure>)
    ensures
        problems(copy@) == problems(all@),
{
    let mut copy: Vec<Failure> = Vec::new();
    for i in 0..all.len()
        invariant
            problems(copy@) == problems(all@).take(i as int),
    {
        let ghost before = problems(copy@);
        let failure = all[i].copied();
        copy.push(failure);
        assert(problems(copy@) =~= before.push(failure@));
    }
    assert(problems(all@).take(all@.len() as int) =~= problems(all@));
    copy
}

// ---------------------------------------------------------------------------
// What a failure says.
// ---------------------------------------------------------------------------

/// What a [`Failure::MissingGolden`] says, or part of it.
pub const MISSING_GOLDEN_TEXT: &'static str = "\nrun with NOCOMPILE=overwrite to create it, then read what it captured";

/// What a [`Failure::NoFixtures`] says, or part of it.
pub const NO_FIXTURES_TEXT: &'static str = " -- registering it tests nothing. Registration is not recursive: a fixture in a subdirectory is registered only by registering that subdirectory.";

/// What a [`Failure::NothingRegistered`] says, or part of it.
pub const NOTHING_REGISTERED_TEXT: &'static str = "no fixtures were registered -- the suite would pass without testing anything";

/// What a [`Failure::OrphanGolden`] says, or part of it.
pub const ORPHAN_GOLDEN_TEXT: &'static str = " is not the golden of any registered compile_fail fixture, so nothing compares against it. Its fixture was likely renamed or deleted, or is registered as a pass fixture, which has no golden. Rename the golden to follow its fixture, or delete it; NOCOMPILE=overwrite never deletes a golden.";

/// What a [`Failure::ConflictingRegistration`] says, or part of it.
pub const CONFLICTING_REGISTRATION_TEXT: &'static str = "; remove the other registration, or move the fixture into a directory registered for the kind it is.";

/// What a [`Failure::NonUtf8Fixture`] says, or part of it.
pub const NON_UTF8_FIXTURE_TEXT: &'static str = " is not valid UTF-8, so it was not registered. A fixture's path is written into its golden and into the generated Cargo manifest, both of which are text, and cannot be carried there faithfully. Rename the fixture.";

/// What a [`Failure::RawManifestLinesWithoutHeader`] says, or part of it.
pub const RAW_MANIFEST_LINES_WITHOUT_HEADER_TEXT: &'static str = "raw_manifest_lines was given text that does not begin with a table header:\n\n    ";

/// What a [`Failure::RawManifestLinesWithoutHeader`] says, or part of it.
pub const RAW_MANIFEST_LINES_WITHOUT_HEADER_REST: &'static str = "\n\nThe text is appended after the generated [[bin]] tables, so a bare key there would silently become metadata of the last fixture's bin target. Begin it with the header of the table it belongs in, such as [features]. Nothing was built.";

/// What a [`Failure::EmptyDependencyName`] says, or part of it.
pub const EMPTY_DEPENDENCY_NAME_TEXT: &'static str = "dependency_path was given an empty name for the dependency at ";

/// What a [`Failure::EmptyDependencyName`] says, or part of it.
pub const EMPTY_DEPENDENCY_NAME_REST: &'static str = ". The name must be the dependency's package name, exactly as its Cargo.toml spells it. Nothing was built.";

/// What a [`Failure::ReservedDependencyName`] says, or part of it.
pub const RESERVED_DEPENDENCY_NAME_TEXT: &'static str = " is reserved for something else: a path into the dependency would read in every golden as that, not as the dependency. A crate with this package name can still be declared through raw_manifest_lines, as a [dependencies.";

/// What a [`Failure::ReservedDependencyName`] says, or part of it.
pub const RESERVED_DEPENDENCY_NAME_REST: &'static str = "] table, at the cost of having no placeholder. Nothing was built.";

/// What a [`Failure::NonUtf8Dependency`] says, or part of it.
pub const NON_UTF8_DEPENDENCY_TEXT: &'static str = ", is not valid UTF-8. A Cargo manifest is UTF-8 and cannot name it, so cargo could not find the dependency. Move it to a path that is valid UTF-8. Nothing was built.";

/// What a [`Failure::ManifestMismatch`] says, or part of it.
pub const MANIFEST_MISMATCH_TEXT: &'static str = "cargo reported every message against a different spelling of the scratch project's manifest path, so none of them could be attributed to a fixture.\n\n    handed to cargo: ";

/// What a [`Failure::ManifestMismatch`] says, or part of it.
pub const MANIFEST_MISMATCH_REST: &'static str = "\n\nBoth name the same file, so this is a difference of spelling rather than of location: a normalization cargo applies that the harness does not. Attribution compares the two as paths, and it has to -- target names are not a namespace, so a dependency is free to have a target named like a fixture's bin.\n\nSetting CARGO_TARGET_DIR to an absolute path is the workaround. The mismatch itself is a bug in this harness, and the two paths above are what it needs to be reported.";

/// What a [`Failure::NoDiagnostics`] says, or part of it.
pub const NO_DIAGNOSTICS_TEXT: &'static str = "the fixture failed to build but produced no diagnostics the harness could attribute to it; refusing to write an empty golden.\n\nCargo suppresses any diagnostic whose message begins with `aborting due to`, or ends with `warning emitted` or `warnings emitted`, which is how it strips rustc's own summary lines -- and a `compile_error!` worded any of those ways goes with them, before any harness can see it. If that is what happened, reword the message.";

/// Only shown over something: a heading over nothing tells the reader the cause
/// is visible when it is not.
pub const CARGO_SAID: &'static str = "\n\ncargo said this. Where it names the rustc command it ran, running that command with its `--error-format` and `--json` flags removed prints the suppressed diagnostic in full -- rustc emits it, and only cargo drops it:\n\n";

/// `fixtures`, one to a line, indented.
pub open spec fn fixture_list(fixtures: Seq<Seq<Part>>) -> Seq<char>
    decreases fixtures.len(),
{
    if fixtures.len() == 0 {
        seq![]
    } else {
        fixture_list(fixtures.drop_last()) + "    "@ + path::shown(fixtures.last()) + "\n"@
    }
}

/// What an [`Failure::UnregisteredFixtures`] says.
pub open spec fn unregistered_message(directory: Seq<Part>, fixtures: Seq<Seq<Part>>) -> Seq<char> {
    text::decimal(fixtures.len()) + " .rs file(s) under "@ + path::shown(directory)
        + " are not registered, so they are not tested:\n\n"@ + fixture_list(fixtures)
        + "\nRegistering a directory is not recursive: it takes the .rs files directly in "@
        + path::shown(directory)
        + " and nothing below it. Register the subdirectory that holds them, or move a file that is not a fixture out from under "@
        + path::shown(directory) + "."@
}

/// Where the first difference of a mismatch is, as it is reported.
pub open spec fn first_difference_note(expected: Seq<char>, actual: Seq<char>) -> Seq<char> {
    match diff::first_line_apart(expected, actual) {
        Some(line) => ", first difference at line "@ + text::decimal(line),
        None => seq![],
    }
}

/// The hint for a mismatch that the diff cannot show.
pub open spec fn invisible_hint(expected: Seq<char>, actual: Seq<char>) -> Seq<char> {
    if text::lines(expected) == text::lines(actual) {
        "\n"@ + INVISIBLE_DIFFERENCE_HINT@ + "\n"@
    } else {
        seq![]
    }
}

/// The hint for a mismatch that reaches into the standard library. Given only
/// where that can be the cause, so it stays a signal.
pub open spec fn std_source_hint(expected: Seq<char>, actual: Seq<char>) -> Seq<char> {
    if text::contains(expected, RUST@) || text::contains(actual, RUST@) {
        "\n"@ + STD_SOURCE_HINT@ + "\n"@
    } else {
        seq![]
    }
}

/// What a [`Failure::Mismatch`] says.
pub open spec fn mismatch_message(
    golden: Seq<Part>,
    expected: Seq<char>,
    actual: Seq<char>,
    mode: Mode,
) -> Seq<char> {
    "diagnostics do not match "@ + path::shown(golden) + " ("@ + compare::mode_name(mode)
        + " mode)"@ + first_difference_note(expected, actual) + "\n\n"@ + diff::difference(
        expected,
        actual,
        path::shown(golden),
        "actual"@,
    ) + invisible_hint(expected, actual) + std_source_hint(expected, actual)
        + "\nrun with NOCOMPILE=overwrite to update the golden"@
}

/// What a [`Failure::NoDiagnostics`] says.
pub open spec fn no_diagnostics_message(stderr: Seq<char>) -> Seq<char> {
    if text::is_blank(stderr) {
        NO_DIAGNOSTICS_TEXT@
    } else {
        NO_DIAGNOSTICS_TEXT@ + CARGO_SAID@ + text::trim_end(stderr)
    }
}

/// What a failure says, unindented.
pub open spec fn message(problem: Problem) -> Seq<char> {
    match problem {
        Problem::Compiled => "expected a compile error, but the fixture compiled"@,
        Problem::DidNotCompile { stderr } => "expected the fixture to compile, but it did not:\n\n"@ + stderr,
        Problem::NoDiagnostics { stderr } => no_diagnostics_message(stderr),
        Problem::MissingGolden { golden } => "no golden at "@ + path::shown(golden) + MISSING_GOLDEN_TEXT@,
        Problem::Mismatch { golden, expected, actual, mode } => mismatch_message(golden, expected, actual, mode),
        Problem::NoFixtures { directory } => "no .rs fixtures directly in "@ + path::shown(directory) + NO_FIXTURES_TEXT@,
        Problem::NothingRegistered => NOTHING_REGISTERED_TEXT@,
        Problem::UnregisteredFixtures { directory, fixtures } => unregistered_message(directory, fixtures),
        Problem::OrphanGolden { golden } => path::shown(golden) + ORPHAN_GOLDEN_TEXT@,
        Problem::ConflictingRegistration { fixture, registered, conflicting } => path::shown(fixture) + " is registered as both "@ + kind_label(registered) + " and "@ + kind_label(conflicting) + ", and a fixture can only be one. This run checks it as "@ + kind_label(registered) + CONFLICTING_REGISTRATION_TEXT@,
        Problem::NonUtf8Fixture { spelled, .. } => "the fixture path "@ + spelled + NON_UTF8_FIXTURE_TEXT@,
        Problem::RawManifestLinesWithoutHeader { line } => RAW_MANIFEST_LINES_WITHOUT_HEADER_TEXT@ + line + RAW_MANIFEST_LINES_WITHOUT_HEADER_REST@,
        Problem::EmptyDependencyName { path } => EMPTY_DEPENDENCY_NAME_TEXT@ + path::native(path) + EMPTY_DEPENDENCY_NAME_REST@,
        Problem::ReservedDependencyName { name, placeholder } => "dependency_path was given the name `"@ + name + "`, whose normalization placeholder "@ + placeholder + RESERVED_DEPENDENCY_NAME_TEXT@ + name + RESERVED_DEPENDENCY_NAME_REST@,
        Problem::NonUtf8Dependency { name, path } => "the path of dependency `"@ + name + "`, "@ + path::native(path) + NON_UTF8_DEPENDENCY_TEXT@,
        Problem::Cargo { message } => "cargo could not run the fixture build:\n\n"@ + message,
        Problem::ManifestMismatch { handed, reported } => MANIFEST_MISMATCH_TEXT@ + path::native(handed) + "\n    reported back:   "@ + path::native(reported) + MANIFEST_MISMATCH_REST@,
        Problem::Io { context, message } => context + ": "@ + message,
    }
}

/// Append what an [`Failure::UnregisteredFixtures`] says.
fn put_unregistered(out: &mut Vec<char>, directory: &PathBuf, fixtures: &Vec<PathBuf>)
    requires
        old(out)@.len() == 0,
    ensures
        final(out)@ == unregistered_message(directory@, path::paths(fixtures@)),
{
    let ghost all = path::paths(fixtures@);
    let shown = directory.display();
    extend_str(out, decimal_of(fixtures.len()).as_str());
    extend_str(out, " .rs file(s) under ");
    extend_str(out, shown.as_str());
    extend_str(out, " are not registered, so they are not tested:\n\n");
    let ghost head = out@;
    assert(head =~= text::decimal(all.len()) + " .rs file(s) under "@ + path::shown(directory@)
        + " are not registered, so they are not tested:\n\n"@);
    assert(head + fixture_list(all.take(0)) =~= head);
    for i in 0..fixtures.len()
        invariant
            all == path::paths(fixtures@),
            out@ == head + fixture_list(all.take(i as int)),
    {
        assert(all.take(i + 1).drop_last() =~= all.take(i as int));
        extend_str(out, "    ");
        extend_str(out, fixtures[i].display().as_str());
        extend_str(out, "\n");
        assert(out@ =~= head + fixture_list(all.take(i + 1)));
    }
    assert(all.take(all.len() as int) =~= all);
    extend_str(
        out,
        "\nRegistering a directory is not recursive: it takes the .rs files directly in ",
    );
    extend_str(out, shown.as_str());
    extend_str(
        out,
        " and nothing below it. Register the subdirectory that holds them, or move a file that is not a fixture out from under ",
    );
    extend_str(out, shown.as_str());
    extend_str(out, ".");
}

/// Append what a [`Failure::Mismatch`] says.
fn put_mismatch(out: &mut Vec<char>, golden: &PathBuf, expected: &str, actual: &str, mode: Mode)
    requires
        old(out)@.len() == 0,
    ensures
        final(out)@ == mismatch_message(golden@, expected@, actual@, mode),
{
    let shown = golden.display();
    extend_str(out, "diagnostics do not match ");
    extend_str(out, shown.as_str());
    extend_str(out, " (");
    extend_str(out, mode.name());
    extend_str(out, " mode)");
    let ghost head = out@;
    assert(head =~= "diagnostics do not match "@ + path::shown(golden@) + " ("@
        + compare::mode_name(mode) + " mode)"@);
    if let Some(line) = first_difference(expected, actual) {
        extend_str(out, ", first difference at line ");
        extend_str(out, decimal_of(line).as_str());
    }
    assert(out@ =~= head + first_difference_note(expected@, actual@));
    extend_str(out, "\n\n");
    extend_str(out, unified(expected, actual, shown.as_str(), "actual").as_str());
    let ghost shown_to = out@;
    if same_lines(expected, actual) {
        extend_str(out, "\n");
        extend_str(out, INVISIBLE_DIFFERENCE_HINT);
        extend_str(out, "\n");
    }
    assert(out@ =~= shown_to + invisible_hint(expected@, actual@));
    let ghost hinted = out@;
    if holds(expected, RUST) || holds(actual, RUST) {
        extend_str(out, "\n");
        extend_str(out, STD_SOURCE_HINT);
        extend_str(out, "\n");
    }
    assert(out@ =~= hinted + std_source_hint(expected@, actual@));
    extend_str(out, "\nrun with NOCOMPILE=overwrite to update the golden");
}

/// Append what a [`Failure::NoDiagnostics`] says.
fn put_no_diagnostics(out: &mut Vec<char>, stderr: &str)
    requires
        old(out)@.len() == 0,
    ensures
        final(out)@ == no_diagnostics_message(stderr@),
{
    extend_str(out, NO_DIAGNOSTICS_TEXT);
    assert(out@ =~= NO_DIAGNOSTICS_TEXT@);
    let said = chars_of(stderr);
    if !blank(&said) {
        extend_str(out, CARGO_SAID);
        extend(out, &without_tail(&said));
    }
}

impl Failure {
    /// What the failure says. Unindented: a failure shown on its own should not
    /// arrive pre-indented for someone else's layout.
    pub fn message(&self) -> (text: String)
        ensures
            text@ == message(self@),
    {
        let mut out: Vec<char> = Vec::new();
        match self {
            Failure::Compiled => {
                extend_str(&mut out, "expected a compile error, but the fixture compiled");
            },
            Failure::DidNotCompile { stderr } => {
                extend_str(&mut out, "expected the fixture to compile, but it did not:\n\n");
                extend_str(&mut out, stderr.as_str());
            },
            Failure::NoDiagnostics { stderr } => {
                put_no_diagnostics(&mut out, stderr.as_str());
            },
            Failure::MissingGolden { golden } => {
                extend_str(&mut out, "no golden at ");
                extend_str(&mut out, golden.display().as_str());
                extend_str(&mut out, MISSING_GOLDEN_TEXT);
            },
            Failure::Mismatch { golden, expected, actual, mode } => {
                put_mismatch(&mut out, golden, expected.as_str(), actual.as_str(), *mode);
            },
            Failure::NoFixtures { directory } => {
                extend_str(&mut out, "no .rs fixtures directly in ");
                extend_str(&mut out, directory.display().as_str());
                extend_str(&mut out, NO_FIXTURES_TEXT);
            },
            Failure::NothingRegistered => {
                extend_str(&mut out, NOTHING_REGISTERED_TEXT);
            },
            Failure::UnregisteredFixtures { directory, fixtures } => {
                put_unregistered(&mut out, directory, fixtures);
            },
            Failure::OrphanGolden { golden } => {
                extend_str(&mut out, golden.display().as_str());
                extend_str(&mut out, ORPHAN_GOLDEN_TEXT);
            },
            Failure::ConflictingRegistration { fixture, registered, conflicting } => {
                extend_str(&mut out, fixture.display().as_str());
                extend_str(&mut out, " is registered as both ");
                extend_str(&mut out, registered.label());
                extend_str(&mut out, " and ");
                extend_str(&mut out, conflicting.label());
                extend_str(&mut out, ", and a fixture can only be one. This run checks it as ");
                extend_str(&mut out, registered.label());
                extend_str(&mut out, CONFLICTING_REGISTRATION_TEXT);
            },
            Failure::NonUtf8Fixture { fixture } => {
                extend_str(&mut out, "the fixture path ");
                extend_str(&mut out, fixture.text.as_str());
                extend_str(&mut out, NON_UTF8_FIXTURE_TEXT);
            },
            Failure::RawManifestLinesWithoutHeader { line } => {
                extend_str(&mut out, RAW_MANIFEST_LINES_WITHOUT_HEADER_TEXT);
                extend_str(&mut out, line.as_str());
                extend_str(&mut out, RAW_MANIFEST_LINES_WITHOUT_HEADER_REST);
            },
            Failure::EmptyDependencyName { path } => {
                extend_str(&mut out, EMPTY_DEPENDENCY_NAME_TEXT);
                extend_str(&mut out, path.display_native().as_str());
                extend_str(&mut out, EMPTY_DEPENDENCY_NAME_REST);
            },
            Failure::ReservedDependencyName { name, placeholder } => {
                extend_str(&mut out, "dependency_path was given the name `");
                extend_str(&mut out, name.as_str());
                extend_str(&mut out, "`, whose normalization placeholder ");
                extend_str(&mut out, placeholder.as_str());
                extend_str(&mut out, RESERVED_DEPENDENCY_NAME_TEXT);
                extend_str(&mut out, name.as_str());
                extend_str(&mut out, RESERVED_DEPENDENCY_NAME_REST);
            },
            Failure::NonUtf8Dependency { name, path } => {
                extend_str(&mut out, "the path of dependency `");
                extend_str(&mut out, name.as_str());
                extend_str(&mut out, "`, ");
                extend_str(&mut out, path.display_native().as_str());
                extend_str(&mut out, NON_UTF8_DEPENDENCY_TEXT);
            },
            Failure::Cargo { message } => {
                extend_str(&mut out, "cargo could not run the fixture build:\n\n");
                extend_str(&mut out, message.as_str());
            },
            Failure::ManifestMismatch { handed, reported } => {
                extend_str(&mut out, MANIFEST_MISMATCH_TEXT);
                extend_str(&mut out, handed.display_native().as_str());
                extend_str(&mut out, "\n    reported back:   ");
                extend_str(&mut out, reported.display_native().as_str());
                extend_str(&mut out, MANIFEST_MISMATCH_REST);
            },
            Failure::Io { context, message } => {
                extend_str(&mut out, context.as_str());
                extend_str(&mut out, ": ");
                extend_str(&mut out, message.as_str());
            },
        }
        assert(out@ =~= message(self@));
        string_of(&out)
    }
}

// ---------------------------------------------------------------------------
// What came of one fixture.
// ---------------------------------------------------------------------------

/// The result of one fixture.
#[derive(Debug)]
pub struct CaseOutcome {
    path: PathBuf,
    kind: Kind,
    result: Result<(), Failure>,
}

/// What a [`CaseOutcome`] stands for.
pub struct Verdict {
    /// The fixture's path, relative to the host crate's manifest directory.
    pub path: Seq<Part>,
    /// What the fixture was asserted to do.
    pub kind: Kind,
    /// Why it did not hold up, if it did not.
    pub failure: Option<Problem>,
}

impl View for CaseOutcome {
    type V = Verdict;

    closed spec fn view(&self) -> Verdict {
        Verdict { path: self.path@, kind: self.kind, failure: problem_of(self.result) }
    }
}

/// Why a case did not hold up, if it did not.
pub open spec fn problem_of(result: Result<(), Failure>) -> Option<Problem> {
    match result {
        Ok(_) => None,
        Err(failure) => Some(failure@),
    }
}

/// What each of `all` stands for.
pub open spec fn verdicts(all: Seq<CaseOutcome>) -> Seq<Verdict> {
    all.map_values(|case: CaseOutcome| case@)
}

/// What each of `all` stands for.
pub open spec fn verdicts_of(all: Seq<&CaseOutcome>) -> Seq<Verdict> {
    all.map_values(|case: &CaseOutcome| case@)
}

impl CaseOutcome {
    /// What came of the fixture at `path`.
    pub fn new(path: PathBuf, kind: Kind, result: Result<(), Failure>) -> (case: CaseOutcome)
        ensures
            case@ == (Verdict { path: path@, kind, failure: problem_of(result) }),
    {
        CaseOutcome { path, kind, result }
    }

    /// The fixture's path, relative to the host crate's manifest directory.
    pub fn path(&self) -> (path: &PathBuf)
        ensures
            path@ == self@.path,
    {
        &self.path
    }

    /// Whether the fixture was a `compile_fail` or a `pass` case.
    pub fn kind(&self) -> (kind: Kind)
        ensures
            kind == self@.kind,
    {
        self.kind
    }

    /// The failure, if this case did not hold up.
    pub fn failure(&self) -> (failure: Option<&Failure>)
        ensures
            match failure {
                Some(failure) => self@.failure == Some(failure@),
                None => self@.failure is None,
            },
    {
        match &self.result {
            Ok(_) => None,
            Err(failure) => Some(failure),
        }
    }

    /// Whether this case held up.
    pub fn is_success(&self) -> (yes: bool)
        ensures
            yes == (self@.failure is None),
    {
        self.failure().is_none()
    }
}

// ---------------------------------------------------------------------------
// What came of a run.
// ---------------------------------------------------------------------------

/// Everything one run produced.
#[derive(Debug)]
pub struct Outcome {
    setup: Vec<Failure>,
    cases: Vec<CaseOutcome>,
    blessed: Vec<PathBuf>,
}

/// What an [`Outcome`] stands for.
pub struct Summary {
    /// Failures of the run as a whole.
    pub setup: Seq<Problem>,
    /// What came of each fixture, in the order they were registered.
    pub cases: Seq<Verdict>,
    /// The goldens the run wrote, in the order it wrote them.
    pub blessed: Seq<Seq<Part>>,
}

impl View for Outcome {
    type V = Summary;

    closed spec fn view(&self) -> Summary {
        Summary {
            setup: problems(self.setup@),
            cases: verdicts(self.cases@),
            blessed: path::paths(self.blessed@),
        }
    }
}

/// The cases among `cases` that did not hold up.
pub open spec fn failed(cases: Seq<Verdict>) -> Seq<Verdict>
    decreases cases.len(),
{
    if cases.len() == 0 {
        seq![]
    } else if cases.last().failure is Some {
        failed(cases.drop_last()).push(cases.last())
    } else {
        failed(cases.drop_last())
    }
}

/// Every fixture held up and setup was clean.
pub open spec fn succeeded(summary: Summary) -> bool {
    &&& summary.setup.len() == 0
    &&& forall|i: int|
        0 <= i < summary.cases.len() ==> (#[trigger] summary.cases[i]).failure is None
}

/// `lines`, each indented by four spaces unless it is empty.
pub open spec fn indented_lines(lines: Seq<Seq<char>>) -> Seq<char>
    decreases lines.len(),
{
    if lines.len() == 0 {
        seq![]
    } else if lines.last().len() == 0 {
        indented_lines(lines.drop_last()) + "\n"@
    } else {
        indented_lines(lines.drop_last()) + "    "@ + lines.last() + "\n"@
    }
}

/// What a failure says, indented under its heading.
pub open spec fn indented(problem: Problem) -> Seq<char> {
    indented_lines(text::lines(message(problem)))
}

/// What the report says of the run as a whole.
pub open spec fn setup_report(setup: Seq<Problem>) -> Seq<char>
    decreases setup.len(),
{
    if setup.len() == 0 {
        seq![]
    } else {
        setup_report(setup.drop_last()) + "\nSETUP FAILED\n"@ + indented(setup.last())
    }
}

/// What the report says of the fixtures, each of which failed.
pub open spec fn cases_report(failed: Seq<Verdict>) -> Seq<char>
    decreases failed.len(),
{
    if failed.len() == 0 {
        seq![]
    } else {
        cases_report(failed.drop_last()) + "\nFAIL "@ + path::shown(failed.last().path) + " ("@
            + kind_label(failed.last().kind) + ")\n"@ + indented(failed.last().failure->0)
    }
}

/// The report of a run.
pub open spec fn report(summary: Summary) -> Seq<char> {
    let bad = failed(summary.cases);
    if summary.setup.len() == 0 && bad.len() == 0 {
        "nocompile: "@ + text::decimal(summary.cases.len()) + " case(s) passed"@
    } else {
        "nocompile: "@ + text::decimal(bad.len()) + " of "@ + text::decimal(summary.cases.len())
            + " case(s) failed\n"@ + setup_report(summary.setup) + cases_report(bad)
    }
}

/// The goldens of `blessed`, one to a line.
pub open spec fn bless_notice(blessed: Seq<Seq<Part>>) -> Seq<char>
    decreases blessed.len(),
{
    if blessed.len() == 0 {
        seq![]
    } else {
        bless_notice(blessed.drop_last()) + "nocompile: wrote "@ + path::shown(blessed.last())
            + "\n"@
    }
}

/// Every case held up exactly where [`failed`] finds none, and what it finds
/// did fail.
pub proof fn lemma_failed(cases: Seq<Verdict>)
    ensures
        failed(cases).len() <= cases.len(),
        failed(cases).len() == 0 <==> forall|i: int|
            0 <= i < cases.len() ==> (#[trigger] cases[i]).failure is None,
        forall|i: int| 0 <= i < failed(cases).len() ==> (#[trigger] failed(cases)[i]).failure is Some,
    decreases cases.len(),
{
    if cases.len() != 0 {
        let rest = cases.drop_last();
        lemma_failed(rest);
        if failed(cases).len() == 0 {
            assert forall|i: int| 0 <= i < cases.len() implies (#[trigger] cases[i]).failure is None by {
                if i < rest.len() {
                    assert(rest[i] == cases[i]);
                }
            }
        } else if failed(rest).len() != 0 {
            let k = choose|k: int| 0 <= k < rest.len() && (#[trigger] rest[k]).failure is Some;
            assert(cases[k].failure is Some);
        } else {
            assert(cases[cases.len() - 1].failure is Some);
        }
    }
}

impl Outcome {
    /// What came of a run.
    pub fn new(setup: Vec<Failure>, cases: Vec<CaseOutcome>, blessed: Vec<PathBuf>) -> (outcome:
        Outcome)
        ensures
            outcome@ == (Summary {
                setup: problems(setup@),
                cases: verdicts(cases@),
                blessed: path::paths(blessed@),
            }),
    {
        Outcome { setup, cases, blessed }
    }

    /// Failures that stopped the run before, or independently of, any fixture --
    /// a fixture directory that does not exist, a scratch project that could not
    /// be written.
    pub fn setup_failures(&self) -> (setup: &[Failure])
        ensures
            problems(setup@) == self@.setup,
    {
        self.setup.as_slice()
    }

    /// Every fixture that ran, in the order it was registered.
    pub fn cases(&self) -> (cases: &[CaseOutcome])
        ensures
            verdicts(cases@) == self@.cases,
    {
        self.cases.as_slice()
    }

    /// The goldens a blessing run wrote, in the order it wrote them. Only those
    /// whose content changed are written, so the rest are not here.
    pub fn blessed(&self) -> (blessed: &[PathBuf])
        ensures
            path::paths(blessed@) == self@.blessed,
    {
        self.blessed.as_slice()
    }

    /// Just the fixtures that did not hold up.
    pub fn failures(&self) -> (bad: Vec<&CaseOutcome>)
        ensures
            verdicts_of(bad@) == failed(self@.cases),
    {
        let mut bad: Vec<&CaseOutcome> = Vec::new();
        let ghost all = self@.cases;
        assert(verdicts_of(bad@) =~= failed(all.take(0)));
        for i in 0..self.cases.len()
            invariant
                all == verdicts(self.cases@),
                verdicts_of(bad@) == failed(all.take(i as int)),
        {
            let ghost before = verdicts_of(bad@);
            let case = &self.cases[i];
            assert(all.take(i + 1).drop_last() =~= all.take(i as int));
            assert(all.take(i + 1).last() == case@);
            if !case.is_success() {
                bad.push(case);
                assert(verdicts_of(bad@) =~= before.push(case@));
            }
        }
        assert(all.take(all.len() as int) =~= all);
        bad
    }

    /// Whether every fixture held up and setup was clean.
    pub fn is_success(&self) -> (yes: bool)
        ensures
            yes == succeeded(self@),
    {
        proof {
            lemma_failed(self@.cases);
        }
        let bad = self.failures();
        assert(bad@.len() == verdicts_of(bad@).len());
        self.setup.len() == 0 && bad.len() == 0
    }

    /// A plain-text report. No colour: a test harness that only reads well in
    /// colour reads badly in CI logs.
    pub fn report(&self) -> (shown: String)
        ensures
            shown@ == report(self@),
    {
        let bad = self.failures();
        let ghost all = failed(self@.cases);
        let ghost setup = self@.setup;
        assert(bad@.len() == all.len());
        let mut out: Vec<char> = chars_of("nocompile: ");
        if self.setup.len() == 0 && bad.len() == 0 {
            extend_str(&mut out, decimal_of(self.cases.len()).as_str());
            extend_str(&mut out, " case(s) passed");
            return string_of(&out);
        }
        extend_str(&mut out, decimal_of(bad.len()).as_str());
        extend_str(&mut out, " of ");
        extend_str(&mut out, decimal_of(self.cases.len()).as_str());
        extend_str(&mut out, " case(s) failed\n");
        let ghost head = out@;
        assert(head + setup_report(setup.take(0)) =~= head);
        for i in 0..self.setup.len()
            invariant
                setup == problems(self.setup@),
                out@ == head + setup_report(setup.take(i as int)),
        {
            assert(setup.take(i + 1).drop_last() =~= setup.take(i as int));
            assert(setup.take(i + 1).last() == self.setup@[i as int]@);
            extend_str(&mut out, "\nSETUP FAILED\n");
            indent(&mut out, &self.setup[i]);
            assert(out@ =~= head + setup_report(setup.take(i + 1)));
        }
        assert(setup.take(setup.len() as int) =~= setup);
        let ghost middle = out@;
        assert(middle + cases_report(all.take(0)) =~= middle);
        proof {
            lemma_failed(self@.cases);
        }
        for i in 0..bad.len()
            invariant
                all == verdicts_of(bad@),
                forall|i: int| 0 <= i < all.len() ==> (#[trigger] all[i]).failure is Some,
                out@ == middle + cases_report(all.take(i as int)),
        {
            assert(all.take(i + 1).drop_last() =~= all.take(i as int));
            assert(all.take(i + 1).last() == all[i as int]);
            let case = bad[i];
            assert(case@ == all[i as int]);
            extend_str(&mut out, "\nFAIL ");
            extend_str(&mut out, case.path().display().as_str());
            extend_str(&mut out, " (");
            extend_str(&mut out, case.kind().label());
            extend_str(&mut out, ")\n");
            if let Some(failure) = case.failure() {
                indent(&mut out, failure);
            }
            assert(out@ =~= middle + cases_report(all.take(i + 1)));
        }
        assert(all.take(all.len() as int) =~= all);
        string_of(&out)
    }

    /// What a suite that did not hold up panics with: the report, on lines of its
    /// own. `None` where it did.
    pub fn panic_message(&self) -> (message: Option<String>)
        ensures
            message is None <==> succeeded(self@),
            message matches Some(text) ==> text@ == seq!['\n'] + report(self@) + seq!['\n'],
    {
        if self.is_success() {
            return None;
        }
        let mut out: Vec<char> = Vec::new();
        out.push('\n');
        extend_str(&mut out, self.report().as_str());
        out.push('\n');
        assert(out@ =~= seq!['\n'] + report(self@) + seq!['\n']);
        Some(string_of(&out))
    }

    /// What a blessing run says of the goldens it wrote, one to a line. Empty
    /// where it wrote none.
    pub fn bless_notice(&self) -> (shown: String)
        ensures
            shown@ == bless_notice(self@.blessed),
    {
        let ghost all = self@.blessed;
        let mut out: Vec<char> = Vec::new();
        assert(out@ =~= bless_notice(all.take(0)));
        for i in 0..self.blessed.len()
            invariant
                all == path::paths(self.blessed@),
                out@ == bless_notice(all.take(i as int)),
        {
            assert(all.take(i + 1).drop_last() =~= all.take(i as int));
            assert(all.take(i + 1).last() == self.blessed@[i as int]@);
            extend_str(&mut out, "nocompile: wrote ");
            extend_str(&mut out, self.blessed[i].display().as_str());
            extend_str(&mut out, "\n");
        }
        assert(all.take(all.len() as int) =~= all);
        string_of(&out)
    }
}

/// Write a failure under its heading, indented four spaces.
///
/// [`Failure::message`] deliberately gives unindented text, so this is the only
/// place indentation is applied.
fn indent(out: &mut Vec<char>, failure: &Failure)
    ensures
        final(out)@ == old(out)@ + indented(failure@),
{
    let lines = lines_of(&chars_of(failure.message().as_str()));
    let ghost all = text::views(lines@);
    let ghost start = out@;
    assert(start + indented_lines(all.take(0)) =~= start);
    for i in 0..lines.len()
        invariant
            all == text::views(lines@),
            out@ == start + indented_lines(all.take(i as int)),
    {
        assert(all.take(i + 1).drop_last() =~= all.take(i as int));
        assert(all.take(i + 1).last() == lines@[i as int]@);
        if lines[i].len() != 0 {
            extend_str(out, "    ");
            extend(out, &lines[i]);
        }
        extend_str(out, "\n");
        assert(out@ =~= start + indented_lines(all.take(i + 1)));
    }
    assert(all.take(all.len() as int) =~= all);
}

} // verus!
