//! Running a suite, one request at a time.
//!
//! A run alternates between deciding and doing. Everything decided is here, as a
//! function from where the run stands and what came of the last request to where
//! it stands next. A [`Step`] is a run waiting for one thing to be done outside:
//! a directory listed, a file read or written, cargo run. Whoever drives the run
//! does that thing, hands back what came of it, and gets the next step.

use vstd::prelude::*;
use vstd::utf8::*;

use crate::cases;
use crate::cases::{golden_path, io_failure, overwrite_from, Case, Registered, Suite, TestCases};
use crate::compare;
use crate::compare::{filter, unify_line_endings};
use crate::compile;
use crate::compile::{read_build, Build, Built, BROKEN_MESSAGE};
use crate::normalize;
use crate::normalize::{Normalizer, Rules};
use crate::outcome;
use crate::outcome::{
    copy_failures, CaseOutcome, Failure, Kind, Outcome, Problem, Summary, Verdict,
};
use crate::path;
use crate::path::{listed, Order, Part, PathBuf};
use crate::scratch;
use crate::scratch::{copy_optional, target_dir, Layout, Place};
use crate::text;
use crate::text::{blank, chars_of, copy_of, extend_str, same_str, string_of, without_tail};

verus! {

// ---------------------------------------------------------------------------
// Where a run stands.
// ---------------------------------------------------------------------------

/// What the process a run happens in says of itself.
#[derive(Debug, Clone)]
pub struct Surroundings {
    /// `CARGO_TARGET_DIR`, where it is set.
    pub target_dir: Option<PathBuf>,
    /// The test binary, where that is known.
    pub executable: Option<PathBuf>,
    /// The value of [`OVERWRITE_VAR`](cases::OVERWRITE_VAR), where it is set and
    /// UTF-8.
    pub overwrite: Option<String>,
    /// Where cargo keeps what it downloads, where that is known.
    pub cargo_home: Option<PathBuf>,
    /// Whether `\` separates the components of a path too.
    pub fold: bool,
}

/// What a run knows for as long as it lasts.
#[derive(Debug)]
pub struct Run<'a> {
    suite: &'a TestCases,
    setup: Vec<Failure>,
    layout: Layout,
    bless: bool,
    cargo_home: Option<PathBuf>,
    fold: bool,
}

/// What a [`Run`] stands for.
pub struct Progress {
    /// What is run.
    pub suite: Suite,
    /// The failures of the run as a whole so far.
    pub setup: Seq<Problem>,
    /// Where the scratch project is kept.
    pub layout: Place,
    /// Goldens are written rather than compared.
    pub bless: bool,
    /// Where cargo keeps what it downloads.
    pub cargo_home: Option<Seq<Part>>,
    /// `\` separates the components of a path too.
    pub fold: bool,
}

impl<'a> View for Run<'a> {
    type V = Progress;

    closed spec fn view(&self) -> Progress {
        Progress {
            suite: self.suite@,
            setup: outcome::problems(self.setup@),
            layout: self.layout@,
            bless: self.bless,
            cargo_home: scratch::optional(self.cargo_home),
            fold: self.fold,
        }
    }
}

/// A run looking through a registered directory.
pub struct Walk {
    /// The run.
    pub run: Progress,
    /// Which registered directory.
    pub at: nat,
    /// The directory to be listed next.
    pub current: Seq<Part>,
    /// The directories to be listed after it, last first.
    pub pending: Seq<Seq<Part>>,
    /// The `.rs` files found that no registration covers.
    pub unregistered: Seq<Seq<Part>>,
    /// The `.stderr` files found that no fixture claims.
    pub orphans: Seq<Seq<Part>>,
}

/// A run checking the fixtures of a build one by one.
pub struct Tally {
    /// What the build produced.
    pub built: Built,
    /// What came of the fixtures checked so far.
    pub verdicts: Seq<Verdict>,
    /// The goldens written so far.
    pub blessed: Seq<Seq<Part>>,
    /// The diagnostics of the fixture being checked, as they are compared.
    pub actual: Seq<char>,
}

/// Something a run needs done.
pub enum Act {
    /// Lock the scratch project.
    Lock,
    /// Create the scratch target directory.
    CreateTarget,
    /// Write the source of a fixture into the scratch project.
    Fixture(nat, Seq<char>),
    /// Write the scratch project's manifest.
    Manifest,
    /// Write the scratch project's lockfile.
    Lockfile(Seq<char>),
    /// Write a golden.
    Golden(Tally),
}

/// Something a run needs read.
pub enum Need {
    /// The source of a fixture.
    Fixture(nat),
    /// The host workspace's lockfile.
    Lockfile(Seq<Part>),
    /// A golden.
    Golden(Tally),
}

/// What a run is waiting for.
pub enum Stage {
    /// A directory to be listed.
    List(Walk),
    /// Something to be done.
    Do(Progress, Act),
    /// A file to be read.
    Read(Progress, Need),
    /// The host workspace's lockfile to be found.
    Find(Progress),
    /// The fixtures to be built.
    Build(Progress),
    /// Manifest paths to be resolved.
    Resolve(Progress, Built),
    /// Nothing: the run is over.
    Done(Summary),
}

// ---------------------------------------------------------------------------
// What is decided.
// ---------------------------------------------------------------------------

/// The run ends here, for this reason.
pub open spec fn stopped(run: Progress, problem: Problem) -> Stage {
    Stage::Done(Summary { setup: run.setup.push(problem), cases: seq![], blessed: seq![] })
}

/// The run with one more failure of its own.
pub open spec fn also(run: Progress, problem: Problem) -> Progress {
    Progress { setup: run.setup.push(problem), ..run }
}

/// A refused part of the manifest is among `setup`.
pub open spec fn is_refused(setup: Seq<Problem>) -> bool {
    exists|i: int| 0 <= i < setup.len() && outcome::refuses(#[trigger] setup[i])
}

/// What a run does once it has looked through every registered directory.
///
/// A suite that asserts nothing must not report success. And building without the
/// refused part of the manifest would check every fixture against a configuration
/// nobody asked for, so while part of it is refused nothing is built.
pub open spec fn planned(run: Progress) -> Stage {
    if run.suite.cases.len() == 0 {
        Stage::Done(
            Summary {
                setup: if run.setup.len() == 0 {
                    seq![Problem::NothingRegistered]
                } else {
                    run.setup
                },
                cases: seq![],
                blessed: seq![],
            },
        )
    } else if is_refused(run.setup) {
        Stage::Done(Summary { setup: run.setup, cases: seq![], blessed: seq![] })
    } else {
        Stage::Do(run, Act::Lock)
    }
}

/// What a run does about the registered directory at `at`.
pub open spec fn looking(run: Progress, at: nat) -> Stage {
    if at < run.suite.directories.len() {
        Stage::List(
            Walk {
                run,
                at,
                current: run.suite.directories[at as int],
                pending: seq![],
                unregistered: seq![],
                orphans: seq![],
            },
        )
    } else {
        planned(run)
    }
}

/// What an optional text stands for.
pub open spec fn optional_text(text: Option<String>) -> Option<Seq<char>> {
    match text {
        Some(text) => Some(text@),
        None => None,
    }
}

/// What a run of `suite` knows when it begins.
pub open spec fn begun(suite: Suite, around: Surroundings) -> Progress {
    let target = scratch::target_parts(
        suite.manifest_dir,
        scratch::optional(around.target_dir),
        scratch::optional(around.executable),
    );
    Progress {
        suite,
        setup: suite.setup,
        layout: scratch::place_in(target, suite.host_pkg_name),
        bless: cases::blesses(suite.overwrite, optional_text(around.overwrite)),
        cargo_home: scratch::optional(around.cargo_home),
        fold: around.fold,
    }
}

/// How a run of `suite` begins.
pub open spec fn started(suite: Suite, around: Surroundings) -> Stage {
    looking(begun(suite, around), 0)
}

/// The run goes on to stage the fixture at `at`, or the manifest after the last.
pub open spec fn staging(run: Progress, at: nat) -> Stage {
    if at < run.suite.cases.len() {
        Stage::Read(run, Need::Fixture(at))
    } else {
        Stage::Do(run, Act::Manifest)
    }
}

/// The scratch project's manifest.
pub open spec fn manifest_of(layout: Place) -> Seq<Part> {
    scratch::child(layout.project, "Cargo.toml"@)
}

/// The scratch project's lockfile.
pub open spec fn lockfile_of(layout: Place) -> Seq<Part> {
    scratch::child(layout.project, "Cargo.lock"@)
}

/// The bin targets of `cases`.
pub open spec fn bins_of(cases: Seq<Registered>) -> Seq<Seq<char>> {
    cases.map_values(|case: Registered| case.bin)
}

/// What the scratch project's manifest says.
pub open spec fn manifest_for(suite: Suite) -> Seq<char> {
    scratch::manifest_text(
        suite.edition,
        suite.dependencies,
        suite.raw_manifest_lines,
        bins_of(suite.cases),
    )
}

/// What could not be written.
pub open spec fn unwritten(path: Seq<Part>, message: Seq<char>) -> Problem {
    cases::io_problem("could not write "@ + path::native(path), message)
}

/// What normalizes the diagnostics of `case`.
pub open spec fn rules_for(run: Progress, case: Registered) -> Rules {
    Rules {
        root: run.layout.root,
        bin_path: scratch::bin_parts(run.layout.project, case.bin),
        bin: case.bin,
        manifest_dir: run.suite.manifest_dir,
        dependencies: run.suite.dependencies,
        cargo_home: run.cargo_home,
        fold: run.fold,
        elide: run.suite.elide_implementors,
    }
}

/// The diagnostics of `case`, normalized.
pub open spec fn diagnostics_for(run: Progress, built: Built, case: Registered) -> Seq<char> {
    normalize::normalized(
        rules_for(run, case),
        compile::said_about(built, case.bin),
        case.relative,
    )
}

/// The diagnostics of `case`, as they are compared.
pub open spec fn actual_for(run: Progress, built: Built, case: Registered) -> Seq<char> {
    compare::filtered(diagnostics_for(run, built, case), run.suite.mode, case.relative)
}

/// What a build alone says of a fixture.
pub enum Judgement {
    /// It is settled: the fixture failed for this reason, or held up.
    Settled(Option<Problem>),
    /// It depends on the golden, against these diagnostics.
    Compare(Seq<char>),
}

/// What the build says of a fixture that must not compile.
///
/// An artifact is the positive evidence that it compiled. Blank diagnostics are
/// never compared: an empty golden would make the fixture useless for good.
pub open spec fn compile_fail_judgement(run: Progress, built: Built, case: Registered) -> Judgement {
    let said = compile::said_about(built, case.bin);
    let actual = actual_for(run, built, case);
    if built.compiled.contains(case.bin) {
        Judgement::Settled(Some(Problem::Compiled))
    } else if text::is_blank(actual) {
        Judgement::Settled(
            Some(
                Problem::NoDiagnostics {
                    stderr: if text::is_blank(said) {
                        built.stderr
                    } else {
                        said
                    },
                },
            ),
        )
    } else {
        Judgement::Compare(actual)
    }
}

/// What the build says of a fixture that must compile. An artifact is the
/// assertion; absence of diagnostics would not be.
pub open spec fn pass_judgement(run: Progress, built: Built, case: Registered) -> Judgement {
    if built.compiled.contains(case.bin) {
        Judgement::Settled(None)
    } else {
        Judgement::Settled(
            Some(Problem::DidNotCompile { stderr: diagnostics_for(run, built, case) }),
        )
    }
}

/// What the build says of a fixture.
pub open spec fn judgement(run: Progress, built: Built, case: Registered) -> Judgement {
    match case.kind {
        Kind::CompileFail => compile_fail_judgement(run, built, case),
        Kind::Pass => pass_judgement(run, built, case),
    }
}

/// A case's path, as it is reported.
pub open spec fn reported_path(suite: Suite, case: Registered) -> Seq<Part> {
    path::seen_from(case.absolute, suite.manifest_dir)
}

/// What came of `case`.
pub open spec fn verdict(suite: Suite, case: Registered, failure: Option<Problem>) -> Verdict {
    Verdict { path: reported_path(suite, case), kind: case.kind, failure }
}

/// The run goes on to check the first fixture that has no verdict yet, and is
/// over once every fixture has one.
pub open spec fn checking(
    run: Progress,
    built: Built,
    verdicts: Seq<Verdict>,
    blessed: Seq<Seq<Part>>,
) -> Stage
    decreases run.suite.cases.len() - verdicts.len(),
{
    if verdicts.len() >= run.suite.cases.len() {
        Stage::Done(Summary { setup: run.setup, cases: verdicts, blessed })
    } else {
        let case = run.suite.cases[verdicts.len() as int];
        match judgement(run, built, case) {
            Judgement::Settled(failure) => checking(
                run,
                built,
                verdicts.push(verdict(run.suite, case, failure)),
                blessed,
            ),
            Judgement::Compare(actual) => Stage::Read(
                run,
                Need::Golden(Tally { built, verdicts, blessed, actual }),
            ),
        }
    }
}

/// The fixture a tally has come to.
pub open spec fn case_of(run: Progress, tally: Tally) -> Registered {
    run.suite.cases[tally.verdicts.len() as int]
}

/// The golden of the fixture a tally has come to, as it is reported.
pub open spec fn golden_in_report(run: Progress, tally: Tally) -> Seq<Part> {
    cases::golden_of(reported_path(run.suite, case_of(run, tally)))
}

/// The run goes on, the fixture it had come to having failed for this reason or
/// held up.
pub open spec fn settled(run: Progress, tally: Tally, failure: Option<Problem>) -> Stage {
    checking(
        run,
        tally.built,
        tally.verdicts.push(verdict(run.suite, case_of(run, tally), failure)),
        tally.blessed,
    )
}

/// What came of reading a file.
#[derive(Debug, Clone)]
pub enum Contents {
    /// It holds this.
    Text(String),
    /// There is no such file. The error, rendered.
    Missing(String),
    /// It could not be read. The error, rendered.
    Unreadable(String),
}

/// What comparing a golden that was read comes to.
pub open spec fn comparison(run: Progress, tally: Tally, contents: Contents) -> Option<Problem> {
    let golden = golden_in_report(run, tally);
    match contents {
        Contents::Text(found) => {
            let expected = compare::filtered(found@, run.suite.mode, case_of(run, tally).relative);
            if expected == tally.actual {
                None
            } else {
                Some(
                    Problem::Mismatch {
                        golden,
                        expected,
                        actual: tally.actual,
                        mode: run.suite.mode,
                    },
                )
            }
        },
        Contents::Missing(_) => Some(Problem::MissingGolden { golden }),
        Contents::Unreadable(message) => Some(
            cases::io_problem("could not read the golden "@ + path::shown(golden), message@),
        ),
    }
}

/// The golden already holds what a blessing run would write, however git checked
/// it out.
pub open spec fn is_blessed(tally: Tally, contents: Contents) -> bool {
    match contents {
        Contents::Text(found) => compare::unify(found@) == tally.actual,
        _ => false,
    }
}

/// What a run does with a golden that was read.
pub open spec fn golden_read(run: Progress, tally: Tally, contents: Contents) -> Stage {
    if !run.bless {
        settled(run, tally, comparison(run, tally, contents))
    } else if is_blessed(tally, contents) {
        settled(run, tally, None)
    } else {
        Stage::Do(run, Act::Golden(tally))
    }
}

/// The reason a file could not be read, where it could not be.
pub open spec fn unread(contents: Contents) -> Option<Seq<char>> {
    match contents {
        Contents::Text(_) => None,
        Contents::Missing(message) => Some(message@),
        Contents::Unreadable(message) => Some(message@),
    }
}

/// What a run does with a file that was read.
pub open spec fn after_read(run: Progress, need: Need, contents: Contents) -> Stage {
    match need {
        Need::Fixture(at) => match contents {
            Contents::Text(source) => Stage::Do(run, Act::Fixture(at, source@)),
            _ => stopped(
                run,
                cases::io_problem(
                    "could not read the fixture "@ + run.suite.cases[at as int].relative,
                    unread(contents)->0,
                ),
            ),
        },
        Need::Lockfile(path) => match contents {
            Contents::Text(text) => Stage::Do(run, Act::Lockfile(text@)),
            _ => stopped(
                run,
                cases::io_problem(
                    "could not read the host's lockfile "@ + path::native(path),
                    unread(contents)->0,
                ),
            ),
        },
        Need::Golden(tally) => golden_read(run, tally, contents),
    }
}

/// What a run does once something it needed was done.
pub open spec fn after_success(run: Progress, act: Act) -> Stage {
    match act {
        Act::Lock => Stage::Do(run, Act::CreateTarget),
        Act::CreateTarget => staging(run, 0),
        Act::Fixture(at, _) => staging(run, at + 1),
        Act::Manifest => Stage::Find(run),
        Act::Lockfile(_) => Stage::Build(run),
        Act::Golden(tally) => settled(
            run,
            Tally { blessed: tally.blessed.push(golden_in_report(run, tally)), ..tally },
            None,
        ),
    }
}

/// Where the source of the fixture at `at` is staged.
pub open spec fn staged_at(run: Progress, at: nat) -> Seq<Part> {
    scratch::bin_parts(run.layout.project, run.suite.cases[at as int].bin)
}

/// What a run does once something it needed could not be done.
pub open spec fn after_failure(run: Progress, act: Act, message: Seq<char>) -> Stage {
    match act {
        Act::Lock => stopped(
            run,
            cases::io_problem(
                "could not lock the scratch project at "@ + path::native(run.layout.root),
                message,
            ),
        ),
        Act::CreateTarget => stopped(
            run,
            cases::io_problem(
                "could not create the scratch target directory at "@ + path::native(
                    run.layout.target,
                ),
                message,
            ),
        ),
        Act::Fixture(at, _) => stopped(run, unwritten(staged_at(run, at), message)),
        Act::Manifest => stopped(run, unwritten(manifest_of(run.layout), message)),
        Act::Lockfile(_) => stopped(run, unwritten(lockfile_of(run.layout), message)),
        Act::Golden(tally) => settled(
            run,
            tally,
            Some(
                cases::io_problem(
                    "could not write the golden "@ + path::shown(golden_in_report(run, tally)),
                    message,
                ),
            ),
        ),
    }
}

/// What a run does once the host workspace's lockfile was looked for.
pub open spec fn after_find(run: Progress, found: Result<Option<PathBuf>, String>) -> Stage {
    match found {
        Ok(Some(lockfile)) => Stage::Read(run, Need::Lockfile(lockfile@)),
        Ok(None) => Stage::Build(run),
        Err(message) => stopped(
            run,
            cases::io_problem("could not ask cargo where the host's workspace is"@, message@),
        ),
    }
}

/// What cargo printed.
#[derive(Debug, Clone)]
pub struct Output {
    /// What it printed on stdout.
    pub stdout: String,
    /// What it printed on stderr.
    pub stderr: String,
}

/// The run goes on to the fixtures of a build, unless nothing was built and
/// another package says why.
pub open spec fn judging(run: Progress, built: Built) -> Stage {
    match compile::explanation(built) {
        Some(message) => stopped(run, Problem::Cargo { message }),
        None => checking(run, built, seq![], seq![]),
    }
}

/// What a run does with a build that was read.
///
/// Cargo that never reached the fixtures said nothing about them. A build in
/// which nothing was attributed to the scratch project is held against the
/// manifest paths cargo did name before anything else is made of it.
pub open spec fn after_reading(run: Progress, built: Built) -> Stage {
    if !built.started {
        stopped(run, Problem::Cargo { message: text::trim_end(built.stderr) })
    } else if built.is_detached() && built.other_manifests.len() != 0 {
        Stage::Resolve(run, built)
    } else {
        judging(run, built)
    }
}

/// What a run does once cargo was run.
pub open spec fn after_build(run: Progress, output: Result<Output, String>) -> Stage {
    match output {
        Ok(output) => {
            let (built, whole) = compile::ingested(
                compile::unread(output.stderr@),
                text::lines(output.stdout@),
                manifest_of(run.layout),
            );
            if whole {
                after_reading(run, built)
            } else {
                stopped(
                    run,
                    cases::io_problem(
                        "could not run cargo for the scratch project"@,
                        BROKEN_MESSAGE@,
                    ),
                )
            }
        },
        Err(message) => stopped(
            run,
            cases::io_problem("could not run cargo for the scratch project"@, message@),
        ),
    }
}

/// What a run does once the manifest paths cargo named were resolved.
pub open spec fn after_resolve(
    run: Progress,
    built: Built,
    ours: Option<Seq<Part>>,
    theirs: Seq<Option<PathBuf>>,
) -> Stage {
    match compile::misspelled(built, ours, theirs) {
        Some(spelling) => stopped(
            run,
            Problem::ManifestMismatch {
                handed: manifest_of(run.layout),
                reported: path::spelled_like(encode_utf8(spelling), manifest_of(run.layout)),
            },
        ),
        None => judging(run, built),
    }
}

// ---------------------------------------------------------------------------
// Looking through the registered directories.
// ---------------------------------------------------------------------------

/// What an entry of a directory is.
#[derive(Debug, Clone)]
pub enum What {
    /// That could not be told, for this reason.
    Unknown(String),
    /// A directory. A link to one is not: following it can cycle.
    Directory,
    /// A file, or a link to one.
    File,
    /// Something else.
    Other,
}

/// One entry of a directory.
#[derive(Debug, Clone)]
pub struct Found {
    /// Its name.
    pub name: Vec<u8>,
    /// What it is.
    pub what: What,
}

/// What listing a directory gave.
#[derive(Debug, Clone)]
pub enum Scan {
    /// It could not be listed, for this reason.
    Unreadable(String),
    /// What is in it, up to an entry that could not be read, and why it could
    /// not.
    Entries(Vec<Found>, Option<String>),
}

/// A path, as it is shown in a report on `suite`.
pub open spec fn shown_in(suite: Suite, path: Seq<Part>) -> Seq<char> {
    path::shown(path::seen_from(path, suite.manifest_dir))
}

/// The fixture at `path` is registered.
pub open spec fn is_registered(suite: Suite, path: Seq<Part>) -> bool {
    exists|i: int| 0 <= i < suite.cases.len() && (#[trigger] suite.cases[i]).absolute == path
}

/// The golden at `path` is that of a registered `compile_fail` fixture.
pub open spec fn is_claimed(suite: Suite, path: Seq<Part>) -> bool {
    exists|i: int|
        0 <= i < suite.cases.len() && (#[trigger] suite.cases[i]).kind == Kind::CompileFail
            && cases::golden_of(suite.cases[i].absolute) == path
}

/// A walk that has come to `path`, which is a file.
///
/// A `.rs` file that is neither registered nor refused is left unaccounted for,
/// and so is a `.stderr` file no registered `compile_fail` fixture claims.
pub open spec fn file_noted(walk: Walk, path: Seq<Part>) -> Walk {
    let suite = walk.run.suite;
    if path::extension(path) == Some(encode_utf8("rs"@)) {
        if !is_registered(suite, path) && !suite.refused_fixtures.contains(path) {
            Walk { unregistered: walk.unregistered.push(path), ..walk }
        } else {
            walk
        }
    } else if path::extension(path) == Some(encode_utf8("stderr"@)) && !is_claimed(suite, path) {
        Walk { orphans: walk.orphans.push(path), ..walk }
    } else {
        walk
    }
}

/// A walk that has come to `found` in the directory it is listing. A directory
/// registered in its own right is looked through on its own turn.
pub open spec fn noted(walk: Walk, found: Found) -> Walk {
    let suite = walk.run.suite;
    let path = walk.current.push(Part::Normal(found.name@));
    match found.what {
        What::Unknown(message) => Walk {
            run: also(
                walk.run,
                cases::io_problem(
                    "could not tell what "@ + shown_in(suite, path) + " is"@,
                    message@,
                ),
            ),
            ..walk
        },
        What::Directory => if suite.directories.contains(path) {
            walk
        } else {
            Walk { pending: walk.pending.push(path), ..walk }
        },
        What::File => file_noted(walk, path),
        What::Other => walk,
    }
}

/// A walk that has come to each of `all` in turn.
pub open spec fn all_noted(walk: Walk, all: Seq<Found>) -> Walk
    decreases all.len(),
{
    if all.len() == 0 {
        walk
    } else {
        noted(all_noted(walk, all.drop_last()), all.last())
    }
}

/// What could not be looked through.
pub open spec fn unchecked(walk: Walk, what: Seq<char>, message: Seq<char>) -> Problem {
    let suite = walk.run.suite;
    cases::io_problem(
        "could not read "@ + what + shown_in(suite, walk.current) + " to check "@ + shown_in(
            suite,
            suite.directories[walk.at as int],
        ) + " for unregistered fixtures"@,
        message,
    )
}

/// A walk after the directory it was listing.
pub open spec fn scanned(walk: Walk, scan: Scan) -> Walk {
    match scan {
        Scan::Unreadable(message) => Walk {
            run: also(walk.run, unchecked(walk, ""@, message@)),
            ..walk
        },
        Scan::Entries(entries, broken) => {
            let next = all_noted(walk, entries@);
            match broken {
                Some(message) => Walk {
                    run: also(next.run, unchecked(walk, "an entry of "@, message@)),
                    ..next
                },
                None => next,
            }
        },
    }
}

/// The goldens of `orphans` whose fixture is neither unregistered nor refused:
/// such a fixture has a failure of its own, and registering it claims the golden.
pub open spec fn true_orphans(
    orphans: Seq<Seq<Part>>,
    unregistered: Seq<Seq<Part>>,
    refused: Seq<Seq<Part>>,
) -> Seq<Seq<Part>>
    decreases orphans.len(),
{
    if orphans.len() == 0 {
        seq![]
    } else {
        let rest = true_orphans(orphans.drop_last(), unregistered, refused);
        let fixture = path::with_extension(orphans.last(), encode_utf8("rs"@));
        if unregistered.contains(fixture) || refused.contains(fixture) {
            rest
        } else {
            rest.push(orphans.last())
        }
    }
}

/// Each of `all`, as a report names it.
pub open spec fn all_told_from(all: Seq<Seq<Part>>, base: Seq<Part>) -> Seq<Seq<Part>> {
    all.map_values(|path: Seq<Part>| path::told_from(path, base))
}

/// Each of `goldens` as an orphan.
pub open spec fn orphaned(goldens: Seq<Seq<Part>>) -> Seq<Problem> {
    goldens.map_values(|golden: Seq<Part>| Problem::OrphanGolden { golden })
}

/// What a walk through one registered directory found unaccounted for.
pub open spec fn findings(walk: Walk) -> Seq<Problem> {
    let suite = walk.run.suite;
    let goldens = true_orphans(walk.orphans, walk.unregistered, suite.refused_fixtures);
    let missing = if walk.unregistered.len() == 0 {
        seq![]
    } else {
        seq![
            Problem::UnregisteredFixtures {
                directory: path::told_from(
                    suite.directories[walk.at as int],
                    suite.manifest_dir,
                ),
                fixtures: all_told_from(
                    path::sorted(Order::Path, walk.unregistered),
                    suite.manifest_dir,
                ),
            },
        ]
    };
    missing + orphaned(all_told_from(path::sorted(Order::Path, goldens), suite.manifest_dir))
}

/// Where a walk goes after a directory: to the one that has waited least, or, once
/// none is left, to the next registered one.
pub open spec fn after_list(walk: Walk, scan: Scan) -> Stage {
    let next = scanned(walk, scan);
    if next.pending.len() != 0 {
        Stage::List(
            Walk { current: next.pending.last(), pending: next.pending.drop_last(), ..next },
        )
    } else {
        looking(
            Progress { setup: next.run.setup + findings(next), ..next.run },
            next.at + 1,
        )
    }
}

// ---------------------------------------------------------------------------
// The steps of a run.
// ---------------------------------------------------------------------------

/// A run waiting for a directory to be listed.
#[derive(Debug)]
pub struct Walking<'a> {
    run: Run<'a>,
    at: usize,
    current: PathBuf,
    pending: Vec<PathBuf>,
    unregistered: Vec<PathBuf>,
    orphans: Vec<PathBuf>,
}

impl<'a> View for Walking<'a> {
    type V = Walk;

    closed spec fn view(&self) -> Walk {
        Walk {
            run: self.run@,
            at: self.at as nat,
            current: self.current@,
            pending: path::paths(self.pending@),
            unregistered: path::paths(self.unregistered@),
            orphans: path::paths(self.orphans@),
        }
    }
}

impl<'a> Walking<'a> {
    #[verifier::type_invariant]
    spec fn is_somewhere(self) -> bool {
        self.at < self.run@.suite.directories.len()
    }
}

/// A run checking the fixtures of a build one by one.
#[derive(Debug)]
pub struct Check {
    build: Build,
    outcomes: Vec<CaseOutcome>,
    blessed: Vec<PathBuf>,
    actual: String,
}

impl View for Check {
    type V = Tally;

    closed spec fn view(&self) -> Tally {
        Tally {
            built: self.build@,
            verdicts: outcome::verdicts(self.outcomes@),
            blessed: path::paths(self.blessed@),
            actual: self.actual@,
        }
    }
}

/// Something a run needs done.
#[derive(Debug)]
pub enum Deed {
    /// Lock the scratch project.
    Lock,
    /// Create the scratch target directory.
    CreateTarget,
    /// Write the source of a fixture into the scratch project.
    Fixture(usize, String),
    /// Write the scratch project's manifest.
    Manifest,
    /// Write the scratch project's lockfile.
    Lockfile(String),
    /// Write a golden.
    Golden(Check),
}

impl View for Deed {
    type V = Act;

    open spec fn view(&self) -> Act {
        match *self {
            Deed::Lock => Act::Lock,
            Deed::CreateTarget => Act::CreateTarget,
            Deed::Fixture(at, source) => Act::Fixture(at as nat, source@),
            Deed::Manifest => Act::Manifest,
            Deed::Lockfile(text) => Act::Lockfile(text@),
            Deed::Golden(check) => Act::Golden(check@),
        }
    }
}

/// Something a run needs read.
#[derive(Debug)]
pub enum Want {
    /// The source of a fixture.
    Fixture(usize),
    /// The host workspace's lockfile.
    Lockfile(PathBuf),
    /// A golden.
    Golden(Check),
}

impl View for Want {
    type V = Need;

    open spec fn view(&self) -> Need {
        match *self {
            Want::Fixture(at) => Need::Fixture(at as nat),
            Want::Lockfile(path) => Need::Lockfile(path@),
            Want::Golden(check) => Need::Golden(check@),
        }
    }
}

/// The fixture `act` is about, where it is about one, is registered.
pub open spec fn act_is_sound(run: Progress, act: Act) -> bool {
    match act {
        Act::Fixture(at, _) => at < run.suite.cases.len(),
        Act::Golden(tally) => tally.verdicts.len() < run.suite.cases.len(),
        _ => true,
    }
}

/// The fixture `need` is about, where it is about one, is registered.
pub open spec fn need_is_sound(run: Progress, need: Need) -> bool {
    match need {
        Need::Fixture(at) => at < run.suite.cases.len(),
        Need::Golden(tally) => tally.verdicts.len() < run.suite.cases.len(),
        _ => true,
    }
}

/// A run waiting for something to be done.
#[derive(Debug)]
pub struct Doing<'a> {
    run: Run<'a>,
    deed: Deed,
}

impl<'a> View for Doing<'a> {
    type V = (Progress, Act);

    closed spec fn view(&self) -> (Progress, Act) {
        (self.run@, self.deed@)
    }
}

impl<'a> Doing<'a> {
    #[verifier::type_invariant]
    spec fn is_about_something(self) -> bool {
        act_is_sound(self.run@, self.deed@)
    }
}

/// A run waiting for a file to be read.
#[derive(Debug)]
pub struct Reading<'a> {
    run: Run<'a>,
    want: Want,
}

impl<'a> View for Reading<'a> {
    type V = (Progress, Need);

    closed spec fn view(&self) -> (Progress, Need) {
        (self.run@, self.want@)
    }
}

impl<'a> Reading<'a> {
    #[verifier::type_invariant]
    spec fn is_about_something(self) -> bool {
        need_is_sound(self.run@, self.want@)
    }
}

/// A run waiting for the host workspace's lockfile to be found.
#[derive(Debug)]
pub struct Finding<'a> {
    run: Run<'a>,
}

impl<'a> View for Finding<'a> {
    type V = Progress;

    closed spec fn view(&self) -> Progress {
        self.run@
    }
}

/// A run waiting for the fixtures to be built.
#[derive(Debug)]
pub struct Building<'a> {
    run: Run<'a>,
}

impl<'a> View for Building<'a> {
    type V = Progress;

    closed spec fn view(&self) -> Progress {
        self.run@
    }
}

/// A run waiting for manifest paths to be resolved.
#[derive(Debug)]
pub struct Resolving<'a> {
    run: Run<'a>,
    build: Build,
}

impl<'a> View for Resolving<'a> {
    type V = (Progress, Built);

    closed spec fn view(&self) -> (Progress, Built) {
        (self.run@, self.build@)
    }
}

/// A run, waiting for one thing to be done outside.
#[derive(Debug)]
pub enum Step<'a> {
    /// A directory is to be listed.
    List(Walking<'a>),
    /// Something is to be done.
    Do(Doing<'a>),
    /// A file is to be read.
    Read(Reading<'a>),
    /// The host workspace's lockfile is to be found.
    Find(Finding<'a>),
    /// The fixtures are to be built.
    Build(Building<'a>),
    /// Manifest paths are to be resolved.
    Resolve(Resolving<'a>),
    /// The run is over.
    Done(Outcome),
}

impl<'a> View for Step<'a> {
    type V = Stage;

    open spec fn view(&self) -> Stage {
        match *self {
            Step::List(walking) => Stage::List(walking@),
            Step::Do(doing) => Stage::Do(doing@.0, doing@.1),
            Step::Read(reading) => Stage::Read(reading@.0, reading@.1),
            Step::Find(finding) => Stage::Find(finding@),
            Step::Build(building) => Stage::Build(building@),
            Step::Resolve(resolving) => Stage::Resolve(resolving@.0, resolving@.1),
            Step::Done(outcome) => Stage::Done(outcome@),
        }
    }
}

/// `start` followed by `shown`.
fn context(start: &str, shown: &str) -> (text: String)
    ensures
        text@ == start@ + shown@,
{
    let mut out = chars_of(start);
    extend_str(&mut out, shown);
    string_of(&out)
}

/// The run ends here, for this reason.
fn stop<'a>(run: Run<'a>, failure: Failure) -> (step: Step<'a>)
    ensures
        step@ == stopped(run@, failure@),
{
    let ghost before = run@.setup;
    let mut setup = run.setup;
    setup.push(failure);
    assert(outcome::problems(setup@) =~= before.push(failure@));
    end(setup)
}

/// The run ends here, without a verdict on any fixture.
fn end<'a>(setup: Vec<Failure>) -> (step: Step<'a>)
    ensures
        step@ == Stage::Done(
            Summary { setup: outcome::problems(setup@), cases: seq![], blessed: seq![] },
        ),
{
    let cases: Vec<CaseOutcome> = Vec::new();
    let blessed: Vec<PathBuf> = Vec::new();
    assert(outcome::verdicts(cases@) =~= seq![]);
    assert(path::paths(blessed@) =~= seq![]);
    Step::Done(Outcome::new(setup, cases, blessed))
}

/// Whether a refused part of the manifest is among `setup`.
fn refused(setup: &Vec<Failure>) -> (yes: bool)
    ensures
        yes == is_refused(outcome::problems(setup@)),
{
    let ghost all = outcome::problems(setup@);
    for i in 0..setup.len()
        invariant
            all == outcome::problems(setup@),
            forall|k: int| 0 <= k < i ==> !outcome::refuses(#[trigger] all[k]),
    {
        assert(all[i as int] == setup@[i as int]@);
        if setup[i].refuses_the_manifest() {
            return true;
        }
    }
    false
}

impl TestCases {
    /// Begin a run of every registered fixture.
    ///
    /// The run is over when it comes to [`Step::Done`]. Nothing panics on the
    /// way: a suite that does not hold up is an [`Outcome`] that says so.
    pub fn run<'a>(&'a self, around: &Surroundings) -> (step: Step<'a>)
        ensures
            step@ == started(self@, *around),
    {
        let target = target_dir(self.manifest_dir(), &around.target_dir, &around.executable);
        let bless = overwrite_from(
            self.explicit_overwrite(),
            match &around.overwrite {
                Some(value) => Some(value.as_str()),
                None => None,
            },
        );
        let run = Run {
            suite: self,
            setup: copy_failures(self.setup_failures()),
            layout: Layout::new(&target, self.host_pkg_name()),
            bless,
            cargo_home: copy_optional(&around.cargo_home),
            fold: around.fold,
        };
        look(run, 0)
    }
}

/// Go on to the registered directory at `at`.
fn look<'a>(run: Run<'a>, at: usize) -> (step: Step<'a>)
    ensures
        step@ == looking(run@, at as nat),
{
    let directories = run.suite.registered_directories();
    assert(directories@.len() == path::paths(directories@).len());
    if at < directories.len() {
        let current = directories[at].copied();
        assert(current@ == run@.suite.directories[at as int]);
        let pending: Vec<PathBuf> = Vec::new();
        let unregistered: Vec<PathBuf> = Vec::new();
        let orphans: Vec<PathBuf> = Vec::new();
        assert(path::paths(pending@) =~= seq![]);
        Step::List(Walking { run, at, current, pending, unregistered, orphans })
    } else {
        plan(run)
    }
}

/// Decide what to do once every registered directory has been looked through.
fn plan<'a>(run: Run<'a>) -> (step: Step<'a>)
    ensures
        step@ == planned(run@),
{
    let cases = run.suite.registered_cases();
    assert(cases@.len() == cases::registered(cases@).len());
    assert(run.setup@.len() == outcome::problems(run.setup@).len());
    if cases.len() == 0 {
        let mut setup = run.setup;
        if setup.len() == 0 {
            setup.push(Failure::NothingRegistered);
            assert(outcome::problems(setup@) =~= seq![Problem::NothingRegistered]);
        }
        return end(setup);
    }
    if refused(&run.setup) {
        return end(run.setup);
    }
    Step::Do(Doing { run, deed: Deed::Lock })
}

/// Go on to stage the fixture at `at`, or the manifest after the last.
fn stage<'a>(run: Run<'a>, at: usize) -> (step: Step<'a>)
    ensures
        step@ == staging(run@, at as nat),
{
    let cases = run.suite.registered_cases();
    assert(cases@.len() == cases::registered(cases@).len());
    if at < cases.len() {
        Step::Read(Reading { run, want: Want::Fixture(at) })
    } else {
        Step::Do(Doing { run, deed: Deed::Manifest })
    }
}

// ---------------------------------------------------------------------------
// Walking.
// ---------------------------------------------------------------------------

/// Whether the fixture at `path` is registered.
fn covers(suite: &TestCases, path: &PathBuf) -> (yes: bool)
    ensures
        yes == is_registered(suite@, path@),
{
    let cases = suite.registered_cases();
    let ghost all = suite@.cases;
    for i in 0..cases.len()
        invariant
            all == cases::registered(cases@),
            all == suite@.cases,
            forall|k: int| 0 <= k < i ==> (#[trigger] all[k]).absolute != path@,
    {
        assert(all[i as int] == cases@[i as int]@);
        if cases[i].absolute.same(path) {
            return true;
        }
    }
    false
}

/// Whether the golden at `path` is that of a registered `compile_fail` fixture.
fn claims(suite: &TestCases, path: &PathBuf) -> (yes: bool)
    ensures
        yes == is_claimed(suite@, path@),
{
    let cases = suite.registered_cases();
    let ghost all = suite@.cases;
    for i in 0..cases.len()
        invariant
            all == cases::registered(cases@),
            all == suite@.cases,
            forall|k: int|
                0 <= k < i ==> !((#[trigger] all[k]).kind == Kind::CompileFail
                    && cases::golden_of(all[k].absolute) == path@),
    {
        assert(all[i as int] == cases@[i as int]@);
        if cases[i].kind == Kind::CompileFail && golden_path(&cases[i].absolute).same(path) {
            return true;
        }
    }
    false
}

/// A path, as it is shown in a report on `suite`.
fn show_in(suite: &TestCases, path: &PathBuf) -> (shown: String)
    ensures
        shown@ == shown_in(suite@, path@),
{
    path.from_base(suite.manifest_dir()).display()
}

/// Each of `all`, as a report names it.
fn all_told(all: &Vec<PathBuf>, base: &PathBuf) -> (seen: Vec<PathBuf>)
    ensures
        path::paths(seen@) == all_told_from(path::paths(all@), base@),
{
    let ghost wanted = all_told_from(path::paths(all@), base@);
    let mut seen: Vec<PathBuf> = Vec::new();
    for i in 0..all.len()
        invariant
            wanted == all_told_from(path::paths(all@), base@),
            path::paths(seen@) == wanted.take(i as int),
    {
        let ghost before = path::paths(seen@);
        let path = all[i].told_from(base);
        assert(wanted[i as int] == path@);
        seen.push(path);
        assert(path::paths(seen@) =~= before.push(path@));
    }
    assert(wanted.take(wanted.len() as int) =~= wanted);
    seen
}

/// The goldens of `orphans` whose fixture is neither unregistered nor refused.
fn keep_orphans(
    orphans: &Vec<PathBuf>,
    unregistered: &Vec<PathBuf>,
    refused: &Vec<PathBuf>,
) -> (kept: Vec<PathBuf>)
    ensures
        path::paths(kept@) == true_orphans(
            path::paths(orphans@),
            path::paths(unregistered@),
            path::paths(refused@),
        ),
{
    let ghost all = path::paths(orphans@);
    let ghost reported = path::paths(unregistered@);
    let ghost known = path::paths(refused@);
    let mut kept: Vec<PathBuf> = Vec::new();
    assert(path::paths(kept@) =~= true_orphans(all.take(0), reported, known));
    for i in 0..orphans.len()
        invariant
            all == path::paths(orphans@),
            reported == path::paths(unregistered@),
            known == path::paths(refused@),
            path::paths(kept@) == true_orphans(all.take(i as int), reported, known),
    {
        let ghost before = path::paths(kept@);
        assert(all.take(i + 1).drop_last() =~= all.take(i as int));
        assert(all.take(i + 1).last() == orphans@[i as int]@);
        let fixture = orphans[i].with_extension("rs");
        if !listed(unregistered, &fixture) && !listed(refused, &fixture) {
            let golden = orphans[i].copied();
            kept.push(golden);
            assert(path::paths(kept@) =~= before.push(golden@));
        }
    }
    assert(all.take(all.len() as int) =~= all);
    kept
}

impl<'a> Run<'a> {
    /// Add a failure of the run as a whole.
    fn add(&mut self, failure: Failure)
        ensures
            final(self)@ == also(old(self)@, failure@),
    {
        let ghost before = self@;
        self.setup.push(failure);
        assert(self@.setup =~= before.setup.push(failure@));
    }
}

/// The parts of a walk that change as it goes.
struct Trail<'a> {
    run: Run<'a>,
    pending: Vec<PathBuf>,
    unregistered: Vec<PathBuf>,
    orphans: Vec<PathBuf>,
}

impl<'a> Trail<'a> {
    /// The walk through the registered directory at `at`, with `current` being
    /// listed.
    spec fn at(self, at: nat, current: Seq<Part>) -> Walk {
        Walk {
            run: self.run@,
            at,
            current,
            pending: path::paths(self.pending@),
            unregistered: path::paths(self.unregistered@),
            orphans: path::paths(self.orphans@),
        }
    }

    /// Note a file.
    fn note_file(&mut self, path: PathBuf, Ghost(at): Ghost<nat>, Ghost(current): Ghost<Seq<Part>>)
        ensures
            final(self).at(at, current) == file_noted(old(self).at(at, current), path@),
    {
        let ghost before = self.at(at, current);
        let suite = self.run.suite;
        if path.has_extension("rs") {
            if !covers(suite, &path) && !listed(suite.refused_fixtures(), &path) {
                self.unregistered.push(path);
                assert(path::paths(self.unregistered@) =~= before.unregistered.push(path@));
            }
        } else if path.has_extension("stderr") && !claims(suite, &path) {
            self.orphans.push(path);
            assert(path::paths(self.orphans@) =~= before.orphans.push(path@));
        }
    }

    /// Note an entry of `current`.
    fn note(&mut self, current: &PathBuf, found: &Found, Ghost(at): Ghost<nat>)
        ensures
            final(self).at(at, current@) == noted(old(self).at(at, current@), *found),
    {
        let ghost before = self.at(at, current@);
        let suite = self.run.suite;
        let path = current.child_named(&found.name);
        match &found.what {
            What::Unknown(message) => {
                let mut said = chars_of("could not tell what ");
                extend_str(&mut said, show_in(suite, &path).as_str());
                extend_str(&mut said, " is");
                self.run.add(io_failure(string_of(&said), message.as_str()));
            },
            What::Directory => {
                if !listed(suite.registered_directories(), &path) {
                    self.pending.push(path);
                    assert(path::paths(self.pending@) =~= before.pending.push(path@));
                }
            },
            What::File => {
                self.note_file(path, Ghost(at), Ghost(current@));
            },
            What::Other => {},
        }
    }

    /// Note every entry of `current`.
    fn note_all(&mut self, current: &PathBuf, entries: &Vec<Found>, Ghost(at): Ghost<nat>)
        ensures
            final(self).at(at, current@) == all_noted(old(self).at(at, current@), entries@),
    {
        let ghost start = self.at(at, current@);
        for i in 0..entries.len()
            invariant
                self.at(at, current@) == all_noted(start, entries@.take(i as int)),
        {
            assert(entries@.take(i + 1).drop_last() =~= entries@.take(i as int));
            self.note(current, &entries[i], Ghost(at));
        }
        assert(entries@.take(entries@.len() as int) =~= entries@);
    }
}

/// What could not be looked through.
fn unchecked_failure(
    suite: &TestCases,
    directory: &PathBuf,
    current: &PathBuf,
    what: &str,
    message: &str,
) -> (failure: Failure)
    ensures
        failure@ == cases::io_problem(
            "could not read "@ + what@ + shown_in(suite@, current@) + " to check "@ + shown_in(
                suite@,
                directory@,
            ) + " for unregistered fixtures"@,
            message@,
        ),
{
    let mut said = chars_of("could not read ");
    extend_str(&mut said, what);
    extend_str(&mut said, show_in(suite, current).as_str());
    extend_str(&mut said, " to check ");
    extend_str(&mut said, show_in(suite, directory).as_str());
    extend_str(&mut said, " for unregistered fixtures");
    io_failure(string_of(&said), message)
}

impl<'a> Walking<'a> {
    /// The directory to be listed.
    pub fn directory(&self) -> (directory: &PathBuf)
        ensures
            directory@ == self@.current,
    {
        &self.current
    }

    /// Go on with what listing the directory gave.
    ///
    /// Done when the suite runs rather than when a directory is registered,
    /// because the order of registrations is the caller's: the registration that
    /// covers a subdirectory may come later.
    pub fn listed(self, scan: &Scan) -> (step: Step<'a>)
        ensures
            step@ == after_list(self@, *scan),
    {
        proof {
            use_type_invariant(&self);
        }
        let ghost walk = self@;
        let at = self.at;
        let current = self.current;
        let directories = self.run.suite.registered_directories();
        let directory = &directories[at];
        assert(directory@ == walk.run.suite.directories[at as int]);
        let mut trail = Trail {
            run: self.run,
            pending: self.pending,
            unregistered: self.unregistered,
            orphans: self.orphans,
        };
        assert(trail.at(at as nat, current@) == walk);
        let suite = trail.run.suite;
        match scan {
            Scan::Unreadable(message) => {
                trail.run.add(unchecked_failure(suite, directory, &current, "", message.as_str()));
            },
            Scan::Entries(entries, broken) => {
                trail.note_all(&current, entries, Ghost(at as nat));
                proof {
                    lemma_all_noted_keeps_the_suite(walk, entries@);
                }
                if let Some(message) = broken {
                    trail.run.add(
                        unchecked_failure(
                            suite,
                            directory,
                            &current,
                            "an entry of ",
                            message.as_str(),
                        ),
                    );
                }
            },
        }
        let ghost next = trail.at(at as nat, current@);
        assert(next == scanned(walk, *scan));
        assert(next.run.suite == walk.run.suite);
        let mut pending = trail.pending;
        let run = trail.run;
        if let Some(current) = pending.pop() {
            assert(path::paths(pending@) =~= next.pending.drop_last());
            assert(next.pending.last() == current@);
            return Step::List(
                Walking {
                    run,
                    at,
                    current,
                    pending,
                    unregistered: trail.unregistered,
                    orphans: trail.orphans,
                },
            );
        }
        finish_directory(run, at, directory, trail.unregistered, &trail.orphans, Ghost(next))
    }
}

proof fn lemma_all_noted_keeps_the_suite(walk: Walk, all: Seq<Found>)
    ensures
        all_noted(walk, all).run.suite == walk.run.suite,
    decreases all.len(),
{
    if all.len() != 0 {
        lemma_all_noted_keeps_the_suite(walk, all.drop_last());
    }
}

/// Report what was found under a registered directory, and go on to the next.
fn finish_directory<'a>(
    run: Run<'a>,
    at: usize,
    directory: &PathBuf,
    unregistered: Vec<PathBuf>,
    orphans: &Vec<PathBuf>,
    Ghost(walk): Ghost<Walk>,
) -> (step: Step<'a>)
    requires
        walk.run == run@,
        walk.at == at,
        walk.at < run@.suite.directories.len(),
        run@.suite.directories[at as int] == directory@,
        walk.unregistered == path::paths(unregistered@),
        walk.orphans == path::paths(orphans@),
    ensures
        step@ == looking(
            Progress { setup: run@.setup + findings(walk), ..run@ },
            walk.at + 1,
        ),
{
    let ghost start = run@;
    let suite = run.suite;
    let base = suite.manifest_dir();
    let mut run = run;
    let goldens = keep_orphans(orphans, &unregistered, suite.refused_fixtures());
    let goldens = all_told(&path::sort(goldens, Order::Path), base);
    let ghost missing = if walk.unregistered.len() == 0 {
        seq![]
    } else {
        seq![
            Problem::UnregisteredFixtures {
                directory: path::told_from(directory@, base@),
                fixtures: all_told_from(path::sorted(Order::Path, walk.unregistered), base@),
            },
        ]
    };
    assert(unregistered@.len() == walk.unregistered.len());
    if unregistered.len() != 0 {
        let fixtures = all_told(&path::sort(unregistered, Order::Path), base);
        run.add(
            Failure::UnregisteredFixtures { directory: directory.told_from(base), fixtures },
        );
    }
    assert(run@.setup =~= start.setup + missing);
    let ghost orphans_found = orphaned(path::paths(goldens@));
    assert(run@.setup + orphans_found.take(0) =~= run@.setup);
    for i in 0..goldens.len()
        invariant
            orphans_found == orphaned(path::paths(goldens@)),
            run@ == (Progress {
                setup: start.setup + missing + orphans_found.take(i as int),
                ..start
            }),
    {
        let failure = Failure::OrphanGolden { golden: goldens[i].copied() };
        assert(failure@ == orphans_found[i as int]);
        run.add(failure);
        assert(orphans_found.take(i + 1) =~= orphans_found.take(i as int).push(failure@));
        assert(run@.setup =~= start.setup + missing + orphans_found.take(i + 1));
    }
    assert(orphans_found.take(orphans_found.len() as int) =~= orphans_found);
    assert(run@.setup =~= start.setup + findings(walk));
    let directories = suite.registered_directories();
    assert(directories@.len() == path::paths(directories@).len());
    assert(at < directories.len());
    look(run, at + 1)
}

// ---------------------------------------------------------------------------
// Checking fixtures.
// ---------------------------------------------------------------------------

/// What a build alone says of a fixture.
#[derive(Debug)]
pub enum Judged {
    /// It is settled.
    Settled(Result<(), Failure>),
    /// It depends on the golden, against these diagnostics.
    Compare(String),
}

impl View for Judged {
    type V = Judgement;

    open spec fn view(&self) -> Judgement {
        match *self {
            Judged::Settled(result) => Judgement::Settled(outcome::problem_of(result)),
            Judged::Compare(actual) => Judgement::Compare(actual@),
        }
    }
}

/// What normalizes the diagnostics of `case`.
fn normalizer<'a>(run: &Run<'a>, case: &Case) -> (normalizer: Normalizer)
    ensures
        normalizer@ == rules_for(run@, case@),
{
    Normalizer::new(
        &run.layout.root,
        &run.layout.bin_path(case.bin.as_str()),
        case.bin.as_str(),
        run.suite.manifest_dir(),
        run.suite.declared_dependencies(),
        &run.cargo_home,
        run.fold,
    ).eliding_implementors(run.suite.elides_implementors())
}

/// Check a fixture, as far as the build alone can say.
fn check_case<'a>(run: &Run<'a>, build: &Build, case: &Case) -> (judged: Judged)
    ensures
        judged@ == judgement(run@, build@, case@),
{
    match case.kind {
        Kind::CompileFail => check_compile_fail(run, build, case),
        Kind::Pass => check_pass(run, build, case),
    }
}

/// Check a fixture that must not compile, as far as the build alone can say.
fn check_compile_fail<'a>(run: &Run<'a>, build: &Build, case: &Case) -> (judged: Judged)
    ensures
        judged@ == compile_fail_judgement(run@, build@, case@),
{
    // The most important failure the harness reports, and the reason it gets its
    // own message rather than a diff against an empty golden.
    if build.compiled(case.bin.as_str()) {
        return Judged::Settled(Err(Failure::Compiled));
    }
    let said = build.diagnostics(case.bin.as_str());
    let relative = case.relative.as_str();
    let normal = normalizer(run, case).normalize(said.as_str(), relative);
    let actual = filter(normal.as_str(), run.suite.comparison(), relative);
    if blank(&chars_of(actual.as_str())) {
        // When cargo suppressed everything rustc said about this fixture there
        // are no diagnostics left to show, and cargo's own stderr is the only
        // remaining evidence.
        let stderr = if blank(&chars_of(said.as_str())) {
            copy_of(build.stderr())
        } else {
            said
        };
        return Judged::Settled(Err(Failure::NoDiagnostics { stderr }));
    }
    Judged::Compare(actual)
}

/// Check a fixture that must compile.
fn check_pass<'a>(run: &Run<'a>, build: &Build, case: &Case) -> (judged: Judged)
    ensures
        judged@ == pass_judgement(run@, build@, case@),
{
    if build.compiled(case.bin.as_str()) {
        return Judged::Settled(Ok(()));
    }
    // Normalized even though there is no golden here, because the message has to
    // name the fixture the reader wrote rather than the generated file.
    let said = build.diagnostics(case.bin.as_str());
    let stderr = normalizer(run, case).normalize(said.as_str(), case.relative.as_str());
    Judged::Settled(Err(Failure::DidNotCompile { stderr }))
}

/// What came of `case`.
fn case_outcome(suite: &TestCases, case: &Case, result: Result<(), Failure>) -> (outcome:
    CaseOutcome)
    ensures
        outcome@ == verdict(suite@, case@, outcome::problem_of(result)),
{
    CaseOutcome::new(case.absolute.from_base(suite.manifest_dir()), case.kind, result)
}

/// Go on to check the first fixture that has no verdict yet.
#[verifier::loop_isolation(false)]
fn check<'a>(
    run: Run<'a>,
    build: Build,
    outcomes: Vec<CaseOutcome>,
    blessed: Vec<PathBuf>,
) -> (step: Step<'a>)
    ensures
        step@ == checking(
            run@,
            build@,
            outcome::verdicts(outcomes@),
            path::paths(blessed@),
        ),
{
    let cases = run.suite.registered_cases();
    let ghost all = run@.suite.cases;
    let ghost start = outcome::verdicts(outcomes@);
    let mut outcomes = outcomes;
    assert(cases@.len() == all.len());
    while outcomes.len() < cases.len()
        invariant
            all == cases::registered(cases@),
            all == run@.suite.cases,
            checking(run@, build@, start, path::paths(blessed@)) == checking(
                run@,
                build@,
                outcome::verdicts(outcomes@),
                path::paths(blessed@),
            ),
        decreases cases.len() - outcomes.len(),
    {
        let ghost before = outcome::verdicts(outcomes@);
        let case = &cases[outcomes.len()];
        assert(case@ == all[before.len() as int]);
        match check_case(&run, &build, case) {
            Judged::Settled(result) => {
                let judged = case_outcome(run.suite, case, result);
                outcomes.push(judged);
                assert(outcome::verdicts(outcomes@) =~= before.push(judged@));
            },
            Judged::Compare(actual) => {
                return Step::Read(
                    Reading {
                        run,
                        want: Want::Golden(Check { build, outcomes, blessed, actual }),
                    },
                );
            },
        }
    }
    Step::Done(Outcome::new(run.setup, outcomes, blessed))
}

/// Go on, the fixture `tally` had come to having failed or held up.
fn settle<'a>(run: Run<'a>, tally: Check, result: Result<(), Failure>) -> (step: Step<'a>)
    requires
        tally@.verdicts.len() < run@.suite.cases.len(),
    ensures
        step@ == settled(run@, tally@, outcome::problem_of(result)),
{
    let cases = run.suite.registered_cases();
    let ghost before = tally@;
    let case = &cases[tally.outcomes.len()];
    assert(case@ == case_of(run@, tally@));
    let judged = case_outcome(run.suite, case, result);
    let mut outcomes = tally.outcomes;
    outcomes.push(judged);
    assert(outcome::verdicts(outcomes@) =~= before.verdicts.push(judged@));
    check(run, tally.build, outcomes, tally.blessed)
}

/// The fixture `tally` has come to.
fn current_case<'a>(run: &Run<'a>, tally: &Check) -> (case: &'a Case)
    requires
        tally@.verdicts.len() < run@.suite.cases.len(),
    ensures
        case@ == case_of(run@, tally@),
{
    let cases = run.suite.registered_cases();
    let case = &cases[tally.outcomes.len()];
    assert(case@ == run@.suite.cases[tally@.verdicts.len() as int]);
    case
}

/// The golden of the fixture `tally` has come to, as it is reported.
fn golden_shown<'a>(run: &Run<'a>, tally: &Check) -> (golden: PathBuf)
    requires
        tally@.verdicts.len() < run@.suite.cases.len(),
    ensures
        golden@ == golden_in_report(run@, tally@),
{
    let case = current_case(run, tally);
    golden_path(&case.absolute.from_base(run.suite.manifest_dir()))
}

/// Compare a golden that was read.
fn compare_golden<'a>(run: &Run<'a>, tally: &Check, contents: &Contents) -> (result: Result<
    (),
    Failure,
>)
    requires
        tally@.verdicts.len() < run@.suite.cases.len(),
    ensures
        outcome::problem_of(result) == comparison(run@, tally@, *contents),
{
    let golden = golden_shown(run, tally);
    match contents {
        Contents::Text(found) => {
            // Both sides are filtered, so `Brief` mode accepts an `Exact` golden
            // and switching modes does not force a re-bless.
            let case = current_case(run, tally);
            let expected = filter(found.as_str(), run.suite.comparison(), case.relative.as_str());
            if same_str(expected.as_str(), tally.actual.as_str()) {
                Ok(())
            } else {
                Err(
                    Failure::Mismatch {
                        golden,
                        expected,
                        actual: copy_of(tally.actual.as_str()),
                        mode: run.suite.comparison(),
                    },
                )
            }
        },
        // A missing golden is a failure, never an implicit bless.
        Contents::Missing(_) => Err(Failure::MissingGolden { golden }),
        Contents::Unreadable(message) => Err(
            io_failure(
                context("could not read the golden ", golden.display().as_str()),
                message.as_str(),
            ),
        ),
    }
}

/// Whether the golden already holds what a blessing run would write.
fn already_blessed(tally: &Check, contents: &Contents) -> (yes: bool)
    ensures
        yes == is_blessed(tally@, *contents),
{
    match contents {
        Contents::Text(found) => same_str(
            unify_line_endings(found.as_str()).as_str(),
            tally.actual.as_str(),
        ),
        _ => false,
    }
}

impl<'a> Reading<'a> {
    /// The file to be read.
    pub fn path(&self) -> (path: PathBuf)
        ensures
            path@ == needed(self@.0, self@.1),
    {
        proof {
            use_type_invariant(self);
        }
        match &self.want {
            Want::Fixture(at) => {
                let cases = self.run.suite.registered_cases();
                assert(cases@[*at as int]@ == self.run@.suite.cases[*at as int]);
                cases[*at].absolute.copied()
            },
            Want::Lockfile(path) => path.copied(),
            Want::Golden(tally) => golden_path(&current_case(&self.run, tally).absolute),
        }
    }

    /// Go on with what the file holds.
    pub fn read(self, contents: Contents) -> (step: Step<'a>)
        ensures
            step@ == after_read(self@.0, self@.1, contents),
    {
        proof {
            use_type_invariant(&self);
        }
        let run = self.run;
        match self.want {
            Want::Fixture(at) => match contents {
                Contents::Text(source) => Step::Do(
                    Doing { run, deed: Deed::Fixture(at, source) },
                ),
                Contents::Missing(message) => unread_fixture(run, at, message.as_str()),
                Contents::Unreadable(message) => unread_fixture(run, at, message.as_str()),
            },
            Want::Lockfile(path) => match contents {
                Contents::Text(text) => Step::Do(Doing { run, deed: Deed::Lockfile(text) }),
                Contents::Missing(message) => unread_lockfile(run, &path, message.as_str()),
                Contents::Unreadable(message) => unread_lockfile(run, &path, message.as_str()),
            },
            Want::Golden(tally) => {
                if !run.bless {
                    let result = compare_golden(&run, &tally, &contents);
                    settle(run, tally, result)
                } else if already_blessed(&tally, &contents) {
                    settle(run, tally, Ok(()))
                } else {
                    Step::Do(Doing { run, deed: Deed::Golden(tally) })
                }
            },
        }
    }
}

/// The run ends: a fixture could not be read.
fn unread_fixture<'a>(run: Run<'a>, at: usize, message: &str) -> (step: Step<'a>)
    requires
        at < run@.suite.cases.len(),
    ensures
        step@ == stopped(
            run@,
            cases::io_problem(
                "could not read the fixture "@ + run@.suite.cases[at as int].relative,
                message@,
            ),
        ),
{
    let cases = run.suite.registered_cases();
    assert(cases@[at as int]@ == run@.suite.cases[at as int]);
    let said = context("could not read the fixture ", cases[at].relative.as_str());
    stop(run, io_failure(said, message))
}

/// The run ends: the host's lockfile could not be read.
fn unread_lockfile<'a>(run: Run<'a>, path: &PathBuf, message: &str) -> (step: Step<'a>)
    ensures
        step@ == stopped(
            run@,
            cases::io_problem(
                "could not read the host's lockfile "@ + path::native(path@),
                message@,
            ),
        ),
{
    let said = context("could not read the host's lockfile ", path.display_native().as_str());
    stop(run, io_failure(said, message))
}

/// The file a run needs read.
pub open spec fn needed(run: Progress, need: Need) -> Seq<Part> {
    match need {
        Need::Fixture(at) => run.suite.cases[at as int].absolute,
        Need::Lockfile(path) => path,
        Need::Golden(tally) => cases::golden_of(case_of(run, tally).absolute),
    }
}

// ---------------------------------------------------------------------------
// Doing.
// ---------------------------------------------------------------------------

/// What a run needs done, in plain values.
#[derive(Debug)]
pub enum Task {
    /// Create the layout's root directory and lock the file in it, waiting for as
    /// long as it takes. Held until the run is over: every fixture is written to
    /// the same scratch project, so concurrent runs would compile each other's.
    Lock(Layout),
    /// Create a directory and everything above it.
    CreateDirectory(PathBuf),
    /// Write a file, and create the directory it is in, unless it holds that
    /// already.
    WriteIfChanged(PathBuf, String),
    /// Write a file.
    Write(PathBuf, String),
}

/// What a [`Task`] stands for.
pub enum Chore {
    /// Lock the scratch project.
    Lock(Place),
    /// Create a directory.
    CreateDirectory(Seq<Part>),
    /// Write a file unless it holds that already.
    WriteIfChanged(Seq<Part>, Seq<char>),
    /// Write a file.
    Write(Seq<Part>, Seq<char>),
}

impl View for Task {
    type V = Chore;

    open spec fn view(&self) -> Chore {
        match *self {
            Task::Lock(layout) => Chore::Lock(layout@),
            Task::CreateDirectory(path) => Chore::CreateDirectory(path@),
            Task::WriteIfChanged(path, contents) => Chore::WriteIfChanged(path@, contents@),
            Task::Write(path, contents) => Chore::Write(path@, contents@),
        }
    }
}

/// What doing `act` takes.
pub open spec fn chore(run: Progress, act: Act) -> Chore {
    match act {
        Act::Lock => Chore::Lock(run.layout),
        Act::CreateTarget => Chore::CreateDirectory(run.layout.target),
        Act::Fixture(at, source) => Chore::WriteIfChanged(staged_at(run, at), source),
        Act::Manifest => Chore::WriteIfChanged(manifest_of(run.layout), manifest_for(run.suite)),
        Act::Lockfile(text) => Chore::WriteIfChanged(lockfile_of(run.layout), text),
        Act::Golden(tally) => Chore::Write(
            cases::golden_of(case_of(run, tally).absolute),
            tally.actual,
        ),
    }
}

/// Where the source of the fixture at `at` is staged.
fn staged_path<'a>(run: &Run<'a>, at: usize) -> (path: PathBuf)
    requires
        at < run@.suite.cases.len(),
    ensures
        path@ == staged_at(run@, at as nat),
{
    let cases = run.suite.registered_cases();
    assert(cases@[at as int]@ == run@.suite.cases[at as int]);
    run.layout.bin_path(cases[at].bin.as_str())
}

/// What the scratch project's manifest says.
fn manifest_contents(suite: &TestCases) -> (contents: String)
    ensures
        contents@ == manifest_for(suite@),
{
    let cases = suite.registered_cases();
    let ghost all = bins_of(suite@.cases);
    let mut bins: Vec<String> = Vec::new();
    for i in 0..cases.len()
        invariant
            cases::registered(cases@) == suite@.cases,
            all == bins_of(suite@.cases),
            text::strings(bins@) == all.take(i as int),
    {
        let ghost before = text::strings(bins@);
        let bin = copy_of(cases[i].bin.as_str());
        assert(suite@.cases[i as int] == cases@[i as int]@);
        bins.push(bin);
        assert(text::strings(bins@) =~= before.push(bin@));
    }
    assert(all.take(all.len() as int) =~= all);
    crate::scratch::manifest(
        suite.declared_edition(),
        suite.declared_dependencies(),
        suite.appended_lines(),
        &bins,
    )
}

impl<'a> Doing<'a> {
    /// What is to be done.
    pub fn task(&self) -> (task: Task)
        ensures
            task@ == chore(self@.0, self@.1),
    {
        proof {
            use_type_invariant(self);
        }
        match &self.deed {
            Deed::Lock => Task::Lock(self.run.layout.copied()),
            Deed::CreateTarget => Task::CreateDirectory(self.run.layout.target.copied()),
            // Copied verbatim. The harness does not add a `fn main` for a fixture
            // that lacks one: guessing that wrong writes injected source into the
            // golden under the fixture's own name.
            Deed::Fixture(at, source) => Task::WriteIfChanged(
                staged_path(&self.run, *at),
                copy_of(source.as_str()),
            ),
            Deed::Manifest => Task::WriteIfChanged(
                self.run.layout.manifest(),
                manifest_contents(self.run.suite),
            ),
            Deed::Lockfile(text) => Task::WriteIfChanged(
                self.run.layout.lockfile(),
                copy_of(text.as_str()),
            ),
            Deed::Golden(tally) => Task::Write(
                golden_path(&current_case(&self.run, tally).absolute),
                copy_of(tally.actual.as_str()),
            ),
        }
    }

    /// Go on, it having been done or not, for this reason.
    pub fn done(self, result: Result<(), String>) -> (step: Step<'a>)
        ensures
            step@ == match result {
                Ok(_) => after_success(self@.0, self@.1),
                Err(message) => after_failure(self@.0, self@.1, message@),
            },
    {
        match result {
            Ok(_) => self.succeeded(),
            Err(message) => self.failed(message.as_str()),
        }
    }

    fn succeeded(self) -> (step: Step<'a>)
        ensures
            step@ == after_success(self@.0, self@.1),
    {
        proof {
            use_type_invariant(&self);
        }
        let run = self.run;
        match self.deed {
            Deed::Lock => Step::Do(Doing { run, deed: Deed::CreateTarget }),
            Deed::CreateTarget => stage(run, 0),
            Deed::Fixture(at, _) => {
                let cases = run.suite.registered_cases();
                assert(cases@.len() == cases::registered(cases@).len());
                assert(at < cases.len());
                stage(run, at + 1)
            },
            Deed::Manifest => Step::Find(Finding { run }),
            Deed::Lockfile(_) => Step::Build(Building { run }),
            Deed::Golden(tally) => {
                let golden = golden_shown(&run, &tally);
                let ghost before = tally@;
                let mut blessed = tally.blessed;
                blessed.push(golden);
                assert(path::paths(blessed@) =~= before.blessed.push(golden@));
                settle(
                    run,
                    Check {
                        build: tally.build,
                        outcomes: tally.outcomes,
                        blessed,
                        actual: tally.actual,
                    },
                    Ok(()),
                )
            },
        }
    }

    fn failed(self, message: &str) -> (step: Step<'a>)
        ensures
            step@ == after_failure(self@.0, self@.1, message@),
    {
        proof {
            use_type_invariant(&self);
        }
        let run = self.run;
        match self.deed {
            Deed::Lock => {
                let said = context(
                    "could not lock the scratch project at ",
                    run.layout.root.display_native().as_str(),
                );
                stop(run, io_failure(said, message))
            },
            Deed::CreateTarget => {
                let said = context(
                    "could not create the scratch target directory at ",
                    run.layout.target.display_native().as_str(),
                );
                stop(run, io_failure(said, message))
            },
            Deed::Fixture(at, _) => {
                let path = staged_path(&run, at);
                unwritten_file(run, &path, message)
            },
            Deed::Manifest => {
                let path = run.layout.manifest();
                unwritten_file(run, &path, message)
            },
            Deed::Lockfile(_) => {
                let path = run.layout.lockfile();
                unwritten_file(run, &path, message)
            },
            Deed::Golden(tally) => {
                let golden = golden_shown(&run, &tally);
                let said = context("could not write the golden ", golden.display().as_str());
                settle(run, tally, Err(io_failure(said, message)))
            },
        }
    }
}

/// The run ends: a file could not be written.
fn unwritten_file<'a>(run: Run<'a>, path: &PathBuf, message: &str) -> (step: Step<'a>)
    ensures
        step@ == stopped(run@, unwritten(path@, message@)),
{
    let said = context("could not write ", path.display_native().as_str());
    stop(run, io_failure(said, message))
}

// ---------------------------------------------------------------------------
// Cargo.
// ---------------------------------------------------------------------------

impl<'a> Finding<'a> {
    /// The directory of the crate whose workspace's lockfile is to be found.
    pub fn manifest_dir(&self) -> (dir: &PathBuf)
        ensures
            dir@ == self@.suite.manifest_dir,
    {
        self.run.suite.manifest_dir()
    }

    /// Go on with the lockfile, if there is one.
    pub fn found(self, lockfile: Result<Option<PathBuf>, String>) -> (step: Step<'a>)
        ensures
            step@ == after_find(self@, lockfile),
    {
        match lockfile {
            Ok(Some(path)) => Step::Read(Reading { run: self.run, want: Want::Lockfile(path) }),
            Ok(None) => Step::Build(Building { run: self.run }),
            Err(message) => stop(
                self.run,
                io_failure(
                    copy_of("could not ask cargo where the host's workspace is"),
                    message.as_str(),
                ),
            ),
        }
    }
}

impl<'a> Building<'a> {
    /// Where the scratch project is kept.
    pub fn layout(&self) -> (layout: &Layout)
        ensures
            layout@ == self@.layout,
    {
        &self.run.layout
    }

    /// Go on with what cargo printed.
    pub fn built(self, output: Result<Output, String>) -> (step: Step<'a>)
        ensures
            step@ == after_build(self@, output),
    {
        let run = self.run;
        match output {
            Ok(output) => match read_build(
                output.stdout.as_str(),
                output.stderr,
                &run.layout.manifest(),
            ) {
                Ok(build) => after_reading_build(run, build),
                Err(message) => stop(
                    run,
                    io_failure(
                        copy_of("could not run cargo for the scratch project"),
                        message.as_str(),
                    ),
                ),
            },
            Err(message) => stop(
                run,
                io_failure(
                    copy_of("could not run cargo for the scratch project"),
                    message.as_str(),
                ),
            ),
        }
    }
}

/// Decide what to make of a build.
fn after_reading_build<'a>(run: Run<'a>, build: Build) -> (step: Step<'a>)
    ensures
        step@ == after_reading(run@, build@),
{
    // Cargo never reached the fixtures, so nothing it said is about them.
    // Reporting this per case would blame every fixture for one manifest.
    if !build.started() {
        let message = string_of(&without_tail(&chars_of(build.stderr())));
        return stop(run, Failure::Cargo { message });
    }
    let manifests = build.manifests_to_check();
    assert(manifests@.len() == text::strings(manifests@).len());
    if manifests.len() != 0 {
        return Step::Resolve(Resolving { run, build });
    }
    judge(run, build)
}

/// Go on to the fixtures of a build, unless nothing was built and another package
/// says why.
fn judge<'a>(run: Run<'a>, build: Build) -> (step: Step<'a>)
    ensures
        step@ == judging(run@, build@),
{
    if let Some(message) = build.nothing_built() {
        return stop(run, Failure::Cargo { message });
    }
    let outcomes: Vec<CaseOutcome> = Vec::new();
    let blessed: Vec<PathBuf> = Vec::new();
    assert(outcome::verdicts(outcomes@) =~= seq![]);
    assert(path::paths(blessed@) =~= seq![]);
    check(run, build, outcomes, blessed)
}

impl<'a> Resolving<'a> {
    /// The scratch project's manifest, as cargo was handed it.
    pub fn handed(&self) -> (path: PathBuf)
        ensures
            path@ == manifest_of(self@.0.layout),
    {
        self.run.layout.manifest()
    }

    /// The manifests cargo named, each to be resolved.
    pub fn manifests(&self) -> (manifests: Vec<String>)
        ensures
            text::strings(manifests@) == (if self@.1.is_detached() {
                self@.1.other_manifests
            } else {
                seq![]
            }),
    {
        self.build.manifests_to_check()
    }

    /// Go on with what each path canonicalizes to, where it does.
    pub fn resolved(self, ours: &Option<PathBuf>, theirs: &Vec<Option<PathBuf>>) -> (step: Step<
        'a,
    >)
        ensures
            step@ == after_resolve(self@.0, self@.1, scratch::optional(*ours), theirs@),
    {
        match self.build.manifest_mismatch(&self.run.layout.manifest(), ours, theirs) {
            Some((handed, reported)) => stop(
                self.run,
                Failure::ManifestMismatch { handed, reported },
            ),
            None => judge(self.run, self.build),
        }
    }
}

} // verus!
