//! What a run does next, and what it makes of each fixture.

use vstd::prelude::*;
use vstd::utf8::*;

use crate::cases;
use crate::cases::{Registered, Suite};
use crate::compare;
use crate::compile;
use crate::compile::Built;
use crate::normalize;
use crate::normalize::Rules;
use crate::outcome::{Kind, Problem, Summary, Verdict};
use crate::path;
use crate::path::{Part, PathBuf};
use crate::run;
use crate::run::{
    Act, Chore, Contents, Judgement, Need, Output, Progress, Stage, Surroundings, Tally, Walk,
};
use crate::scratch;
use crate::text;

verus! {

// ---------------------------------------------------------------------------
// Fixtures.
// ---------------------------------------------------------------------------

/// The component called `name`.
pub open spec fn component(name: Seq<char>) -> Part {
    Part::Normal(encode_utf8(name))
}

/// The diagnostics of `case` as they go into a golden that is compared whole: all
/// that was said about its bin target, made the same on every machine.
pub open spec fn diagnostics(run: Progress, built: Built, case: Registered) -> Seq<char> {
    normalize::normalized(
        Rules {
            root: run.layout.root,
            bin_path: run.layout.project + seq![
                component("src"@),
                component("bin"@),
                component(case.bin + ".rs"@),
            ],
            bin: case.bin,
            manifest_dir: run.suite.manifest_dir,
            dependencies: run.suite.dependencies,
            cargo_home: run.cargo_home,
            fold: run.fold,
            elide: run.suite.elide_implementors,
        },
        compile::said_about(built, case.bin),
        case.relative,
    )
}

/// What the build says of a fixture. One that must compile holds up where there is
/// an artifact of it, and fails with its diagnostics where there is none. One that
/// must not fails where there is an artifact, and where what is compared of its
/// diagnostics is blank, with whatever was said. Otherwise its golden decides.
pub proof fn law_what_the_build_says_of_a_fixture(
    run: Progress,
    built: Built,
    case: Registered,
)
    ensures
        ({
            let compiled = built.compiled.contains(case.bin);
            let said = compile::said_about(built, case.bin);
            let actual = compare::filtered(
                diagnostics(run, built, case),
                run.suite.mode,
                case.relative,
            );
            let judged = run::judgement(run, built, case);
            &&& case.kind == Kind::Pass && compiled ==> judged == Judgement::Settled(None)
            &&& case.kind == Kind::Pass && !compiled ==> judged == Judgement::Settled(
                Some(Problem::DidNotCompile { stderr: diagnostics(run, built, case) }),
            )
            &&& case.kind == Kind::CompileFail && compiled ==> judged == Judgement::Settled(
                Some(Problem::Compiled),
            )
            &&& case.kind == Kind::CompileFail && !compiled && !text::is_blank(actual) ==> judged
                == Judgement::Compare(actual)
            &&& case.kind == Kind::CompileFail && !compiled && text::is_blank(actual)
                && !text::is_blank(said) ==> judged == Judgement::Settled(
                Some(Problem::NoDiagnostics { stderr: said }),
            )
            &&& case.kind == Kind::CompileFail && !compiled && text::is_blank(actual)
                && text::is_blank(said) ==> judged == Judgement::Settled(
                Some(Problem::NoDiagnostics { stderr: built.stderr }),
            )
        }),
{
    assert(scratch::bin_parts(run.layout.project, case.bin) =~= run.layout.project + seq![
        component("src"@),
        component("bin"@),
        component(case.bin + ".rs"@),
    ]);
}

/// What came of a fixture is recorded under where it lies, seen from the host crate,
/// and as the kind it was registered as.
pub open spec fn recorded(run: Progress, case: Registered, failure: Option<Problem>) -> Verdict {
    Verdict {
        path: path::seen_from(case.absolute, run.suite.manifest_dir),
        kind: case.kind,
        failure,
    }
}

/// Every fixture gets a verdict, one behind another. What the build alone settles is
/// recorded at once. A run stops at the first that the golden decides, and is over
/// once every fixture has its verdict.
pub proof fn law_every_fixture_gets_its_verdict(
    run: Progress,
    built: Built,
    verdicts: Seq<Verdict>,
    blessed: Seq<Seq<Part>>,
)
    ensures
        verdicts.len() >= run.suite.cases.len() ==> run::checking(run, built, verdicts, blessed)
            == Stage::Done(Summary { setup: run.setup, cases: verdicts, blessed }),
        verdicts.len() < run.suite.cases.len() ==> ({
            let case = run.suite.cases[verdicts.len() as int];
            run::checking(run, built, verdicts, blessed) == match run::judgement(
                run,
                built,
                case,
            ) {
                Judgement::Settled(failure) => run::checking(
                    run,
                    built,
                    verdicts.push(recorded(run, case, failure)),
                    blessed,
                ),
                Judgement::Compare(actual) => Stage::Read(
                    run,
                    Need::Golden(Tally { built, verdicts, blessed, actual }),
                ),
            }
        }),
{
}

/// Where every fixture is settled by the build alone, the run ends with exactly one
/// verdict for each, in the order they were registered.
#[verifier::rlimit(40)]
pub proof fn law_settled_fixtures_are_all_recorded(
    run: Progress,
    built: Built,
    verdicts: Seq<Verdict>,
    blessed: Seq<Seq<Part>>,
)
    requires
        verdicts.len() <= run.suite.cases.len(),
        forall|i: int|
            verdicts.len() <= i < run.suite.cases.len() ==> (#[trigger] run::judgement(
                run,
                built,
                run.suite.cases[i],
            )) is Settled,
    ensures
        ({
            let n = run.suite.cases.len();
            run::checking(run, built, verdicts, blessed) == Stage::Done(
                Summary {
                    setup: run.setup,
                    cases: Seq::new(
                        n,
                        |i: int|
                            if i < verdicts.len() {
                                verdicts[i]
                            } else {
                                recorded(
                                    run,
                                    run.suite.cases[i],
                                    run::judgement(run, built, run.suite.cases[i])->Settled_0,
                                )
                            },
                    ),
                    blessed,
                },
            )
        }),
    decreases run.suite.cases.len() - verdicts.len(),
{
    let n = run.suite.cases.len();
    let all = Seq::new(
        n,
        |i: int|
            if i < verdicts.len() {
                verdicts[i]
            } else {
                recorded(
                    run,
                    run.suite.cases[i],
                    run::judgement(run, built, run.suite.cases[i])->Settled_0,
                )
            },
    );
    if verdicts.len() == n {
        assert(all =~= verdicts);
    } else {
        let at = verdicts.len() as int;
        let case = run.suite.cases[at];
        let judged = run::judgement(run, built, case);
        assert(judged is Settled);
        let next = verdicts.push(recorded(run, case, judged->Settled_0));
        law_settled_fixtures_are_all_recorded(run, built, next, blessed);
        assert(Seq::new(
            n,
            |i: int|
                if i < next.len() {
                    next[i]
                } else {
                    recorded(
                        run,
                        run.suite.cases[i],
                        run::judgement(run, built, run.suite.cases[i])->Settled_0,
                    )
                },
        ) =~= all);
    }
}

/// The fixture that is being checked.
pub open spec fn current(run: Progress, tally: Tally) -> Registered {
    run.suite.cases[tally.verdicts.len() as int]
}

/// The golden of the fixture that is being checked, as a report names it: beside the
/// fixture.
pub open spec fn golden(run: Progress, tally: Tally) -> Seq<Part> {
    path::with_extension(
        path::seen_from(current(run, tally).absolute, run.suite.manifest_dir),
        encode_utf8("stderr"@),
    )
}

/// The run with the fixture it had come to recorded.
pub open spec fn with_verdict(run: Progress, tally: Tally, failure: Option<Problem>) -> Stage {
    run::checking(
        run,
        tally.built,
        tally.verdicts.push(recorded(run, current(run, tally), failure)),
        tally.blessed,
    )
}

/// What a run does with a golden. A run that does not bless records whether what is
/// compared of the golden is what is compared of the diagnostics, and if not, both;
/// that it is missing; or why it could not be read. One that does bless leaves a
/// golden alone that holds the diagnostics, line endings apart, and writes any
/// other.
#[verifier::rlimit(40)]
pub proof fn law_what_is_done_with_a_golden(run: Progress, tally: Tally, contents: Contents)
    ensures
        ({
            let golden = golden(run, tally);
            let next = run::after_read(run, Need::Golden(tally), contents);
            let mode = run.suite.mode;
            match contents {
                Contents::Text(found) => {
                    let expected = compare::filtered(
                        found@,
                        mode,
                        current(run, tally).relative,
                    );
                    let same = compare::filtered(
                        found@,
                        compare::Mode::Exact,
                        current(run, tally).relative,
                    ) == tally.actual;
                    &&& !run.bless && expected == tally.actual ==> next == with_verdict(
                        run,
                        tally,
                        None,
                    )
                    &&& !run.bless && expected != tally.actual ==> next == with_verdict(
                        run,
                        tally,
                        Some(
                            Problem::Mismatch { golden, expected, actual: tally.actual, mode },
                        ),
                    )
                    &&& run.bless && same ==> next == with_verdict(run, tally, None)
                    &&& run.bless && !same ==> next == Stage::Do(run, Act::Golden(tally))
                },
                Contents::Missing(_) => {
                    &&& !run.bless ==> next == with_verdict(
                        run,
                        tally,
                        Some(Problem::MissingGolden { golden }),
                    )
                    &&& run.bless ==> next == Stage::Do(run, Act::Golden(tally))
                },
                Contents::Unreadable(message) => {
                    &&& !run.bless ==> next == with_verdict(
                        run,
                        tally,
                        Some(
                            Problem::Io {
                                context: "could not read the golden "@ + path::shown(golden),
                                message: message@,
                            },
                        ),
                    )
                    &&& run.bless ==> next == Stage::Do(run, Act::Golden(tally))
                },
            }
        }),
{
}

/// A golden that was written is listed, and its fixture held up. One that could not
/// be written is not, and its fixture failed for that reason.
pub proof fn law_what_comes_of_writing_a_golden(run: Progress, tally: Tally, message: Seq<char>)
    ensures
        run::after_success(run, Act::Golden(tally)) == run::checking(
            run,
            tally.built,
            tally.verdicts.push(recorded(run, current(run, tally), None)),
            tally.blessed.push(golden(run, tally)),
        ),
        run::after_failure(run, Act::Golden(tally), message) == with_verdict(
            run,
            tally,
            Some(
                Problem::Io {
                    context: "could not write the golden "@ + path::shown(golden(run, tally)),
                    message,
                },
            ),
        ),
{
}

// ---------------------------------------------------------------------------
// Steps.
// ---------------------------------------------------------------------------

/// The run ends with one more thing that went wrong, and no verdict.
pub open spec fn given_up(run: Progress, problem: Problem) -> Stage {
    Stage::Done(Summary { setup: run.setup.push(problem), cases: seq![], blessed: seq![] })
}

/// The run ends, and what could not be read or written is reported.
pub open spec fn broken_off(run: Progress, context: Seq<char>, message: Seq<char>) -> Stage {
    given_up(run, Problem::Io { context, message })
}

/// What a run knows when it begins.
pub proof fn law_how_a_run_begins(suite: Suite, around: Surroundings)
    ensures
        ({
            let run = run::begun(suite, around);
            &&& run.suite == suite
            &&& run.setup == suite.setup
            &&& run.layout == scratch::place_in(
                scratch::target_parts(
                    suite.manifest_dir,
                    scratch::optional(around.target_dir),
                    scratch::optional(around.executable),
                ),
                suite.host_pkg_name,
            )
            &&& run.bless == cases::blesses(
                suite.overwrite,
                match around.overwrite {
                    Some(value) => Some(value@),
                    None => None,
                },
            )
            &&& run.cargo_home == scratch::optional(around.cargo_home)
            &&& run.fold == around.fold
            &&& run::started(suite, around) == run::looking(run, 0)
        }),
{
}

/// A run looks through one registered directory after another, from its top. Then,
/// where there is a fixture and the manifest can be written, it locks the scratch
/// project. Otherwise it ends, and says that nothing is registered where it has
/// nothing else to say.
#[verifier::rlimit(40)]
pub proof fn law_what_a_run_does_first(run: Progress, at: nat)
    ensures
        at < run.suite.directories.len() ==> run::looking(run, at) == Stage::List(
            Walk {
                run,
                at,
                current: run.suite.directories[at as int],
                pending: seq![],
                unregistered: seq![],
                orphans: seq![],
            },
        ),
        at >= run.suite.directories.len() ==> ({
            let refused = exists|i: int|
                0 <= i < run.setup.len() && match #[trigger] run.setup[i] {
                    Problem::RawManifestLinesWithoutHeader { .. } => true,
                    Problem::EmptyDependencyName { .. } => true,
                    Problem::ReservedDependencyName { .. } => true,
                    Problem::NonUtf8Dependency { .. } => true,
                    _ => false,
                };
            let next = run::looking(run, at);
            &&& run.suite.cases.len() == 0 && run.setup.len() == 0 ==> next == Stage::Done(
                Summary {
                    setup: seq![Problem::NothingRegistered],
                    cases: seq![],
                    blessed: seq![],
                },
            )
            &&& run.suite.cases.len() == 0 && run.setup.len() != 0 ==> next == Stage::Done(
                Summary { setup: run.setup, cases: seq![], blessed: seq![] },
            )
            &&& run.suite.cases.len() != 0 && refused ==> next == Stage::Done(
                Summary { setup: run.setup, cases: seq![], blessed: seq![] },
            )
            &&& run.suite.cases.len() != 0 && !refused ==> next == Stage::Do(run, Act::Lock)
        }),
{
    if run::is_refused(run.setup) {
        let i = choose|i: int|
            0 <= i < run.setup.len() && crate::outcome::refuses(#[trigger] run.setup[i]);
        assert(run.setup[i] == run.setup[i]);
    }
    if exists|i: int|
        0 <= i < run.setup.len() && match #[trigger] run.setup[i] {
            Problem::RawManifestLinesWithoutHeader { .. } => true,
            Problem::EmptyDependencyName { .. } => true,
            Problem::ReservedDependencyName { .. } => true,
            Problem::NonUtf8Dependency { .. } => true,
            _ => false,
        } {
        let i = choose|i: int|
            0 <= i < run.setup.len() && match #[trigger] run.setup[i] {
                Problem::RawManifestLinesWithoutHeader { .. } => true,
                Problem::EmptyDependencyName { .. } => true,
                Problem::ReservedDependencyName { .. } => true,
                Problem::NonUtf8Dependency { .. } => true,
                _ => false,
            };
        assert(crate::outcome::refuses(run.setup[i]));
    }
}

/// Once the scratch project is locked and what it is built into is there, every
/// fixture is read and staged, one after another, then the manifest is written,
/// then the host's lockfile is looked for, and staged where there is one, and then
/// everything is built. Nothing is left out, and nothing is done twice.
#[verifier::rlimit(40)]
pub proof fn law_what_is_done_before_the_build(
    run: Progress,
    at: nat,
    source: String,
    lockfile: PathBuf,
    text: Seq<char>,
)
    ensures
        run::after_success(run, Act::Lock) == Stage::Do(run, Act::CreateTarget),
        run.suite.cases.len() != 0 ==> run::after_success(run, Act::CreateTarget) == Stage::Read(
            run,
            Need::Fixture(0),
        ),
        run::after_read(run, Need::Fixture(at), Contents::Text(source)) == Stage::Do(
            run,
            Act::Fixture(at, source@),
        ),
        at + 1 < run.suite.cases.len() ==> run::after_success(run, Act::Fixture(at, text))
            == Stage::Read(run, Need::Fixture((at + 1) as nat)),
        at + 1 >= run.suite.cases.len() ==> run::after_success(run, Act::Fixture(at, text))
            == Stage::Do(run, Act::Manifest),
        run::after_success(run, Act::Manifest) == Stage::Find(run),
        run::after_find(run, Ok(Some(lockfile))) == Stage::Read(run, Need::Lockfile(lockfile@)),
        run::after_find(run, Ok(None)) == Stage::Build(run),
        run::after_read(run, Need::Lockfile(lockfile@), Contents::Text(source)) == Stage::Do(
            run,
            Act::Lockfile(source@),
        ),
        run::after_success(run, Act::Lockfile(text)) == Stage::Build(run),
{
}

/// What cannot be done before the build ends the run, and is reported by its own
/// name with what went wrong.
#[verifier::rlimit(40)]
pub proof fn law_what_ends_a_run_before_the_build(
    run: Progress,
    at: nat,
    text: Seq<char>,
    message: Seq<char>,
    why: String,
    lockfile: PathBuf,
)
    ensures
        run::after_failure(run, Act::Lock, message) == broken_off(
            run,
            "could not lock the scratch project at "@ + path::native(run.layout.root),
            message,
        ),
        run::after_failure(run, Act::CreateTarget, message) == broken_off(
            run,
            "could not create the scratch target directory at "@ + path::native(
                run.layout.target,
            ),
            message,
        ),
        run::after_failure(run, Act::Fixture(at, text), message) == broken_off(
            run,
            "could not write "@ + path::native(
                run.layout.project + seq![
                    component("src"@),
                    component("bin"@),
                    component(run.suite.cases[at as int].bin + ".rs"@),
                ],
            ),
            message,
        ),
        run::after_failure(run, Act::Manifest, message) == broken_off(
            run,
            "could not write "@ + path::native(
                run.layout.project.push(component("Cargo.toml"@)),
            ),
            message,
        ),
        run::after_failure(run, Act::Lockfile(text), message) == broken_off(
            run,
            "could not write "@ + path::native(
                run.layout.project.push(component("Cargo.lock"@)),
            ),
            message,
        ),
        run::after_read(run, Need::Fixture(at), Contents::Missing(why)) == broken_off(
            run,
            "could not read the fixture "@ + run.suite.cases[at as int].relative,
            why@,
        ),
        run::after_read(run, Need::Fixture(at), Contents::Unreadable(why)) == broken_off(
            run,
            "could not read the fixture "@ + run.suite.cases[at as int].relative,
            why@,
        ),
        run::after_read(run, Need::Lockfile(lockfile@), Contents::Missing(why)) == broken_off(
            run,
            "could not read the host's lockfile "@ + path::native(lockfile@),
            why@,
        ),
        run::after_read(run, Need::Lockfile(lockfile@), Contents::Unreadable(why)) == broken_off(
            run,
            "could not read the host's lockfile "@ + path::native(lockfile@),
            why@,
        ),
        run::after_find(run, Err(why)) == broken_off(
            run,
            "could not ask cargo where the host's workspace is"@,
            why@,
        ),
        run::after_build(run, Err(why)) == broken_off(
            run,
            "could not run cargo for the scratch project"@,
            why@,
        ),
{
    assert(scratch::bin_parts(run.layout.project, run.suite.cases[at as int].bin)
        =~= run.layout.project + seq![
        component("src"@),
        component("bin"@),
        component(run.suite.cases[at as int].bin + ".rs"@),
    ]);
}

/// What is made of a build. Output that breaks off, and a build that never got to
/// the fixtures, end the run. Where nothing came of the scratch project though
/// other packages were named, those names are looked into. Where none of them is
/// the scratch project's own and another package failed, that ends the run. In
/// every other case the fixtures are judged.
#[verifier::rlimit(40)]
pub proof fn law_what_is_made_of_a_build(run: Progress, output: Output)
    ensures
        ({
            let nothing = Built {
                messages: seq![],
                compiled: seq![],
                foreign: seq![],
                other_manifests: seq![],
                stderr: output.stderr@,
                started: false,
            };
            let (built, whole) = compile::ingested(
                nothing,
                text::lines(output.stdout@),
                run.layout.project.push(component("Cargo.toml"@)),
            );
            let next = run::after_build(run, Ok(output));
            let detached = built.messages.len() == 0 && built.compiled.len() == 0;
            &&& !whole ==> next == broken_off(
                run,
                "could not run cargo for the scratch project"@,
                "could not parse cargo's JSON output: not a JSON value"@,
            )
            &&& whole && !built.started ==> next == given_up(
                run,
                Problem::Cargo { message: text::trim_end(output.stderr@) },
            )
            &&& whole && built.started && detached && built.other_manifests.len() != 0 ==> next
                == Stage::Resolve(run, built)
            &&& whole && built.started && !(detached && built.other_manifests.len() != 0) ==> next
                == judged(run, built)
        }),
{
    crate::laws::ingest::law_what_cargo_said_on_stderr_stays(
        compile::unread(output.stderr@),
        text::lines(output.stdout@),
        run.layout.project.push(component("Cargo.toml"@)),
    );
}

/// What becomes of a run whose build stands.
pub open spec fn judged(run: Progress, built: Built) -> Stage {
    match compile::explanation(built) {
        Some(message) => given_up(run, Problem::Cargo { message }),
        None => run::checking(run, built, seq![], seq![]),
    }
}

/// Where cargo named the scratch project's manifest by another spelling, that ends
/// the run, with both. Where it did not, the build stands.
pub proof fn law_what_another_spelling_does(
    run: Progress,
    built: Built,
    ours: Option<Seq<Part>>,
    theirs: Seq<Option<PathBuf>>,
)
    ensures
        ({
            let handed = run.layout.project.push(component("Cargo.toml"@));
            run::after_resolve(run, built, ours, theirs) == match compile::misspelled(
                built,
                ours,
                theirs,
            ) {
                Some(spelling) => given_up(
                    run,
                    Problem::ManifestMismatch {
                        handed,
                        reported: path::spelled_like(encode_utf8(spelling), handed),
                    },
                ),
                None => judged(run, built),
            }
        }),
{
}

/// The manifest of the scratch project has a bin target for every fixture.
pub proof fn law_every_fixture_is_in_the_manifest(suite: Suite)
    ensures
        run::manifest_for(suite) == scratch::manifest_text(
            suite.edition,
            suite.dependencies,
            suite.raw_manifest_lines,
            Seq::new(suite.cases.len(), |i: int| suite.cases[i].bin),
        ),
{
    assert(run::bins_of(suite.cases) =~= Seq::new(
        suite.cases.len(),
        |i: int| suite.cases[i].bin,
    ));
}

/// What a run reads and writes, and where. A fixture is read where it lies and
/// staged as the source of its bin target; the manifest and the lockfile are staged
/// in the project; and a golden is read and written beside its fixture.
#[verifier::rlimit(40)]
pub proof fn law_what_is_read_and_written(
    run: Progress,
    at: nat,
    source: Seq<char>,
    tally: Tally,
    lockfile: Seq<Part>,
)
    ensures
        ({
            let beside = path::with_extension(
                current(run, tally).absolute,
                encode_utf8("stderr"@),
            );
            &&& run::needed(run, Need::Fixture(at)) == run.suite.cases[at as int].absolute
            &&& run::needed(run, Need::Lockfile(lockfile)) == lockfile
            &&& run::needed(run, Need::Golden(tally)) == beside
            &&& run::chore(run, Act::Lock) == Chore::Lock(run.layout)
            &&& run::chore(run, Act::CreateTarget) == Chore::CreateDirectory(run.layout.target)
            &&& run::chore(run, Act::Fixture(at, source)) == Chore::WriteIfChanged(
                run.layout.project + seq![
                    component("src"@),
                    component("bin"@),
                    component(run.suite.cases[at as int].bin + ".rs"@),
                ],
                source,
            )
            &&& run::chore(run, Act::Manifest) == Chore::WriteIfChanged(
                run.layout.project.push(component("Cargo.toml"@)),
                run::manifest_for(run.suite),
            )
            &&& run::chore(run, Act::Lockfile(source)) == Chore::WriteIfChanged(
                run.layout.project.push(component("Cargo.lock"@)),
                source,
            )
            &&& run::chore(run, Act::Golden(tally)) == Chore::Write(beside, tally.actual)
        }),
{
    assert(scratch::bin_parts(run.layout.project, run.suite.cases[at as int].bin)
        =~= run.layout.project + seq![
        component("src"@),
        component("bin"@),
        component(run.suite.cases[at as int].bin + ".rs"@),
    ]);
}

} // verus!
