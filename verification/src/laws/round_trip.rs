//! What holds of one run after another on the same machine.

use vstd::prelude::*;
use vstd::utf8::*;

use crate::cases;
use crate::cases::{Registered, Suite};
use crate::compare;
use crate::compile;
use crate::compile::Built;
use crate::laws::compare::law_filtering_twice_is_filtering_once;
use crate::laws::normalize::{
    have_plain_placeholders, is_one_line, law_a_golden_is_made_of_lines,
};
use crate::laws::path::{is_fixture, law_no_two_fixtures_share_a_golden, lemma_last_dot};
use crate::laws::run::{
    continues, follows, grown, is_open, is_run, is_sound, law_a_golden_is_about_its_own_fixture,
    law_a_suite_that_asserts_nothing_does_not_succeed, law_every_stage_is_sound,
    law_what_is_blessed_is_accepted,
};
use crate::laws::walk::{
    holds, is_forgotten, is_named, is_stray, law_a_directory_that_cannot_be_read_fails_the_run,
    law_a_forgotten_fixture_fails_the_run, law_a_stray_golden_fails_the_run,
    law_an_entry_that_cannot_be_told_fails_the_run, law_every_directory_below_is_looked_through,
    law_every_registered_directory_is_looked_through, lists, place, setup_of,
};
use crate::outcome;
use crate::outcome::{Kind, Problem, Verdict};
use crate::path;
use crate::path::{Order, Part, PathBuf};
use crate::run;
use crate::run::{
    Act, Chore, Contents, Found, Judgement, Need, Output, Progress, Scan, Stage, Surroundings,
    Tally, Walk, What,
};
use crate::scratch::Place;
use crate::text;

verus! {

// ---------------------------------------------------------------------------
// A machine.
// ---------------------------------------------------------------------------

/// What reading a file gives.
pub enum Held {
    /// It holds this.
    Text(Seq<char>),
    /// There is no such file, for this reason.
    Missing(Seq<char>),
    /// It cannot be read, for this reason.
    Unreadable(Seq<char>),
}

/// What came of reading a file, as a [`Held`].
pub open spec fn held(contents: Contents) -> Held {
    match contents {
        Contents::Text(found) => Held::Text(found@),
        Contents::Missing(message) => Held::Missing(message@),
        Contents::Unreadable(message) => Held::Unreadable(message@),
    }
}

/// What reading each file gives.
pub type Files = Map<Seq<Part>, Held>;

/// What listing each directory gives.
pub type Scans = Map<Seq<Part>, Scan>;

/// What a machine has to say to a run, besides its files and directories.
pub struct Machine {
    /// What comes of looking for the host workspace's lockfile.
    pub lockfile: Result<Option<PathBuf>, String>,
    /// What comes of building the fixtures.
    pub output: Result<Output, String>,
    /// The scratch manifest, resolved.
    pub ours: Option<Seq<Part>>,
    /// The manifests cargo names, resolved.
    pub theirs: Seq<Option<PathBuf>>,
}

/// The files once `chore` is done.
pub open spec fn done(files: Files, chore: Chore) -> Files {
    match chore {
        Chore::WriteIfChanged(path, contents) => files.insert(path, Held::Text(contents)),
        Chore::Write(path, contents) => files.insert(path, Held::Text(contents)),
        _ => files,
    }
}

/// The files after the step from `before` to `after`.
pub open spec fn changed(files: Files, before: Stage, after: Stage) -> Files {
    match before {
        Stage::Do(run, act) => if after == run::after_success(run, act) {
            done(files, run::chore(run, act))
        } else {
            files
        },
        _ => files,
    }
}

/// The files after the first `at` steps of a run.
pub open spec fn files_after(files: Files, stages: Seq<Stage>, at: int) -> Files
    decreases at,
{
    if at <= 0 {
        files
    } else {
        changed(files_after(files, stages, at - 1), stages[at - 1], stages[at])
    }
}

/// `after` is what comes after `before` on this machine. Whether something that
/// is to be done can be done is left open.
pub open spec fn is_answered(
    machine: Machine,
    scans: Scans,
    files: Files,
    before: Stage,
    after: Stage,
) -> bool {
    match before {
        Stage::List(walk) => after == run::after_list(walk, scans[walk.current]),
        Stage::Do(_, _) => follows(before, after),
        Stage::Read(run, need) => exists|contents: Contents|
            held(contents) == files[run::needed(run, need)] && after == #[trigger] run::after_read(
                run,
                need,
                contents,
            ),
        Stage::Find(run) => after == run::after_find(run, machine.lockfile),
        Stage::Build(run) => after == run::after_build(run, machine.output),
        Stage::Resolve(run, built) => after == run::after_resolve(
            run,
            built,
            machine.ours,
            machine.theirs,
        ),
        Stage::Done(_) => false,
    }
}

/// `stages` are the stages of a run of `suite` on this machine, its files being
/// `files` when it begins.
pub open spec fn is_run_on(
    suite: Suite,
    around: Surroundings,
    stages: Seq<Stage>,
    machine: Machine,
    scans: Scans,
    files: Files,
) -> bool {
    &&& stages.len() != 0
    &&& stages[0] == run::started(suite, around)
    &&& forall|i: int|
        0 < i < stages.len() ==> is_answered(
            machine,
            scans,
            files_after(files, stages, i - 1),
            stages[i - 1],
            #[trigger] stages[i],
        )
}

/// Whatever the run asked to be done was done.
pub open spec fn nothing_failed(stages: Seq<Stage>) -> bool {
    forall|i: int|
        0 < i < stages.len() && stages[i - 1] is Do ==> #[trigger] stages[i] == run::after_success(
            stages[i - 1]->Do_0,
            stages[i - 1]->Do_1,
        )
}

/// No two `compile_fail` fixtures share a golden.
pub open spec fn share_no_golden(suite: Suite) -> bool {
    forall|i: int, k: int|
        0 <= i < k < suite.cases.len() && (#[trigger] suite.cases[i]).kind == Kind::CompileFail
            && (#[trigger] suite.cases[k]).kind == Kind::CompileFail ==> cases::golden_of(
            suite.cases[i].absolute,
        ) != cases::golden_of(suite.cases[k].absolute)
}

/// The `.rs` files of a suite share no golden, whatever they are called.
pub proof fn law_fixtures_named_rs_share_no_golden(suite: Suite)
    requires
        suite.is_consistent(),
        forall|i: int|
            0 <= i < suite.cases.len() ==> is_fixture((#[trigger] suite.cases[i]).absolute),
    ensures
        share_no_golden(suite),
{
    assert forall|i: int, k: int|
        0 <= i < k < suite.cases.len() && (#[trigger] suite.cases[i]).kind == Kind::CompileFail
            && (#[trigger] suite.cases[k]).kind == Kind::CompileFail implies cases::golden_of(
        suite.cases[i].absolute,
    ) != cases::golden_of(suite.cases[k].absolute) by {
        let (a, b) = (suite.cases[i], suite.cases[k]);
        assert(suite.names(a));
        assert(suite.names(b));
        if cases::golden_of(a.absolute) == cases::golden_of(b.absolute) {
            law_no_two_fixtures_share_a_golden(a.absolute, b.absolute);
        }
    }
}

/// The build whose fixtures a run on this machine goes on to check, where it gets
/// that far.
pub open spec fn judged(machine: Machine, layout: Place) -> Option<Built> {
    match machine.output {
        Ok(output) => {
            let (built, whole) = compile::ingested(
                compile::unread(output.stderr@),
                text::lines(output.stdout@),
                run::manifest_of(layout),
            );
            if !whole || !built.started {
                None
            } else if built.is_detached() && built.other_manifests.len() != 0
                && compile::misspelled(built, machine.ours, machine.theirs) is Some {
                None
            } else if compile::explanation(built) is Some {
                None
            } else {
                Some(built)
            }
        },
        Err(_) => None,
    }
}

proof fn lemma_is_run(
    suite: Suite,
    around: Surroundings,
    stages: Seq<Stage>,
    machine: Machine,
    scans: Scans,
    files: Files,
)
    requires
        is_run_on(suite, around, stages, machine, scans, files),
    ensures
        is_run(suite, around, stages),
{
    assert forall|i: int| 0 < i < stages.len() implies follows(
        stages[i - 1],
        #[trigger] stages[i],
    ) by {
        assert(is_answered(
            machine,
            scans,
            files_after(files, stages, i - 1),
            stages[i - 1],
            stages[i],
        ));
    }
}

// ---------------------------------------------------------------------------
// What a run that succeeds leaves behind.
// ---------------------------------------------------------------------------

/// The first `count` fixtures can be read.
spec fn are_readable(suite: Suite, files: Files, count: int) -> bool {
    forall|i: int|
        0 <= i < count && i < suite.cases.len() ==> files[(#[trigger] suite.cases[i]).absolute]
            is Text
}

/// The host workspace's lockfile can be read, or there is none.
spec fn has_lockfile(machine: Machine, files: Files) -> bool {
    machine.lockfile matches Ok(found) && (found matches Some(path) ==> files[path@] is Text)
}

/// A checking run passes `case`, the files being `files`.
spec fn is_accepted(start: Progress, built: Built, files: Files, case: Registered) -> bool {
    match run::judgement(start, built, case) {
        Judgement::Settled(failure) => failure is None,
        Judgement::Compare(actual) => match files[cases::golden_of(case.absolute)] {
            Held::Text(found) => compare::filtered(found, start.suite.mode, case.relative)
                == actual,
            _ => false,
        },
    }
}

/// A checking run passes every fixture that `verdicts` let through.
spec fn bears_out(start: Progress, built: Built, files: Files, verdicts: Seq<Verdict>) -> bool {
    forall|i: int|
        0 <= i < verdicts.len() && i < start.suite.cases.len() && (#[trigger] verdicts[i]).failure
            is None ==> is_accepted(start, built, files, start.suite.cases[i])
}

/// A checking run passes every fixture.
spec fn passes(start: Progress, built: Built, files: Files) -> bool {
    forall|i: int|
        0 <= i < start.suite.cases.len() ==> is_accepted(
            start,
            built,
            files,
            #[trigger] start.suite.cases[i],
        )
}

/// Everything a checking run reads is there, and passes.
spec fn is_ready(start: Progress, machine: Machine, files: Files) -> bool {
    &&& are_readable(start.suite, files, start.suite.cases.len() as int)
    &&& has_lockfile(machine, files)
    &&& judged(machine, start.layout) is Some
    &&& passes(start, judged(machine, start.layout)->0, files)
}

/// What is known of the files once a run has come to check its fixtures.
spec fn is_halfway(start: Progress, machine: Machine, files: Files, built: Built) -> bool {
    &&& are_readable(start.suite, files, start.suite.cases.len() as int)
    &&& has_lockfile(machine, files)
    &&& judged(machine, start.layout) == Some(built)
}

/// What is known of the files by `stage`.
spec fn is_left(start: Progress, machine: Machine, files: Files, stage: Stage) -> bool {
    let count = start.suite.cases.len() as int;
    match stage {
        Stage::List(_) => true,
        Stage::Do(_, Act::Fixture(at, _)) => are_readable(start.suite, files, at + 1int),
        Stage::Do(_, Act::Manifest) => are_readable(start.suite, files, count),
        Stage::Do(_, Act::Lockfile(_)) => {
            are_readable(start.suite, files, count) && has_lockfile(machine, files)
        },
        Stage::Do(_, Act::Golden(tally)) => {
            &&& is_halfway(start, machine, files, tally.built)
            &&& bears_out(start, tally.built, files, tally.verdicts)
        },
        Stage::Do(_, _) => true,
        Stage::Read(_, Need::Fixture(at)) => are_readable(start.suite, files, at as int),
        Stage::Read(_, Need::Lockfile(path)) => {
            &&& are_readable(start.suite, files, count)
            &&& machine.lockfile matches Ok(Some(found)) && found@ == path
        },
        Stage::Read(_, Need::Golden(tally)) => {
            &&& is_halfway(start, machine, files, tally.built)
            &&& bears_out(start, tally.built, files, tally.verdicts)
        },
        Stage::Find(_) => are_readable(start.suite, files, count),
        Stage::Build(_) => {
            are_readable(start.suite, files, count) && has_lockfile(machine, files)
        },
        Stage::Resolve(_, built) => {
            &&& are_readable(start.suite, files, count)
            &&& has_lockfile(machine, files)
            &&& is_resolved(machine, start.layout, built)
        },
        Stage::Done(summary) => outcome::succeeded(summary) ==> is_ready(start, machine, files),
    }
}

/// `built` is what cargo printed, and needs its manifests resolved.
spec fn is_resolved(machine: Machine, layout: Place, built: Built) -> bool {
    &&& machine.output matches Ok(output) && compile::ingested(
        compile::unread(output.stderr@),
        text::lines(output.stdout@),
        run::manifest_of(layout),
    ) == (built, true)
    &&& built.started
    &&& built.is_detached()
    &&& built.other_manifests.len() != 0
}

proof fn lemma_left_by_checking(
    start: Progress,
    run: Progress,
    machine: Machine,
    files: Files,
    built: Built,
    verdicts: Seq<Verdict>,
    blessed: Seq<Seq<Part>>,
)
    requires
        continues(start, run),
        is_halfway(start, machine, files, built),
        bears_out(start, built, files, verdicts),
    ensures
        is_left(start, machine, files, run::checking(run, built, verdicts, blessed)),
    decreases run.suite.cases.len() - verdicts.len(),
{
    if verdicts.len() < run.suite.cases.len() {
        let case = run.suite.cases[verdicts.len() as int];
        law_a_golden_is_about_its_own_fixture(start, run, built, case);
        if let Judgement::Settled(failure) = run::judgement(run, built, case) {
            let next = verdicts.push(run::verdict(run.suite, case, failure));
            lemma_one_more_borne_out(start, built, files, verdicts, next.last());
            lemma_left_by_checking(start, run, machine, files, built, next, blessed);
        }
    } else {
        let stage = run::checking(run, built, verdicts, blessed);
        if outcome::succeeded(stage->Done_0) {
            assert forall|i: int| 0 <= i < start.suite.cases.len() implies is_accepted(
                start,
                built,
                files,
                #[trigger] start.suite.cases[i],
            ) by {
                assert(stage->Done_0.cases[i] == verdicts[i]);
            }
        }
    }
}

proof fn lemma_one_more_borne_out(
    start: Progress,
    built: Built,
    files: Files,
    verdicts: Seq<Verdict>,
    verdict: Verdict,
)
    requires
        bears_out(start, built, files, verdicts),
        verdicts.len() < start.suite.cases.len(),
        verdict.failure is None ==> is_accepted(
            start,
            built,
            files,
            start.suite.cases[verdicts.len() as int],
        ),
    ensures
        bears_out(start, built, files, verdicts.push(verdict)),
{
    let next = verdicts.push(verdict);
    assert forall|i: int|
        0 <= i < next.len() && i < start.suite.cases.len() && (#[trigger] next[i]).failure
            is None implies is_accepted(start, built, files, start.suite.cases[i]) by {
        if i < verdicts.len() {
            assert(next[i] == verdicts[i]);
        }
    }
}

proof fn lemma_left_by_settling(
    start: Progress,
    run: Progress,
    machine: Machine,
    files: Files,
    tally: Tally,
    failure: Option<Problem>,
)
    requires
        continues(start, run),
        is_open(run, tally),
        is_halfway(start, machine, files, tally.built),
        bears_out(start, tally.built, files, tally.verdicts),
        failure is None ==> is_accepted(start, tally.built, files, run::case_of(run, tally)),
    ensures
        is_left(start, machine, files, run::settled(run, tally, failure)),
{
    let verdict = run::verdict(run.suite, run::case_of(run, tally), failure);
    lemma_one_more_borne_out(start, tally.built, files, tally.verdicts, verdict);
    lemma_left_by_checking(
        start,
        run,
        machine,
        files,
        tally.built,
        tally.verdicts.push(verdict),
        tally.blessed,
    );
}

/// Where the run blesses in `Exact`, nothing the compiler said of a fixture that has
/// a golden has two carriage returns before a line feed.
pub open spec fn is_plain(start: Progress, built: Built) -> bool {
    start.bless && start.suite.mode is Exact ==> forall|i: int|
        0 <= i < start.suite.cases.len() && (#[trigger] start.suite.cases[i]).kind
            == Kind::CompileFail ==> !text::contains(
            run::diagnostics_for(start, built, start.suite.cases[i]),
            seq!['\r', '\r', '\n'],
        )
}

proof fn lemma_left_by_a_golden_read(
    start: Progress,
    run: Progress,
    machine: Machine,
    files: Files,
    tally: Tally,
    contents: Contents,
)
    requires
        continues(start, run),
        is_open(run, tally),
        is_halfway(start, machine, files, tally.built),
        bears_out(start, tally.built, files, tally.verdicts),
        held(contents) == files[run::needed(run, Need::Golden(tally))],
        is_plain(start, tally.built),
    ensures
        is_left(start, machine, files, run::golden_read(run, tally, contents)),
{
    let case = run::case_of(run, tally);
    law_a_golden_is_about_its_own_fixture(start, run, tally.built, case);
    if !run.bless {
        lemma_left_by_settling(
            start,
            run,
            machine,
            files,
            tally,
            run::comparison(run, tally, contents),
        );
    } else if run::is_blessed(tally, contents) {
        assert(start.suite.cases[tally.verdicts.len() as int] == case);
        law_what_is_blessed_is_accepted(run, tally, contents, contents->Text_0);
        lemma_left_by_settling(start, run, machine, files, tally, None);
    }
}

proof fn lemma_left_by_a_golden_written(
    start: Progress,
    run: Progress,
    machine: Machine,
    files: Files,
    tally: Tally,
)
    requires
        continues(start, run),
        run.bless,
        is_open(run, tally),
        is_halfway(start, machine, files, tally.built),
        bears_out(start, tally.built, files, tally.verdicts),
        is_plain(start, tally.built),
        share_no_golden(start.suite),
    ensures
        is_left(
            start,
            machine,
            done(files, run::chore(run, Act::Golden(tally))),
            run::after_success(run, Act::Golden(tally)),
        ),
{
    let case = run::case_of(run, tally);
    let at = tally.verdicts.len() as int;
    let golden = cases::golden_of(case.absolute);
    let next = done(files, run::chore(run, Act::Golden(tally)));
    assert(next == files.insert(golden, Held::Text(tally.actual)));
    assert(start.suite.cases[at] == case);
    law_a_golden_is_about_its_own_fixture(start, run, tally.built, case);
    law_filtering_twice_is_filtering_once(
        run::diagnostics_for(start, tally.built, case),
        start.suite.mode,
        case.relative,
    );
    assert(is_accepted(start, tally.built, next, case));
    assert forall|i: int|
        0 <= i < tally.verdicts.len() && i < start.suite.cases.len() && (
        #[trigger] tally.verdicts[i]).failure is None implies is_accepted(
        start,
        tally.built,
        next,
        start.suite.cases[i],
    ) by {
        assert(is_accepted(start, tally.built, files, start.suite.cases[i]));
        if start.suite.cases[i].kind == Kind::CompileFail {
            assert(cases::golden_of(start.suite.cases[i].absolute) != golden);
        }
    }
    let wrote = Tally { blessed: tally.blessed.push(run::golden_in_report(run, tally)), ..tally };
    assert(is_open(run, wrote));
    lemma_left_by_settling(start, run, machine, next, wrote, None);
}

proof fn lemma_written_stays_readable(
    suite: Suite,
    machine: Machine,
    files: Files,
    chore: Chore,
    count: int,
)
    ensures
        are_readable(suite, files, count) ==> are_readable(suite, done(files, chore), count),
        has_lockfile(machine, files) ==> has_lockfile(machine, done(files, chore)),
{
}

proof fn lemma_left_by_a_build(
    start: Progress,
    run: Progress,
    machine: Machine,
    files: Files,
)
    requires
        continues(start, run),
        are_readable(start.suite, files, start.suite.cases.len() as int),
        has_lockfile(machine, files),
    ensures
        is_left(start, machine, files, run::after_build(run, machine.output)),
{
    if let Some(built) = judged(machine, start.layout) {
        if !(built.is_detached() && built.other_manifests.len() != 0) {
            lemma_left_by_checking(start, run, machine, files, built, seq![], seq![]);
        }
    }
}

proof fn lemma_left_by_resolving(
    start: Progress,
    run: Progress,
    machine: Machine,
    files: Files,
    built: Built,
)
    requires
        continues(start, run),
        are_readable(start.suite, files, start.suite.cases.len() as int),
        has_lockfile(machine, files),
        is_resolved(machine, start.layout, built),
    ensures
        is_left(
            start,
            machine,
            files,
            run::after_resolve(run, built, machine.ours, machine.theirs),
        ),
{
    if judged(machine, start.layout) is Some {
        lemma_left_by_checking(start, run, machine, files, built, seq![], seq![]);
    }
}

proof fn lemma_left_by_reading(
    start: Progress,
    run: Progress,
    machine: Machine,
    files: Files,
    need: Need,
    contents: Contents,
)
    requires
        is_sound(start, Stage::Read(run, need)),
        is_left(start, machine, files, Stage::Read(run, need)),
        held(contents) == files[run::needed(run, need)],
        need matches Need::Golden(tally) ==> is_plain(start, tally.built),
    ensures
        is_left(start, machine, files, run::after_read(run, need, contents)),
{
    if let Need::Golden(tally) = need {
        lemma_left_by_a_golden_read(start, run, machine, files, tally, contents);
    }
}

proof fn lemma_left_by_doing(
    start: Progress,
    run: Progress,
    machine: Machine,
    files: Files,
    act: Act,
)
    requires
        is_sound(start, Stage::Do(run, act)),
        is_left(start, machine, files, Stage::Do(run, act)),
        act matches Act::Golden(tally) ==> is_plain(start, tally.built),
        share_no_golden(start.suite),
    ensures
        is_left(
            start,
            machine,
            done(files, run::chore(run, act)),
            run::after_success(run, act),
        ),
{
    if let Act::Golden(tally) = act {
        lemma_left_by_a_golden_written(start, run, machine, files, tally);
    } else {
        let chore = run::chore(run, act);
        let count = start.suite.cases.len() as int;
        lemma_written_stays_readable(start.suite, machine, files, chore, count);
        if let Act::Fixture(at, _) = act {
            lemma_written_stays_readable(start.suite, machine, files, chore, at + 1int);
        }
    }
}

proof fn lemma_left_by_failing(
    start: Progress,
    run: Progress,
    machine: Machine,
    files: Files,
    act: Act,
    message: Seq<char>,
)
    requires
        is_sound(start, Stage::Do(run, act)),
        is_left(start, machine, files, Stage::Do(run, act)),
    ensures
        is_left(start, machine, files, run::after_failure(run, act, message)),
{
    if let Act::Golden(tally) = act {
        lemma_left_by_settling(
            start,
            run,
            machine,
            files,
            tally,
            Some(
                cases::io_problem(
                    "could not write the golden "@ + path::shown(
                        run::golden_in_report(run, tally),
                    ),
                    message,
                ),
            ),
        );
    }
}

proof fn lemma_left_by_a_step(
    start: Progress,
    machine: Machine,
    scans: Scans,
    files: Files,
    before: Stage,
    after: Stage,
)
    requires
        is_sound(start, before),
        is_left(start, machine, files, before),
        is_answered(machine, scans, files, before, after),
        judged(machine, start.layout) matches Some(built) ==> is_plain(start, built),
        share_no_golden(start.suite),
    ensures
        is_left(start, machine, changed(files, before, after), after),
{
    match before {
        Stage::List(_) => {},
        Stage::Do(run, act) => if after == run::after_success(run, act) {
            lemma_left_by_doing(start, run, machine, files, act);
        } else {
            let message = choose|message: Seq<char>|
                after == #[trigger] run::after_failure(run, act, message);
            lemma_left_by_failing(start, run, machine, files, act, message);
        },
        Stage::Read(run, need) => {
            let contents = choose|contents: Contents|
                held(contents) == files[run::needed(run, need)] && after
                    == #[trigger] run::after_read(run, need, contents);
            lemma_left_by_reading(start, run, machine, files, need, contents);
        },
        Stage::Find(_) => {},
        Stage::Build(run) => lemma_left_by_a_build(start, run, machine, files),
        Stage::Resolve(run, built) => lemma_left_by_resolving(start, run, machine, files, built),
        Stage::Done(_) => {},
    }
}

proof fn lemma_left(
    suite: Suite,
    around: Surroundings,
    stages: Seq<Stage>,
    machine: Machine,
    scans: Scans,
    files: Files,
    at: int,
)
    requires
        is_run_on(suite, around, stages, machine, scans, files),
        judged(machine, run::begun(suite, around).layout) matches Some(built) ==> is_plain(
            run::begun(suite, around),
            built,
        ),
        share_no_golden(suite),
        0 <= at < stages.len(),
    ensures
        is_left(
            run::begun(suite, around),
            machine,
            files_after(files, stages, at),
            stages[at],
        ),
    decreases at,
{
    let start = run::begun(suite, around);
    if at > 0 {
        lemma_left(suite, around, stages, machine, scans, files, at - 1);
        lemma_is_run(suite, around, stages, machine, scans, files);
        law_every_stage_is_sound(suite, around, stages, at - 1);
        let held = files_after(files, stages, at - 1);
        assert(is_answered(machine, scans, held, stages[at - 1], stages[at]));
        lemma_left_by_a_step(start, machine, scans, held, stages[at - 1], stages[at]);
    }
}

// ---------------------------------------------------------------------------
// Where goldens are written.
// ---------------------------------------------------------------------------

pub(crate) proof fn lemma_encoding_joins(a: Seq<char>, b: Seq<char>)
    ensures
        encode_utf8(a + b) == encode_utf8(a) + encode_utf8(b),
    decreases a.len(),
{
    if a.len() == 0 {
        assert(a + b =~= b);
        assert(encode_utf8(a) =~= Seq::<u8>::empty());
        assert(encode_utf8(a) + encode_utf8(b) =~= encode_utf8(b));
    } else {
        lemma_encoding_joins(a.drop_first(), b);
        assert((a + b).drop_first() =~= a.drop_first() + b);
        assert(encode_utf8(a + b) =~= encode_utf8(a) + encode_utf8(b));
    }
}

proof fn lemma_golden_ends_in_r(fixture: Seq<Part>)
    ensures
        path::file_name(cases::golden_of(fixture)) matches Some(name) ==> name.len() != 0
            && name.last() == 0x72,
{
    reveal_strlit("stderr");
    is_ascii_chars_encode_utf8("stderr"@);
    let golden = cases::golden_of(fixture);
    if let Some(name) = path::file_name(fixture) {
        let shown = path::renamed(name, encode_utf8("stderr"@));
        assert(golden.last() == Part::Normal(shown));
        assert(shown.last() == encode_utf8("stderr"@).last());
    }
}

/// No file of the scratch project is a golden.
proof fn lemma_staging_writes_no_golden(run: Progress, act: Act, files: Files, fixture: Seq<Part>)
    requires
        act !is Golden,
    ensures
        done(files, run::chore(run, act))[cases::golden_of(fixture)] == files[cases::golden_of(
            fixture,
        )],
{
    let golden = cases::golden_of(fixture);
    lemma_golden_ends_in_r(fixture);
    reveal_strlit(".rs");
    reveal_strlit("Cargo.toml");
    reveal_strlit("Cargo.lock");
    is_ascii_chars_encode_utf8(".rs"@);
    is_ascii_chars_encode_utf8("Cargo.toml"@);
    is_ascii_chars_encode_utf8("Cargo.lock"@);
    match act {
        Act::Fixture(at, _) => {
            let bin = run.suite.cases[at as int].bin;
            lemma_encoding_joins(bin, ".rs"@);
            let name = encode_utf8(bin + ".rs"@);
            assert(name.last() == encode_utf8(".rs"@).last());
            assert(run::staged_at(run, at).last() == Part::Normal(name));
            assert(path::file_name(run::staged_at(run, at)) == Some(name));
        },
        Act::Manifest => {
            assert(path::file_name(run::manifest_of(run.layout)) == Some(
                encode_utf8("Cargo.toml"@),
            ));
        },
        Act::Lockfile(_) => {
            assert(path::file_name(run::lockfile_of(run.layout)) == Some(
                encode_utf8("Cargo.lock"@),
            ));
        },
        _ => {},
    }
}

/// A golden is no fixture.
proof fn lemma_golden_is_no_fixture(fixture: Seq<Part>)
    ensures
        !is_named(cases::golden_of(fixture), "rs"@),
{
    let golden = cases::golden_of(fixture);
    lemma_golden_ends_in_r(fixture);
    reveal_strlit("rs");
    is_ascii_chars_encode_utf8("rs"@);
    if is_named(golden, "rs"@) {
        let name = path::file_name(golden)->0;
        let at = path::extension_at(name)->0;
        lemma_last_dot(name);
        assert(name.skip(at + 1).last() == name.last());
    }
}

// ---------------------------------------------------------------------------
// What is in the registered directories.
// ---------------------------------------------------------------------------

/// `found` was among `earlier`.
pub open spec fn was_there(earlier: Seq<Found>, found: Found) -> bool {
    exists|i: int|
        0 <= i < earlier.len() && (#[trigger] earlier[i]).name@ == found.name@ && earlier[i].what
            == found.what
}

/// A directory that could be listed to its end still can be, and shows nothing
/// that was not there but goldens of registered fixtures.
pub open spec fn shows_only_more_goldens(
    suite: Suite,
    directory: Seq<Part>,
    earlier: Scan,
    later: Scan,
) -> bool {
    earlier matches Scan::Entries(before, None) ==> (later matches Scan::Entries(after, None)
        && forall|i: int|
        0 <= i < after@.len() ==> was_there(before@, #[trigger] after@[i]) || (after@[i].what
            is File && run::is_claimed(suite, directory.push(Part::Normal(after@[i].name@)))))
}

/// One of `seen` lists the directory at `path`.
spec fn was_listed(seen: Seq<Stage>, path: Seq<Part>) -> bool {
    exists|i: int| 0 <= i < seen.len() && lists(#[trigger] seen[i], path)
}

/// What is at `path` is accounted for.
spec fn is_known(suite: Suite, seen: Seq<Stage>, path: Seq<Part>, what: What) -> bool {
    match what {
        What::Unknown(_) => false,
        What::Directory => suite.directories.contains(path) || was_listed(seen, path),
        What::File => {
            &&& !is_forgotten(suite, path)
            &&& is_stray(suite, path) ==> is_excused(suite, path)
        },
        What::Other => true,
    }
}

/// The fixture the golden at `path` belongs to was refused.
spec fn is_excused(suite: Suite, path: Seq<Part>) -> bool {
    suite.refused_fixtures.contains(path::with_extension(path, encode_utf8("rs"@)))
}

proof fn lemma_one_known(
    suite: Suite,
    around: Surroundings,
    stages: Seq<Stage>,
    at: int,
    scan: Scan,
    found: Found,
)
    requires
        is_run(suite, around, stages),
        stages.last() is Done,
        outcome::succeeded(stages.last()->Done_0),
        0 <= at < stages.len() - 1,
        stages[at] is List,
        stages[at + 1] == run::after_list(stages[at]->List_0, scan),
        holds(scan, found),
    ensures
        is_known(suite, stages, place(stages[at]->List_0, found), found.what),
{
    let end = stages.len() - 1;
    let path = place(stages[at]->List_0, found);
    match found.what {
        What::Unknown(_) => {
            law_an_entry_that_cannot_be_told_fails_the_run(
                suite,
                around,
                stages,
                at,
                scan,
                found,
                end,
            );
        },
        What::Directory => if !suite.directories.contains(path) {
            law_every_directory_below_is_looked_through(
                suite,
                around,
                stages,
                at,
                scan,
                found,
                end,
            );
        },
        What::File => {
            if is_forgotten(suite, path) {
                law_a_forgotten_fixture_fails_the_run(suite, around, stages, at, scan, found, end);
            }
            if is_stray(suite, path) && !is_excused(suite, path) {
                law_a_stray_golden_fails_the_run(suite, around, stages, at, scan, found, end);
            }
        },
        What::Other => {},
    }
}

/// Whatever is in `directory` is accounted for.
spec fn all_known(suite: Suite, seen: Seq<Stage>, directory: Seq<Part>, all: Seq<Found>) -> bool {
    forall|i: int|
        0 <= i < all.len() ==> is_known(
            suite,
            seen,
            directory.push(Part::Normal((#[trigger] all[i]).name@)),
            all[i].what,
        )
}

proof fn lemma_listed(
    suite: Suite,
    around: Surroundings,
    stages: Seq<Stage>,
    machine: Machine,
    scans: Scans,
    files: Files,
    at: int,
)
    requires
        is_run_on(suite, around, stages, machine, scans, files),
        0 <= at < stages.len() - 1,
        stages[at] is List,
    ensures
        stages[at + 1] == run::after_list(
            stages[at]->List_0,
            scans[stages[at]->List_0.current],
        ),
{
    let next = at + 1;
    let held = files_after(files, stages, next - 1);
    assert(is_answered(machine, scans, held, stages[next - 1], stages[next]));
}

proof fn lemma_known_at(
    suite: Suite,
    around: Surroundings,
    stages: Seq<Stage>,
    at: int,
    scan: Scan,
)
    requires
        is_run(suite, around, stages),
        stages.last() is Done,
        outcome::succeeded(stages.last()->Done_0),
        0 <= at < stages.len() - 1,
        stages[at] is List,
        stages[at + 1] == run::after_list(stages[at]->List_0, scan),
    ensures
        scan is Entries,
        scan->Entries_1 is None,
        all_known(suite, stages, stages[at]->List_0.current, scan->Entries_0@),
{
    if scan is Unreadable || scan->Entries_1 is Some {
        law_a_directory_that_cannot_be_read_fails_the_run(
            suite,
            around,
            stages,
            at,
            scan,
            stages.len() - 1,
        );
    }
    let directory = stages[at]->List_0.current;
    let entries = scan->Entries_0@;
    assert forall|i: int| 0 <= i < entries.len() implies is_known(
        suite,
        stages,
        directory.push(Part::Normal((#[trigger] entries[i]).name@)),
        entries[i].what,
    ) by {
        assert(entries.contains(entries[i]));
        lemma_one_known(suite, around, stages, at, scan, entries[i]);
    }
}

proof fn lemma_listed_known(
    suite: Suite,
    around: Surroundings,
    stages: Seq<Stage>,
    machine: Machine,
    scans: Scans,
    files: Files,
    at: int,
)
    requires
        is_run_on(suite, around, stages, machine, scans, files),
        stages.last() is Done,
        outcome::succeeded(stages.last()->Done_0),
        0 <= at < stages.len(),
        stages[at] is List,
    ensures
        ({
            let directory = stages[at]->List_0.current;
            &&& scans[directory] is Entries
            &&& scans[directory]->Entries_1 is None
            &&& all_known(suite, stages, directory, scans[directory]->Entries_0@)
        }),
{
    lemma_is_run(suite, around, stages, machine, scans, files);
    lemma_listed(suite, around, stages, machine, scans, files, at);
    lemma_known_at(suite, around, stages, at, scans[stages[at]->List_0.current]);
}

/// Whatever a run that succeeded found is accounted for.
proof fn lemma_known(
    suite: Suite,
    around: Surroundings,
    stages: Seq<Stage>,
    machine: Machine,
    scans: Scans,
    files: Files,
    directory: Seq<Part>,
)
    requires
        is_run_on(suite, around, stages, machine, scans, files),
        stages.last() is Done,
        outcome::succeeded(stages.last()->Done_0),
        was_listed(stages, directory),
    ensures
        scans[directory] is Entries,
        scans[directory]->Entries_1 is None,
        all_known(suite, stages, directory, scans[directory]->Entries_0@),
{
    let at = choose|i: int| 0 <= i < stages.len() && lists(#[trigger] stages[i], directory);
    lemma_listed_known(suite, around, stages, machine, scans, files, at);
}

// ---------------------------------------------------------------------------
// The run after it.
// ---------------------------------------------------------------------------

/// A walk that has come across nothing that is not accounted for.
spec fn is_familiar(suite: Suite, seen: Seq<Stage>, walk: Walk) -> bool {
    &&& walk.run.suite == suite
    &&& walk.run.setup.len() == 0
    &&& was_listed(seen, walk.current)
    &&& forall|i: int|
        0 <= i < walk.pending.len() ==> was_listed(seen, #[trigger] walk.pending[i])
    &&& walk.unregistered.len() == 0
    &&& forall|i: int|
        0 <= i < walk.orphans.len() ==> is_excused(suite, #[trigger] walk.orphans[i])
}

proof fn lemma_one_more_familiar(suite: Suite, seen: Seq<Stage>, walk: Walk, found: Found)
    requires
        is_familiar(suite, seen, walk),
        is_known(suite, seen, place(walk, found), found.what),
    ensures
        is_familiar(suite, seen, run::noted(walk, found)),
        run::noted(walk, found).current == walk.current,
{
    let path = place(walk, found);
    let next = run::noted(walk, found);
    assert forall|i: int| 0 <= i < next.pending.len() implies was_listed(
        seen,
        #[trigger] next.pending[i],
    ) by {
        if i < walk.pending.len() {
            assert(next.pending[i] == walk.pending[i]);
        }
    }
    assert forall|i: int| 0 <= i < next.orphans.len() implies is_excused(
        suite,
        #[trigger] next.orphans[i],
    ) by {
        if i < walk.orphans.len() {
            assert(next.orphans[i] == walk.orphans[i]);
        }
    }
}

proof fn lemma_all_familiar(suite: Suite, seen: Seq<Stage>, walk: Walk, all: Seq<Found>)
    requires
        is_familiar(suite, seen, walk),
        all_known(suite, seen, walk.current, all),
    ensures
        is_familiar(suite, seen, run::all_noted(walk, all)),
        run::all_noted(walk, all).current == walk.current,
    decreases all.len(),
{
    if all.len() != 0 {
        let rest = all.drop_last();
        assert forall|i: int| 0 <= i < rest.len() implies is_known(
            suite,
            seen,
            walk.current.push(Part::Normal((#[trigger] rest[i]).name@)),
            rest[i].what,
        ) by {
            assert(rest[i] == all[i]);
        }
        lemma_all_familiar(suite, seen, walk, rest);
        let before = run::all_noted(walk, rest);
        assert(all[all.len() - 1] == all.last());
        assert(is_known(suite, seen, place(before, all.last()), all.last().what));
        lemma_one_more_familiar(suite, seen, before, all.last());
    }
}

proof fn lemma_excused_orphans_are_none(
    suite: Suite,
    orphans: Seq<Seq<Part>>,
    unregistered: Seq<Seq<Part>>,
)
    requires
        forall|i: int| 0 <= i < orphans.len() ==> is_excused(suite, #[trigger] orphans[i]),
    ensures
        run::true_orphans(orphans, unregistered, suite.refused_fixtures).len() == 0,
    decreases orphans.len(),
{
    if orphans.len() != 0 {
        let rest = orphans.drop_last();
        assert forall|i: int| 0 <= i < rest.len() implies is_excused(
            suite,
            #[trigger] rest[i],
        ) by {
            assert(rest[i] == orphans[i]);
        }
        lemma_excused_orphans_are_none(suite, rest, unregistered);
        assert(is_excused(suite, orphans[orphans.len() - 1]));
    }
}

proof fn lemma_nothing_found(suite: Suite, seen: Seq<Stage>, walk: Walk)
    requires
        is_familiar(suite, seen, walk),
    ensures
        run::findings(walk).len() == 0,
{
    lemma_excused_orphans_are_none(suite, walk.orphans, walk.unregistered);
    let goldens = run::true_orphans(walk.orphans, walk.unregistered, suite.refused_fixtures);
    assert(path::sorted(Order::Path, goldens).len() == 0);
}

/// What listing a directory shows is accounted for where it shows nothing new
/// but goldens of registered fixtures.
proof fn lemma_still_known(
    suite: Suite,
    seen: Seq<Stage>,
    directory: Seq<Part>,
    before: Seq<Found>,
    after: Seq<Found>,
)
    requires
        all_known(suite, seen, directory, before),
        forall|i: int|
            0 <= i < after.len() ==> was_there(before, #[trigger] after[i]) || (after[i].what
                is File && run::is_claimed(suite, directory.push(Part::Normal(after[i].name@)))),
    ensures
        all_known(suite, seen, directory, after),
{
    assert forall|i: int| 0 <= i < after.len() implies is_known(
        suite,
        seen,
        directory.push(Part::Normal((#[trigger] after[i]).name@)),
        after[i].what,
    ) by {
        let path = directory.push(Part::Normal(after[i].name@));
        if was_there(before, after[i]) {
            let k = choose|k: int|
                0 <= k < before.len() && (#[trigger] before[k]).name@ == after[i].name@
                    && before[k].what == after[i].what;
            assert(is_known(
                suite,
                seen,
                directory.push(Part::Normal(before[k].name@)),
                before[k].what,
            ));
        } else {
            let k = choose|k: int|
                0 <= k < suite.cases.len() && (#[trigger] suite.cases[k]).kind
                    == Kind::CompileFail && cases::golden_of(suite.cases[k].absolute) == path;
            lemma_golden_is_no_fixture(suite.cases[k].absolute);
        }
    }
}

/// What is known of a checking run by `stage`, where `seen` are the stages of the
/// run before it.
spec fn is_on_course(
    start: Progress,
    machine: Machine,
    seen: Seq<Stage>,
    files: Files,
    stage: Stage,
) -> bool {
    &&& is_ready(start, machine, files)
    &&& setup_of(stage).len() == 0
    &&& match stage {
        Stage::List(walk) => is_familiar(start.suite, seen, walk),
        Stage::Do(_, act) => act !is Golden,
        Stage::Read(_, Need::Lockfile(path)) => machine.lockfile matches Ok(Some(found))
            && found@ == path,
        Stage::Read(_, Need::Golden(tally)) => {
            &&& judged(machine, start.layout) == Some(tally.built)
            &&& none_failed(tally.verdicts)
        },
        Stage::Resolve(_, built) => is_resolved(machine, start.layout, built),
        Stage::Done(summary) => outcome::succeeded(summary),
        _ => true,
    }
}

/// Every fixture held up.
spec fn none_failed(verdicts: Seq<Verdict>) -> bool {
    forall|i: int| 0 <= i < verdicts.len() ==> (#[trigger] verdicts[i]).failure is None
}

/// Every registered directory was listed, and there is something to check.
spec fn is_covered(suite: Suite, seen: Seq<Stage>) -> bool {
    &&& suite.cases.len() != 0
    &&& forall|i: int|
        0 <= i < suite.directories.len() ==> was_listed(seen, #[trigger] suite.directories[i])
}

proof fn lemma_on_course_looking(
    start: Progress,
    run: Progress,
    machine: Machine,
    seen: Seq<Stage>,
    files: Files,
    at: nat,
)
    requires
        run.suite == start.suite,
        run.setup.len() == 0,
        is_ready(start, machine, files),
        is_covered(start.suite, seen),
    ensures
        is_on_course(start, machine, seen, files, run::looking(run, at)),
{
    if at < run.suite.directories.len() {
        assert(was_listed(seen, start.suite.directories[at as int]));
    }
}

proof fn lemma_on_course_listing(
    start: Progress,
    machine: Machine,
    seen: Seq<Stage>,
    files: Files,
    walk: Walk,
    scan: Scan,
)
    requires
        is_familiar(start.suite, seen, walk),
        is_ready(start, machine, files),
        is_covered(start.suite, seen),
        scan is Entries,
        scan->Entries_1 is None,
        all_known(start.suite, seen, walk.current, scan->Entries_0@),
    ensures
        is_on_course(start, machine, seen, files, run::after_list(walk, scan)),
{
    let next = run::scanned(walk, scan);
    lemma_all_familiar(start.suite, seen, walk, scan->Entries_0@);
    assert(is_familiar(start.suite, seen, next));
    if next.pending.len() != 0 {
        let after = Walk {
            current: next.pending.last(),
            pending: next.pending.drop_last(),
            ..next
        };
        assert(was_listed(seen, next.pending[next.pending.len() - 1]));
        assert forall|i: int| 0 <= i < after.pending.len() implies was_listed(
            seen,
            #[trigger] after.pending[i],
        ) by {
            assert(after.pending[i] == next.pending[i]);
        }
        assert(is_familiar(start.suite, seen, after));
    } else {
        lemma_nothing_found(start.suite, seen, next);
        let run = Progress { setup: next.run.setup + run::findings(next), ..next.run };
        lemma_on_course_looking(start, run, machine, seen, files, next.at + 1);
    }
}

proof fn lemma_on_course_checking(
    start: Progress,
    run: Progress,
    machine: Machine,
    seen: Seq<Stage>,
    files: Files,
    built: Built,
    verdicts: Seq<Verdict>,
    blessed: Seq<Seq<Part>>,
)
    requires
        continues(start, run),
        run.setup.len() == 0,
        is_ready(start, machine, files),
        judged(machine, start.layout) == Some(built),
        none_failed(verdicts),
    ensures
        is_on_course(start, machine, seen, files, run::checking(run, built, verdicts, blessed)),
    decreases run.suite.cases.len() - verdicts.len(),
{
    if verdicts.len() < run.suite.cases.len() {
        let case = run.suite.cases[verdicts.len() as int];
        law_a_golden_is_about_its_own_fixture(start, run, built, case);
        assert(is_accepted(start, built, files, start.suite.cases[verdicts.len() as int]));
        if let Judgement::Settled(failure) = run::judgement(run, built, case) {
            let next = verdicts.push(run::verdict(run.suite, case, failure));
            lemma_on_course_checking(start, run, machine, seen, files, built, next, blessed);
        }
    }
}

proof fn lemma_on_course_reading(
    start: Progress,
    run: Progress,
    machine: Machine,
    seen: Seq<Stage>,
    files: Files,
    need: Need,
    contents: Contents,
)
    requires
        !start.bless,
        is_sound(start, Stage::Read(run, need)),
        is_on_course(start, machine, seen, files, Stage::Read(run, need)),
        held(contents) == files[run::needed(run, need)],
    ensures
        is_on_course(start, machine, seen, files, run::after_read(run, need, contents)),
{
    match need {
        Need::Fixture(at) => {
            assert(files[start.suite.cases[at as int].absolute] is Text);
        },
        Need::Lockfile(_) => {},
        Need::Golden(tally) => {
            let case = run::case_of(run, tally);
            law_a_golden_is_about_its_own_fixture(start, run, tally.built, case);
            assert(is_accepted(
                start,
                tally.built,
                files,
                start.suite.cases[tally.verdicts.len() as int],
            ));
            assert(run::comparison(run, tally, contents) is None);
            let next = tally.verdicts.push(run::verdict(run.suite, case, None));
            lemma_on_course_checking(
                start,
                run,
                machine,
                seen,
                files,
                tally.built,
                next,
                tally.blessed,
            );
        },
    }
}

proof fn lemma_on_course_doing(
    start: Progress,
    run: Progress,
    machine: Machine,
    seen: Seq<Stage>,
    files: Files,
    act: Act,
)
    requires
        is_sound(start, Stage::Do(run, act)),
        is_on_course(start, machine, seen, files, Stage::Do(run, act)),
    ensures
        is_on_course(
            start,
            machine,
            seen,
            done(files, run::chore(run, act)),
            run::after_success(run, act),
        ),
{
    let next = done(files, run::chore(run, act));
    let built = judged(machine, start.layout)->0;
    lemma_written_stays_readable(
        start.suite,
        machine,
        files,
        run::chore(run, act),
        start.suite.cases.len() as int,
    );
    assert forall|i: int| 0 <= i < start.suite.cases.len() implies is_accepted(
        start,
        built,
        next,
        #[trigger] start.suite.cases[i],
    ) by {
        lemma_staging_writes_no_golden(run, act, files, start.suite.cases[i].absolute);
        assert(is_accepted(start, built, files, start.suite.cases[i]));
    }
}

proof fn lemma_on_course_building(
    start: Progress,
    run: Progress,
    machine: Machine,
    seen: Seq<Stage>,
    files: Files,
)
    requires
        continues(start, run),
        run.setup.len() == 0,
        is_ready(start, machine, files),
    ensures
        is_on_course(start, machine, seen, files, run::after_build(run, machine.output)),
{
    let built = judged(machine, start.layout)->0;
    if !(built.is_detached() && built.other_manifests.len() != 0) {
        lemma_on_course_checking(start, run, machine, seen, files, built, seq![], seq![]);
    }
}

proof fn lemma_on_course_step(
    start: Progress,
    machine: Machine,
    seen: Seq<Stage>,
    scans: Scans,
    files: Files,
    before: Stage,
    after: Stage,
)
    requires
        !start.bless,
        is_covered(start.suite, seen),
        is_sound(start, before),
        is_on_course(start, machine, seen, files, before),
        is_answered(machine, scans, files, before, after),
        before matches Stage::Do(run, act) ==> after == run::after_success(run, act),
        before matches Stage::List(walk) ==> {
            &&& scans[walk.current] is Entries
            &&& scans[walk.current]->Entries_1 is None
            &&& all_known(start.suite, seen, walk.current, scans[walk.current]->Entries_0@)
        },
    ensures
        is_on_course(start, machine, seen, changed(files, before, after), after),
{
    match before {
        Stage::List(walk) => {
            lemma_on_course_listing(start, machine, seen, files, walk, scans[walk.current]);
        },
        Stage::Do(run, act) => lemma_on_course_doing(start, run, machine, seen, files, act),
        Stage::Read(run, need) => {
            let contents = choose|contents: Contents|
                held(contents) == files[run::needed(run, need)] && after
                    == #[trigger] run::after_read(run, need, contents);
            lemma_on_course_reading(start, run, machine, seen, files, need, contents);
        },
        Stage::Find(_) => {},
        Stage::Build(run) => lemma_on_course_building(start, run, machine, seen, files),
        Stage::Resolve(run, built) => {
            lemma_on_course_checking(start, run, machine, seen, files, built, seq![], seq![]);
        },
        Stage::Done(_) => {},
    }
}

/// What a run that succeeded leaves is what a run after it starts from.
proof fn lemma_ready(
    suite: Suite,
    around: Surroundings,
    stages: Seq<Stage>,
    machine: Machine,
    scans: Scans,
    files: Files,
    next: Progress,
)
    requires
        is_run_on(suite, around, stages, machine, scans, files),
        stages.last() is Done,
        outcome::succeeded(stages.last()->Done_0),
        judged(machine, run::begun(suite, around).layout) matches Some(built) ==> is_plain(
            run::begun(suite, around),
            built,
        ),
        share_no_golden(suite),
        next == (Progress { suite: next.suite, bless: next.bless, ..run::begun(suite, around) }),
        next.suite == (Suite { overwrite: next.suite.overwrite, ..suite }),
    ensures
        is_ready(next, machine, files_after(files, stages, stages.len() - 1)),
        next.setup.len() == 0,
        is_covered(next.suite, stages),
{
    let start = run::begun(suite, around);
    let end = stages.len() - 1;
    let held = files_after(files, stages, end);
    lemma_left(suite, around, stages, machine, scans, files, end);
    assert(is_ready(start, machine, held));
    let built = judged(machine, start.layout)->0;
    assert forall|i: int| 0 <= i < next.suite.cases.len() implies is_accepted(
        next,
        built,
        held,
        #[trigger] next.suite.cases[i],
    ) by {
        law_a_golden_is_about_its_own_fixture(start, next, built, suite.cases[i]);
        assert(is_accepted(start, built, held, start.suite.cases[i]));
    }
    assert(are_readable(next.suite, held, next.suite.cases.len() as int));
    lemma_is_run(suite, around, stages, machine, scans, files);
    law_every_stage_is_sound(suite, around, stages, end);
    assert(grown(suite.setup, stages[end]->Done_0.setup));
    if suite.cases.len() == 0 {
        law_a_suite_that_asserts_nothing_does_not_succeed(suite, around, stages, end);
    }
    assert forall|i: int| 0 <= i < suite.directories.len() implies was_listed(
        stages,
        #[trigger] suite.directories[i],
    ) by {
        law_every_registered_directory_is_looked_through(suite, around, stages, end, i);
    }
}

proof fn lemma_on_course(
    suite: Suite,
    around: Surroundings,
    stages: Seq<Stage>,
    machine: Machine,
    seen: Seq<Stage>,
    scans: Scans,
    files: Files,
    at: int,
)
    requires
        is_run_on(suite, around, stages, machine, scans, files),
        !run::begun(suite, around).bless,
        suite.setup.len() == 0,
        is_ready(run::begun(suite, around), machine, files),
        is_covered(suite, seen),
        nothing_failed(stages),
        forall|directory: Seq<Part>| #[trigger]
            was_listed(seen, directory) ==> scans[directory] is Entries
                && scans[directory]->Entries_1 is None && all_known(
                suite,
                seen,
                directory,
                scans[directory]->Entries_0@,
            ),
        0 <= at < stages.len(),
    ensures
        is_on_course(
            run::begun(suite, around),
            machine,
            seen,
            files_after(files, stages, at),
            stages[at],
        ),
    decreases at,
{
    let start = run::begun(suite, around);
    if at == 0 {
        lemma_on_course_looking(start, start, machine, seen, files, 0);
    } else {
        lemma_on_course(suite, around, stages, machine, seen, scans, files, at - 1);
        lemma_is_run(suite, around, stages, machine, scans, files);
        law_every_stage_is_sound(suite, around, stages, at - 1);
        let held = files_after(files, stages, at - 1);
        assert(is_answered(machine, scans, held, stages[at - 1], stages[at]));
        lemma_on_course_step(start, machine, seen, scans, held, stages[at - 1], stages[at]);
    }
}

/// The round trip. After a run that succeeded, a run that does not bless succeeds
/// too, in every mode, where it finds the files as the first run left them and
/// the machine says the same: the same build, the same lockfile, and in the
/// registered directories nothing that was not there but goldens of registered
/// fixtures. So whatever a blessing run accepted, it wrote down in a way that a
/// checking run accepts, fixture by fixture and as a whole.
///
/// Two fixtures with one golden are left out: it cannot hold what the compiler
/// says of both. So are, in `Exact`, blessed diagnostics with two carriage returns
/// before a line feed: what is compared of them is not what is compared of
/// itself.
pub proof fn law_after_a_run_that_succeeded_a_checking_run_succeeds(
    suite: Suite,
    around: Surroundings,
    first: Seq<Stage>,
    again: Suite,
    afterwards: Surroundings,
    second: Seq<Stage>,
    machine: Machine,
    scans: Scans,
    later: Scans,
    files: Files,
)
    requires
        is_run_on(suite, around, first, machine, scans, files),
        first.last() is Done,
        outcome::succeeded(first.last()->Done_0),
        again == (Suite { overwrite: again.overwrite, ..suite }),
        afterwards == (Surroundings { overwrite: afterwards.overwrite, ..around }),
        !cases::blesses(again.overwrite, run::optional_text(afterwards.overwrite)),
        is_run_on(
            again,
            afterwards,
            second,
            machine,
            later,
            files_after(files, first, first.len() - 1),
        ),
        second.last() is Done,
        nothing_failed(second),
        forall|directory: Seq<Part>|
            shows_only_more_goldens(
                suite,
                directory,
                scans[directory],
                #[trigger] later[directory],
            ),
        share_no_golden(suite),
        judged(machine, run::begun(suite, around).layout) matches Some(built) ==> is_plain(
            run::begun(suite, around),
            built,
        ),
    ensures
        outcome::succeeded(second.last()->Done_0),
{
    let next = run::begun(again, afterwards);
    let held = files_after(files, first, first.len() - 1);
    lemma_ready(suite, around, first, machine, scans, files, next);
    assert forall|directory: Seq<Part>| #[trigger] was_listed(first, directory) implies
        later[directory] is Entries && later[directory]->Entries_1 is None && all_known(
        again,
        first,
        directory,
        later[directory]->Entries_0@,
    ) by {
        lemma_known(suite, around, first, machine, scans, files, directory);
        assert(shows_only_more_goldens(suite, directory, scans[directory], later[directory]));
        lemma_still_known(
            suite,
            first,
            directory,
            scans[directory]->Entries_0@,
            later[directory]->Entries_0@,
        );
        lemma_known_either_way(suite, again, first, directory, later[directory]->Entries_0@);
    }
    lemma_on_course(
        again,
        afterwards,
        second,
        machine,
        first,
        later,
        held,
        second.len() - 1,
    );
}

proof fn lemma_known_either_way(
    suite: Suite,
    again: Suite,
    seen: Seq<Stage>,
    directory: Seq<Part>,
    all: Seq<Found>,
)
    requires
        again == (Suite { overwrite: again.overwrite, ..suite }),
        all_known(suite, seen, directory, all),
    ensures
        all_known(again, seen, directory, all),
{
    assert forall|i: int| 0 <= i < all.len() implies is_known(
        again,
        seen,
        directory.push(Part::Normal((#[trigger] all[i]).name@)),
        all[i].what,
    ) by {
        assert(is_known(
            suite,
            seen,
            directory.push(Part::Normal(all[i].name@)),
            all[i].what,
        ));
    }
}

/// The round trip, whatever the compiler says, wherever no fixture with a golden and
/// no dependency has a line feed in its name.
pub proof fn law_a_checking_run_succeeds_under_ordinary_names(
    suite: Suite,
    around: Surroundings,
    first: Seq<Stage>,
    again: Suite,
    afterwards: Surroundings,
    second: Seq<Stage>,
    machine: Machine,
    scans: Scans,
    later: Scans,
    files: Files,
)
    requires
        is_run_on(suite, around, first, machine, scans, files),
        first.last() is Done,
        outcome::succeeded(first.last()->Done_0),
        again == (Suite { overwrite: again.overwrite, ..suite }),
        afterwards == (Surroundings { overwrite: afterwards.overwrite, ..around }),
        !cases::blesses(again.overwrite, run::optional_text(afterwards.overwrite)),
        is_run_on(
            again,
            afterwards,
            second,
            machine,
            later,
            files_after(files, first, first.len() - 1),
        ),
        second.last() is Done,
        nothing_failed(second),
        forall|directory: Seq<Part>|
            shows_only_more_goldens(
                suite,
                directory,
                scans[directory],
                #[trigger] later[directory],
            ),
        share_no_golden(suite),
        forall|i: int|
            0 <= i < suite.cases.len() && (#[trigger] suite.cases[i]).kind == Kind::CompileFail
                ==> is_one_line(suite.cases[i].relative),
        have_plain_placeholders(suite.dependencies),
    ensures
        outcome::succeeded(second.last()->Done_0),
{
    let start = run::begun(suite, around);
    if let Some(built) = judged(machine, start.layout) {
        assert forall|i: int|
            0 <= i < start.suite.cases.len() && (#[trigger] start.suite.cases[i]).kind
                == Kind::CompileFail implies !text::contains(
            run::diagnostics_for(start, built, start.suite.cases[i]),
            seq!['\r', '\r', '\n'],
        ) by {
            let case = suite.cases[i];
            law_a_golden_is_made_of_lines(
                run::rules_for(start, case),
                compile::said_about(built, case.bin),
                case.relative,
            );
        }
    }
    law_after_a_run_that_succeeded_a_checking_run_succeeds(
        suite,
        around,
        first,
        again,
        afterwards,
        second,
        machine,
        scans,
        later,
        files,
    );
}

} // verus!
