//! What holds of every run, whatever came of what it asked for.

use vstd::prelude::*;
use vstd::utf8::*;

use crate::cases;
use crate::cases::{Registered, Suite};
use crate::compare;
use crate::compile::Built;
use crate::laws::compare::{
    law_filtering_twice_is_filtering_once, law_unified_endings_compare_the_same,
};
use crate::laws::normalize::{
    have_plain_placeholders, is_one_line, law_a_golden_is_made_of_lines,
};
use crate::outcome;
use crate::outcome::{Kind, Problem, Summary, Verdict};
use crate::path;
use crate::path::{Part, PathBuf};
use crate::run;
use crate::run::{
    Act, Contents, Found, Judgement, Need, Output, Progress, Scan, Stage, Surroundings, Tally,
    Walk, What,
};
use crate::text;

verus! {

// ---------------------------------------------------------------------------
// Runs.
// ---------------------------------------------------------------------------

/// `after` can come after `before`, whatever came of what was asked for.
pub open spec fn follows(before: Stage, after: Stage) -> bool {
    match before {
        Stage::List(walk) => exists|scan: Scan| after == #[trigger] run::after_list(walk, scan),
        Stage::Do(run, act) => after == run::after_success(run, act) || exists|message: Seq<char>|
            after == #[trigger] run::after_failure(run, act, message),
        Stage::Read(run, need) => exists|contents: Contents|
            after == #[trigger] run::after_read(run, need, contents),
        Stage::Find(run) => exists|found: Result<Option<PathBuf>, String>|
            after == #[trigger] run::after_find(run, found),
        Stage::Build(run) => exists|output: Result<Output, String>|
            after == #[trigger] run::after_build(run, output),
        Stage::Resolve(run, built) => exists|
            ours: Option<Seq<Part>>,
            theirs: Seq<Option<PathBuf>>,
        | after == #[trigger] run::after_resolve(run, built, ours, theirs),
        Stage::Done(_) => false,
    }
}

/// `stages` are the stages of a run of `suite`, from its beginning on.
pub open spec fn is_run(suite: Suite, around: Surroundings, stages: Seq<Stage>) -> bool {
    &&& stages.len() != 0
    &&& stages[0] == run::started(suite, around)
    &&& forall|i: int|
        0 < i < stages.len() ==> follows(stages[i - 1], #[trigger] stages[i])
}

/// `run` is `start`, with what has gone wrong since.
pub open spec fn continues(start: Progress, run: Progress) -> bool {
    &&& run == (Progress { setup: run.setup, ..start })
    &&& grown(start.setup, run.setup)
}

/// `later` is `earlier` with more behind it.
pub open spec fn grown<T>(earlier: Seq<T>, later: Seq<T>) -> bool {
    earlier.len() <= later.len() && later.take(earlier.len() as int) == earlier
}

/// There is something to build, and nothing that stands in the way of it.
pub open spec fn may_build(run: Progress) -> bool {
    run.suite.cases.len() != 0 && !run::is_refused(run.setup)
}

/// `verdict` is one `built` can come to for `case`: where the build alone settles
/// it, exactly what it settles.
pub open spec fn is_earned(
    run: Progress,
    built: Built,
    case: Registered,
    verdict: Verdict,
) -> bool {
    &&& verdict.path == run::reported_path(run.suite, case)
    &&& verdict.kind == case.kind
    &&& match run::judgement(run, built, case) {
        Judgement::Settled(failure) => verdict.failure == failure,
        Judgement::Compare(_) => true,
    }
}

/// Each of `verdicts` is one `built` can come to for the case at its place.
pub open spec fn are_earned(run: Progress, built: Built, verdicts: Seq<Verdict>) -> bool {
    &&& verdicts.len() <= run.suite.cases.len()
    &&& forall|i: int|
        0 <= i < verdicts.len() ==> is_earned(
            run,
            built,
            run.suite.cases[i],
            #[trigger] verdicts[i],
        )
}

/// A tally that has come to a fixture that its golden decides.
pub open spec fn is_open(run: Progress, tally: Tally) -> bool {
    &&& tally.verdicts.len() < run.suite.cases.len()
    &&& are_earned(run, tally.built, tally.verdicts)
    &&& run::judgement(run, tally.built, run::case_of(run, tally)) == Judgement::Compare(
        tally.actual,
    )
    &&& tally.blessed.len() != 0 ==> run.bless
}

/// What holds of every stage of a run that began as `start`.
pub open spec fn is_sound(start: Progress, stage: Stage) -> bool {
    match stage {
        Stage::List(walk) => continues(start, walk.run) && walk.at < start.suite.directories.len(),
        Stage::Do(run, act) => {
            &&& continues(start, run)
            &&& may_build(run)
            &&& match act {
                Act::Fixture(at, _) => at < run.suite.cases.len(),
                Act::Golden(tally) => is_open(run, tally) && run.bless,
                _ => true,
            }
        },
        Stage::Read(run, need) => {
            &&& continues(start, run)
            &&& may_build(run)
            &&& match need {
                Need::Fixture(at) => at < run.suite.cases.len(),
                Need::Golden(tally) => is_open(run, tally),
                _ => true,
            }
        },
        Stage::Find(run) => continues(start, run) && may_build(run),
        Stage::Build(run) => continues(start, run) && may_build(run),
        Stage::Resolve(run, _) => continues(start, run) && may_build(run),
        Stage::Done(summary) => {
            &&& grown(start.setup, summary.setup)
            &&& stopped_early(summary) || ran_through(start, summary)
        },
    }
}

/// The run ended without a verdict on any fixture, and says why.
pub open spec fn stopped_early(summary: Summary) -> bool {
    summary.setup.len() != 0 && summary.cases.len() == 0 && summary.blessed.len() == 0
}

/// The run came to a verdict on every fixture, from one build.
pub open spec fn ran_through(start: Progress, summary: Summary) -> bool {
    let run = Progress { setup: summary.setup, ..start };
    &&& may_build(run)
    &&& summary.cases.len() == start.suite.cases.len()
    &&& summary.blessed.len() != 0 ==> start.bless
    &&& exists|built: Built| are_earned(start, built, summary.cases)
}

proof fn lemma_grown<T>(a: Seq<T>, b: Seq<T>, more: Seq<T>)
    requires
        grown(a, b),
    ensures
        grown(a, b + more),
{
    assert((b + more).take(a.len() as int) =~= b.take(a.len() as int));
}

proof fn lemma_grown_push<T>(a: Seq<T>, b: Seq<T>, more: T)
    requires
        grown(a, b),
    ensures
        grown(a, b.push(more)),
{
    assert(b.push(more).take(a.len() as int) =~= b.take(a.len() as int));
}

proof fn lemma_refusal_stands(earlier: Seq<Problem>, later: Seq<Problem>)
    requires
        grown(earlier, later),
        run::is_refused(earlier),
    ensures
        run::is_refused(later),
{
    let i = choose|i: int| 0 <= i < earlier.len() && outcome::refuses(#[trigger] earlier[i]);
    assert(later[i] == later.take(earlier.len() as int)[i]);
    assert(outcome::refuses(later[i]));
}

/// What the build says of a fixture does not depend on what has gone wrong since
/// the run began.
proof fn lemma_judgement_is_the_builds(
    start: Progress,
    run: Progress,
    built: Built,
    case: Registered,
)
    requires
        continues(start, run),
    ensures
        run::judgement(start, built, case) == run::judgement(run, built, case),
{
}

proof fn lemma_checking(
    start: Progress,
    run: Progress,
    built: Built,
    verdicts: Seq<Verdict>,
    blessed: Seq<Seq<Part>>,
)
    requires
        continues(start, run),
        may_build(run),
        are_earned(run, built, verdicts),
        blessed.len() != 0 ==> run.bless,
    ensures
        is_sound(start, run::checking(run, built, verdicts, blessed)),
    decreases run.suite.cases.len() - verdicts.len(),
{
    if verdicts.len() >= run.suite.cases.len() {
        assert(Progress { setup: run.setup, ..start } == run);
        assert forall|i: int| 0 <= i < verdicts.len() implies is_earned(
            start,
            built,
            start.suite.cases[i],
            #[trigger] verdicts[i],
        ) by {
            assert(is_earned(run, built, run.suite.cases[i], verdicts[i]));
            lemma_judgement_is_the_builds(start, run, built, run.suite.cases[i]);
        }
        assert(are_earned(start, built, verdicts));
        let summary = Summary { setup: run.setup, cases: verdicts, blessed };
        assert(may_build(Progress { setup: summary.setup, ..start }));
        assert(are_earned(start, built, summary.cases));
        assert(summary.cases.len() == start.suite.cases.len());
        assert(summary.blessed.len() != 0 ==> start.bless);
        assert(ran_through(start, summary));
    } else {
        let case = run.suite.cases[verdicts.len() as int];
        match run::judgement(run, built, case) {
            Judgement::Settled(failure) => {
                let next = verdicts.push(run::verdict(run.suite, case, failure));
                lemma_one_more(run, built, verdicts, failure);
                lemma_checking(start, run, built, next, blessed);
            },
            Judgement::Compare(actual) => {
                assert(is_open(run, Tally { built, verdicts, blessed, actual }));
            },
        }
    }
}

proof fn lemma_one_more(
    run: Progress,
    built: Built,
    verdicts: Seq<Verdict>,
    failure: Option<Problem>,
)
    requires
        are_earned(run, built, verdicts),
        verdicts.len() < run.suite.cases.len(),
        match run::judgement(run, built, run.suite.cases[verdicts.len() as int]) {
            Judgement::Settled(settled) => settled == failure,
            Judgement::Compare(_) => true,
        },
    ensures
        are_earned(
            run,
            built,
            verdicts.push(
                run::verdict(run.suite, run.suite.cases[verdicts.len() as int], failure),
            ),
        ),
{
    let next = verdicts.push(
        run::verdict(run.suite, run.suite.cases[verdicts.len() as int], failure),
    );
    assert forall|i: int| 0 <= i < next.len() implies is_earned(
        run,
        built,
        run.suite.cases[i],
        #[trigger] next[i],
    ) by {
        if i < verdicts.len() {
            assert(next[i] == verdicts[i]);
        }
    }
}

proof fn lemma_settled(start: Progress, run: Progress, tally: Tally, failure: Option<Problem>)
    requires
        continues(start, run),
        may_build(run),
        is_open(run, tally),
    ensures
        is_sound(start, run::settled(run, tally, failure)),
{
    lemma_one_more(run, tally.built, tally.verdicts, failure);
    lemma_checking(
        start,
        run,
        tally.built,
        tally.verdicts.push(run::verdict(run.suite, run::case_of(run, tally), failure)),
        tally.blessed,
    );
}

proof fn lemma_stopped(start: Progress, run: Progress, problem: Problem)
    requires
        continues(start, run),
    ensures
        is_sound(start, run::stopped(run, problem)),
{
    lemma_grown_push(start.setup, run.setup, problem);
}

proof fn lemma_looking(start: Progress, run: Progress, at: nat)
    requires
        continues(start, run),
    ensures
        is_sound(start, run::looking(run, at)),
{
    if at >= run.suite.directories.len() && run.suite.cases.len() == 0 && run.setup.len() == 0 {
        assert(start.setup =~= Seq::<Problem>::empty());
        assert(seq![Problem::NothingRegistered].take(0) =~= start.setup);
    }
}

proof fn lemma_judging(start: Progress, run: Progress, built: Built)
    requires
        continues(start, run),
        may_build(run),
    ensures
        is_sound(start, run::judging(run, built)),
{
    match crate::compile::explanation(built) {
        Some(message) => lemma_stopped(start, run, Problem::Cargo { message }),
        None => lemma_checking(start, run, built, seq![], seq![]),
    }
}

proof fn lemma_noted(start: Progress, walk: Walk, found: Found)
    requires
        continues(start, walk.run),
    ensures
        continues(start, run::noted(walk, found).run),
        run::noted(walk, found).at == walk.at,
{
    if let What::Unknown(message) = found.what {
        let path = walk.current.push(Part::Normal(found.name@));
        lemma_grown_push(
            start.setup,
            walk.run.setup,
            cases::io_problem(
                "could not tell what "@ + run::shown_in(walk.run.suite, path) + " is"@,
                message@,
            ),
        );
    }
}

proof fn lemma_all_noted(start: Progress, walk: Walk, all: Seq<Found>)
    requires
        continues(start, walk.run),
    ensures
        continues(start, run::all_noted(walk, all).run),
        run::all_noted(walk, all).at == walk.at,
    decreases all.len(),
{
    if all.len() != 0 {
        lemma_all_noted(start, walk, all.drop_last());
        lemma_noted(start, run::all_noted(walk, all.drop_last()), all.last());
    }
}

proof fn lemma_scanned(start: Progress, walk: Walk, scan: Scan)
    requires
        continues(start, walk.run),
    ensures
        continues(start, run::scanned(walk, scan).run),
        run::scanned(walk, scan).at == walk.at,
{
    match scan {
        Scan::Unreadable(message) => {
            lemma_grown_push(
                start.setup,
                walk.run.setup,
                run::unchecked(walk, ""@, message@),
            );
        },
        Scan::Entries(entries, broken) => {
            lemma_all_noted(start, walk, entries@);
            if let Some(message) = broken {
                lemma_grown_push(
                    start.setup,
                    run::all_noted(walk, entries@).run.setup,
                    run::unchecked(walk, "an entry of "@, message@),
                );
            }
        },
    }
}

proof fn lemma_after_list(start: Progress, walk: Walk, scan: Scan)
    requires
        is_sound(start, Stage::List(walk)),
    ensures
        is_sound(start, run::after_list(walk, scan)),
{
    lemma_scanned(start, walk, scan);
    let next = run::scanned(walk, scan);
    if next.pending.len() == 0 {
        lemma_grown(start.setup, next.run.setup, run::findings(next));
        lemma_looking(
            start,
            Progress { setup: next.run.setup + run::findings(next), ..next.run },
            next.at + 1,
        );
    }
}

proof fn lemma_after_read(start: Progress, run: Progress, need: Need, contents: Contents)
    requires
        is_sound(start, Stage::Read(run, need)),
    ensures
        is_sound(start, run::after_read(run, need, contents)),
{
    match need {
        Need::Fixture(at) => {
            lemma_stopped(
                start,
                run,
                cases::io_problem(
                    "could not read the fixture "@ + run.suite.cases[at as int].relative,
                    run::unread(contents)->0,
                ),
            );
        },
        Need::Lockfile(path) => {
            lemma_stopped(
                start,
                run,
                cases::io_problem(
                    "could not read the host's lockfile "@ + path::native(path),
                    run::unread(contents)->0,
                ),
            );
        },
        Need::Golden(tally) => {
            lemma_settled(start, run, tally, run::comparison(run, tally, contents));
            lemma_settled(start, run, tally, None);
        },
    }
}

proof fn lemma_after_done(start: Progress, run: Progress, act: Act, message: Seq<char>)
    requires
        is_sound(start, Stage::Do(run, act)),
    ensures
        is_sound(start, run::after_success(run, act)),
        is_sound(start, run::after_failure(run, act, message)),
{
    match act {
        Act::Lock => {
            lemma_stopped(
                start,
                run,
                cases::io_problem(
                    "could not lock the scratch project at "@ + path::native(run.layout.root),
                    message,
                ),
            );
        },
        Act::CreateTarget => {
            lemma_stopped(
                start,
                run,
                cases::io_problem(
                    "could not create the scratch target directory at "@ + path::native(
                        run.layout.target,
                    ),
                    message,
                ),
            );
        },
        Act::Fixture(at, _) => {
            lemma_stopped(start, run, run::unwritten(run::staged_at(run, at), message));
        },
        Act::Manifest => {
            lemma_stopped(start, run, run::unwritten(run::manifest_of(run.layout), message));
        },
        Act::Lockfile(_) => {
            lemma_stopped(start, run, run::unwritten(run::lockfile_of(run.layout), message));
        },
        Act::Golden(tally) => {
            let written = Tally {
                blessed: tally.blessed.push(run::golden_in_report(run, tally)),
                ..tally
            };
            lemma_settled(start, run, written, None);
            lemma_settled(
                start,
                run,
                tally,
                Some(
                    cases::io_problem(
                        "could not write the golden "@ + path::shown(
                            run::golden_in_report(run, tally),
                        ),
                        message,
                    ),
                ),
            );
        },
    }
}

proof fn lemma_after_build(start: Progress, run: Progress, output: Result<Output, String>)
    requires
        is_sound(start, Stage::Build(run)),
    ensures
        is_sound(start, run::after_build(run, output)),
{
    match output {
        Ok(output) => {
            let (built, _) = crate::compile::ingested(
                crate::compile::unread(output.stderr@),
                text::lines(output.stdout@),
                run::manifest_of(run.layout),
            );
            lemma_stopped(
                start,
                run,
                cases::io_problem(
                    "could not run cargo for the scratch project"@,
                    crate::compile::BROKEN_MESSAGE@,
                ),
            );
            lemma_stopped(
                start,
                run,
                Problem::Cargo { message: text::trim_end(built.stderr) },
            );
            lemma_judging(start, run, built);
        },
        Err(message) => {
            lemma_stopped(
                start,
                run,
                cases::io_problem("could not run cargo for the scratch project"@, message@),
            );
        },
    }
}

proof fn lemma_after_resolve(
    start: Progress,
    run: Progress,
    built: Built,
    ours: Option<Seq<Part>>,
    theirs: Seq<Option<PathBuf>>,
)
    requires
        is_sound(start, Stage::Resolve(run, built)),
    ensures
        is_sound(start, run::after_resolve(run, built, ours, theirs)),
{
    match crate::compile::misspelled(built, ours, theirs) {
        Some(spelling) => lemma_stopped(
            start,
            run,
            Problem::ManifestMismatch {
                handed: run::manifest_of(run.layout),
                reported: path::spelled_like(
                    encode_utf8(spelling),
                    run::manifest_of(run.layout),
                ),
            },
        ),
        None => lemma_judging(start, run, built),
    }
}

pub(crate) proof fn lemma_step(start: Progress, before: Stage, after: Stage)
    requires
        is_sound(start, before),
        follows(before, after),
    ensures
        is_sound(start, after),
{
    match before {
        Stage::List(walk) => {
            let scan = choose|scan: Scan| after == #[trigger] run::after_list(walk, scan);
            lemma_after_list(start, walk, scan);
        },
        Stage::Do(run, act) => {
            let message = choose|message: Seq<char>|
                after == #[trigger] run::after_failure(run, act, message);
            lemma_after_done(start, run, act, message);
        },
        Stage::Read(run, need) => {
            let contents = choose|contents: Contents|
                after == #[trigger] run::after_read(run, need, contents);
            lemma_after_read(start, run, need, contents);
        },
        Stage::Find(run) => {
            let found = choose|found: Result<Option<PathBuf>, String>|
                after == #[trigger] run::after_find(run, found);
            if let Err(message) = found {
                lemma_stopped(
                    start,
                    run,
                    cases::io_problem(
                        "could not ask cargo where the host's workspace is"@,
                        message@,
                    ),
                );
            }
        },
        Stage::Build(run) => {
            let output = choose|output: Result<Output, String>|
                after == #[trigger] run::after_build(run, output);
            lemma_after_build(start, run, output);
        },
        Stage::Resolve(run, built) => {
            let (ours, theirs) = choose|
                ours: Option<Seq<Part>>,
                theirs: Seq<Option<PathBuf>>,
            | after == #[trigger] run::after_resolve(run, built, ours, theirs);
            lemma_after_resolve(start, run, built, ours, theirs);
        },
        Stage::Done(_) => {},
    }
}

/// Whatever comes of what a run asks for, every stage of it keeps to the suite it
/// began with and to everything that has gone wrong so far, and no fixture gets a
/// verdict the build does not bear out.
pub proof fn law_every_stage_is_sound(
    suite: Suite,
    around: Surroundings,
    stages: Seq<Stage>,
    at: int,
)
    requires
        is_run(suite, around, stages),
        0 <= at < stages.len(),
    ensures
        is_sound(run::begun(suite, around), stages[at]),
    decreases at,
{
    let start = run::begun(suite, around);
    if at == 0 {
        assert(start.setup.take(start.setup.len() as int) =~= start.setup);
        lemma_looking(start, start, 0);
    } else {
        law_every_stage_is_sound(suite, around, stages, at - 1);
        assert(follows(stages[at - 1], stages[at]));
        lemma_step(start, stages[at - 1], stages[at]);
    }
}

// ---------------------------------------------------------------------------
// What a run may do.
// ---------------------------------------------------------------------------

/// While part of the manifest is refused, a run looks at directories and nothing
/// else: it locks nothing, writes nothing and builds nothing. It ends without a
/// verdict on any fixture, and it is no success.
pub proof fn law_nothing_is_built_while_part_of_the_manifest_is_refused(
    suite: Suite,
    around: Surroundings,
    stages: Seq<Stage>,
    at: int,
)
    requires
        is_run(suite, around, stages),
        0 <= at < stages.len(),
        run::is_refused(suite.setup),
    ensures
        match stages[at] {
            Stage::List(_) => true,
            Stage::Done(summary) => stopped_early(summary) && !outcome::succeeded(summary),
            _ => false,
        },
{
    law_every_stage_is_sound(suite, around, stages, at);
    let start = run::begun(suite, around);
    match stages[at] {
        Stage::List(_) => {},
        Stage::Done(summary) => lemma_refusal_stands(start.setup, summary.setup),
        Stage::Do(run, _) => lemma_refusal_stands(start.setup, run.setup),
        Stage::Read(run, _) => lemma_refusal_stands(start.setup, run.setup),
        Stage::Find(run) => lemma_refusal_stands(start.setup, run.setup),
        Stage::Build(run) => lemma_refusal_stands(start.setup, run.setup),
        Stage::Resolve(run, _) => lemma_refusal_stands(start.setup, run.setup),
    }
}

/// A suite with no fixture in it touches nothing but the directories it was told
/// of, and never succeeds.
pub proof fn law_a_suite_that_asserts_nothing_does_not_succeed(
    suite: Suite,
    around: Surroundings,
    stages: Seq<Stage>,
    at: int,
)
    requires
        is_run(suite, around, stages),
        0 <= at < stages.len(),
        suite.cases.len() == 0,
    ensures
        match stages[at] {
            Stage::List(_) => true,
            Stage::Done(summary) => stopped_early(summary) && !outcome::succeeded(summary),
            _ => false,
        },
{
    law_every_stage_is_sound(suite, around, stages, at);
}

/// Everything that went wrong while registering is reported by every run, first
/// and in order, and a run of a suite with any of it is no success.
pub proof fn law_what_went_wrong_while_registering_is_reported(
    suite: Suite,
    around: Surroundings,
    stages: Seq<Stage>,
    at: int,
)
    requires
        is_run(suite, around, stages),
        0 <= at < stages.len(),
        stages[at] is Done,
    ensures
        grown(suite.setup, stages[at]->Done_0.setup),
        suite.setup.len() != 0 ==> !outcome::succeeded(stages[at]->Done_0),
{
    law_every_stage_is_sound(suite, around, stages, at);
}

/// A run that succeeds has nothing to report of the suite as a whole, and a
/// verdict on every fixture there is, in the order they were registered. One build
/// bears all of them out: an artifact for each fixture that must compile, and for
/// each that must not, none, and diagnostics that say something.
pub proof fn law_a_success_is_borne_out_by_one_build(
    suite: Suite,
    around: Surroundings,
    stages: Seq<Stage>,
    at: int,
)
    requires
        is_run(suite, around, stages),
        0 <= at < stages.len(),
        stages[at] is Done,
        outcome::succeeded(stages[at]->Done_0),
    ensures
        suite.setup.len() == 0,
        suite.cases.len() != 0,
        stages[at]->Done_0.cases.len() == suite.cases.len(),
        exists|built: Built| #[trigger] bears_out(run::begun(suite, around), built),
{
    law_every_stage_is_sound(suite, around, stages, at);
    let start = run::begun(suite, around);
    let summary = stages[at]->Done_0;
    let built = choose|built: Built| are_earned(start, built, summary.cases);
    assert forall|i: int| 0 <= i < start.suite.cases.len() implies held_up(
        start,
        built,
        #[trigger] start.suite.cases[i],
    ) by {
        assert(is_earned(start, built, start.suite.cases[i], summary.cases[i]));
        assert(summary.cases[i].failure is None);
    }
    assert(bears_out(start, built));
}

/// As far as `built` can say, the fixture held up.
pub open spec fn held_up(run: Progress, built: Built, case: Registered) -> bool {
    match case.kind {
        Kind::CompileFail => !built.compiled.contains(case.bin) && !text::is_blank(
            run::actual_for(run, built, case),
        ),
        Kind::Pass => built.compiled.contains(case.bin),
    }
}

/// As far as `built` can say, every fixture held up.
pub open spec fn bears_out(run: Progress, built: Built) -> bool {
    forall|i: int|
        0 <= i < run.suite.cases.len() ==> held_up(run, built, #[trigger] run.suite.cases[i])
}

/// A `compile_fail` fixture that compiled fails for that reason, whatever its
/// golden says, and whether or not the run blesses.
pub proof fn law_a_fixture_that_compiled_fails(
    run: Progress,
    built: Built,
    case: Registered,
    verdict: Verdict,
)
    requires
        is_earned(run, built, case, verdict),
        case.kind == Kind::CompileFail,
        built.compiled.contains(case.bin),
    ensures
        verdict.failure == Some(Problem::Compiled),
{
}

/// A `pass` fixture holds up exactly where cargo produced an artifact for it: a
/// target that was never built has no errors either.
pub proof fn law_an_artifact_is_what_passes_a_pass_fixture(
    run: Progress,
    built: Built,
    case: Registered,
    verdict: Verdict,
)
    requires
        is_earned(run, built, case, verdict),
        case.kind == Kind::Pass,
    ensures
        verdict.failure is None <==> built.compiled.contains(case.bin),
        verdict.failure is Some ==> verdict.failure->0 is DidNotCompile,
{
}

// ---------------------------------------------------------------------------
// Goldens.
// ---------------------------------------------------------------------------

/// A golden is written only by a run that blesses, only beside a registered
/// `compile_fail` fixture that did not compile, and only with what the compiler
/// said of that fixture, which is never blank.
pub proof fn law_only_a_blessing_run_writes_goldens(
    suite: Suite,
    around: Surroundings,
    stages: Seq<Stage>,
    at: int,
)
    requires
        is_run(suite, around, stages),
        0 <= at < stages.len(),
        stages[at] is Do,
        stages[at]->Do_1 is Golden,
    ensures
        ({
            let run = stages[at]->Do_0;
            let tally = stages[at]->Do_1->Golden_0;
            let case = run::case_of(run, tally);
            &&& cases::blesses(suite.overwrite, run::optional_text(around.overwrite))
            &&& suite.cases.contains(case)
            &&& case.kind == Kind::CompileFail
            &&& !tally.built.compiled.contains(case.bin)
            &&& tally.actual == run::actual_for(run, tally.built, case)
            &&& !text::is_blank(tally.actual)
            &&& run::chore(run, stages[at]->Do_1) == run::Chore::Write(
                cases::golden_of(case.absolute),
                tally.actual,
            )
        }),
{
    law_every_stage_is_sound(suite, around, stages, at);
    let run = stages[at]->Do_0;
    let tally = stages[at]->Do_1->Golden_0;
    assert(suite.cases[tally.verdicts.len() as int] == run::case_of(run, tally));
}

/// A run that does not bless writes no golden, and reports none as written.
pub proof fn law_a_checking_run_writes_no_golden(
    suite: Suite,
    around: Surroundings,
    stages: Seq<Stage>,
    at: int,
)
    requires
        is_run(suite, around, stages),
        0 <= at < stages.len(),
        !cases::blesses(suite.overwrite, run::optional_text(around.overwrite)),
    ensures
        !(stages[at] is Do && stages[at]->Do_1 is Golden),
        stages[at] is Done ==> stages[at]->Done_0.blessed.len() == 0,
{
    law_every_stage_is_sound(suite, around, stages, at);
}

/// What comes of a fixture whose golden was read, in a run that does not bless: it
/// holds up exactly where the golden is there and holds what the fixture's
/// diagnostics hold, both seen through the suite's mode. A golden that is missing
/// is a failure of its own.
pub proof fn law_a_golden_decides(run: Progress, tally: Tally, contents: Contents)
    requires
        !run.bless,
    ensures
        run::golden_read(run, tally, contents) == run::settled(
            run,
            tally,
            run::comparison(run, tally, contents),
        ),
        run::comparison(run, tally, contents) is None <==> match contents {
            Contents::Text(found) => compare::filtered(
                found@,
                run.suite.mode,
                run::case_of(run, tally).relative,
            ) == tally.actual,
            _ => false,
        },
        contents is Missing ==> run::comparison(run, tally, contents) == Some(
            Problem::MissingGolden { golden: run::golden_in_report(run, tally) },
        ),
{
}

/// A blessing run writes a golden exactly where it does not hold that already.
pub proof fn law_an_unchanged_golden_is_not_written(run: Progress, tally: Tally, contents: Contents)
    requires
        run.bless,
    ensures
        run::is_blessed(tally, contents) ==> run::golden_read(run, tally, contents)
            == run::settled(run, tally, None),
        !run::is_blessed(tally, contents) ==> run::golden_read(run, tally, contents) == Stage::Do(
            run,
            Act::Golden(tally),
        ),
{
}

/// What a blessing run writes, or finds written already, is what a checking run of
/// the same suite accepts, as long as the compiler says the same.
///
/// In `Exact`, diagnostics with two carriage returns before a line feed are left
/// out: what is compared of them is not what is compared of itself.
pub proof fn law_what_is_blessed_is_accepted(
    run: Progress,
    tally: Tally,
    found: Contents,
    written: String,
)
    requires
        is_open(run, tally),
        written@ == tally.actual || (found == Contents::Text(written) && run::is_blessed(
            tally,
            found,
        )),
        run.suite.mode is Exact ==> !text::contains(
            run::diagnostics_for(run, tally.built, run::case_of(run, tally)),
            seq!['\r', '\r', '\n'],
        ),
    ensures
        run::comparison(run, tally, Contents::Text(written)) is None,
{
    let case = run::case_of(run, tally);
    let said = run::diagnostics_for(run, tally.built, case);
    let mode = run.suite.mode;
    law_filtering_twice_is_filtering_once(said, mode, case.relative);
    assert(tally.actual == compare::filtered(said, mode, case.relative));
    if written@ != tally.actual && mode !is Exact {
        law_unified_endings_compare_the_same(written@, mode, case.relative);
    }
}

/// What a blessing run writes is accepted in every mode, whatever the compiler
/// said, wherever no fixture or dependency has a line feed in its name.
pub proof fn law_what_is_blessed_under_an_ordinary_name_is_accepted(
    run: Progress,
    tally: Tally,
    written: String,
)
    requires
        is_open(run, tally),
        written@ == tally.actual,
        is_one_line(run::case_of(run, tally).relative),
        have_plain_placeholders(run.suite.dependencies),
    ensures
        run::comparison(run, tally, Contents::Text(written)) is None,
{
    let case = run::case_of(run, tally);
    law_a_golden_is_made_of_lines(
        run::rules_for(run, case),
        crate::compile::said_about(tally.built, case.bin),
        case.relative,
    );
    law_what_is_blessed_is_accepted(run, tally, Contents::Text(written), written);
}

/// What is compared of a fixture, and so what its golden holds, depends on the
/// fixture, the build and the suite's own settings: no other fixture, no
/// directory and nothing that went wrong has a part in it.
pub proof fn law_a_golden_is_about_its_own_fixture(
    a: Progress,
    b: Progress,
    built: Built,
    case: Registered,
)
    requires
        a.layout == b.layout,
        a.cargo_home == b.cargo_home,
        a.fold == b.fold,
        a.suite.manifest_dir == b.suite.manifest_dir,
        a.suite.dependencies == b.suite.dependencies,
        a.suite.elide_implementors == b.suite.elide_implementors,
        a.suite.mode == b.suite.mode,
    ensures
        run::actual_for(a, built, case) == run::actual_for(b, built, case),
        run::judgement(a, built, case) == run::judgement(b, built, case),
{
}

} // verus!
