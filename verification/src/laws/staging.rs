//! What comes before what in every run.

use vstd::prelude::*;

use crate::cases::Suite;
use crate::compile::Built;
use crate::laws::run::{follows, is_run, law_every_stage_is_sound};
use crate::outcome::{Problem, Verdict};
use crate::path::Part;
use crate::run;
use crate::run::{Act, Contents, Judgement, Need, Output, Progress, Scan, Stage, Surroundings};

verus! {

/// The scratch project is locked at `stage`.
pub open spec fn locks(stage: Stage) -> bool {
    stage matches Stage::Do(_, act) && act is Lock
}

/// The fixture at `at` is staged at `stage`.
pub open spec fn stages_fixture(stage: Stage, at: nat) -> bool {
    stage matches Stage::Do(_, act) && act matches Act::Fixture(here, _) && here == at
}

/// The manifest is written at `stage`.
pub open spec fn writes_manifest(stage: Stage) -> bool {
    stage matches Stage::Do(_, act) && act is Manifest
}

/// The scratch project was locked before the stage at `at`.
pub open spec fn was_locked(stages: Seq<Stage>, at: int) -> bool {
    exists|i: int| 0 <= i < at && locks(#[trigger] stages[i])
}

/// Each of the first `n` fixtures was staged before the stage at `at`.
pub open spec fn were_staged(stages: Seq<Stage>, at: int, n: nat) -> bool {
    forall|fixture: nat| fixture < n ==> #[trigger] was_staged(stages, at, fixture)
}

/// A fixture was staged before the stage at `at`.
pub open spec fn was_staged(stages: Seq<Stage>, at: int, fixture: nat) -> bool {
    exists|i: int| 0 <= i < at && stages_fixture(#[trigger] stages[i], fixture)
}

/// The manifest was written before the stage at `at`.
pub open spec fn was_written(stages: Seq<Stage>, at: int) -> bool {
    exists|i: int| 0 <= i < at && writes_manifest(#[trigger] stages[i])
}

/// The scratch project is locked by the time a run comes to `stage`.
spec fn needs_lock(stage: Stage) -> bool {
    match stage {
        Stage::List(_) => false,
        Stage::Do(_, act) => !(act is Lock),
        Stage::Done(_) => false,
        _ => true,
    }
}

/// How many fixtures are staged by the time a run comes to `stage`.
spec fn needs_fixtures(stage: Stage) -> nat {
    match stage {
        Stage::List(_) => 0,
        Stage::Do(run, act) => match act {
            Act::Lock => 0,
            Act::CreateTarget => 0,
            Act::Fixture(at, _) => at,
            _ => run.suite.cases.len(),
        },
        Stage::Read(run, need) => match need {
            Need::Fixture(at) => at,
            _ => run.suite.cases.len(),
        },
        Stage::Find(run) => run.suite.cases.len(),
        Stage::Build(run) => run.suite.cases.len(),
        Stage::Resolve(run, _) => run.suite.cases.len(),
        Stage::Done(_) => 0,
    }
}

/// The manifest is written by the time a run comes to `stage`.
spec fn needs_manifest(stage: Stage) -> bool {
    match stage {
        Stage::List(_) => false,
        Stage::Do(_, act) => act is Lockfile || act is Golden,
        Stage::Read(_, need) => !(need is Fixture),
        Stage::Done(_) => false,
        _ => true,
    }
}

/// The stages a run has left behind do for the one at `at`.
spec fn is_ready(stages: Seq<Stage>, at: int) -> bool {
    &&& needs_lock(stages[at]) ==> was_locked(stages, at)
    &&& were_staged(stages, at, needs_fixtures(stages[at]))
    &&& needs_manifest(stages[at]) ==> was_written(stages, at)
}

/// A stage needs no more than the one before it did, and what that one did.
spec fn needs_no_more(before: Stage, after: Stage) -> bool {
    &&& needs_lock(after) ==> needs_lock(before) || locks(before)
    &&& forall|fixture: nat|
        fixture < needs_fixtures(after) ==> fixture < needs_fixtures(before)
            || #[trigger] stages_fixture(before, fixture)
    &&& needs_manifest(after) ==> needs_manifest(before) || writes_manifest(before)
}

/// Checking fixtures goes on to a golden, or ends the run.
proof fn lemma_checking(
    run: Progress,
    built: Built,
    verdicts: Seq<Verdict>,
    blessed: Seq<Seq<Part>>,
)
    ensures
        ({
            let stage = run::checking(run, built, verdicts, blessed);
            stage is Done || (stage matches Stage::Read(later, need) && need is Golden && later
                == run)
        }),
    decreases run.suite.cases.len() - verdicts.len(),
{
    if verdicts.len() < run.suite.cases.len() {
        let case = run.suite.cases[verdicts.len() as int];
        match run::judgement(run, built, case) {
            Judgement::Settled(failure) => {
                lemma_checking(
                    run,
                    built,
                    verdicts.push(run::verdict(run.suite, case, failure)),
                    blessed,
                );
            },
            Judgement::Compare(_) => {},
        }
    }
}

proof fn lemma_settled(run: Progress, tally: run::Tally, failure: Option<Problem>)
    ensures
        ({
            let stage = run::settled(run, tally, failure);
            stage is Done || (stage matches Stage::Read(later, need) && need is Golden && later
                == run)
        }),
{
    lemma_checking(
        run,
        tally.built,
        tally.verdicts.push(run::verdict(run.suite, run::case_of(run, tally), failure)),
        tally.blessed,
    );
}

proof fn lemma_judging(run: Progress, built: Built)
    ensures
        ({
            let stage = run::judging(run, built);
            stage is Done || (stage matches Stage::Read(later, need) && need is Golden && later
                == run)
        }),
{
    lemma_checking(run, built, seq![], seq![]);
}

proof fn lemma_follows(before: Stage, after: Stage)
    requires
        follows(before, after),
    ensures
        needs_no_more(before, after),
{
    match before {
        Stage::List(walk) => {
            let scan = choose|scan: Scan| after == #[trigger] run::after_list(walk, scan);
            assert(after is List || after is Done || locks(after));
        },
        Stage::Do(run, act) => {
            lemma_do(run, act, after);
        },
        Stage::Read(run, need) => {
            let contents = choose|contents: Contents|
                after == #[trigger] run::after_read(run, need, contents);
            if let Need::Golden(tally) = need {
                lemma_settled(run, tally, run::comparison(run, tally, contents));
                lemma_settled(run, tally, None);
            }
        },
        Stage::Find(run) => {},
        Stage::Build(run) => {
            let output = choose|output: Result<Output, String>|
                after == #[trigger] run::after_build(run, output);
            lemma_build(run, output);
        },
        Stage::Resolve(run, built) => {
            lemma_judging(run, built);
        },
        Stage::Done(_) => {},
    }
}

proof fn lemma_do(run: Progress, act: Act, after: Stage)
    requires
        follows(Stage::Do(run, act), after),
    ensures
        needs_no_more(Stage::Do(run, act), after),
{
    let before = Stage::Do(run, act);
    match act {
        Act::Golden(tally) => {
            let kept = run::Tally {
                blessed: tally.blessed.push(run::golden_in_report(run, tally)),
                ..tally
            };
            lemma_settled(run, kept, None);
            if after != run::after_success(run, act) {
                let message = choose|message: Seq<char>|
                    after == #[trigger] run::after_failure(run, act, message);
                let shown = crate::path::shown(run::golden_in_report(run, tally));
                lemma_settled(
                    run,
                    tally,
                    Some(
                        crate::cases::io_problem("could not write the golden "@ + shown, message),
                    ),
                );
            }
        },
        Act::Fixture(at, source) => {
            assert(stages_fixture(before, at));
        },
        _ => {},
    }
}

proof fn lemma_build(run: Progress, output: Result<Output, String>)
    ensures
        ({
            let stage = run::after_build(run, output);
            ||| stage is Done
            ||| (stage matches Stage::Read(later, need) && need is Golden && later == run)
            ||| (stage matches Stage::Resolve(later, _) && later == run)
        }),
{
    if let Ok(output) = output {
        let (built, whole) = crate::compile::ingested(
            crate::compile::unread(output.stderr@),
            crate::text::lines(output.stdout@),
            run::manifest_of(run.layout),
        );
        lemma_judging(run, built);
    }
}

proof fn lemma_ready(suite: Suite, around: Surroundings, stages: Seq<Stage>, at: int)
    requires
        is_run(suite, around, stages),
        0 <= at < stages.len(),
    ensures
        is_ready(stages, at),
    decreases at,
{
    if at == 0 {
        assert(stages[0] is List || stages[0] is Done || locks(stages[0]));
    } else {
        let last = at - 1;
        lemma_ready(suite, around, stages, last);
        assert(follows(stages[last], stages[at]));
        lemma_follows(stages[last], stages[at]);
        if was_locked(stages, last) {
            let i = choose|i: int| 0 <= i < last && locks(#[trigger] stages[i]);
            assert(0 <= i < at && locks(stages[i]));
        }
        if was_written(stages, last) {
            let i = choose|i: int| 0 <= i < last && writes_manifest(#[trigger] stages[i]);
            assert(0 <= i < at && writes_manifest(stages[i]));
        }
        assert forall|fixture: nat| fixture < needs_fixtures(stages[at]) implies #[trigger] was_staged(
            stages,
            at,
            fixture,
        ) by {
            if stages_fixture(stages[last], fixture) {
                assert(0 <= last < at && stages_fixture(stages[last], fixture));
            } else {
                assert(was_staged(stages, last, fixture));
                let i = choose|i: int|
                    0 <= i < last && stages_fixture(#[trigger] stages[i], fixture);
                assert(0 <= i < at && stages_fixture(stages[i], fixture));
            }
        }
    }
}

/// Whatever a run does, it has locked the scratch project first: two runs never
/// write to it, or build it, at once.
pub proof fn law_nothing_is_done_before_the_lock(
    suite: Suite,
    around: Surroundings,
    stages: Seq<Stage>,
    at: int,
)
    requires
        is_run(suite, around, stages),
        0 <= at < stages.len(),
        !(stages[at] is List),
        !(stages[at] is Done),
        !locks(stages[at]),
    ensures
        was_locked(stages, at),
{
    lemma_ready(suite, around, stages, at);
}

/// Cargo is run only once every registered fixture was staged and the manifest
/// that names them all was written: a build leaves no fixture out.
pub proof fn law_everything_is_staged_before_the_build(
    suite: Suite,
    around: Surroundings,
    stages: Seq<Stage>,
    at: int,
)
    requires
        is_run(suite, around, stages),
        0 <= at < stages.len(),
        stages[at] is Build,
    ensures
        were_staged(stages, at, suite.cases.len()),
        was_written(stages, at),
{
    lemma_ready(suite, around, stages, at);
    law_every_stage_is_sound(suite, around, stages, at);
}

/// A fixture is compiled verbatim: what is staged is what was read, and it is
/// staged under the fixture's own target.
pub proof fn law_a_fixture_is_staged_as_it_was_read(
    suite: Suite,
    around: Surroundings,
    stages: Seq<Stage>,
    at: int,
    run: Progress,
    fixture: nat,
    source: Seq<char>,
)
    requires
        is_run(suite, around, stages),
        0 <= at < stages.len(),
        stages[at] == Stage::Do(run, Act::Fixture(fixture, source)),
    ensures
        at > 0,
        stages[at - 1] == Stage::Read(run, Need::Fixture(fixture)),
        exists|contents: Contents|
            (#[trigger] run::after_read(run, Need::Fixture(fixture), contents)) == stages[at]
                && (contents matches Contents::Text(text) && text@ == source),
        run::chore(run, Act::Fixture(fixture, source)) == run::Chore::WriteIfChanged(
            run::staged_at(run, fixture),
            source,
        ),
{
    if at > 0 {
        let before = stages[at - 1];
        assert(follows(before, stages[at]));
        lemma_only_read(before, stages[at], run, fixture, source);
    }
}

proof fn lemma_only_read(
    before: Stage,
    after: Stage,
    run: Progress,
    fixture: nat,
    source: Seq<char>,
)
    requires
        follows(before, after),
        after == Stage::Do(run, Act::Fixture(fixture, source)),
    ensures
        before == Stage::Read(run, Need::Fixture(fixture)),
        exists|contents: Contents|
            (#[trigger] run::after_read(run, Need::Fixture(fixture), contents)) == after && (contents matches Contents::Text(
                text,
            ) && text@ == source),
{
    match before {
        Stage::List(walk) => {
            let scan = choose|scan: Scan| after == #[trigger] run::after_list(walk, scan);
            assert(after is List || after is Done || locks(after));
        },
        Stage::Do(earlier, act) => {
            if let Act::Golden(tally) = act {
                lemma_after_golden(earlier, tally, after);
            }
        },
        Stage::Read(earlier, need) => {
            let contents = choose|contents: Contents|
                after == #[trigger] run::after_read(earlier, need, contents);
            if let Need::Golden(tally) = need {
                lemma_settled(earlier, tally, run::comparison(earlier, tally, contents));
                lemma_settled(earlier, tally, None);
            }
        },
        Stage::Build(earlier) => {
            let output = choose|output: Result<Output, String>|
                after == #[trigger] run::after_build(earlier, output);
            lemma_build(earlier, output);
        },
        Stage::Resolve(earlier, built) => {
            lemma_judging(earlier, built);
        },
        _ => {},
    }
}

proof fn lemma_after_golden(run: Progress, tally: run::Tally, after: Stage)
    requires
        follows(Stage::Do(run, Act::Golden(tally)), after),
    ensures
        after is Done || after is Read,
{
    let kept = run::Tally {
        blessed: tally.blessed.push(run::golden_in_report(run, tally)),
        ..tally
    };
    lemma_settled(run, kept, None);
    if after != run::after_success(run, Act::Golden(tally)) {
        let message = choose|message: Seq<char>|
            after == #[trigger] run::after_failure(run, Act::Golden(tally), message);
        let shown = crate::path::shown(run::golden_in_report(run, tally));
        lemma_settled(
            run,
            tally,
            Some(crate::cases::io_problem("could not write the golden "@ + shown, message)),
        );
    }
}

} // verus!
