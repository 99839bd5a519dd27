//! What holds of the goldens a run writes.

use vstd::prelude::*;

use crate::cases;
use crate::cases::Suite;
use crate::compile::Built;
use crate::laws::run::{follows, is_run, law_every_stage_is_sound};
use crate::outcome::{Problem, Verdict};
use crate::path;
use crate::path::Part;
use crate::run;
use crate::run::{
    Act, Contents, Judgement, Need, Output, Progress, Scan, Stage, Surroundings, Tally,
};

verus! {

/// The goldens written by `stage`, as they are reported.
pub open spec fn blessed_by(stage: Stage) -> Seq<Seq<Part>> {
    match stage {
        Stage::Do(_, Act::Golden(tally)) => tally.blessed,
        Stage::Read(_, Need::Golden(tally)) => tally.blessed,
        Stage::Done(summary) => summary.blessed,
        _ => seq![],
    }
}

/// A golden was written between `before` and `after`.
pub open spec fn wrote_golden(before: Stage, after: Stage) -> bool {
    before matches Stage::Do(run, act) && act is Golden && after == run::after_success(run, act)
}

/// The goldens written in the first `at` steps of a run, in the order they were
/// written, as they are reported.
pub open spec fn written_by(stages: Seq<Stage>, at: int) -> Seq<Seq<Part>>
    decreases at,
{
    if at <= 0 {
        seq![]
    } else {
        let before = written_by(stages, at - 1);
        if wrote_golden(stages[at - 1], stages[at]) {
            let run = stages[at - 1]->Do_0;
            let tally = stages[at - 1]->Do_1->Golden_0;
            before.push(run::golden_in_report(run, tally))
        } else {
            before
        }
    }
}

/// What checking fixtures comes to next carries on what was found and written.
pub(crate) proof fn lemma_checking(
    run: Progress,
    built: Built,
    verdicts: Seq<Verdict>,
    blessed: Seq<Seq<Part>>,
)
    ensures
        ({
            let stage = run::checking(run, built, verdicts, blessed);
            &&& stage is Done || (stage is Read && stage->Read_0 == run && stage->Read_1 is Golden)
            &&& blessed_by(stage) == blessed
            &&& carries(stage, verdicts)
        }),
    decreases run.suite.cases.len() - verdicts.len(),
{
    if verdicts.len() < run.suite.cases.len() {
        let case = run.suite.cases[verdicts.len() as int];
        match run::judgement(run, built, case) {
            Judgement::Settled(failure) => {
                let next = verdicts.push(run::verdict(run.suite, case, failure));
                lemma_checking(run, built, next, blessed);
                let stage = run::checking(run, built, next, blessed);
                let later = verdicts_of(stage);
                assert(later.take(verdicts.len() as int) =~= next.take(verdicts.len() as int)) by {
                    assert(later.take(next.len() as int) == next);
                    assert(later.take(verdicts.len() as int) =~= later.take(next.len() as int).take(
                        verdicts.len() as int,
                    ));
                }
                assert(next.take(verdicts.len() as int) =~= verdicts);
            },
            Judgement::Compare(_) => {
                assert(verdicts.take(verdicts.len() as int) =~= verdicts);
            },
        }
    } else {
        assert(verdicts.take(verdicts.len() as int) =~= verdicts);
    }
}

/// What came of the fixtures checked by `stage`.
pub open spec fn verdicts_of(stage: Stage) -> Seq<Verdict> {
    match stage {
        Stage::Do(_, Act::Golden(tally)) => tally.verdicts,
        Stage::Read(_, Need::Golden(tally)) => tally.verdicts,
        Stage::Done(summary) => summary.cases,
        _ => seq![],
    }
}

/// What came of the fixtures checked by `stage` begins with `verdicts`.
pub open spec fn carries(stage: Stage, verdicts: Seq<Verdict>) -> bool {
    verdicts.len() <= verdicts_of(stage).len() && verdicts_of(stage).take(verdicts.len() as int)
        == verdicts
}

pub(crate) proof fn lemma_settled(run: Progress, tally: Tally, failure: Option<Problem>)
    ensures
        ({
            let stage = run::settled(run, tally, failure);
            &&& stage is Done || (stage is Read && stage->Read_0 == run && stage->Read_1 is Golden)
            &&& blessed_by(stage) == tally.blessed
            &&& carries(
                stage,
                tally.verdicts.push(run::verdict(run.suite, run::case_of(run, tally), failure)),
            )
        }),
{
    lemma_checking(
        run,
        tally.built,
        tally.verdicts.push(run::verdict(run.suite, run::case_of(run, tally), failure)),
        tally.blessed,
    );
}

/// The golden a run is to write, once it was written.
pub open spec fn with_golden(run: Progress, tally: Tally) -> Tally {
    Tally { blessed: tally.blessed.push(run::golden_in_report(run, tally)), ..tally }
}

/// What the run says of a golden it could not write.
pub open spec fn unwritten_golden(
    run: Progress,
    tally: Tally,
    message: Seq<char>,
) -> Problem {
    cases::io_problem(
        "could not write the golden "@ + path::shown(run::golden_in_report(run, tally)),
        message,
    )
}

proof fn lemma_step(before: Stage, after: Stage)
    requires
        follows(before, after),
    ensures
        blessed_by(after) == (if wrote_golden(before, after) {
            blessed_by(before).push(
                run::golden_in_report(before->Do_0, before->Do_1->Golden_0),
            )
        } else {
            blessed_by(before)
        }),
{
    match before {
        Stage::List(walk) => {
            let scan = choose|scan: Scan| after == #[trigger] run::after_list(walk, scan);
            assert(after is List || after is Do || after is Done);
        },
        Stage::Do(run, act) => {
            if let Act::Golden(tally) = act {
                lemma_settled(run, with_golden(run, tally), None);
                if after != run::after_success(run, act) {
                    let message = choose|message: Seq<char>|
                        after == #[trigger] run::after_failure(run, act, message);
                    lemma_settled(run, tally, Some(unwritten_golden(run, tally, message)));
                }
            }
        },
        Stage::Read(run, need) => {
            let contents = choose|contents: Contents|
                after == #[trigger] run::after_read(run, need, contents);
            if let Need::Golden(tally) = need {
                lemma_settled(run, tally, run::comparison(run, tally, contents));
                lemma_settled(run, tally, None);
            }
        },
        Stage::Find(run) => {},
        Stage::Build(run) => {
            let output = choose|output: Result<Output, String>|
                after == #[trigger] run::after_build(run, output);
            lemma_built(run, output);
        },
        Stage::Resolve(run, built) => {
            lemma_checking(run, built, seq![], seq![]);
        },
        Stage::Done(_) => {},
    }
}

proof fn lemma_built(run: Progress, output: Result<Output, String>)
    ensures
        blessed_by(run::after_build(run, output)) == Seq::<Seq<Part>>::empty(),
{
    if let Ok(output) = output {
        let (built, whole) = crate::compile::ingested(
            crate::compile::unread(output.stderr@),
            crate::text::lines(output.stdout@),
            run::manifest_of(run.layout),
        );
        lemma_checking(run, built, seq![], seq![]);
    }
}

/// A run lists exactly the goldens it wrote, in the order it wrote them: at every
/// stage, and so in what it hands back at the end. One it could not write is not
/// among them.
pub proof fn law_a_run_lists_exactly_the_goldens_it_wrote(
    suite: Suite,
    around: Surroundings,
    stages: Seq<Stage>,
    at: int,
)
    requires
        is_run(suite, around, stages),
        0 <= at < stages.len(),
    ensures
        blessed_by(stages[at]) == written_by(stages, at),
    decreases at,
{
    if at == 0 {
        assert(stages[0] is List || stages[0] is Do || stages[0] is Done);
    } else {
        law_a_run_lists_exactly_the_goldens_it_wrote(suite, around, stages, at - 1);
        assert(follows(stages[at - 1], stages[at]));
        lemma_step(stages[at - 1], stages[at]);
    }
}

/// Writing a golden and failing to never lead to the same stage: where it failed,
/// its fixture failed with it.
pub proof fn law_a_golden_that_cannot_be_written_fails_its_fixture(
    run: Progress,
    tally: Tally,
    message: Seq<char>,
)
    ensures
        run::after_failure(run, Act::Golden(tally), message) != run::after_success(
            run,
            Act::Golden(tally),
        ),
        verdicts_of(run::after_failure(run, Act::Golden(tally), message)).len()
            > tally.verdicts.len(),
        verdicts_of(
            run::after_failure(run, Act::Golden(tally), message),
        )[tally.verdicts.len() as int].failure == Some(unwritten_golden(run, tally, message)),
{
    let n = tally.verdicts.len() as int;
    let case = run::case_of(run, tally);
    let failure = Some(unwritten_golden(run, tally, message));
    lemma_settled(run, with_golden(run, tally), None);
    lemma_settled(run, tally, failure);
    let good = verdicts_of(run::after_success(run, Act::Golden(tally)));
    let bad = verdicts_of(run::after_failure(run, Act::Golden(tally), message));
    assert(good[n] == good.take(n + 1)[n]);
    assert(bad[n] == bad.take(n + 1)[n]);
    assert(tally.verdicts.push(run::verdict(run.suite, case, None))[n].failure is None);
    assert(tally.verdicts.push(run::verdict(run.suite, case, failure))[n].failure == failure);
}

/// A run writes only goldens whose content changed: before it writes one, it has
/// read what is there, and that is not what it writes, however it was checked out.
pub proof fn law_only_a_changed_golden_is_written(
    suite: Suite,
    around: Surroundings,
    stages: Seq<Stage>,
    at: int,
    run: Progress,
    tally: Tally,
)
    requires
        is_run(suite, around, stages),
        0 <= at < stages.len(),
        stages[at] == Stage::Do(run, Act::Golden(tally)),
    ensures
        run.bless,
        at > 0,
        stages[at - 1] == Stage::Read(run, Need::Golden(tally)),
        exists|contents: Contents|
            (#[trigger] run::after_read(run, Need::Golden(tally), contents)) == stages[at]
                && !run::is_blessed(tally, contents),
        run::chore(run, Act::Golden(tally)) == run::Chore::Write(
            cases::golden_of(run::case_of(run, tally).absolute),
            tally.actual,
        ),
{
    law_every_stage_is_sound(suite, around, stages, at);
    if at > 0 {
        assert(follows(stages[at - 1], stages[at]));
        lemma_only_read(stages[at - 1], stages[at], run, tally);
    }
}

proof fn lemma_only_read(before: Stage, after: Stage, run: Progress, tally: Tally)
    requires
        follows(before, after),
        after == Stage::Do(run, Act::Golden(tally)),
    ensures
        before == Stage::Read(run, Need::Golden(tally)),
        exists|contents: Contents|
            (#[trigger] run::after_read(run, Need::Golden(tally), contents)) == after
                && !run::is_blessed(tally, contents),
{
    match before {
        Stage::List(walk) => {
            let scan = choose|scan: Scan| after == #[trigger] run::after_list(walk, scan);
            assert(after is List || after is Done || (after is Do && after->Do_1 is Lock));
        },
        Stage::Do(earlier, act) => {
            if let Act::Golden(open) = act {
                lemma_settled(earlier, with_golden(earlier, open), None);
                if after != run::after_success(earlier, act) {
                    let message = choose|message: Seq<char>|
                        after == #[trigger] run::after_failure(earlier, act, message);
                    lemma_settled(earlier, open, Some(unwritten_golden(earlier, open, message)));
                }
            }
        },
        Stage::Read(earlier, need) => {
            let contents = choose|contents: Contents|
                after == #[trigger] run::after_read(earlier, need, contents);
            if let Need::Golden(open) = need {
                lemma_settled(earlier, open, run::comparison(earlier, open, contents));
                lemma_settled(earlier, open, None);
                assert(run::after_read(run, Need::Golden(tally), contents) == after);
            }
        },
        Stage::Build(earlier) => {
            let output = choose|output: Result<Output, String>|
                after == #[trigger] run::after_build(earlier, output);
            if let Ok(output) = output {
                let (built, whole) = crate::compile::ingested(
                    crate::compile::unread(output.stderr@),
                    crate::text::lines(output.stdout@),
                    run::manifest_of(earlier.layout),
                );
                lemma_checking(earlier, built, seq![], seq![]);
            }
        },
        Stage::Resolve(earlier, built) => {
            lemma_checking(earlier, built, seq![], seq![]);
        },
        _ => {},
    }
}

} // verus!
