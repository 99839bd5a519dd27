//! What holds of what a run reports.

use vstd::prelude::*;

use crate::outcome;
use crate::outcome::{Problem, Summary, Verdict};
use crate::path;
use crate::text;

verus! {

/// A run succeeds exactly where nothing went wrong with it as a whole and nothing
/// is left of its fixtures once those that held up are taken away.
pub proof fn law_success_is_having_no_failure(summary: Summary)
    ensures
        outcome::succeeded(summary) <==> summary.setup.len() == 0 && outcome::failed(
            summary.cases,
        ).len() == 0,
{
    outcome::lemma_failed(summary.cases);
}

/// The fixtures that did not hold up, and no others, are what is counted as
/// failed, each as it came.
pub proof fn law_failures_are_the_cases_that_failed(cases: Seq<Verdict>)
    ensures
        outcome::failed(cases) == cases.filter(|case: Verdict| case.failure is Some),
    decreases cases.len(),
{
    reveal(Seq::filter);
    if cases.len() != 0 {
        law_failures_are_the_cases_that_failed(cases.drop_last());
    }
}

/// The report of a run that did not succeed is not that of one that did.
pub proof fn law_a_report_says_whether_the_run_succeeded(a: Summary, b: Summary)
    requires
        outcome::succeeded(a),
        !outcome::succeeded(b),
    ensures
        outcome::report(a) != outcome::report(b),
{
    law_success_is_having_no_failure(a);
    law_success_is_having_no_failure(b);
    reveal_strlit("nocompile: ");
    reveal_strlit(" case(s) passed");
    reveal_strlit(" of ");
    let first = outcome::report(a);
    let second = outcome::report(b);
    let m = text::decimal(a.cases.len());
    let n = text::decimal(outcome::failed(b.cases).len());
    lemma_decimal_is_digits(a.cases.len());
    lemma_decimal_is_digits(outcome::failed(b.cases).len());
    // Past the counts, one goes on with ` case(s) passed` and the other with ` of `.
    assert(first[11int + m.len()] == ' ');
    assert(second[11int + n.len()] == ' ');
    assert(first[11int + m.len() + 1] == 'c');
    assert(second[11int + n.len() + 1] == 'o');
    assert(forall|i: int| 0 <= i < m.len() ==> first[11 + i] == #[trigger] m[i]);
    assert(forall|i: int| 0 <= i < n.len() ==> second[11 + i] == #[trigger] n[i]);
    if first == second {
        if m.len() < n.len() {
            assert(second[11int + m.len()] == n[m.len() as int]);
        } else if n.len() < m.len() {
            assert(first[11int + n.len()] == m[n.len() as int]);
        }
    }
}

proof fn lemma_decimal_is_digits(n: nat)
    ensures
        text::decimal(n).len() != 0,
        forall|i: int| 0 <= i < text::decimal(n).len() ==> #[trigger] text::decimal(n)[i] != ' ',
    decreases n,
{
    if n >= 10 {
        lemma_decimal_is_digits(n / 10);
    }
}

/// What a report says of one fixture that failed.
pub open spec fn said_of(case: Verdict) -> Seq<char> {
    "\nFAIL "@ + path::shown(case.path) + " ("@ + outcome::kind_label(case.kind) + ")\n"@
        + outcome::indented(case.failure->0)
}

/// What a report says of one thing that went wrong with the run as a whole.
pub open spec fn said_of_setup(problem: Problem) -> Seq<char> {
    "\nSETUP FAILED\n"@ + outcome::indented(problem)
}

proof fn lemma_occurs_further(text: Seq<char>, more: Seq<char>, part: Seq<char>)
    requires
        text::contains(text, part),
    ensures
        text::contains(text + more, part),
        text::contains(more + text, part),
{
    let at = choose|at: int| text::occurs_at(text, part, at);
    assert((text + more).subrange(at, at + part.len()) =~= text.subrange(at, at + part.len()));
    assert(text::occurs_at(text + more, part, at));
    let further = more.len() + at;
    assert((more + text).subrange(further, further + part.len()) =~= text.subrange(
        at,
        at + part.len(),
    ));
    assert(text::occurs_at(more + text, part, further));
}

proof fn lemma_ends_with(before: Seq<char>, part: Seq<char>)
    ensures
        text::contains(before + part, part),
{
    let at = before.len() as int;
    assert((before + part).subrange(at, at + part.len()) =~= part);
    assert(text::occurs_at(before + part, part, at));
}

proof fn lemma_case_is_reported(failed: Seq<Verdict>, at: int)
    requires
        0 <= at < failed.len(),
    ensures
        text::contains(outcome::cases_report(failed), said_of(failed[at])),
    decreases failed.len(),
{
    let rest = failed.drop_last();
    let before = outcome::cases_report(rest);
    let last = failed.last();
    assert(outcome::cases_report(failed) =~= before + said_of(last));
    if at == rest.len() {
        lemma_ends_with(before, said_of(last));
    } else {
        lemma_case_is_reported(rest, at);
        lemma_occurs_further(before, said_of(last), said_of(failed[at]));
    }
}

proof fn lemma_setup_is_reported(setup: Seq<Problem>, at: int)
    requires
        0 <= at < setup.len(),
    ensures
        text::contains(outcome::setup_report(setup), said_of_setup(setup[at])),
    decreases setup.len(),
{
    let rest = setup.drop_last();
    let before = outcome::setup_report(rest);
    let last = setup.last();
    assert(outcome::setup_report(setup) =~= before + said_of_setup(last));
    if at == rest.len() {
        lemma_ends_with(before, said_of_setup(last));
    } else {
        lemma_setup_is_reported(rest, at);
        lemma_occurs_further(before, said_of_setup(last), said_of_setup(setup[at]));
    }
}

proof fn lemma_failed_holds(cases: Seq<Verdict>, at: int)
    requires
        0 <= at < cases.len(),
        cases[at].failure is Some,
    ensures
        outcome::failed(cases).contains(cases[at]),
    decreases cases.len(),
{
    let rest = cases.drop_last();
    let all = outcome::failed(cases);
    if at == rest.len() {
        assert(all[all.len() - 1] == cases[at]);
    } else {
        lemma_failed_holds(rest, at);
        let i = outcome::failed(rest).index_of(cases[at]);
        assert(all[i] == cases[at]);
    }
}

/// A report names every fixture that did not hold up, with its path, its kind and
/// all of its failure, not just the first.
pub proof fn law_every_failed_case_is_in_the_report(summary: Summary, at: int)
    requires
        0 <= at < summary.cases.len(),
        summary.cases[at].failure is Some,
    ensures
        text::contains(outcome::report(summary), said_of(summary.cases[at])),
{
    let bad = outcome::failed(summary.cases);
    lemma_failed_holds(summary.cases, at);
    let i = bad.index_of(summary.cases[at]);
    lemma_case_is_reported(bad, i);
    let head = "nocompile: "@ + text::decimal(bad.len()) + " of "@ + text::decimal(
        summary.cases.len(),
    ) + " case(s) failed\n"@ + outcome::setup_report(summary.setup);
    assert(outcome::report(summary) =~= head + outcome::cases_report(bad));
    lemma_occurs_further(outcome::cases_report(bad), head, said_of(summary.cases[at]));
}

/// A report holds everything that went wrong with the run as a whole.
pub proof fn law_every_setup_failure_is_in_the_report(summary: Summary, at: int)
    requires
        0 <= at < summary.setup.len(),
    ensures
        text::contains(outcome::report(summary), said_of_setup(summary.setup[at])),
{
    let bad = outcome::failed(summary.cases);
    lemma_setup_is_reported(summary.setup, at);
    let said = said_of_setup(summary.setup[at]);
    let head = "nocompile: "@ + text::decimal(bad.len()) + " of "@ + text::decimal(
        summary.cases.len(),
    ) + " case(s) failed\n"@;
    lemma_occurs_further(outcome::setup_report(summary.setup), head, said);
    lemma_occurs_further(
        head + outcome::setup_report(summary.setup),
        outcome::cases_report(bad),
        said,
    );
    assert(outcome::report(summary) =~= head + outcome::setup_report(summary.setup)
        + outcome::cases_report(bad));
}

} // verus!
