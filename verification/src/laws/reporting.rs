//! What a report says, word by word.

use vstd::prelude::*;

use crate::compare::Mode;
use crate::diff;
use crate::laws::ingest::{lemma_occurs, stands_at};
use crate::laws::manifest::lemma_joined;
use crate::laws::outcome::law_failures_are_the_cases_that_failed;
use crate::outcome;
use crate::outcome::{Kind, Problem, Summary, Verdict};
use crate::path;
use crate::path::Part;
use crate::text;

verus! {

// ---------------------------------------------------------------------------
// The report.
// ---------------------------------------------------------------------------

/// `line`, four columns to the right. An empty line stays empty.
pub open spec fn shifted(line: Seq<char>) -> Seq<char> {
    if line.len() == 0 {
        "\n"@
    } else {
        "    "@ + line + "\n"@
    }
}

/// What is said of a failure under its heading.
pub open spec fn told(problem: Problem) -> Seq<char> {
    text::lines(outcome::message(problem)).map_values(|line: Seq<char>| shifted(line)).flatten()
}

/// The kind of a fixture, as it is called.
pub open spec fn called(kind: Kind) -> Seq<char> {
    match kind {
        Kind::CompileFail => "compile_fail"@,
        Kind::Pass => "pass"@,
    }
}

proof fn lemma_indented(lines: Seq<Seq<char>>)
    ensures
        outcome::indented_lines(lines) == lines.map_values(
            |line: Seq<char>| shifted(line),
        ).flatten(),
    decreases lines.len(),
{
    let written = |line: Seq<char>| shifted(line);
    if lines.len() == 0 {
        assert(lines.map_values(written).flatten() =~= seq![]);
    } else {
        lemma_indented(lines.drop_last());
        lemma_joined(lines, written);
        assert(outcome::indented_lines(lines) =~= outcome::indented_lines(lines.drop_last())
            + shifted(lines.last()));
    }
}

proof fn lemma_setup(setup: Seq<Problem>)
    ensures
        outcome::setup_report(setup) == setup.map_values(
            |problem: Problem| "\nSETUP FAILED\n"@ + told(problem),
        ).flatten(),
    decreases setup.len(),
{
    let written = |problem: Problem| "\nSETUP FAILED\n"@ + told(problem);
    if setup.len() == 0 {
        assert(setup.map_values(written).flatten() =~= seq![]);
    } else {
        lemma_setup(setup.drop_last());
        lemma_joined(setup, written);
        lemma_indented(text::lines(outcome::message(setup.last())));
        assert(outcome::setup_report(setup) =~= outcome::setup_report(setup.drop_last())
            + written(setup.last()));
    }
}

proof fn lemma_cases(failed: Seq<Verdict>)
    ensures
        outcome::cases_report(failed) == failed.map_values(
            |case: Verdict|
                "\nFAIL "@ + path::shown(case.path) + " ("@ + called(case.kind) + ")\n"@ + told(
                    case.failure->0,
                ),
        ).flatten(),
    decreases failed.len(),
{
    let written = |case: Verdict|
        "\nFAIL "@ + path::shown(case.path) + " ("@ + called(case.kind) + ")\n"@ + told(
            case.failure->0,
        );
    if failed.len() == 0 {
        assert(failed.map_values(written).flatten() =~= seq![]);
    } else {
        lemma_cases(failed.drop_last());
        lemma_joined(failed, written);
        lemma_indented(text::lines(outcome::message(failed.last().failure->0)));
        assert(outcome::cases_report(failed) =~= outcome::cases_report(failed.drop_last())
            + written(failed.last()));
    }
}

/// A report counts the fixtures, and, unless all is well, those that failed. Then
/// it tells everything that went wrong with the run, and every fixture that failed
/// with its path, its kind and why, each once and in order. That is all it says.
#[verifier::rlimit(40)]
pub proof fn law_what_a_report_says(summary: Summary)
    ensures
        ({
            let failed = summary.cases.filter(|case: Verdict| case.failure is Some);
            outcome::report(summary) == if summary.setup.len() == 0 && failed.len() == 0 {
                "nocompile: "@ + text::decimal(summary.cases.len()) + " case(s) passed"@
            } else {
                "nocompile: "@ + text::decimal(failed.len()) + " of "@ + text::decimal(
                    summary.cases.len(),
                ) + " case(s) failed\n"@ + summary.setup.map_values(
                    |problem: Problem| "\nSETUP FAILED\n"@ + told(problem),
                ).flatten() + failed.map_values(
                    |case: Verdict|
                        "\nFAIL "@ + path::shown(case.path) + " ("@ + called(case.kind) + ")\n"@
                            + told(case.failure->0),
                ).flatten()
            }
        }),
{
    law_failures_are_the_cases_that_failed(summary.cases);
    lemma_setup(summary.setup);
    lemma_cases(outcome::failed(summary.cases));
}

/// The notice of a blessing run names every golden it wrote, each on a line of its
/// own, in order.
pub proof fn law_every_golden_written_is_named(blessed: Seq<Seq<Part>>)
    ensures
        outcome::bless_notice(blessed) == blessed.map_values(
            |golden: Seq<Part>| "nocompile: wrote "@ + path::shown(golden) + "\n"@,
        ).flatten(),
    decreases blessed.len(),
{
    let written = |golden: Seq<Part>| "nocompile: wrote "@ + path::shown(golden) + "\n"@;
    if blessed.len() == 0 {
        assert(blessed.map_values(written).flatten() =~= seq![]);
    } else {
        law_every_golden_written_is_named(blessed.drop_last());
        lemma_joined(blessed, written);
        assert(outcome::bless_notice(blessed) =~= outcome::bless_notice(blessed.drop_last())
            + written(blessed.last()));
    }
}

proof fn lemma_fixture_list(fixtures: Seq<Seq<Part>>)
    ensures
        outcome::fixture_list(fixtures) == fixtures.map_values(
            |fixture: Seq<Part>| "    "@ + path::shown(fixture) + "\n"@,
        ).flatten(),
    decreases fixtures.len(),
{
    let written = |fixture: Seq<Part>| "    "@ + path::shown(fixture) + "\n"@;
    if fixtures.len() == 0 {
        assert(fixtures.map_values(written).flatten() =~= seq![]);
    } else {
        lemma_fixture_list(fixtures.drop_last());
        lemma_joined(fixtures, written);
        assert(outcome::fixture_list(fixtures) =~= outcome::fixture_list(fixtures.drop_last())
            + written(fixtures.last()));
    }
}

/// Where fixtures are not registered, the message says how many they are and where,
/// and then names every one of them on a line of its own, in order.
pub proof fn law_every_unregistered_fixture_is_named(
    directory: Seq<Part>,
    fixtures: Seq<Seq<Part>>,
)
    ensures
        ({
            let said = text::decimal(fixtures.len()) + " .rs file(s) under "@ + path::shown(
                directory,
            ) + " are not registered, so they are not tested:\n\n"@ + fixtures.map_values(
                |fixture: Seq<Part>| "    "@ + path::shown(fixture) + "\n"@,
            ).flatten();
            said.is_prefix_of(
                outcome::message(Problem::UnregisteredFixtures { directory, fixtures }),
            )
        }),
{
    lemma_fixture_list(fixtures);
    let said = text::decimal(fixtures.len()) + " .rs file(s) under "@ + path::shown(directory)
        + " are not registered, so they are not tested:\n\n"@ + outcome::fixture_list(fixtures);
    let whole = outcome::message(Problem::UnregisteredFixtures { directory, fixtures });
    assert(said =~= whole.subrange(0, said.len() as int));
}

// ---------------------------------------------------------------------------
// Messages.
// ---------------------------------------------------------------------------

/// A fixture that did not compile, a build that could not be run and a file that
/// could not be read or written are reported with all that was said of them.
pub proof fn law_what_was_said_is_passed_on(
    stderr: Seq<char>,
    context: Seq<char>,
    message: Seq<char>,
)
    ensures
        outcome::message(Problem::DidNotCompile { stderr })
            == "expected the fixture to compile, but it did not:\n\n"@ + stderr,
        outcome::message(Problem::Cargo { message })
            == "cargo could not run the fixture build:\n\n"@ + message,
        outcome::message(Problem::Io { context, message }) == context + ": "@ + message,
        outcome::message(Problem::Compiled)
            == "expected a compile error, but the fixture compiled"@,
{
}

/// Where a fixture gave no diagnostics, what cargo said is passed on where it said
/// anything, without the white space at its end, and behind nothing else.
pub proof fn law_what_cargo_said_is_passed_on(a: Seq<char>, b: Seq<char>)
    ensures
        text::is_blank(a) && text::is_blank(b) ==> outcome::message(
            Problem::NoDiagnostics { stderr: a },
        ) == outcome::message(Problem::NoDiagnostics { stderr: b }),
        !text::is_blank(a) ==> text::trim_end(a).is_suffix_of(
            outcome::message(Problem::NoDiagnostics { stderr: a }),
        ),
        !text::is_blank(a) && text::is_blank(b) ==> outcome::message(
            Problem::NoDiagnostics { stderr: b },
        ).is_prefix_of(outcome::message(Problem::NoDiagnostics { stderr: a })) && outcome::message(
            Problem::NoDiagnostics { stderr: b },
        ).len() < outcome::message(Problem::NoDiagnostics { stderr: a }).len(),
{
    let said = outcome::message(Problem::NoDiagnostics { stderr: a });
    let kept = text::trim_end(a);
    if !text::is_blank(a) {
        text::lemma_trim_end(a);
        assert(kept.len() != 0) by {
            if kept.len() == 0 {
                assert(text::is_blank(a));
            }
        }
        assert(kept =~= said.subrange(said.len() - kept.len(), said.len() as int));
        let head = outcome::NO_DIAGNOSTICS_TEXT@;
        assert(head =~= said.subrange(0, head.len() as int));
    }
}

/// A mismatch is reported with the golden, the mode, the line the texts first
/// differ at and the whole difference. That the difference does not show is said
/// where every line is the same, and that it may lie in the standard library is
/// said where either text points into it.
#[verifier::rlimit(40)]
pub proof fn law_what_a_mismatch_says(
    golden: Seq<Part>,
    expected: Seq<char>,
    actual: Seq<char>,
    mode: Mode,
)
    ensures
        ({
            let same = text::lines(expected) == text::lines(actual);
            let rust = (exists|at: int| #[trigger] stands_at(expected, "$RUST"@, at)) || (exists|
                at: int,
            | #[trigger]
                stands_at(actual, "$RUST"@, at));
            let shown = path::shown(golden);
            outcome::message(Problem::Mismatch { golden, expected, actual, mode })
                == "diagnostics do not match "@ + shown + " ("@ + match mode {
                Mode::Exact => "Exact"@,
                Mode::Brief => "Brief"@,
                Mode::BriefLocal => "BriefLocal"@,
            } + " mode)"@ + match diff::first_line_apart(expected, actual) {
                Some(line) => ", first difference at line "@ + text::decimal(line),
                None => seq![],
            } + "\n\n"@ + diff::difference(expected, actual, shown, "actual"@) + if same {
                "\n"@ + outcome::INVISIBLE_DIFFERENCE_HINT@ + "\n"@
            } else {
                seq![]
            } + if rust {
                "\n"@ + outcome::STD_SOURCE_HINT@ + "\n"@
            } else {
                seq![]
            } + "\nrun with NOCOMPILE=overwrite to update the golden"@
        }),
{
    lemma_contains(expected, "$RUST"@);
    lemma_contains(actual, "$RUST"@);
}

proof fn lemma_contains(text: Seq<char>, part: Seq<char>)
    ensures
        text::contains(text, part) <==> exists|at: int| #[trigger] stands_at(text, part, at),
{
    if text::contains(text, part) {
        let at = choose|at: int| text::occurs_at(text, part, at);
        lemma_occurs(text, part, at);
        assert(stands_at(text, part, at));
    }
    if exists|at: int| #[trigger] stands_at(text, part, at) {
        let at = choose|at: int| #[trigger] stands_at(text, part, at);
        lemma_occurs(text, part, at);
        assert(text::occurs_at(text, part, at));
    }
}

/// What else a run reports names what it is about.
#[verifier::rlimit(40)]
pub proof fn law_what_is_reported_names_what_it_is_about(
    place: Seq<Part>,
    name: Seq<char>,
    spelled: Seq<char>,
    registered: Kind,
    conflicting: Kind,
)
    ensures
        ("no golden at "@ + path::shown(place)).is_prefix_of(
            outcome::message(Problem::MissingGolden { golden: place }),
        ),
        ("no .rs fixtures directly in "@ + path::shown(place)).is_prefix_of(
            outcome::message(Problem::NoFixtures { directory: place }),
        ),
        path::shown(place).is_prefix_of(outcome::message(Problem::OrphanGolden { golden: place })),
        (path::shown(place) + " is registered as both "@ + called(registered) + " and "@ + called(
            conflicting,
        ) + ", and a fixture can only be one. This run checks it as "@ + called(
            registered,
        )).is_prefix_of(
            outcome::message(
                Problem::ConflictingRegistration { fixture: place, registered, conflicting },
            ),
        ),
        ("the fixture path "@ + spelled).is_prefix_of(
            outcome::message(Problem::NonUtf8Fixture { fixture: place, spelled }),
        ),
        ("dependency_path was given an empty name for the dependency at "@ + path::native(
            place,
        )).is_prefix_of(outcome::message(Problem::EmptyDependencyName { path: place })),
        ("dependency_path was given the name `"@ + name + "`, whose normalization placeholder "@
            + spelled).is_prefix_of(
            outcome::message(Problem::ReservedDependencyName { name, placeholder: spelled }),
        ),
        ("the path of dependency `"@ + name + "`, "@ + path::native(place)).is_prefix_of(
            outcome::message(Problem::NonUtf8Dependency { name, path: place }),
        ),
{
    let a = "no golden at "@ + path::shown(place);
    let m = outcome::message(Problem::MissingGolden { golden: place });
    assert(a =~= m.subrange(0, a.len() as int));
    let a = "no .rs fixtures directly in "@ + path::shown(place);
    let m = outcome::message(Problem::NoFixtures { directory: place });
    assert(a =~= m.subrange(0, a.len() as int));
    let a = path::shown(place);
    let m = outcome::message(Problem::OrphanGolden { golden: place });
    assert(a =~= m.subrange(0, a.len() as int));
    let a = path::shown(place) + " is registered as both "@ + called(registered) + " and "@
        + called(conflicting) + ", and a fixture can only be one. This run checks it as "@
        + called(registered);
    let m = outcome::message(
        Problem::ConflictingRegistration { fixture: place, registered, conflicting },
    );
    assert(a =~= m.subrange(0, a.len() as int));
    let a = "the fixture path "@ + spelled;
    let m = outcome::message(Problem::NonUtf8Fixture { fixture: place, spelled });
    assert(a =~= m.subrange(0, a.len() as int));
    let a = "dependency_path was given an empty name for the dependency at "@ + path::native(
        place,
    );
    let m = outcome::message(Problem::EmptyDependencyName { path: place });
    assert(a =~= m.subrange(0, a.len() as int));
    let a = "dependency_path was given the name `"@ + name
        + "`, whose normalization placeholder "@ + spelled;
    let m = outcome::message(Problem::ReservedDependencyName { name, placeholder: spelled });
    assert(a =~= m.subrange(0, a.len() as int));
    let a = "the path of dependency `"@ + name + "`, "@ + path::native(place);
    let m = outcome::message(Problem::NonUtf8Dependency { name, path: place });
    assert(a =~= m.subrange(0, a.len() as int));
}

/// Manifest lines that open no table are reported with the line that should, and a
/// manifest that cargo spells otherwise with both spellings.
pub proof fn law_what_was_given_is_quoted(
    line: Seq<char>,
    handed: Seq<Part>,
    reported: Seq<Part>,
)
    ensures
        ("raw_manifest_lines was given text that does not begin with a table header:\n\n    "@
            + line).is_prefix_of(
            outcome::message(Problem::RawManifestLinesWithoutHeader { line }),
        ),
        exists|at: int| #[trigger]
            stands_at(
                outcome::message(Problem::ManifestMismatch { handed, reported }),
                path::native(handed) + "\n    reported back:   "@ + path::native(reported),
                at,
            ),
{
    let a = "raw_manifest_lines was given text that does not begin with a table header:\n\n    "@
        + line;
    let m = outcome::message(Problem::RawManifestLinesWithoutHeader { line });
    assert(a =~= m.subrange(0, a.len() as int));
    let m = outcome::message(Problem::ManifestMismatch { handed, reported });
    let part = path::native(handed) + "\n    reported back:   "@ + path::native(reported);
    let at = outcome::MANIFEST_MISMATCH_TEXT@.len() as int;
    assert(m.subrange(at, at + part.len()) =~= part);
    lemma_occurs(m, part, at);
    assert(stands_at(m, part, at));
}

// ---------------------------------------------------------------------------
// The difference.
// ---------------------------------------------------------------------------

/// `lines`, each behind `mark`.
pub open spec fn behind(mark: char, lines: Seq<Seq<char>>) -> Seq<char> {
    lines.map_values(|line: Seq<char>| seq![mark] + line + seq!['\n']).flatten()
}

/// The lesser of two numbers.
pub open spec fn least(a: int, b: int) -> int {
    if a < b {
        a
    } else {
        b
    }
}

/// Where lines stand, as a hunk gives it: the first, counted from one, and how many
/// they are. Where there are none it is the line before.
pub open spec fn place(first: int, count: int) -> Seq<char> {
    text::decimal(
        (if count == 0 {
            first
        } else {
            first + 1
        }) as nat,
    ) + ","@ + text::decimal(count as nat)
}

proof fn lemma_marked(mark: char, lines: Seq<Seq<char>>)
    ensures
        diff::marked(mark, lines) == behind(mark, lines),
    decreases lines.len(),
{
    let written = |line: Seq<char>| seq![mark] + line + seq!['\n'];
    if lines.len() == 0 {
        assert(lines.map_values(written).flatten() =~= seq![]);
    } else {
        lemma_marked(mark, lines.drop_last());
        lemma_joined(lines, written);
        assert(diff::marked(mark, lines) =~= diff::marked(mark, lines.drop_last()) + written(
            lines.last(),
        ));
    }
}

/// What is shown of two texts that part at `start` and are the same again for the
/// last `tail` lines, neither earlier nor for more: where the hunk stands in both,
/// up to three lines they share before it, every line of the first that goes, every
/// line of the second that comes, and up to three lines they share behind.
pub proof fn law_what_is_shown_of_a_difference(
    expected: Seq<char>,
    actual: Seq<char>,
    left: Seq<char>,
    right: Seq<char>,
    start: int,
    tail: int,
)
    requires
        ({
            let a = text::lines(expected);
            let b = text::lines(actual);
            &&& a != b
            &&& 0 <= start && 0 <= tail
            &&& start + tail <= a.len() && start + tail <= b.len()
            &&& forall|i: int| 0 <= i < start ==> a[i] == b[i]
            &&& start < a.len() && start < b.len() ==> a[start] != b[start]
            &&& forall|i: int| 1 <= i <= tail ==> #[trigger] a[a.len() - i] == b[b.len() - i]
            &&& start + tail < a.len() && start + tail < b.len() ==> a[a.len() - tail - 1]
                != b[b.len() - tail - 1]
        }),
    ensures
        diff::difference(expected, actual, left, right) == "--- "@ + left + "\n+++ "@ + right
            + "\n"@ + shown_hunk(text::lines(expected), text::lines(actual), start, tail),
        text::lines(expected) != text::lines(actual),
{
    let a = text::lines(expected);
    let b = text::lines(actual);
    lemma_parts(a, b, start, tail);
    lemma_hunk(a, b, start, tail);
}

spec fn part_at(a: Seq<Seq<char>>, b: Seq<Seq<char>>, start: int, tail: int) -> bool {
    &&& 0 <= start && 0 <= tail
    &&& start + tail <= a.len() && start + tail <= b.len()
    &&& forall|i: int| 0 <= i < start ==> a[i] == b[i]
    &&& start < a.len() && start < b.len() ==> a[start] != b[start]
    &&& forall|i: int| 1 <= i <= tail ==> #[trigger] a[a.len() - i] == b[b.len() - i]
    &&& start + tail < a.len() && start + tail < b.len() ==> a[a.len() - tail - 1] != b[b.len()
        - tail - 1]
}

proof fn lemma_parts(a: Seq<Seq<char>>, b: Seq<Seq<char>>, start: int, tail: int)
    requires
        part_at(a, b, start, tail),
    ensures
        diff::common_start(a, b) == start,
        diff::common_tail(a, b) == tail,
{
    diff::lemma_common_start_is(a, b, start);
    let c = a.skip(start);
    let d = b.skip(start);
    assert forall|i: int| 1 <= i <= tail implies #[trigger] c[c.len() - i] == d[d.len() - i] by {
        assert(a[a.len() - i] == b[b.len() - i]);
    }
    diff::lemma_common_end_is(c, d, tail);
}

/// What is shown of lines that part at `start` and are the same again for the last
/// `tail`.
pub open spec fn shown_hunk(a: Seq<Seq<char>>, b: Seq<Seq<char>>, start: int, tail: int) -> Seq<
    char,
> {
    let lead = least(start, 3);
    let trail = least(tail, 3);
    let gone = a.subrange(start, a.len() - tail);
    let come = b.subrange(start, b.len() - tail);
    "@@ -"@ + place(start - lead, lead + gone.len() + trail) + " +"@ + place(
        start - lead,
        lead + come.len() + trail,
    ) + " @@\n"@ + behind(' ', a.subrange(start - lead, start)) + behind('-', gone) + behind(
        '+',
        come,
    ) + behind(' ', a.subrange(a.len() - tail, a.len() - tail + trail))
}

#[verifier::rlimit(40)]
proof fn lemma_hunk(a: Seq<Seq<char>>, b: Seq<Seq<char>>, start: int, tail: int)
    requires
        start + tail <= a.len(),
        start + tail <= b.len(),
        diff::common_start(a, b) == start,
        diff::common_tail(a, b) == tail,
    ensures
        diff::hunk(a, b) == shown_hunk(a, b, start, tail),
{
    let lead = least(start, 3);
    let trail = least(tail, 3);
    let gone = a.subrange(start, a.len() - tail);
    let come = b.subrange(start, b.len() - tail);
    assert(diff::lead(a, b) == lead && diff::trail(a, b) == trail);
    assert(diff::removed(a, b) == gone && diff::added(a, b) == come);
    lemma_marked(' ', a.subrange(start - lead, start));
    lemma_marked('-', gone);
    lemma_marked('+', come);
    lemma_marked(' ', a.subrange(a.len() - tail, a.len() - tail + trail));
    let first = (start - lead) as nat;
    assert(diff::range(first, gone.len() + (diff::lead(a, b) + diff::trail(a, b))) == place(
        start - lead,
        lead + gone.len() + trail,
    ));
    assert(diff::range(first, come.len() + (diff::lead(a, b) + diff::trail(a, b))) == place(
        start - lead,
        lead + come.len() + trail,
    ));
}

/// Of two texts whose lines are the same, nothing but the heading is shown.
pub proof fn law_nothing_is_shown_of_no_difference(
    expected: Seq<char>,
    actual: Seq<char>,
    left: Seq<char>,
    right: Seq<char>,
)
    requires
        text::lines(expected) == text::lines(actual),
    ensures
        diff::difference(expected, actual, left, right) == "--- "@ + left + "\n+++ "@ + right
            + "\n"@,
{
}

} // verus!
