//! What becomes of lists, of diagnostics, and of a whole text.

use vstd::prelude::*;

use crate::laws::brief::opens_message;
use crate::laws::brief::lemma_headings_are_the_same;
use crate::laws::gutter::is_decimal;
use crate::laws::ingest::stands_at;
use crate::laws::normalize::{are_listed, is_listed, lemma_shown_list};
use crate::laws::text::{begins, law_a_text_begins_with_its_start};
use crate::normalize;
use crate::normalize::implementors;
use crate::normalize::paths;
use crate::normalize::spans;
use crate::normalize::Rules;
use crate::text;

verus! {

// ---------------------------------------------------------------------------
// Lists of implementors.
// ---------------------------------------------------------------------------

/// The line a list of implementors stands under.
pub open spec fn heads_list(line: Seq<char>) -> bool {
    let rest = text::trim_start(line);
    let whole = text::trim_end(line);
    &&& begins(rest, "= help: the following "@)
    &&& exists|at: int| #[trigger] stands_at(rest, "types implement trait `"@, at)
    &&& whole.len() != 0 && whole.last() == ':'
}

/// The line that counts what is left out of a list.
pub open spec fn counts_others(line: Seq<char>) -> bool {
    exists|number: Seq<char>| #[trigger]
        is_decimal(number) && text::trim(line) == "and "@ + number + " others"@
}

/// `n` spaces.
pub open spec fn blanks(n: nat) -> Seq<char> {
    Seq::new(n, |i: int| ' ')
}

/// What is shown of `entries`, which are printed with their count at `column`.
pub open spec fn shown_of(entries: Seq<Seq<char>>, column: nat, elide: bool) -> Seq<Seq<char>> {
    let count = blanks(column) + "and $N others"@;
    let counted = entries.len() != 0 && counts_others(entries.last());
    let types = if counted {
        entries.drop_last()
    } else {
        entries
    };
    if entries.len() == 0 {
        seq![]
    } else if elide {
        seq![blanks(column + 2) + "$IMPLEMENTORS"@]
    } else if types.len() > 8 {
        types.take(8) + seq![count]
    } else if counted {
        types + seq![count]
    } else {
        types
    }
}

/// As many spaces are written as are asked for.
pub proof fn law_spaces_are_spaces(n: nat)
    ensures
        spans::spaces(n) == blanks(n),
    decreases n,
{
    if n > 0 {
        law_spaces_are_spaces((n - 1) as nat);
        assert(spans::spaces(n) =~= blanks(n));
    } else {
        assert(spans::spaces(n) =~= blanks(n));
    }
}

/// A list of implementors stands under a line that says which types implement a
/// trait, and ends with a colon.
pub proof fn law_what_heads_a_list(line: Seq<char>)
    ensures
        implementors::is_list_heading(line) == heads_list(line),
{
    let rest = text::trim_start(line);
    let subject = "types implement trait `"@;
    law_a_text_begins_with_its_start(rest, "= help: the following "@);
    if let Some(at) = text::found_from(rest, subject, 0) {
        crate::laws::text::law_what_is_found_first_is_the_first(rest, ' ', subject, 0);
        crate::laws::ingest::lemma_occurs(rest, subject, at);
        assert(stands_at(rest, subject, at));
    } else {
        crate::laws::text::law_what_is_found_first_is_the_first(rest, ' ', subject, 0);
        assert forall|at: int| !#[trigger] stands_at(rest, subject, at) by {
            crate::laws::ingest::lemma_occurs(rest, subject, at);
            if stands_at(rest, subject, at) {
                assert(rest.subrange(at, at + subject.len()) == subject);
            }
        }
    }
}

/// The count at the end of a list is `and`, a number and `others`, and nothing else.
pub proof fn law_what_counts_others(line: Seq<char>)
    ensures
        implementors::is_count(line) == counts_others(line),
{
    let counted = text::trim(line);
    reveal_strlit("and ");
    reveal_strlit(" others");
    law_a_text_begins_with_its_start(counted, "and "@);
    if implementors::is_count(line) {
        let n = counted.len() - 11;
        let number = counted.subrange(4, 4 + n);
        assert(is_decimal(number));
        assert(counted =~= "and "@ + number + " others"@) by {
            assert forall|i: int| 4 + n <= i < counted.len() implies counted[i]
                == " others"@[i - 4 - n] by {
                assert(counted.skip(4 + n)[i - 4 - n] == counted[i]);
            }
            assert forall|i: int| 0 <= i < 4 implies counted[i] == "and "@[i] by {
                assert(begins(counted, "and "@));
            }
        }
    }
    if counts_others(line) {
        let number = choose|number: Seq<char>| #[trigger]
            is_decimal(number) && counted == "and "@ + number + " others"@;
        let n = number.len() as int;
        assert(counted.subrange(4, 4 + n) =~= number);
        assert(counted.skip(4 + n) =~= " others"@);
        assert(begins(counted, "and "@));
    }
}

proof fn lemma_count_line(column: nat)
    ensures
        implementors::count_line(column) == blanks(column) + "and $N others"@,
{
    law_spaces_are_spaces(column);
    reveal_strlit("and ");
    reveal_strlit("$N");
    reveal_strlit(" others");
    reveal_strlit("and $N others");
    assert(implementors::count_line(column) =~= blanks(column) + "and $N others"@);
}

/// Every list of implementors is shown: its heading, and of the entries under it,
/// where there are any, what does not depend on which crates are built. That is all
/// of them up to eight, and behind them that there are others where some are left
/// out. Where lists are elided it is one line. Other lines stay as they are.
#[verifier::rlimit(40)]
pub proof fn law_what_is_shown_of_every_list(
    line: Seq<char>,
    entries: Seq<Seq<char>>,
    rest: Seq<Seq<char>>,
    elide: bool,
)
    requires
        heads_list(line),
        forall|i: int|
            0 <= i < entries.len() ==> !text::is_blank(#[trigger] entries[i]) && text::indent_len(
                entries[i],
            ) >= text::indent_len(line) + 8,
        rest.len() != 0 ==> text::is_blank(rest[0]) || text::indent_len(rest[0])
            < text::indent_len(line) + 8,
    ensures
        implementors::with_lists(seq![line] + entries + rest, elide) == seq![line] + shown_of(
            entries,
            (text::indent_len(line) + 8) as nat,
            elide,
        ) + implementors::with_lists(rest, elide),
{
    law_what_heads_a_list(line);
    let column = implementors::list_column(line);
    text::lemma_trim_start(line);
    assert(are_listed(entries, column)) by {
        assert forall|i: int| 0 <= i < entries.len() implies is_listed(
            #[trigger] entries[i],
            column,
        ) by {
            assert(!text::is_blank(entries[i]));
        }
    }
    lemma_shown_list(line, entries, rest, elide);
    law_spaces_are_spaces(column + 2);
    lemma_count_line(column);
    if entries.len() != 0 {
        law_what_counts_others(entries.last());
        let types = if counts_others(entries.last()) {
            entries.drop_last()
        } else {
            entries
        };
        if types.len() > 8 {
            assert(types.take(8).push(implementors::count_line(column)) =~= types.take(8)
                + seq![implementors::count_line(column)]);
        }
        assert(types.push(implementors::count_line(column)) =~= types
            + seq![implementors::count_line(column)]);
    }
    assert(implementors::shown_entries(entries, column, elide) =~= shown_of(
        entries,
        column,
        elide,
    ));
}

/// A line that heads no list stays, whatever is behind it.
pub proof fn law_a_line_that_heads_no_list_stays(
    line: Seq<char>,
    rest: Seq<Seq<char>>,
    elide: bool,
)
    ensures
        !heads_list(line) ==> implementors::with_lists(seq![line] + rest, elide) == seq![line]
            + implementors::with_lists(rest, elide),
        implementors::with_lists(seq![], elide) == Seq::<Seq<char>>::empty(),
{
    law_what_heads_a_list(line);
    let all = seq![line] + rest;
    assert(all[0] == line);
    assert(all.skip(1) =~= rest);
}

// ---------------------------------------------------------------------------
// A whole text.
// ---------------------------------------------------------------------------

proof fn lemma_before_next(lines: Seq<Seq<char>>, more: Seq<Seq<char>>)
    requires
        forall|i: int| 0 <= i < lines.len() ==> !opens_message(#[trigger] lines[i]),
        more.len() != 0 ==> opens_message(more[0]),
    ensures
        normalize::before_next(lines + more) == lines.len(),
    decreases lines.len(),
{
    let all = lines + more;
    if lines.len() == 0 {
        if more.len() != 0 {
            assert(all[0] == more[0]);
            lemma_headings_are_the_same(more[0]);
        }
    } else {
        let rest = lines.skip(1);
        assert(all[0] == lines[0]);
        lemma_headings_are_the_same(lines[0]);
        assert forall|i: int| 0 <= i < rest.len() implies !opens_message(#[trigger] rest[i]) by {
            assert(rest[i] == lines[i + 1]);
        }
        lemma_before_next(rest, more);
        assert(all.skip(1) =~= rest + more);
    }
}

/// Every diagnostic of a text is tidied by itself: one goes from a line up to the
/// next that opens another. In it positions outside the fixture go, then the gutter
/// is narrowed, then lists are cut.
pub proof fn law_every_diagnostic_is_tidied_by_itself(
    first: Seq<char>,
    lines: Seq<Seq<char>>,
    more: Seq<Seq<char>>,
    fixture: Seq<char>,
    elide: bool,
)
    requires
        forall|i: int| 0 <= i < lines.len() ==> !opens_message(#[trigger] lines[i]),
        more.len() != 0 ==> opens_message(more[0]),
    ensures
        normalize::all_tidied(seq![first] + lines + more, fixture, elide)
            == implementors::with_lists(
            spans::realigned(spans::unplaced_lines(seq![first] + lines, fixture)),
            elide,
        ) + normalize::all_tidied(more, fixture, elide),
        normalize::all_tidied(seq![], fixture, elide) == Seq::<Seq<char>>::empty(),
{
    let all = seq![first] + lines + more;
    assert(all.skip(1) =~= lines + more);
    lemma_before_next(lines, more);
    let n = 1 + lines.len() as int;
    assert(all.take(n) =~= seq![first] + lines);
    assert(all.skip(n) =~= more);
}

proof fn lemma_settled(lines: Seq<Seq<char>>)
    ensures
        ({
            let kept = normalize::settled(lines);
            &&& kept.len() <= lines.len()
            &&& kept == lines.take(kept.len() as int)
            &&& kept.len() != 0 ==> kept.last().len() != 0
            &&& forall|i: int| kept.len() <= i < lines.len() ==> (#[trigger] lines[i]).len() == 0
        }),
    decreases lines.len(),
{
    if lines.len() != 0 && lines.last().len() == 0 {
        let rest = lines.drop_last();
        lemma_settled(rest);
        let kept = normalize::settled(lines);
        assert(rest.take(kept.len() as int) =~= lines.take(kept.len() as int));
        assert forall|i: int| kept.len() <= i < lines.len() implies (#[trigger] lines[i]).len()
            == 0 by {
            if i < rest.len() {
                assert(rest[i] == lines[i]);
            }
        }
    } else {
        assert(lines.take(lines.len() as int) =~= lines);
    }
}

/// A golden is made of every line of a text: what is known in it is replaced, its
/// diagnostics are tidied, and the white space at the end of each line goes, and
/// then the lines at the end that are left empty. No other line goes, and nothing
/// else is changed.
#[verifier::rlimit(40)]
pub proof fn law_a_golden_is_made_of_every_line(
    rules: Rules,
    text: Seq<char>,
    fixture: Seq<char>,
)
    ensures
        ({
            let lines = text::lines(text);
            let table = normalize::replacements(rules, fixture);
            let known = Seq::new(lines.len(), |i: int| paths::rewritten(lines[i], table));
            let tidy = normalize::all_tidied(known, fixture, rules.elide);
            let kept = normalize::normalized_lines(rules, text, fixture);
            &&& kept.len() <= tidy.len()
            &&& forall|i: int|
                0 <= i < kept.len() ==> #[trigger] kept[i] == text::trim_end(tidy[i])
            &&& forall|i: int|
                kept.len() <= i < tidy.len() ==> text::is_blank(#[trigger] tidy[i])
            &&& kept.len() != 0 ==> !text::is_blank(tidy[kept.len() - 1])
            &&& normalize::normalized(rules, text, fixture) == text::unlines(kept)
        }),
{
    let lines = text::lines(text);
    let table = normalize::replacements(rules, fixture);
    let known = Seq::new(lines.len(), |i: int| paths::rewritten(lines[i], table));
    assert(normalize::replaced(lines, table) =~= known);
    let tidy = normalize::all_tidied(known, fixture, rules.elide);
    let stripped = normalize::stripped(tidy);
    let kept = normalize::normalized_lines(rules, text, fixture);
    lemma_settled(stripped);
    assert forall|i: int| 0 <= i < kept.len() implies #[trigger] kept[i] == text::trim_end(
        tidy[i],
    ) by {
        assert(stripped[i] == text::trim_end(tidy[i]));
    }
    assert forall|i: int| 0 <= i < tidy.len() implies (text::is_blank(#[trigger] tidy[i])
        <==> stripped[i].len() == 0) by {
        text::lemma_trim_end(tidy[i]);
        let n = text::trim_end(tidy[i]).len() as int;
        if n > 0 {
            assert(text::trim_end(tidy[i])[n - 1] == tidy[i][n - 1]);
        }
    }
    if kept.len() != 0 {
        assert(kept.last() == stripped[kept.len() - 1]);
    }
}

} // verus!
