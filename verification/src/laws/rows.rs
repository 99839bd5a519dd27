//! What each line of a rendered diagnostic is, and what becomes of it.

use vstd::prelude::*;

use crate::laws::brief::{
    lemma_headings_are_the_same, level_width, opens_message, padded_by,
};
use crate::laws::text::{begins, law_a_text_begins_with_its_start};
use crate::normalize;
use crate::normalize::spans;
use crate::normalize::spans::Row;
use crate::text;

verus! {

// ---------------------------------------------------------------------------
// What each line is.
// ---------------------------------------------------------------------------

/// The first line of a message attached to a diagnostic.
pub open spec fn attaches_message(line: Seq<char>) -> bool {
    !opens_message(line) && (begins(line, "note"@) || begins(line, "help"@))
}

/// The first line of a message of either kind.
pub open spec fn opens(line: Seq<char>) -> bool {
    opens_message(line) || attaches_message(line)
}

/// The message that `first` opens, whose text begins `width` bytes in, has not
/// ended before `at`: every line between is blank or padded that far.
pub open spec fn is_open(lines: Seq<Seq<char>>, first: int, width: nat, at: int) -> bool {
    &&& 0 <= first < at <= lines.len()
    &&& opens(lines[first])
    &&& level_width(lines[first]) == Some(width)
    &&& forall|i: int|
        first < i < at ==> !opens(#[trigger] lines[i]) && (text::is_blank(lines[i]) || padded_by(
            lines[i],
        ) >= width)
}

/// The line at `at` is a later line of a message.
pub open spec fn is_text(lines: Seq<Seq<char>>, at: int) -> bool {
    !opens(lines[at]) && !text::is_blank(lines[at]) && exists|first: int, width: nat|
        #[trigger] is_open(lines, first, width, at) && padded_by(lines[at]) >= width
}

/// The line at `at` is a span header.
pub open spec fn is_place(lines: Seq<Seq<char>>, at: int) -> bool {
    !opens(lines[at]) && !is_text(lines, at) && (begins(text::trim_start(lines[at]), "--> "@)
        || begins(text::trim_start(lines[at]), "::: "@))
}

/// `line` begins with exactly `n` digits.
pub open spec fn has_digits(line: Seq<char>, n: int) -> bool {
    &&& 0 <= n <= line.len()
    &&& forall|i: int| 0 <= i < n ==> '0' <= #[trigger] line[i] && line[i] <= '9'
    &&& n < line.len() ==> !('0' <= line[n] && line[n] <= '9')
}

/// `line` begins with a number of `n` digits, a space and, however far behind, what
/// separates the number from the code beside it.
pub open spec fn has_number(line: Seq<char>, n: int) -> bool {
    &&& has_digits(line, n)
    &&& 0 < n < line.len()
    &&& line[n] == ' '
    &&& {
        let code = text::trim_start(line.skip(n));
        code.len() != 0 && (code[0] == '|' || code[0] == '+' || code[0] == '-' || code[0] == '~')
    }
}

/// The line at `at` is a row of a snippet with a line number of `n` digits.
pub open spec fn is_numbered_row(lines: Seq<Seq<char>>, at: int, n: int) -> bool {
    !opens(lines[at]) && !is_text(lines, at) && !is_place(lines, at) && has_number(lines[at], n)
}

proof fn lemma_digit_count(line: Seq<char>)
    ensures
        has_digits(line, spans::digit_count(line) as int),
        forall|n: int| #[trigger] has_digits(line, n) ==> n == spans::digit_count(line),
    decreases line.len(),
{
    if line.len() != 0 && '0' <= line[0] && line[0] <= '9' {
        let rest = line.skip(1);
        lemma_digit_count(rest);
        let count = spans::digit_count(line) as int;
        assert forall|i: int| 0 <= i < count implies '0' <= #[trigger] line[i] && line[i]
            <= '9' by {
            if i > 0 {
                assert(rest[i - 1] == line[i]);
            }
        }
        if count < line.len() {
            assert(rest[count - 1] == line[count]);
        }
        assert forall|n: int| #[trigger] has_digits(line, n) implies n == count by {
            assert(n > 0);
            assert forall|i: int| 0 <= i < n - 1 implies '0' <= #[trigger] rest[i] && rest[i]
                <= '9' by {
                assert(rest[i] == line[i + 1]);
            }
            if n < line.len() {
                assert(rest[n - 1] == line[n]);
            }
            assert(has_digits(rest, n - 1));
        }
    } else {
        assert forall|n: int| #[trigger] has_digits(line, n) implies n == 0 by {
            if n > 0 {
                assert('0' <= line[0]);
            }
        }
    }
}

proof fn lemma_line_kinds(line: Seq<char>)
    ensures
        spans::opens_diagnostic(line) == opens_message(line),
        !opens_message(line) ==> spans::opens_child(line) == attaches_message(line),
        spans::has_arrow(text::trim_start(line)) == (begins(text::trim_start(line), "--> "@)
            || begins(text::trim_start(line), "::: "@)),
        spans::is_numbered(line) == has_number(line, spans::digit_count(line) as int),
{
    lemma_headings_are_the_same(line);
    law_a_text_begins_with_its_start(line, "note"@);
    law_a_text_begins_with_its_start(line, "help"@);
    law_a_text_begins_with_its_start(text::trim_start(line), "--> "@);
    law_a_text_begins_with_its_start(text::trim_start(line), "::: "@);
    lemma_digit_count(line);
    let n = spans::digit_count(line) as int;
    if n < line.len() {
        assert(line.skip(n)[0] == line[n]);
    }
}

proof fn lemma_open_message(lines: Seq<Seq<char>>, at: int)
    requires
        0 <= at <= lines.len(),
    ensures
        forall|first: int, width: nat| #[trigger]
            is_open(lines, first, width, at) ==> spans::open_message(lines.take(at)) == Some(width),
        spans::open_message(lines.take(at)) matches Some(width) ==> exists|first: int| #[trigger]
            is_open(lines, first, width, at),
    decreases at,
{
    if at > 0 {
        let line = lines[at - 1];
        lemma_open_message(lines, at - 1);
        lemma_line_kinds(line);
        lemma_headings_are_the_same(line);
        let before = spans::open_message(lines.take(at - 1));
        let now = spans::open_message(lines.take(at));
        assert(lines.take(at).drop_last() =~= lines.take(at - 1));
        assert(lines.take(at).last() == line);
        assert forall|first: int, width: nat| #[trigger] is_open(
            lines,
            first,
            width,
            at,
        ) implies now == Some(width) by {
            if first < at - 1 {
                assert(is_open(lines, first, width, at - 1));
                assert(!opens(lines[at - 1]));
            }
        }
        if let Some(width) = now {
            if opens(line) {
                assert(is_open(lines, at - 1, width, at));
            } else {
                let first = choose|first: int| #[trigger] is_open(lines, first, width, at - 1);
                assert(is_open(lines, first, width, at));
            }
        }
    }
}

/// What each line of a rendered diagnostic is read as. A line that is padded as far
/// as the text of the message above it is the text of that message, whatever it
/// looks like.
#[verifier::rlimit(40)]
pub proof fn law_what_each_line_is(lines: Seq<Seq<char>>, at: int)
    requires
        0 <= at < lines.len(),
    ensures
        spans::row_at(lines, at) is Diagnostic <==> opens_message(lines[at]),
        spans::row_at(lines, at) is Child <==> attaches_message(lines[at]),
        spans::row_at(lines, at) is Text <==> is_text(lines, at),
        spans::row_at(lines, at) is Header <==> is_place(lines, at),
        spans::row_at(lines, at) is Numbered <==> is_numbered_row(
            lines,
            at,
            spans::digit_count(lines[at]) as int,
        ),
        has_digits(lines[at], spans::digit_count(lines[at]) as int),
{
    lemma_open_message(lines, at);
    lemma_line_kinds(lines[at]);
    lemma_headings_are_the_same(lines[at]);
    lemma_digit_count(lines[at]);
    let message = spans::open_message(lines.take(at));
    if is_text(lines, at) {
        let (first, width) = choose|first: int, width: nat|
            #[trigger] is_open(lines, first, width, at) && padded_by(lines[at]) >= width;
        assert(message == Some(width));
    }
    if let Some(width) = message {
        let first = choose|first: int| #[trigger] is_open(lines, first, width, at);
        assert(is_open(lines, first, width, at));
    }
}

// ---------------------------------------------------------------------------
// Which file a snippet is from.
// ---------------------------------------------------------------------------

/// The span header at `at` points into the fixture.
pub open spec fn is_at_home(lines: Seq<Seq<char>>, fixture: Seq<char>, at: int) -> bool {
    let place = text::trim(text::trim_start(lines[at]).skip(4));
    place == fixture || begins(place, fixture + ":"@)
}

/// No span header stands from `from` up to `to`.
pub open spec fn no_place_between(lines: Seq<Seq<char>>, from: int, to: int) -> bool {
    forall|i: int| from <= i < to ==> !#[trigger] is_place(lines, i)
}

/// The diagnostic that the lines before `at` belong to begins at `from`: the line
/// there opens it, or the lines do, and none behind opens another.
pub open spec fn begins_diagnostic(lines: Seq<Seq<char>>, from: int, at: int) -> bool {
    &&& 0 <= from <= at <= lines.len()
    &&& from == 0 || (from < at && opens_message(lines[from]))
    &&& forall|i: int| from < i < at ==> !opens_message(#[trigger] lines[i])
}

/// Of the lines before `at`, the one at `last` is the last that opens a message or
/// is a span header.
pub open spec fn is_last_anchor(lines: Seq<Seq<char>>, last: int, at: int) -> bool {
    &&& 0 <= last < at
    &&& opens(lines[last]) || is_place(lines, last)
    &&& no_place_between(lines, last + 1, at)
    &&& forall|i: int| last < i < at ==> !opens(#[trigger] lines[i])
}

proof fn lemma_home(lines: Seq<Seq<char>>, fixture: Seq<char>, at: int)
    ensures
        normalize::names_place_in(spans::target(lines[at]), fixture) == is_at_home(
            lines,
            fixture,
            at,
        ),
{
    reveal_strlit(":");
    assert(fixture + ":"@ =~= fixture.push(':'));
    law_a_text_begins_with_its_start(spans::target(lines[at]), fixture.push(':'));
}

proof fn lemma_locality_step(lines: Seq<Seq<char>>, fixture: Seq<char>, at: int)
    requires
        0 < at <= lines.len(),
    ensures
        spans::locality(lines.take(at), fixture) == spans::locality_after(
            spans::locality(lines.take(at - 1), fixture),
            lines[at - 1],
            spans::row_at(lines, at - 1),
            fixture,
        ),
{
    assert(lines.take(at).drop_last() =~= lines.take(at - 1));
    assert(lines.take(at).last() == lines[at - 1]);
}

/// What is kept of the first span header of a diagnostic.
proof fn lemma_first_place(lines: Seq<Seq<char>>, fixture: Seq<char>, from: int, at: int)
    requires
        begins_diagnostic(lines, from, at),
    ensures
        no_place_between(lines, from, at) ==> spans::locality(lines.take(at), fixture).first
            is None,
        forall|first: int|
            from <= first < at && #[trigger] is_place(lines, first) && no_place_between(
                lines,
                from,
                first,
            ) ==> spans::locality(lines.take(at), fixture).first == Some(
                is_at_home(lines, fixture, first),
            ),
    decreases at,
{
    if at > 0 {
        lemma_locality_step(lines, fixture, at);
        law_what_each_line_is(lines, at - 1);
        lemma_home(lines, fixture, at - 1);
        if from < at - 1 || (from == 0 && at - 1 == 0 && !opens_message(lines[0])) {
            lemma_first_place(lines, fixture, from, at - 1);
            if no_place_between(lines, from, at - 1) && !no_place_between(lines, from, at) {
                assert(is_place(lines, at - 1));
            }
            assert forall|first: int|
                from <= first < at && #[trigger] is_place(lines, first) && no_place_between(
                    lines,
                    from,
                    first,
                ) implies spans::locality(lines.take(at), fixture).first == Some(
                is_at_home(lines, fixture, first),
            ) by {
                if first == at - 1 {
                    assert(spans::locality(lines.take(at - 1), fixture).first is None);
                }
            }
        }
    }
}

/// Which file a snippet row stands in: that of the span header above it. Where a
/// message is attached in between, that of the first span header of the
/// diagnostic. Where there is none, the fixture.
#[verifier::rlimit(40)]
pub proof fn law_which_file_a_snippet_is_from(
    lines: Seq<Seq<char>>,
    fixture: Seq<char>,
    last: int,
    from: int,
    first: int,
    at: int,
)
    requires
        0 <= at <= lines.len(),
    ensures
        (forall|i: int| 0 <= i < at ==> !opens(#[trigger] lines[i])) && no_place_between(
            lines,
            0,
            at,
        ) ==> spans::locality(lines.take(at), fixture).here,
        is_last_anchor(lines, last, at) && is_place(lines, last) ==> spans::locality(
            lines.take(at),
            fixture,
        ).here == is_at_home(lines, fixture, last),
        is_last_anchor(lines, last, at) && opens_message(lines[last]) ==> spans::locality(
            lines.take(at),
            fixture,
        ).here,
        is_last_anchor(lines, last, at) && attaches_message(lines[last]) && begins_diagnostic(
            lines,
            from,
            last,
        ) && from <= first < last && is_place(lines, first) && no_place_between(lines, from, first)
            ==> spans::locality(lines.take(at), fixture).here == is_at_home(lines, fixture, first),
        is_last_anchor(lines, last, at) && attaches_message(lines[last]) && begins_diagnostic(
            lines,
            from,
            last,
        ) && no_place_between(lines, from, last) ==> spans::locality(lines.take(at), fixture).here,
    decreases at,
{
    if at > 0 {
        lemma_locality_step(lines, fixture, at);
        law_what_each_line_is(lines, at - 1);
        lemma_home(lines, fixture, at - 1);
        if last == at - 1 {
            if begins_diagnostic(lines, from, last) {
                lemma_first_place(lines, fixture, from, last);
            }
            if (forall|i: int| 0 <= i < at ==> !opens(#[trigger] lines[i])) {
                assert(!opens(lines[at - 1]));
            }
            if no_place_between(lines, 0, at) {
                assert(!is_place(lines, at - 1));
            }
            law_which_file_a_snippet_is_from(lines, fixture, -1, from, first, at - 1);
        } else {
            law_which_file_a_snippet_is_from(lines, fixture, last, from, first, at - 1);
            if is_last_anchor(lines, last, at) {
                assert(is_last_anchor(lines, last, at - 1));
                assert(!opens(lines[at - 1]));
                assert(!is_place(lines, at - 1));
            }
            if (forall|i: int| 0 <= i < at ==> !opens(#[trigger] lines[i])) {
                assert(!opens(lines[at - 1]));
            }
            if no_place_between(lines, 0, at) {
                assert(!is_place(lines, at - 1));
            }
        }
    }
}

} // verus!
