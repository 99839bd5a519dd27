//! What becomes of positions and of the gutter they are printed in.

use vstd::prelude::*;

use crate::laws::rows::{
    has_digits, is_at_home, is_numbered_row, is_place, is_text, law_what_each_line_is, opens,
};
use crate::laws::text::{begins, law_a_text_begins_with_its_start};
use crate::normalize;
use crate::normalize::spans;
use crate::text;

verus! {

// ---------------------------------------------------------------------------
// Positions.
// ---------------------------------------------------------------------------

/// `text` is one or more decimal digits.
pub open spec fn is_decimal(text: Seq<char>) -> bool {
    text.len() != 0 && forall|i: int|
        0 <= i < text.len() ==> '0' <= #[trigger] text[i] && text[i] <= '9'
}

/// `text` is `place`, a colon and a number.
pub open spec fn is_numbered_place(text: Seq<char>, place: Seq<char>) -> bool {
    &&& place.len() + 1 < text.len()
    &&& text.take(place.len() as int) == place
    &&& text[place.len() as int] == ':'
    &&& is_decimal(text.skip(place.len() + 1int))
}

proof fn lemma_trailing(text: Seq<char>)
    ensures
        spans::trailing_digits(text) <= text.len(),
        forall|i: int|
            text.len() - spans::trailing_digits(text) <= i < text.len() ==> '0'
                <= #[trigger] text[i] && text[i] <= '9',
        spans::trailing_digits(text) < text.len() ==> ({
            let c = text[text.len() - spans::trailing_digits(text) - 1];
            !('0' <= c && c <= '9')
        }),
    decreases text.len(),
{
    if text.len() != 0 && '0' <= text.last() && text.last() <= '9' {
        let rest = text.drop_last();
        lemma_trailing(rest);
        assert forall|i: int|
            text.len() - spans::trailing_digits(text) <= i < text.len() implies '0'
            <= #[trigger] text[i] && text[i] <= '9' by {
            if i < rest.len() {
                assert(rest[i] == text[i]);
            }
        }
        if spans::trailing_digits(text) < text.len() {
            let at = text.len() - spans::trailing_digits(text) - 1;
            assert(rest[at] == text[at]);
        }
    }
}

/// A number behind a colon goes from the end of a text, and nothing else does.
pub proof fn law_a_number_at_the_end_goes(text: Seq<char>, place: Seq<char>)
    ensures
        is_numbered_place(text, place) ==> spans::without_number(text) == place,
        spans::without_number(text) != text ==> is_numbered_place(
            text,
            spans::without_number(text),
        ),
        spans::without_position(text) == spans::without_number(spans::without_number(text)),
{
    lemma_trailing(text);
    let n = spans::trailing_digits(text) as int;
    if is_numbered_place(text, place) {
        let digits = text.skip(place.len() + 1int);
        assert forall|i: int| place.len() < i < text.len() implies '0' <= #[trigger] text[i]
            && text[i] <= '9' by {
            assert(digits[i - place.len() - 1] == text[i]);
        }
        let end = text.len() - n - 1;
        assert(end >= place.len());
        if end > place.len() {
            assert('0' <= text[end] && text[end] <= '9');
        }
    }
    if spans::without_number(text) != text {
        let end = text.len() - n - 1;
        let digits = text.skip(end + 1);
        assert forall|i: int| 0 <= i < digits.len() implies '0' <= #[trigger] digits[i]
            && digits[i] <= '9' by {
            assert(digits[i] == text[end + 1 + i]);
        }
        assert(text.take(end).len() == end);
    }
}

proof fn lemma_spaces(n: nat)
    ensures
        spans::spaces(n).len() == n,
        forall|i: int| 0 <= i < n ==> #[trigger] spans::spaces(n)[i] == ' ',
    decreases n,
{
    if n > 0 {
        lemma_spaces((n - 1) as nat);
    }
}

proof fn lemma_target(lines: Seq<Seq<char>>, fixture: Seq<char>, at: int)
    ensures
        normalize::names_place_in(spans::target(lines[at]), fixture) == is_at_home(
            lines,
            fixture,
            at,
        ),
{
    reveal_strlit(":");
    assert(fixture + ":"@ =~= fixture.push(':'));
    law_a_text_begins_with_its_start(spans::target(lines[at]), fixture.push(':'));
}

/// Positions go where a line is not the fixture's. A span header that points
/// elsewhere keeps its padding, its arrow and the place, without the line and the
/// column. A row of a snippet from elsewhere keeps everything but its number, in
/// whose place spaces stand. Every other line stays as it is, and all lines stay.
#[verifier::rlimit(40)]
pub proof fn law_positions_outside_the_fixture_go(
    lines: Seq<Seq<char>>,
    fixture: Seq<char>,
    at: int,
    n: int,
)
    requires
        0 <= at < lines.len(),
    ensures
        ({
            let line = lines[at];
            let after = spans::unplaced_lines(lines, fixture);
            &&& after.len() == lines.len()
            &&& is_place(lines, at) && !is_at_home(lines, fixture, at) ==> after[at] == line.take(
                text::indent_len(line) + 4,
            ) + spans::without_position(text::trim(text::trim_start(line).skip(4)))
            &&& is_place(lines, at) && is_at_home(lines, fixture, at) ==> after[at] == line
            &&& is_numbered_row(lines, at, n) && spans::locality(lines.take(at), fixture).here
                ==> after[at] == line
            &&& is_numbered_row(lines, at, n) && !spans::locality(lines.take(at), fixture).here
                ==> after[at].len() == line.len() && after[at].skip(n) == line.skip(n) && forall|
                i: int,
            |
                0 <= i < n ==> #[trigger] after[at][i] == ' '
            &&& !is_place(lines, at) && !is_numbered_row(
                lines,
                at,
                spans::digit_count(line) as int,
            ) ==> after[at] == line
        }),
{
    law_what_each_line_is(lines, at);
    lemma_target(lines, fixture, at);
    let line = lines[at];
    let count = spans::digit_count(line);
    if is_numbered_row(lines, at, n) {
        lemma_same_digits(line, n, count as int);
        lemma_spaces(count);
        let after = spans::unnumbered(line);
        assert(after.skip(n) =~= line.skip(n));
    }
}

proof fn lemma_same_digits(line: Seq<char>, a: int, b: int)
    requires
        has_digits(line, a),
        has_digits(line, b),
    ensures
        a == b,
{
    if a < b {
        assert('0' <= line[a] && line[a] <= '9');
    } else if b < a {
        assert('0' <= line[b] && line[b] <= '9');
    }
}

// ---------------------------------------------------------------------------
// The gutter.
// ---------------------------------------------------------------------------

proof fn lemma_step(lines: Seq<Seq<char>>, at: int)
    requires
        0 < at <= lines.len(),
    ensures
        lines.take(at).drop_last() == lines.take(at - 1),
        lines.take(at).last() == lines[at - 1],
        spans::row(lines[at - 1], spans::open_message(lines.take(at - 1))) == spans::row_at(
            lines,
            at - 1,
        ),
{
    assert(lines.take(at).drop_last() =~= lines.take(at - 1));
}

proof fn lemma_gutter(lines: Seq<Seq<char>>, at: int)
    requires
        0 <= at <= lines.len(),
    ensures
        match spans::gutter(lines.take(at)) {
            Some(width) => exists|first: int|
                0 <= first < at && #[trigger] is_place(lines, first) && width == text::indent_len(
                    lines[first],
                ) && forall|i: int| 0 <= i < first ==> !#[trigger] is_place(lines, i),
            None => forall|i: int| 0 <= i < at ==> !#[trigger] is_place(lines, i),
        },
    decreases at,
{
    if at > 0 {
        lemma_gutter(lines, at - 1);
        lemma_step(lines, at);
        law_what_each_line_is(lines, at - 1);
        text::lemma_trim_start(lines[at - 1]);
        if spans::gutter(lines.take(at)) is Some && spans::gutter(lines.take(at - 1)) is None {
            assert(is_place(lines, at - 1));
        }
    }
}

proof fn lemma_widest(lines: Seq<Seq<char>>, at: int)
    requires
        0 <= at <= lines.len(),
    ensures
        spans::widest(lines.take(at)) >= 1,
        forall|i: int, n: int|
            0 <= i < at && #[trigger] is_numbered_row(lines, i, n) ==> n <= spans::widest(
                lines.take(at),
            ),
        spans::widest(lines.take(at)) == 1 || exists|i: int|
            0 <= i < at && #[trigger] is_numbered_row(
                lines,
                i,
                spans::widest(lines.take(at)) as int,
            ),
    decreases at,
{
    if at > 0 {
        lemma_widest(lines, at - 1);
        lemma_step(lines, at);
        law_what_each_line_is(lines, at - 1);
        let before = spans::widest(lines.take(at - 1));
        let now = spans::widest(lines.take(at));
        let count = spans::digit_count(lines[at - 1]) as int;
        assert forall|i: int, n: int|
            0 <= i < at && #[trigger] is_numbered_row(lines, i, n) implies n <= now by {
            if i == at - 1 {
                lemma_same_digits(lines[i], n, count);
            }
        }
        if now != before {
            assert(is_numbered_row(lines, at - 1, now as int));
        } else if now != 1 {
            let i = choose|i: int|
                0 <= i < at - 1 && #[trigger] is_numbered_row(lines, i, before as int);
            assert(is_numbered_row(lines, i, now as int));
        }
    }
}

/// The gutter is as wide as the padding of the first span header. It is too wide by
/// what it has beyond the widest line number, or beyond one column where there is
/// none as wide.
#[verifier::rlimit(40)]
pub proof fn law_how_much_too_wide_the_gutter_is(
    lines: Seq<Seq<char>>,
    first: int,
    widest: int,
    at: int,
)
    requires
        forall|i: int, n: int|
            0 <= i < lines.len() && #[trigger] is_numbered_row(lines, i, n) ==> n <= widest,
        widest == 1 || (0 <= at < lines.len() && is_numbered_row(lines, at, widest)),
        widest >= 1,
    ensures
        0 <= first < lines.len() && is_place(lines, first) && (forall|i: int|
            0 <= i < first ==> !#[trigger] is_place(lines, i)) ==> spans::excess(lines) == (
        if text::indent_len(lines[first]) > widest {
            text::indent_len(lines[first]) - widest
        } else {
            0
        }),
        (forall|i: int| 0 <= i < lines.len() ==> !#[trigger] is_place(lines, i)) ==> spans::excess(
            lines,
        ) == 0,
{
    let end = lines.len() as int;
    assert(lines.take(end) =~= lines);
    lemma_gutter(lines, end);
    lemma_widest(lines, end);
    if spans::widest(lines) != 1 {
        let i = choose|i: int|
            0 <= i < end && #[trigger] is_numbered_row(lines, i, spans::widest(lines) as int);
        assert(spans::widest(lines) <= widest);
    }
    assert(spans::widest(lines) == widest);
    if spans::gutter(lines) is Some {
        let f = choose|f: int|
            0 <= f < end && #[trigger] is_place(lines, f) && spans::gutter(lines)->0
                == text::indent_len(lines[f]) && forall|i: int|
                0 <= i < f ==> !#[trigger] is_place(lines, i);
        if 0 <= first < end && is_place(lines, first) && (forall|i: int|
            0 <= i < first ==> !#[trigger] is_place(lines, i)) {
            assert(f == first) by {
                if f < first {
                    assert(!is_place(lines, f));
                } else if first < f {
                    assert(!is_place(lines, first));
                }
            }
        }
    }
}

/// `after` is `before` without the spaces it begins with, but for those beyond the
/// first `n`.
pub open spec fn is_pulled(before: Seq<char>, after: Seq<char>, n: nat) -> bool {
    let taken = before.len() - after.len();
    &&& 0 <= taken <= n
    &&& after == before.skip(taken)
    &&& forall|i: int| 0 <= i < taken ==> #[trigger] before[i] == ' '
    &&& taken < n && taken < before.len() ==> before[taken] != ' '
}

proof fn lemma_pulled(line: Seq<char>, n: nat)
    ensures
        spans::leading_spaces(line, n) <= line.len(),
        is_pulled(line, spans::pulled(line, n), n),
    decreases n,
{
    if n > 0 && line.len() > 0 && line[0] == ' ' {
        let rest = line.skip(1);
        lemma_pulled(rest, (n - 1) as nat);
        let taken = spans::leading_spaces(line, n) as int;
        assert forall|i: int| 0 <= i < taken implies #[trigger] line[i] == ' ' by {
            if i > 0 {
                assert(rest[i - 1] == line[i]);
            }
        }
        if taken < line.len() {
            assert(rest[taken - 1] == line[taken]);
        }
    }
}

/// Where the gutter is `n` columns too wide, every line is pulled as far to the
/// left, but for those that open a message or go on with one. Of a numbered row it
/// is what stands behind the number that is pulled, and of a row that begins with
/// an ellipsis what stands behind that.
#[verifier::rlimit(40)]
pub proof fn law_every_row_is_pulled_to_the_left(lines: Seq<Seq<char>>, at: int, n: int)
    requires
        0 <= at < lines.len(),
    ensures
        ({
            let line = lines[at];
            let after = spans::realigned(lines);
            let excess = spans::excess(lines);
            &&& after.len() == lines.len()
            &&& opens(line) || is_text(lines, at) ==> after[at] == line
            &&& is_numbered_row(lines, at, n) ==> n <= after[at].len() && after[at].take(n)
                == line.take(n) && is_pulled(line.skip(n), after[at].skip(n), excess)
            &&& !opens(line) && !is_text(lines, at) && !is_numbered_row(
                lines,
                at,
                spans::digit_count(line) as int,
            ) ==> if begins(line, "..."@) {
                3 <= after[at].len() && after[at].take(3) == line.take(3) && is_pulled(
                    line.skip(3),
                    after[at].skip(3),
                    excess,
                )
            } else {
                is_pulled(line, after[at], excess)
            }
        }),
{
    law_what_each_line_is(lines, at);
    let line = lines[at];
    let excess = spans::excess(lines);
    let after = spans::realigned(lines)[at];
    let count = spans::digit_count(line) as int;
    law_a_text_begins_with_its_start(line, "..."@);
    reveal_strlit("...");
    if is_numbered_row(lines, at, n) {
        lemma_same_digits(line, n, count);
        lemma_pulled(line.skip(n), excess);
        assert(after.take(n) =~= line.take(n));
        assert(after.skip(n) =~= spans::pulled(line.skip(n), excess));
    } else if begins(line, "..."@) {
        lemma_pulled(line.skip(3), excess);
        let moved = line.take(3) + spans::pulled(line.skip(3), excess);
        assert(moved.take(3) =~= line.take(3));
        assert(moved.skip(3) =~= spans::pulled(line.skip(3), excess));
        lemma_pulled(line, excess);
    } else {
        lemma_pulled(line, excess);
    }
}

} // verus!
