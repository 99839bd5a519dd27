//! What the comparison modes keep of a diagnostic, line by line.

use vstd::prelude::*;
use vstd::utf8::*;

use crate::compare;
use crate::compare::{Mode, Role};
use crate::laws::compare::{lemma_brief_text, lemma_local_text};
use crate::laws::text::{
    begins, law_a_text_begins_with_its_start, law_a_width_is_counted_in_bytes,
};
use crate::text;

verus! {

/// What `shows` gives of every number from `from` up to `to` that `keeps` is true
/// of, in order.
pub open spec fn gathered<T>(
    from: int,
    to: int,
    keeps: spec_fn(int) -> bool,
    shows: spec_fn(int) -> T,
) -> Seq<T>
    decreases to - from,
{
    if from >= to {
        seq![]
    } else if keeps(from) {
        seq![shows(from)] + gathered(from + 1, to, keeps, shows)
    } else {
        gathered(from + 1, to, keeps, shows)
    }
}

/// What is gathered up to a number and what is gathered from it on make what is
/// gathered.
pub(crate) proof fn lemma_gathered_in_two<T>(
    from: int,
    middle: int,
    to: int,
    keeps: spec_fn(int) -> bool,
    shows: spec_fn(int) -> T,
)
    requires
        from <= middle <= to,
    ensures
        gathered(from, to, keeps, shows) == gathered(from, middle, keeps, shows) + gathered(
            middle,
            to,
            keeps,
            shows,
        ),
    decreases middle - from,
{
    if from < middle {
        lemma_gathered_in_two(from + 1, middle, to, keeps, shows);
        assert(gathered(from, to, keeps, shows) =~= gathered(from, middle, keeps, shows)
            + gathered(middle, to, keeps, shows));
    } else {
        assert(gathered(from, middle, keeps, shows) =~= Seq::<T>::empty());
        assert(Seq::<T>::empty() + gathered(middle, to, keeps, shows) =~= gathered(
            middle,
            to,
            keeps,
            shows,
        ));
    }
}

/// What is gathered is of a number that is kept.
pub(crate) proof fn lemma_gathered_is_kept<T>(
    from: int,
    to: int,
    keeps: spec_fn(int) -> bool,
    shows: spec_fn(int) -> T,
    at: int,
) -> (k: int)
    requires
        0 <= at < gathered(from, to, keeps, shows).len(),
    ensures
        from <= k < to,
        keeps(k),
        gathered(from, to, keeps, shows)[at] == shows(k),
    decreases to - from,
{
    if keeps(from) && at == 0 {
        from
    } else if keeps(from) {
        lemma_gathered_is_kept(from + 1, to, keeps, shows, at - 1)
    } else {
        lemma_gathered_is_kept(from + 1, to, keeps, shows, at)
    }
}

/// Where all are kept, all are gathered.
pub(crate) proof fn lemma_all_gathered<T>(
    from: int,
    to: int,
    keeps: spec_fn(int) -> bool,
    shows: spec_fn(int) -> T,
)
    requires
        from <= to,
        forall|i: int| from <= i < to ==> #[trigger] keeps(i),
    ensures
        gathered(from, to, keeps, shows) == Seq::new((to - from) as nat, |i: int| shows(from + i)),
    decreases to - from,
{
    if from < to {
        assert(keeps(from));
        lemma_all_gathered(from + 1, to, keeps, shows);
    }
    assert(gathered(from, to, keeps, shows) =~= Seq::new(
        (to - from) as nat,
        |i: int| shows(from + i),
    ));
}

/// What is gathered depends on nothing but what is kept and shown.
pub(crate) proof fn lemma_gathered_alike<T>(
    from: int,
    to: int,
    keeps: spec_fn(int) -> bool,
    shows: spec_fn(int) -> T,
    other_keeps: spec_fn(int) -> bool,
    other_shows: spec_fn(int) -> T,
)
    requires
        forall|i: int| from <= i < to ==> #[trigger] keeps(i) == other_keeps(i),
        forall|i: int| from <= i < to && keeps(i) ==> #[trigger] shows(i) == other_shows(i),
    ensures
        gathered(from, to, keeps, shows) == gathered(from, to, other_keeps, other_shows),
    decreases to - from,
{
    if from < to {
        assert(keeps(from) == other_keeps(from));
        if keeps(from) {
            assert(shows(from) == other_shows(from));
        }
        lemma_gathered_alike(from + 1, to, keeps, shows, other_keeps, other_shows);
    }
}

// ---------------------------------------------------------------------------
// Line endings.
// ---------------------------------------------------------------------------

/// `Exact` takes the carriage return off every CRLF pair, and compares every other
/// character as it is.
pub proof fn law_exact_keeps_all_but_the_returns_of_line_endings(
    text: Seq<char>,
    fixture: Seq<char>,
)
    ensures
        compare::filtered(text, Mode::Exact, fixture) == gathered(
            0,
            text.len() as int,
            |i: int| !(text[i] == '\r' && i + 1 < text.len() && text[i + 1] == '\n'),
            |i: int| text[i],
        ),
        compare::unify(text) == compare::filtered(text, Mode::Exact, fixture),
{
    lemma_unified(text, 0);
    assert(text.skip(0) =~= text);
}

proof fn lemma_unified(text: Seq<char>, at: int)
    requires
        0 <= at <= text.len(),
    ensures
        compare::unify(text.skip(at)) == gathered(
            at,
            text.len() as int,
            |i: int| !(text[i] == '\r' && i + 1 < text.len() && text[i + 1] == '\n'),
            |i: int| text[i],
        ),
    decreases text.len() - at,
{
    if at < text.len() {
        lemma_unified(text, at + 1);
        let rest = text.skip(at);
        assert(rest.skip(1) =~= text.skip(at + 1));
        assert(rest[0] == text[at]);
        if at + 1 < text.len() {
            assert(rest[1] == text[at + 1]);
        }
    }
}

// ---------------------------------------------------------------------------
// Messages and locations.
// ---------------------------------------------------------------------------

/// The first line of a message a build fails or warns with.
pub open spec fn opens_message(line: Seq<char>) -> bool {
    begins(line, "error"@) || begins(line, "warning"@)
}

/// How many bytes of `line` come before the text of the message it opens: up to
/// the first colon, and the colon and a space.
pub open spec fn level_width(line: Seq<char>) -> Option<nat> {
    let colon = text::position(line, ':') as int;
    if colon < line.len() {
        Some((encode_utf8(line.take(colon)).len() + 2) as nat)
    } else {
        None
    }
}

/// How many bytes of white space `line` is padded by.
pub open spec fn padded_by(line: Seq<char>) -> nat {
    encode_utf8(line.take(text::indent_len(line))).len()
}

/// What is behind the padding of `line` is not the author's own: a location, a
/// gutter, or a note.
pub open spec fn is_rendered(line: Seq<char>) -> bool {
    let rest = text::trim_start(line);
    ||| begins(rest, "--> "@)
    ||| begins(rest, "::: "@)
    ||| begins(rest, "|"@)
    ||| begins(rest, "= note:"@)
    ||| begins(rest, "= help:"@)
}

/// `line` can be a later line of a message whose text begins `width` bytes in: it
/// is padded that far, however much further, or it is padded and no rendering.
pub open spec fn can_follow(line: Seq<char>, width: nat) -> bool {
    !text::is_blank(line) && padded_by(line) > 0 && (padded_by(line) >= width || !is_rendered(line))
}

/// The message that opens at `first` goes on up to `last`, which is not blank:
/// every line between is blank or can follow.
pub open spec fn reaches(lines: Seq<Seq<char>>, first: int, last: int) -> bool {
    &&& 0 <= first < last < lines.len()
    &&& opens_message(lines[first])
    &&& level_width(lines[first]) matches Some(width) && forall|i: int|
        first < i <= last ==> text::is_blank(#[trigger] lines[i]) || can_follow(lines[i], width)
    &&& !text::is_blank(lines[last])
}

/// The line at `at` is a later line of a message.
pub open spec fn is_message_line(lines: Seq<Seq<char>>, at: int) -> bool {
    exists|first: int| #[trigger] reaches(lines, first, at)
}

/// The line at `at` is a blank line inside a message.
pub open spec fn is_paragraph_break(lines: Seq<Seq<char>>, at: int) -> bool {
    text::is_blank(lines[at]) && exists|first: int, last: int|
        first < at < last && #[trigger] reaches(lines, first, last)
}

/// The line at `at` is a location.
pub open spec fn is_location(lines: Seq<Seq<char>>, at: int) -> bool {
    !is_message_line(lines, at) && begins(text::trim_start(lines[at]), "--> "@)
}

/// The line at `at` is compared.
pub open spec fn is_compared(lines: Seq<Seq<char>>, at: int) -> bool {
    ||| opens_message(lines[at])
    ||| is_message_line(lines, at)
    ||| is_paragraph_break(lines, at)
    ||| is_location(lines, at)
}

/// What is compared of the line at `at`: a location without the padding around it,
/// and any other line without the white space it ends with.
pub open spec fn compared(lines: Seq<Seq<char>>, at: int) -> Seq<char> {
    if is_location(lines, at) {
        "--> "@ + text::trim(text::trim_start(lines[at]).skip(4))
    } else {
        text::trim_end(lines[at])
    }
}

pub(crate) proof fn lemma_headings_are_the_same(line: Seq<char>)
    ensures
        compare::is_heading(line) == opens_message(line),
        compare::prefix_width(line) == level_width(line),
        compare::padding(line) == padded_by(line),
        compare::is_span(line) == begins(text::trim_start(line), "--> "@),
        forall|width: nat| #[trigger]
            compare::carries_on(line, width) == can_follow(line, width),
{
    let rest = text::trim_start(line);
    law_a_text_begins_with_its_start(line, "error"@);
    law_a_text_begins_with_its_start(line, "warning"@);
    law_a_text_begins_with_its_start(rest, "--> "@);
    law_a_text_begins_with_its_start(rest, "::: "@);
    law_a_text_begins_with_its_start(rest, "|"@);
    law_a_text_begins_with_its_start(rest, "= note:"@);
    law_a_text_begins_with_its_start(rest, "= help:"@);
    law_a_width_is_counted_in_bytes(line.take(text::position(line, ':') as int));
    law_a_width_is_counted_in_bytes(line.take(text::indent_len(line)));
}

/// A line that opens a message stands at column 0, and is nothing else.
proof fn lemma_opening_line(line: Seq<char>)
    requires
        opens_message(line),
    ensures
        !text::is_blank(line),
        padded_by(line) == 0,
        text::trim_start(line) == line,
        !begins(line, "--> "@),
        forall|width: nat| !#[trigger] can_follow(line, width),
{
    reveal_strlit("error");
    reveal_strlit("warning");
    reveal_strlit("--> ");
    let first = if begins(line, "error"@) {
        "error"@[0]
    } else {
        "warning"@[0]
    };
    assert(line[0] == first);
    assert(!text::is_space(line[0]));
    text::lemma_trim_start_is(line, 0);
    assert(line.skip(0) =~= line);
    assert(line.take(0) =~= Seq::<char>::empty());
    if begins(line, "--> "@) {
        assert(line[0] == "--> "@[0]);
    }
}

/// The message that is open at `at`.
spec fn open_at(lines: Seq<Seq<char>>, at: int) -> Option<nat>
    decreases at,
{
    if at <= 0 {
        None
    } else {
        let message = open_at(lines, at - 1);
        match compare::role(lines.skip(at - 1), message) {
            Role::Text => message,
            Role::Gap => message,
            Role::Heading => compare::prefix_width(lines[at - 1]),
            _ => None,
        }
    }
}

/// Every line of a message up to `at` is blank or can follow.
spec fn opened(lines: Seq<Seq<char>>, first: int, at: int, width: nat) -> bool {
    &&& 0 <= first < at <= lines.len()
    &&& opens_message(lines[first])
    &&& level_width(lines[first]) == Some(width)
    &&& forall|i: int|
        first < i < at ==> text::is_blank(#[trigger] lines[i]) || can_follow(lines[i], width)
}

proof fn lemma_resumes(lines: Seq<Seq<char>>, at: int, width: nat)
    requires
        0 <= at <= lines.len(),
    ensures
        compare::resumes(lines.skip(at), width) <==> exists|last: int|
            at <= last < lines.len() && can_follow(#[trigger] lines[last], width) && forall|i: int|
                at <= i < last ==> text::is_blank(#[trigger] lines[i]),
    decreases lines.len() - at,
{
    if at < lines.len() {
        let rest = lines.skip(at);
        assert(rest[0] == lines[at]);
        assert(rest.skip(1) =~= lines.skip(at + 1));
        lemma_headings_are_the_same(lines[at]);
        lemma_resumes(lines, at + 1, width);
        if text::is_blank(lines[at]) {
            if compare::resumes(rest, width) {
                let last = choose|last: int|
                    at + 1 <= last < lines.len() && can_follow(#[trigger] lines[last], width)
                        && forall|i: int| at + 1 <= i < last ==> text::is_blank(#[trigger] lines[i]);
                assert(can_follow(lines[last], width));
            }
        } else if compare::resumes(rest, width) {
            assert(can_follow(lines[at], width));
        }
    }
}

/// What is open at `at` was opened before it.
proof fn lemma_open_was_opened(lines: Seq<Seq<char>>, at: int)
    requires
        0 <= at <= lines.len(),
    ensures
        open_at(lines, at) matches Some(width) ==> exists|first: int| #[trigger]
            opened(lines, first, at, width),
    decreases at,
{
    if at > 0 {
        lemma_open_was_opened(lines, at - 1);
        let line = lines[at - 1];
        let message = open_at(lines, at - 1);
        lemma_headings_are_the_same(line);
        assert(lines.skip(at - 1)[0] == line);
        if let Some(width) = open_at(lines, at) {
            let role = compare::role(lines.skip(at - 1), message);
            if role is Heading {
                assert(opened(lines, at - 1, at, width));
            } else {
                let first = choose|first: int| #[trigger] opened(lines, first, at - 1, width);
                assert(opened(lines, first, at, width));
            }
        }
    }
}

/// A message that reaches beyond `at` is open there.
proof fn lemma_reaching_is_open(lines: Seq<Seq<char>>, first: int, last: int, at: int)
    requires
        reaches(lines, first, last),
        first < at <= last,
    ensures
        open_at(lines, at) == level_width(lines[first]),
    decreases at,
{
    let width = level_width(lines[first])->0;
    let line = lines[at - 1];
    assert(lines.skip(at - 1)[0] == line);
    lemma_headings_are_the_same(line);
    if at - 1 == first {
        lemma_opening_line(line);
    } else {
        lemma_reaching_is_open(lines, first, last, at - 1);
        if text::is_blank(line) {
            assert(lines.skip(at - 1).skip(1) =~= lines.skip(at));
            lemma_resumes(lines, at, width);
            lemma_next_that_is_not_blank(lines, at, last);
            let next = choose|next: int|
                at <= next <= last && !text::is_blank(#[trigger] lines[next]) && forall|i: int|
                    at <= i < next ==> text::is_blank(#[trigger] lines[i]);
            assert(can_follow(lines[next], width));
        }
    }
}

proof fn lemma_next_that_is_not_blank(lines: Seq<Seq<char>>, at: int, last: int)
    requires
        0 <= at <= last < lines.len(),
        !text::is_blank(lines[last]),
    ensures
        exists|next: int|
            at <= next <= last && !text::is_blank(#[trigger] lines[next]) && forall|i: int|
                at <= i < next ==> text::is_blank(#[trigger] lines[i]),
    decreases last - at,
{
    if text::is_blank(lines[at]) {
        lemma_next_that_is_not_blank(lines, at + 1, last);
        let next = choose|next: int|
            at + 1 <= next <= last && !text::is_blank(#[trigger] lines[next]) && forall|i: int|
                at + 1 <= i < next ==> text::is_blank(#[trigger] lines[i]);
        assert(!text::is_blank(lines[next]));
    } else {
        assert(!text::is_blank(lines[at]));
    }
}

/// What is made of the line at `at` is what is said of it.
#[verifier::rlimit(40)]
proof fn lemma_role(lines: Seq<Seq<char>>, at: int)
    requires
        0 <= at < lines.len(),
    ensures
        ({
            let role = compare::role(lines.skip(at), open_at(lines, at));
            &&& role is Text <==> is_message_line(lines, at)
            &&& role is Gap <==> is_paragraph_break(lines, at)
            &&& role is Span <==> is_location(lines, at)
            &&& role is Heading <==> opens_message(lines[at])
        }),
{
    let line = lines[at];
    let message = open_at(lines, at);
    let role = compare::role(lines.skip(at), message);
    assert(lines.skip(at)[0] == line);
    assert(lines.skip(at).skip(1) =~= lines.skip(at + 1));
    lemma_headings_are_the_same(line);
    lemma_open_was_opened(lines, at);
    if opens_message(line) {
        lemma_opening_line(line);
    }
    if let Some(width) = message {
        let first = choose|first: int| #[trigger] opened(lines, first, at, width);
        if can_follow(line, width) {
            assert(reaches(lines, first, at));
        }
        lemma_resumes(lines, at + 1, width);
        if text::is_blank(line) && compare::resumes(lines.skip(at + 1), width) {
            let last = choose|last: int|
                at + 1 <= last < lines.len() && can_follow(#[trigger] lines[last], width)
                    && forall|i: int| at + 1 <= i < last ==> text::is_blank(#[trigger] lines[i]);
            assert(reaches(lines, first, last));
        }
    }
    if is_message_line(lines, at) {
        let first = choose|first: int| #[trigger] reaches(lines, first, at);
        lemma_reaching_is_open(lines, first, at, at);
        assert(can_follow(line, level_width(lines[first])->0));
    }
    if is_paragraph_break(lines, at) {
        let (first, last) = choose|first: int, last: int|
            first < at < last && #[trigger] reaches(lines, first, last);
        lemma_reaching_is_open(lines, first, last, at);
        let width = level_width(lines[first])->0;
        lemma_resumes(lines, at + 1, width);
        lemma_next_that_is_not_blank(lines, at + 1, last);
        let next = choose|next: int|
            at + 1 <= next <= last && !text::is_blank(#[trigger] lines[next]) && forall|i: int|
                at + 1 <= i < next ==> text::is_blank(#[trigger] lines[i]);
        assert(can_follow(lines[next], width));
        assert(compare::resumes(lines.skip(at + 1), width));
    }
    if text::is_blank(line) {
        text::lemma_trim_start(line);
        reveal_strlit("--> ");
        reveal_strlit("error");
        reveal_strlit("warning");
    }
}

proof fn lemma_kept_lines(lines: Seq<Seq<char>>, at: int)
    requires
        0 <= at <= lines.len(),
    ensures
        compare::brief_lines(lines.skip(at), open_at(lines, at)) == gathered(
            at,
            lines.len() as int,
            |i: int| is_compared(lines, i),
            |i: int| compared(lines, i),
        ),
    decreases lines.len() - at,
{
    if at < lines.len() {
        lemma_kept_lines(lines, at + 1);
        lemma_role(lines, at);
        let rest = lines.skip(at);
        let role = compare::role(rest, open_at(lines, at));
        assert(rest[0] == lines[at]);
        assert(rest.skip(1) =~= lines.skip(at + 1));
        if role is Gap {
            text::lemma_trim_end(lines[at]);
            assert(text::trim_end(lines[at]) =~= Seq::<char>::empty());
        }
        if role is Span {
            reveal_strlit("--> ");
            assert(compare::span_line(lines[at]) =~= compared(lines, at));
        }
    }
}

/// What the brief modes compare of a text: the first line of every message, every
/// later line of it, however far its author indented it, with the blank lines
/// between its paragraphs, and every location. Each of them once and in order, and
/// nothing else.
///
/// `BriefLocal` leaves out the locations whose path is not the fixture's: what is
/// behind the arrow is neither that path nor that path and a colon.
#[verifier::rlimit(40)]
pub proof fn law_the_brief_modes_compare_messages_and_locations(
    text: Seq<char>,
    fixture: Seq<char>,
)
    ensures
        ({
            let lines = text::lines(compare::filtered(text, Mode::Exact, fixture));
            let kept = gathered(
                0,
                lines.len() as int,
                |i: int| is_compared(lines, i),
                |i: int| compared(lines, i),
            );
            let local = gathered(
                0,
                kept.len() as int,
                |i: int|
                    !begins(kept[i], "--> "@) || kept[i] == "--> "@ + fixture || begins(
                        kept[i],
                        "--> "@ + fixture + ":"@,
                    ),
                |i: int| kept[i],
            );
            &&& compare::filtered(text, Mode::Brief, fixture) == text::unlines(kept)
            &&& compare::filtered(text, Mode::BriefLocal, fixture) == text::unlines(local)
            &&& text::lines(compare::filtered(text, Mode::Brief, fixture)) == kept
            &&& text::lines(compare::filtered(text, Mode::BriefLocal, fixture)) == local
        }),
{
    let unified = compare::unify(text);
    let lines = text::lines(unified);
    lemma_kept_lines(lines, 0);
    assert(lines.skip(0) =~= lines);
    let kept = compare::brief_lines(lines, None);
    lemma_brief_text(unified);
    lemma_local_text(unified, fixture);
    lemma_local_kept(kept, fixture, 0);
    assert(kept.skip(0) =~= kept);
}

proof fn lemma_points_into(line: Seq<char>, fixture: Seq<char>)
    ensures
        compare::points_elsewhere(line, fixture) <==> !(!begins(line, "--> "@) || line == "--> "@
            + fixture || begins(line, "--> "@ + fixture + ":"@)),
{
    law_a_text_begins_with_its_start(line, "--> "@);
    reveal_strlit("--> ");
    reveal_strlit(":");
    let whole = "--> "@ + fixture + ":"@;
    let target = line.skip(4);
    if begins(line, "--> "@) {
        assert(line =~= "--> "@ + target);
        law_a_text_begins_with_its_start(target, fixture.push(':'));
        if target == fixture {
            assert(line == "--> "@ + fixture);
        }
        if line == "--> "@ + fixture {
            assert(target =~= fixture);
        }
        if begins(target, fixture.push(':')) {
            assert forall|i: int| 0 <= i < whole.len() implies line[i] == #[trigger] whole[i] by {
                if i >= 4 {
                    assert(target[i - 4] == fixture.push(':')[i - 4]);
                    assert(line[i] == target[i - 4]);
                }
            }
        }
        if begins(line, whole) {
            let path = fixture.push(':');
            assert forall|i: int| 0 <= i < path.len() implies target[i] == #[trigger] path[i] by {
                assert(line[i + 4] == whole[i + 4]);
            }
        }
    }
}

proof fn lemma_local_kept(kept: Seq<Seq<char>>, fixture: Seq<char>, at: int)
    requires
        0 <= at <= kept.len(),
    ensures
        compare::local_lines(kept.skip(at), fixture) == gathered(
            at,
            kept.len() as int,
            |i: int|
                !begins(kept[i], "--> "@) || kept[i] == "--> "@ + fixture || begins(
                    kept[i],
                    "--> "@ + fixture + ":"@,
                ),
            |i: int| kept[i],
        ),
    decreases kept.len() - at,
{
    if at < kept.len() {
        lemma_local_kept(kept, fixture, at + 1);
        lemma_points_into(kept[at], fixture);
        let rest = kept.skip(at);
        assert(rest[0] == kept[at]);
        assert(rest.skip(1) =~= kept.skip(at + 1));
    }
}

/// `BriefLocal` compares no location in another file: behind the arrow is the
/// path of the fixture, and then nothing or a colon.
pub proof fn law_brief_local_points_into_the_fixture_alone(
    text: Seq<char>,
    fixture: Seq<char>,
    at: int,
)
    requires
        0 <= at < text::lines(compare::filtered(text, Mode::BriefLocal, fixture)).len(),
    ensures
        ({
            let line = text::lines(compare::filtered(text, Mode::BriefLocal, fixture))[at];
            begins(line, "--> "@) ==> line == "--> "@ + fixture || begins(
                line,
                "--> "@ + fixture + ":"@,
            )
        }),
{
    law_the_brief_modes_compare_messages_and_locations(text, fixture);
    let lines = text::lines(compare::filtered(text, Mode::Exact, fixture));
    let kept = gathered(
        0,
        lines.len() as int,
        |i: int| is_compared(lines, i),
        |i: int| compared(lines, i),
    );
    let keeps = |i: int|
        !begins(kept[i], "--> "@) || kept[i] == "--> "@ + fixture || begins(
            kept[i],
            "--> "@ + fixture + ":"@,
        );
    let shows = |i: int| kept[i];
    let k = lemma_gathered_is_kept(0, kept.len() as int, keeps, shows, at);
    assert(keeps(k));
}

/// Where a message goes on up to `last`, none of its lines is part of what comes
/// before or after it, and all of them are compared.
proof fn lemma_message_is_compared(lines: Seq<Seq<char>>, first: int, last: int, at: int)
    requires
        reaches(lines, first, last),
        first <= at <= last,
    ensures
        is_compared(lines, at),
        compared(lines, at) == text::trim_end(lines[at]),
{
    if at == first {
        lemma_opening_line(lines[first]);
    } else if text::is_blank(lines[at]) {
        assert(first < at < last);
        assert(is_paragraph_break(lines, at));
        text::lemma_trim_start(lines[at]);
        reveal_strlit("--> ");
    } else {
        assert(reaches(lines, first, at));
    }
}

/// A message stands whole in what `Brief` compares: the line that opens it, and
/// behind it every later line, up to the last that is not blank, without the white
/// space at its end, in order and with nothing between.
///
/// A later line is one that is blank, that is padded as far as the text of the
/// message or further, or that is padded and no rendering.
pub proof fn law_brief_compares_a_message_whole(
    text: Seq<char>,
    fixture: Seq<char>,
    first: int,
    last: int,
)
    requires
        reaches(text::lines(compare::filtered(text, Mode::Exact, fixture)), first, last),
    ensures
        ({
            let lines = text::lines(compare::filtered(text, Mode::Exact, fixture));
            let kept = text::lines(compare::filtered(text, Mode::Brief, fixture));
            exists|at: int|
                0 <= at && at + (last + 1 - first) <= kept.len() && #[trigger] kept.subrange(
                    at,
                    at + (last + 1 - first),
                ) == Seq::new((last + 1 - first) as nat, |i: int| text::trim_end(lines[first + i]))
        }),
{
    law_the_brief_modes_compare_messages_and_locations(text, fixture);
    let lines = text::lines(compare::filtered(text, Mode::Exact, fixture));
    let kept = text::lines(compare::filtered(text, Mode::Brief, fixture));
    lemma_message_in_the_middle(lines, first, last);
    let at = gathered(
        0,
        first,
        |i: int| is_compared(lines, i),
        |i: int| compared(lines, i),
    ).len() as int;
    assert(kept.subrange(at, at + (last + 1 - first)) =~= Seq::new(
        (last + 1 - first) as nat,
        |i: int| text::trim_end(lines[first + i]),
    ));
}

proof fn lemma_message_in_the_middle(lines: Seq<Seq<char>>, first: int, last: int)
    requires
        reaches(lines, first, last),
    ensures
        ({
            let keeps = |i: int| is_compared(lines, i);
            let shows = |i: int| compared(lines, i);
            gathered(0, lines.len() as int, keeps, shows) == gathered(0, first, keeps, shows)
                + Seq::new((last + 1 - first) as nat, |i: int| text::trim_end(lines[first + i]))
                + gathered(last + 1, lines.len() as int, keeps, shows)
        }),
{
    let keeps = |i: int| is_compared(lines, i);
    let shows = |i: int| compared(lines, i);
    let end = lines.len() as int;
    assert forall|i: int| first <= i < last + 1 implies #[trigger] keeps(i) by {
        lemma_message_is_compared(lines, first, last, i);
    }
    lemma_all_gathered(first, last + 1, keeps, shows);
    lemma_gathered_in_two(0, first, end, keeps, shows);
    lemma_gathered_in_two(first, last + 1, end, keeps, shows);
    assert forall|i: int| 0 <= i < last + 1 - first implies #[trigger] shows(first + i)
        == text::trim_end(lines[first + i]) by {
        lemma_message_is_compared(lines, first, last, first + i);
    }
    assert(gathered(first, last + 1, keeps, shows) =~= Seq::new(
        (last + 1 - first) as nat,
        |i: int| text::trim_end(lines[first + i]),
    ));
    assert(gathered(0, end, keeps, shows) =~= gathered(0, first, keeps, shows)
        + gathered(first, last + 1, keeps, shows) + gathered(last + 1, end, keeps, shows));
}

/// What is compared of the lines before a message opens depends on those lines
/// alone.
#[verifier::rlimit(40)]
proof fn lemma_before_a_message(a: Seq<Seq<char>>, b: Seq<Seq<char>>, first: int)
    requires
        0 <= first < a.len(),
        first < b.len(),
        a.take(first) == b.take(first),
        opens_message(a[first]),
        opens_message(b[first]),
    ensures
        gathered(0, first, |i: int| is_compared(a, i), |i: int| compared(a, i)) == gathered(
            0,
            first,
            |i: int| is_compared(b, i),
            |i: int| compared(b, i),
        ),
{
    assert forall|i: int| 0 <= i < first implies a[i] == b[i] by {
        assert(a.take(first)[i] == b.take(first)[i]);
    }
    lemma_opening_line(a[first]);
    lemma_opening_line(b[first]);
    assert forall|f: int, l: int| l < first implies #[trigger] reaches(a, f, l) == reaches(
        b,
        f,
        l,
    ) by {
        if 0 <= f < l {
            assert(a[f] == b[f] && a[l] == b[l]);
        }
    }
    assert forall|f: int, l: int| f < first <= l implies !#[trigger] reaches(a, f, l)
        && !reaches(b, f, l) by {
        if reaches(a, f, l) {
            assert(can_follow(a[first], level_width(a[f])->0));
        }
        if reaches(b, f, l) {
            assert(can_follow(b[first], level_width(b[f])->0));
        }
    }
    let keeps = |i: int| is_compared(a, i);
    let shows = |i: int| compared(a, i);
    let other_keeps = |i: int| is_compared(b, i);
    let other_shows = |i: int| compared(b, i);
    assert forall|i: int| 0 <= i < first implies #[trigger] keeps(i) == other_keeps(i) by {
        lemma_same_roles(a, b, first, i);
        lemma_same_roles(b, a, first, i);
    }
    assert forall|i: int| 0 <= i < first && keeps(i) implies #[trigger] shows(i) == other_shows(
        i,
    ) by {
        lemma_same_roles(a, b, first, i);
        lemma_same_roles(b, a, first, i);
    }
    lemma_gathered_alike(0, first, keeps, shows, other_keeps, other_shows);
}

proof fn lemma_same_roles(a: Seq<Seq<char>>, b: Seq<Seq<char>>, first: int, at: int)
    requires
        0 <= at < first,
        a[at] == b[at],
        forall|f: int, l: int|
            l < first ==> #[trigger] reaches(a, f, l) == reaches(b, f, l),
        forall|f: int, l: int| f < first <= l ==> !#[trigger] reaches(a, f, l),
    ensures
        is_message_line(a, at) ==> is_message_line(b, at),
        is_paragraph_break(a, at) ==> is_paragraph_break(b, at),
{
    if is_message_line(a, at) {
        let f = choose|f: int| #[trigger] reaches(a, f, at);
        assert(reaches(b, f, at));
    }
    if is_paragraph_break(a, at) {
        let (f, l) = choose|f: int, l: int| f < at < l && #[trigger] reaches(a, f, l);
        assert(l < first);
        assert(reaches(b, f, l));
    }
}

/// Two texts that agree up to where a message opens, and whose messages differ in
/// a line, white space at its end apart, are told apart by `Brief`.
#[verifier::rlimit(40)]
pub proof fn law_brief_tells_messages_apart(
    a: Seq<char>,
    b: Seq<char>,
    fixture: Seq<char>,
    first: int,
    last: int,
    at: int,
)
    requires
        ({
            let lines = text::lines(compare::filtered(a, Mode::Exact, fixture));
            let others = text::lines(compare::filtered(b, Mode::Exact, fixture));
            &&& reaches(lines, first, last)
            &&& reaches(others, first, last)
            &&& lines.take(first) == others.take(first)
            &&& first <= at <= last
            &&& text::trim_end(lines[at]) != text::trim_end(others[at])
        }),
    ensures
        compare::filtered(a, Mode::Brief, fixture) != compare::filtered(b, Mode::Brief, fixture),
{
    let lines = text::lines(compare::filtered(a, Mode::Exact, fixture));
    let others = text::lines(compare::filtered(b, Mode::Exact, fixture));
    law_the_brief_modes_compare_messages_and_locations(a, fixture);
    law_the_brief_modes_compare_messages_and_locations(b, fixture);
    lemma_message_in_the_middle(lines, first, last);
    lemma_message_in_the_middle(others, first, last);
    lemma_before_a_message(lines, others, first);
    let before = gathered(
        0,
        first,
        |i: int| is_compared(lines, i),
        |i: int| compared(lines, i),
    ).len() as int;
    let kept = text::lines(compare::filtered(a, Mode::Brief, fixture));
    let other = text::lines(compare::filtered(b, Mode::Brief, fixture));
    assert(kept[before + (at - first)] == text::trim_end(lines[at]));
    assert(other[before + (at - first)] == text::trim_end(others[at]));
}

// ---------------------------------------------------------------------------
// Line by line.
// ---------------------------------------------------------------------------

/// What a line is, read by itself: the first line of a message begins with its
/// level, and the text of it behind the first colon and a space; a location is an
/// arrow and a space, behind any padding.
pub proof fn law_what_a_line_begins_with(line: Seq<char>)
    ensures
        compare::is_heading(line) <==> begins(line, "error"@) || begins(line, "warning"@),
        compare::is_span(line) <==> begins(text::trim_start(line), "--> "@),
        ({
            let colon = text::position(line, ':') as int;
            compare::prefix_width(line) == if colon < line.len() {
                Some((encode_utf8(line.take(colon)).len() + 2) as nat)
            } else {
                None
            }
        }),
{
    lemma_headings_are_the_same(line);
}

/// A line goes on with a message whose text begins `width` bytes in where it is
/// padded that far, however much further its author indented it. One that is padded
/// less does unless it is a location, a gutter or a note. A line that is blank, or
/// that is not padded, does not.
pub proof fn law_what_goes_on_with_a_message(line: Seq<char>, width: nat)
    ensures
        text::is_blank(line) ==> !compare::carries_on(line, width),
        padded_by(line) == 0 ==> !compare::carries_on(line, width),
        !text::is_blank(line) && padded_by(line) > 0 && padded_by(line) >= width
            ==> compare::carries_on(line, width),
        !text::is_blank(line) && padded_by(line) > 0 && padded_by(line) < width ==> (
        compare::carries_on(line, width) <==> !is_rendered(line)),
{
    lemma_headings_are_the_same(line);
}

/// Indenting a line further never takes it out of a message: a line that is padded
/// as far as the text of the message goes on with it, and so it does with more
/// white space before it.
pub proof fn law_indenting_further_stays_in_the_message(
    line: Seq<char>,
    more: Seq<char>,
    width: nat,
)
    requires
        compare::carries_on(line, width),
        padded_by(line) >= width,
        forall|i: int| 0 <= i < more.len() ==> text::is_space(#[trigger] more[i]),
    ensures
        compare::carries_on(more + line, width),
{
    let longer = more + line;
    lemma_headings_are_the_same(line);
    lemma_headings_are_the_same(longer);
    text::lemma_trim_start(line);
    let n = text::indent_len(line);
    assert(n < line.len()) by {
        if n >= line.len() {
            assert(text::is_blank(line));
        }
    }
    assert(text::trim_start(line)[0] == line[n]);
    let m = more.len() + n;
    assert forall|i: int| 0 <= i < m implies text::is_space(#[trigger] longer[i]) by {
        if i < more.len() {
            assert(longer[i] == more[i]);
        } else {
            assert(longer[i] == line[i - more.len()]);
        }
    }
    assert(longer[m] == line[n]);
    text::lemma_trim_start_is(longer, m);
    assert(longer.take(m) =~= more + line.take(n));
    crate::laws::round_trip::lemma_encoding_joins(more, line.take(n));
    assert(!text::is_blank(longer)) by {
        assert(!text::is_space(longer[m]));
    }
}

/// What `Brief` makes of any text: of its lines, those that are compared, as they
/// are compared.
pub proof fn law_what_brief_makes_of_a_text(text: Seq<char>)
    ensures
        ({
            let lines = text::lines(text);
            let kept = gathered(
                0,
                lines.len() as int,
                |i: int| is_compared(lines, i),
                |i: int| compared(lines, i),
            );
            compare::brief_text(text) == text::unlines(kept) && text::lines(
                compare::brief_text(text),
            ) == kept
        }),
{
    let lines = text::lines(text);
    lemma_kept_lines(lines, 0);
    assert(lines.skip(0) =~= lines);
    lemma_brief_text(text);
}

/// What is left of any text without the locations in other files: every line of it
/// but those that begin with an arrow and go on with anything else than the path of
/// the fixture, alone or before a colon.
pub proof fn law_what_is_left_without_other_locations(brief: Seq<char>, fixture: Seq<char>)
    ensures
        ({
            let lines = text::lines(brief);
            compare::local_text(brief, fixture) == text::unlines(
                gathered(
                    0,
                    lines.len() as int,
                    |i: int|
                        !begins(lines[i], "--> "@) || lines[i] == "--> "@ + fixture || begins(
                            lines[i],
                            "--> "@ + fixture + ":"@,
                        ),
                    |i: int| lines[i],
                ),
            )
        }),
{
    let lines = text::lines(brief);
    lemma_local_kept(lines, fixture, 0);
    assert(lines.skip(0) =~= lines);
}

} // verus!
