//! What holds of the comparison modes, whatever the text.

use vstd::prelude::*;

use crate::compare;
use crate::compare::{Mode, Role, ARROW};
use crate::text;

verus! {

// ---------------------------------------------------------------------------
// Lines that stand at column 0.
// ---------------------------------------------------------------------------

/// A line whose first character is not whitespace.
spec fn is_flush(line: Seq<char>) -> bool {
    line.len() != 0 && !text::is_space(line[0])
}

proof fn lemma_flush(line: Seq<char>)
    requires
        is_flush(line),
    ensures
        text::indent_len(line) == 0,
        text::trim_start(line) == line,
        compare::padding(line) == 0,
        !text::is_blank(line),
        forall|width: nat| !#[trigger] compare::carries_on(line, width),
{
    text::lemma_trim_start_is(line, 0);
    assert(line.skip(0) =~= line);
    assert(line.take(0) =~= Seq::<char>::empty());
}

/// What a flush line is does not depend on the message before it.
proof fn lemma_flush_role(lines: Seq<Seq<char>>, message: Option<nat>)
    requires
        lines.len() != 0,
        is_flush(lines[0]),
    ensures
        compare::role(lines, message) == compare::role(lines, None),
        compare::brief_lines(lines, message) == compare::brief_lines(lines, None),
        compare::role(lines, None) !is Text,
        compare::role(lines, None) !is Gap,
{
    lemma_flush(lines[0]);
}

proof fn lemma_arrow()
    ensures
        ARROW@.len() == 4,
        ARROW@[0] == '-',
        ARROW@[1] == '-',
        ARROW@[2] == '>',
        ARROW@[3] == ' ',
{
    reveal_strlit("--> ");
}

proof fn lemma_levels()
    ensures
        "error"@.len() == 5,
        "error"@[0] == 'e',
        "error"@[4] == 'r',
        "warning"@.len() == 7,
        "warning"@[0] == 'w',
        "warning"@[6] == 'g',
{
    reveal_strlit("error");
    reveal_strlit("warning");
}

proof fn lemma_heading_flush(line: Seq<char>)
    requires
        compare::is_heading(line),
    ensures
        is_flush(line),
        !compare::is_span(line),
{
    lemma_levels();
    lemma_arrow();
    if text::starts_with(line, "error"@) {
        assert(line[0] == line.take(5)[0]);
    } else {
        assert(line[0] == line.take(7)[0]);
    }
    lemma_flush(line);
    if compare::is_span(line) {
        assert(line[0] == line.take(4)[0]);
    }
}

// ---------------------------------------------------------------------------
// Trimming twice.
// ---------------------------------------------------------------------------

proof fn lemma_trim_end_twice(line: Seq<char>)
    ensures
        text::trim_end(text::trim_end(line)) == text::trim_end(line),
{
    text::lemma_trim_end(line);
}

proof fn lemma_trim_twice(line: Seq<char>)
    ensures
        text::trim(text::trim(line)) == text::trim(line),
{
    let inner = text::trim_start(line);
    let both = text::trim_end(inner);
    text::lemma_trim_start(line);
    text::lemma_trim_end(inner);
    if both.len() != 0 {
        assert(both[0] == inner[0]);
    }
    assert(text::trim_start(both) == both);
    lemma_trim_end_twice(inner);
}

/// Trimming the end of a line leaves what it begins with, up to the last
/// character of it that is not whitespace.
proof fn lemma_prefix_survives(line: Seq<char>, prefix: Seq<char>)
    requires
        text::starts_with(line, prefix),
        prefix.len() != 0,
        !text::is_space(prefix.last()),
    ensures
        text::starts_with(text::trim_end(line), prefix),
{
    text::lemma_trim_end(line);
    let n = text::trim_end(line).len();
    assert(line[prefix.len() - 1] == line.take(prefix.len() as int)[prefix.len() - 1]);
    assert(n >= prefix.len());
    assert(text::trim_end(line).take(prefix.len() as int) =~= line.take(prefix.len() as int));
}

/// Trimming the end of a line leaves its padding, if there is anything after it.
proof fn lemma_padding_survives(line: Seq<char>)
    requires
        !text::is_blank(line),
    ensures
        text::indent_len(text::trim_end(line)) == text::indent_len(line),
        text::trim_start(text::trim_end(line)) == text::trim_end(text::trim_start(line)),
        compare::padding(text::trim_end(line)) == compare::padding(line),
        !text::is_blank(text::trim_end(line)),
{
    let n = text::indent_len(line);
    let inner = text::trim_start(line);
    let cut = text::trim_end(line);
    text::lemma_trim_start(line);
    text::lemma_trim_end(line);
    text::lemma_trim_end(inner);
    assert(inner[0] == line[n]);
    assert(cut.len() > n);
    assert(cut[n] == line[n]);
    assert forall|i: int| 0 <= i < n implies text::is_space(#[trigger] cut[i]) by {
        assert(cut[i] == line[i]);
    }
    text::lemma_trim_start_is(cut, n);
    assert(cut.take(n) =~= line.take(n));
    let m = inner.len() - (line.len() - cut.len());
    assert forall|i: int| m <= i < inner.len() implies text::is_space(#[trigger] inner[i]) by {
        assert(inner[i] == line[n + i]);
    }
    assert(inner[m - 1] == cut.last());
    text::lemma_trim_end_is(inner, m);
    assert(inner.take(m) =~= cut.skip(n));
    assert(!text::is_space(cut[n]));
}

proof fn lemma_carries_on_survives(line: Seq<char>, width: nat)
    requires
        compare::carries_on(line, width),
    ensures
        compare::carries_on(text::trim_end(line), width),
{
    lemma_padding_survives(line);
    let cut = text::trim_end(line);
    text::lemma_trim_end(line);
    text::lemma_trim_start(line);
    text::lemma_trim_start(cut);
    let (long, short) = (text::trim_start(line), text::trim_start(cut));
    assert(text::indent_len(cut) == text::indent_len(line));
    assert(short =~= long.take(short.len() as int));
    lemma_rendering_of_a_start(long, short);
}

proof fn lemma_rendering_of_a_start(long: Seq<char>, short: Seq<char>)
    requires
        short.len() <= long.len(),
        short == long.take(short.len() as int),
    ensures
        compare::is_rendering(short) ==> compare::is_rendering(long),
{
    lemma_start_of_a_start(long, short, compare::ARROW@);
    lemma_start_of_a_start(long, short, "::: "@);
    lemma_start_of_a_start(long, short, "|"@);
    lemma_start_of_a_start(long, short, "= note:"@);
    lemma_start_of_a_start(long, short, "= help:"@);
}

proof fn lemma_start_of_a_start(long: Seq<char>, short: Seq<char>, prefix: Seq<char>)
    requires
        short.len() <= long.len(),
        short == long.take(short.len() as int),
    ensures
        text::starts_with(short, prefix) ==> text::starts_with(long, prefix),
{
    if text::starts_with(short, prefix) {
        assert(long.take(prefix.len() as int) =~= short.take(prefix.len() as int));
    }
}

proof fn lemma_heading_survives(line: Seq<char>)
    requires
        compare::is_heading(line),
    ensures
        compare::is_heading(text::trim_end(line)),
        compare::prefix_width(text::trim_end(line)) == compare::prefix_width(line),
{
    lemma_levels();
    if text::starts_with(line, "error"@) {
        lemma_prefix_survives(line, "error"@);
    } else {
        lemma_prefix_survives(line, "warning"@);
    }
    text::lemma_trim_end(line);
    lemma_prefix_width_survives(line, text::trim_end(line));
}

/// The colon that ends a level prefix is not whitespace, so it is not trimmed.
proof fn lemma_prefix_width_survives(line: Seq<char>, cut: Seq<char>)
    requires
        cut.len() <= line.len(),
        cut == line.take(cut.len() as int),
        forall|i: int| cut.len() <= i < line.len() ==> text::is_space(#[trigger] line[i]),
    ensures
        compare::prefix_width(cut) == compare::prefix_width(line),
{
    text::lemma_position(line, ':');
    let colon = text::position(line, ':') as int;
    if colon < line.len() {
        assert(!text::is_space(line[colon]));
        assert(colon < cut.len());
        text::lemma_position_is(cut, ':', colon);
        assert(cut.take(colon) =~= line.take(colon));
    } else {
        assert forall|i: int| 0 <= i < cut.len() implies cut[i] != ':' by {
            assert(cut[i] == line[i]);
        }
        text::lemma_position_is(cut, ':', cut.len() as int);
    }
}

proof fn lemma_span_survives(line: Seq<char>)
    requires
        compare::is_span(line),
    ensures
        is_flush(compare::span_line(line)),
        compare::is_span(compare::span_line(line)),
        compare::span_line(compare::span_line(line)) == compare::span_line(line),
{
    lemma_arrow();
    let target = text::trim(text::trim_start(line).skip(4));
    let kept = compare::span_line(line);
    assert(kept == ARROW@ + target);
    assert(kept[0] == '-');
    lemma_flush(kept);
    assert(kept.take(4) =~= ARROW@);
    assert(kept.skip(4) =~= target);
    lemma_trim_twice(text::trim_start(line).skip(4));
}

// ---------------------------------------------------------------------------
// `Brief` output filters to itself.
// ---------------------------------------------------------------------------

/// Outside a message, the first line kept is flush: a heading or a span header.
proof fn lemma_first_kept_is_flush(lines: Seq<Seq<char>>)
    ensures
        compare::brief_lines(lines, None).len() != 0 ==> is_flush(
            compare::brief_lines(lines, None)[0],
        ),
    decreases lines.len(),
{
    if lines.len() != 0 {
        let line = lines[0];
        match compare::role(lines, None) {
            Role::Span => {
                lemma_span_survives(line);
            },
            Role::Heading => {
                lemma_heading_survives(line);
                lemma_heading_flush(text::trim_end(line));
            },
            _ => {
                lemma_first_kept_is_flush(lines.skip(1));
            },
        }
    }
}

/// A message that resumes after blank lines still does once filtered.
proof fn lemma_resumes_survives(lines: Seq<Seq<char>>, width: nat)
    requires
        compare::resumes(lines, width),
    ensures
        compare::resumes(compare::brief_lines(lines, Some(width)), width),
    decreases lines.len(),
{
    let line = lines[0];
    let rest = lines.skip(1);
    let kept = compare::brief_lines(lines, Some(width));
    if text::is_blank(line) {
        lemma_resumes_survives(rest, width);
        assert(compare::role(lines, Some(width)) is Gap);
        assert(kept.skip(1) =~= compare::brief_lines(rest, Some(width)));
        assert(text::is_blank(kept[0]));
    } else {
        assert(compare::role(lines, Some(width)) is Text);
        lemma_carries_on_survives(line, width);
        assert(kept[0] == text::trim_end(line));
    }
}

proof fn lemma_brief_lines_twice(lines: Seq<Seq<char>>, message: Option<nat>)
    ensures
        compare::brief_lines(compare::brief_lines(lines, message), message)
            == compare::brief_lines(lines, message),
    decreases lines.len(),
{
    if lines.len() != 0 {
        let line = lines[0];
        let rest = lines.skip(1);
        let kept = compare::brief_lines(lines, message);
        match compare::role(lines, message) {
            Role::Text => {
                let after = compare::brief_lines(rest, message);
                lemma_brief_lines_twice(rest, message);
                lemma_carries_on_survives(line, message->0);
                lemma_trim_end_twice(line);
                assert(kept.skip(1) =~= after);
            },
            Role::Gap => {
                let after = compare::brief_lines(rest, message);
                lemma_brief_lines_twice(rest, message);
                lemma_resumes_survives(rest, message->0);
                assert(kept.skip(1) =~= after);
                assert(text::is_blank(kept[0]));
            },
            Role::Span => {
                let after = compare::brief_lines(rest, None);
                lemma_brief_lines_twice(rest, None);
                lemma_span_survives(line);
                lemma_flush_role(kept, message);
                assert(kept.skip(1) =~= after);
            },
            Role::Heading => {
                let after = compare::brief_lines(rest, compare::prefix_width(line));
                lemma_brief_lines_twice(rest, compare::prefix_width(line));
                lemma_heading_survives(line);
                lemma_heading_flush(text::trim_end(line));
                lemma_flush_role(kept, message);
                lemma_trim_end_twice(line);
                assert(kept.skip(1) =~= after);
            },
            Role::Rendering => {
                lemma_brief_lines_twice(rest, None);
                lemma_first_kept_is_flush(rest);
                if kept.len() != 0 {
                    lemma_flush_role(kept, message);
                }
            },
        }
    }
}

/// What `Brief` keeps, read back as lines, is the lines it kept.
proof fn lemma_kept_are_lines(lines: Seq<Seq<char>>, message: Option<nat>)
    requires
        forall|i: int, k: int|
            0 <= i < lines.len() && 0 <= k < lines[i].len() ==> #[trigger] lines[i][k] != '\n',
    ensures
        forall|i: int|
            0 <= i < compare::brief_lines(lines, message).len() ==> text::is_line(
                #[trigger] compare::brief_lines(lines, message)[i],
            ),
    decreases lines.len(),
{
    if lines.len() != 0 {
        let line = lines[0];
        let rest = lines.skip(1);
        let kept = compare::brief_lines(lines, message);
        assert forall|i: int, k: int|
            0 <= i < rest.len() && 0 <= k < rest[i].len() implies #[trigger] rest[i][k] != '\n' by {
            assert(rest[i] == lines[i + 1]);
        }
        let next = match compare::role(lines, message) {
            Role::Text => message,
            Role::Gap => message,
            Role::Heading => compare::prefix_width(line),
            _ => None,
        };
        lemma_kept_are_lines(rest, next);
        let after = compare::brief_lines(rest, next);
        assert forall|k: int| 0 <= k < line.len() implies line[k] != '\n' by {
            assert(lines[0][k] != '\n');
        }
        text::lemma_trim_end(line);
        assert(text::is_line(text::trim_end(line)));
        if compare::role(lines, message) is Span {
            lemma_arrow();
            let inner = text::trim_start(line);
            let target = inner.skip(4);
            text::lemma_trim_start(line);
            text::lemma_trim_start(target);
            text::lemma_trim_end(text::trim_start(target));
            let kept_target = text::trim(target);
            assert forall|k: int| 0 <= k < kept_target.len() implies kept_target[k] != '\n' by {
                assert(kept_target[k] == text::trim_start(target)[k]);
                assert(kept_target[k] == target[text::indent_len(target) + k]);
                assert(kept_target[k] == line[text::indent_len(line) + 4 + text::indent_len(target)
                    + k]);
            }
            let span = compare::span_line(line);
            assert(span == ARROW@ + kept_target);
            assert forall|k: int| 0 <= k < span.len() implies span[k] != '\n' by {
                if k >= 4 {
                    assert(span[k] == kept_target[k - 4]);
                }
            }
            assert(text::is_line(span));
        }
        assert forall|i: int| 0 <= i < kept.len() implies text::is_line(#[trigger] kept[i]) by {
            if compare::role(lines, message) is Rendering {
                assert(kept[i] == after[i]);
            } else if i > 0 {
                assert(kept[i] == after[i - 1]);
            }
        }
    }
}

/// A text of lines that read back as themselves has no CRLF in it.
proof fn lemma_unify_lines(all: Seq<Seq<char>>)
    requires
        forall|i: int| 0 <= i < all.len() ==> text::is_line(#[trigger] all[i]),
    ensures
        compare::unify(text::unlines(all)) == text::unlines(all),
{
    let whole = text::unlines(all);
    lemma_no_pair(all);
    lemma_unify_nothing(whole);
}

/// A CRLF pair at `i`.
spec fn is_pair(text: Seq<char>, i: int) -> bool {
    0 <= i && i + 1 < text.len() && text[i] == '\r' && text[i + 1] == '\n'
}

pub(crate) proof fn lemma_no_pairs(all: Seq<Seq<char>>)
    requires
        forall|i: int| 0 <= i < all.len() ==> text::is_line(#[trigger] all[i]),
    ensures
        forall|i: int|
            0 <= i && i + 1 < text::unlines(all).len() && #[trigger] text::unlines(all)[i] == '\r'
                ==> text::unlines(all)[i + 1] != '\n',
{
    lemma_no_pair(all);
    let whole = text::unlines(all);
    assert forall|i: int|
        0 <= i && i + 1 < whole.len() && #[trigger] whole[i] == '\r' implies whole[i + 1]
        != '\n' by {
        assert(!is_pair(whole, i));
    }
}

proof fn lemma_no_pair(all: Seq<Seq<char>>)
    requires
        forall|i: int| 0 <= i < all.len() ==> text::is_line(#[trigger] all[i]),
    ensures
        forall|i: int| !#[trigger] is_pair(text::unlines(all), i),
    decreases all.len(),
{
    let whole = text::unlines(all);
    if all.len() != 0 {
        let before = text::unlines(all.drop_last());
        let last = all.last();
        assert(text::is_line(all[all.len() - 1]));
        assert forall|i: int| 0 <= i < all.drop_last().len() implies text::is_line(
            #[trigger] all.drop_last()[i],
        ) by {
            assert(all.drop_last()[i] == all[i]);
        }
        lemma_no_pair(all.drop_last());
        lemma_ends_in_newline(all.drop_last());
        assert forall|i: int| !#[trigger] is_pair(whole, i) by {
            if is_pair(whole, i) {
                if i + 1 < before.len() {
                    assert(is_pair(before, i));
                } else if i + 1 == before.len() {
                    assert(before.last() == '\n');
                } else {
                    let k = i - before.len();
                    assert(whole[i] == last.push('\n')[k]);
                    assert(whole[i + 1] == last.push('\n')[k + 1]);
                }
            }
        }
    }
}

proof fn lemma_ends_in_newline(all: Seq<Seq<char>>)
    ensures
        all.len() == 0 ==> text::unlines(all).len() == 0,
        all.len() != 0 ==> text::unlines(all).len() != 0 && text::unlines(all).last() == '\n',
{
}

proof fn lemma_unify_nothing(text: Seq<char>)
    requires
        forall|i: int| !#[trigger] is_pair(text, i),
    ensures
        compare::unify(text) == text,
    decreases text.len(),
{
    if text.len() != 0 {
        let rest = text.skip(1);
        assert(!is_pair(text, 0));
        assert forall|i: int| !#[trigger] is_pair(rest, i) by {
            assert(!is_pair(text, i + 1));
        }
        lemma_unify_nothing(rest);
        assert(seq![text[0]] + rest =~= text);
    }
}

/// What `Brief` keeps of a text is lines, and filters to itself.
pub(crate) proof fn lemma_brief_text(text: Seq<char>)
    ensures
        ({
            let kept = compare::brief_lines(text::lines(text), None);
            &&& text::lines(compare::brief_text(text)) == kept
            &&& compare::unify(compare::brief_text(text)) == compare::brief_text(text)
            &&& compare::brief_lines(kept, None) == kept
            &&& forall|i: int| 0 <= i < kept.len() ==> text::is_line(#[trigger] kept[i])
        }),
{
    let all = text::lines(text);
    text::lemma_lines_hold_no_newline(text);
    lemma_kept_are_lines(all, None);
    text::lemma_lines_unlines(compare::brief_lines(all, None));
    lemma_unify_lines(compare::brief_lines(all, None));
    lemma_brief_lines_twice(all, None);
}

// ---------------------------------------------------------------------------
// `BriefLocal` is `Brief` minus whole lines.
// ---------------------------------------------------------------------------

/// Every line of `lines` has a place in `Brief` output: taken as it stands it
/// is kept as it stands, by a message begun in `lines` or before it.
proof fn lemma_local_stays_brief(
    lines: Seq<Seq<char>>,
    fixture: Seq<char>,
    message: Option<nat>,
)
    requires
        compare::brief_lines(lines, message) == lines,
    ensures
        compare::brief_lines(compare::local_lines(lines, fixture), message)
            == compare::local_lines(lines, fixture),
    decreases lines.len(),
{
    if lines.len() != 0 {
        let line = lines[0];
        let rest = lines.skip(1);
        let kept = compare::local_lines(lines, fixture);
        let after = compare::local_lines(rest, fixture);
        lemma_brief_lines_len(rest, None);
        match compare::role(lines, message) {
            Role::Text => {
                let next = compare::brief_lines(rest, message);
                assert(lines =~= seq![text::trim_end(line)] + next);
                assert(rest =~= next);
                lemma_local_stays_brief(rest, fixture, message);
                lemma_padded_is_local(line, message->0, fixture);
                assert(kept.skip(1) =~= after);
                assert(kept[0] == line);
            },
            Role::Gap => {
                let next = compare::brief_lines(rest, message);
                assert(lines =~= seq![Seq::<char>::empty()] + next);
                assert(line == Seq::<char>::empty()) by {
                    assert(lines[0] == (seq![Seq::<char>::empty()] + next)[0]);
                }
                assert(rest =~= next);
                lemma_local_stays_brief(rest, fixture, message);
                lemma_arrow();
                assert(!compare::points_elsewhere(line, fixture));
                lemma_resumes_local(rest, fixture, message->0);
                assert(kept.skip(1) =~= after);
                assert(kept[0] == line);
            },
            Role::Span => {
                let next = compare::brief_lines(rest, None);
                assert(lines =~= seq![compare::span_line(line)] + next);
                assert(line == compare::span_line(line)) by {
                    assert(lines[0] == (seq![compare::span_line(line)] + next)[0]);
                }
                assert(rest =~= next);
                lemma_local_stays_brief(rest, fixture, None);
                lemma_span_survives(line);
                lemma_local_first_is_flush(rest, fixture);
                if compare::points_elsewhere(line, fixture) {
                    assert(kept == after);
                    if kept.len() != 0 {
                        lemma_flush_role(kept, message);
                    }
                } else {
                    assert(kept.skip(1) =~= after);
                    assert(kept[0] == line);
                    lemma_flush_role(kept, message);
                }
            },
            Role::Heading => {
                let width = compare::prefix_width(line);
                let next = compare::brief_lines(rest, width);
                assert(lines =~= seq![text::trim_end(line)] + next);
                assert(line == text::trim_end(line)) by {
                    assert(lines[0] == (seq![text::trim_end(line)] + next)[0]);
                }
                assert(rest =~= next);
                lemma_local_stays_brief(rest, fixture, width);
                lemma_heading_flush(line);
                lemma_flush(line);
                assert(!compare::points_elsewhere(line, fixture));
                assert(kept.skip(1) =~= after);
                assert(kept[0] == line);
                lemma_flush_role(kept, message);
            },
            Role::Rendering => {
                lemma_brief_lines_len(rest, None);
            },
        }
    }
}

/// `Brief` keeps at most one line for each it reads.
proof fn lemma_brief_lines_len(lines: Seq<Seq<char>>, message: Option<nat>)
    ensures
        compare::brief_lines(lines, message).len() <= lines.len(),
    decreases lines.len(),
{
    if lines.len() != 0 {
        let next = match compare::role(lines, message) {
            Role::Text => message,
            Role::Gap => message,
            Role::Heading => compare::prefix_width(lines[0]),
            _ => None,
        };
        lemma_brief_lines_len(lines.skip(1), next);
    }
}

/// A padded line is a message's own text, and points nowhere.
proof fn lemma_padded_is_local(line: Seq<char>, width: nat, fixture: Seq<char>)
    requires
        compare::carries_on(line, width),
    ensures
        !compare::points_elsewhere(line, fixture),
{
    lemma_arrow();
    if compare::points_elsewhere(line, fixture) {
        assert(line[0] == line.take(4)[0]);
        lemma_flush(line);
    }
}

/// Dropping span headers leaves a message resuming where it did.
proof fn lemma_resumes_local(lines: Seq<Seq<char>>, fixture: Seq<char>, width: nat)
    requires
        compare::resumes(lines, width),
    ensures
        compare::resumes(compare::local_lines(lines, fixture), width),
    decreases lines.len(),
{
    let line = lines[0];
    let kept = compare::local_lines(lines, fixture);
    lemma_arrow();
    if text::is_blank(line) {
        lemma_resumes_local(lines.skip(1), fixture, width);
        if compare::points_elsewhere(line, fixture) {
            assert(line[0] == line.take(4)[0]);
            lemma_flush(line);
        }
        assert(kept.skip(1) =~= compare::local_lines(lines.skip(1), fixture));
    } else {
        lemma_padded_is_local(line, width, fixture);
        assert(kept[0] == line);
    }
}

/// Outside a message, the first line left is flush.
proof fn lemma_local_first_is_flush(lines: Seq<Seq<char>>, fixture: Seq<char>)
    requires
        compare::brief_lines(lines, None) == lines,
    ensures
        compare::local_lines(lines, fixture).len() != 0 ==> is_flush(
            compare::local_lines(lines, fixture)[0],
        ),
    decreases lines.len(),
{
    if lines.len() != 0 {
        lemma_first_kept_is_flush(lines);
        let line = lines[0];
        let rest = lines.skip(1);
        if compare::points_elsewhere(line, fixture) {
            lemma_flush(line);
            assert(compare::role(lines, None) is Span);
            assert(lines =~= seq![compare::span_line(line)] + compare::brief_lines(rest, None));
            assert(rest =~= compare::brief_lines(rest, None));
            lemma_local_first_is_flush(rest, fixture);
        }
    }
}

proof fn lemma_local_lines_twice(lines: Seq<Seq<char>>, fixture: Seq<char>)
    ensures
        compare::local_lines(compare::local_lines(lines, fixture), fixture)
            == compare::local_lines(lines, fixture),
        forall|i: int|
            0 <= i < compare::local_lines(lines, fixture).len() ==> lines.contains(
                #[trigger] compare::local_lines(lines, fixture)[i],
            ),
    decreases lines.len(),
{
    if lines.len() != 0 {
        let rest = lines.skip(1);
        let after = compare::local_lines(rest, fixture);
        let kept = compare::local_lines(lines, fixture);
        lemma_local_lines_twice(rest, fixture);
        assert forall|i: int| 0 <= i < kept.len() implies lines.contains(#[trigger] kept[i]) by {
            if compare::points_elsewhere(lines[0], fixture) {
                assert(kept[i] == after[i]);
                let k = choose|k: int| 0 <= k < rest.len() && rest[k] == after[i];
                assert(lines[k + 1] == kept[i]);
            } else if i == 0 {
                assert(kept[0] == lines[0]);
            } else {
                assert(kept[i] == after[i - 1]);
                let k = choose|k: int| 0 <= k < rest.len() && rest[k] == after[i - 1];
                assert(lines[k + 1] == kept[i]);
            }
        }
        if !compare::points_elsewhere(lines[0], fixture) {
            assert(kept.skip(1) =~= after);
        }
    }
}

/// What `BriefLocal` keeps of a text whose line endings are unified is lines,
/// and both filters leave it as it is.
pub(crate) proof fn lemma_local_text(text: Seq<char>, fixture: Seq<char>)
    ensures
        ({
            let kept = compare::local_lines(compare::brief_lines(text::lines(text), None), fixture);
            let local = compare::local_text(compare::brief_text(text), fixture);
            &&& local == text::unlines(kept)
            &&& text::lines(local) == kept
            &&& compare::unify(local) == local
            &&& compare::brief_lines(kept, None) == kept
            &&& compare::local_lines(kept, fixture) == kept
        }),
{
    let brief = compare::brief_lines(text::lines(text), None);
    let kept = compare::local_lines(brief, fixture);
    lemma_brief_text(text);
    lemma_local_lines_twice(brief, fixture);
    assert forall|i: int| 0 <= i < kept.len() implies text::is_line(#[trigger] kept[i]) by {
        assert(brief.contains(kept[i]));
    }
    text::lemma_lines_unlines(kept);
    lemma_unify_lines(kept);
    lemma_local_stays_brief(brief, fixture, None);
}

// ---------------------------------------------------------------------------
// A carriage return left at the end of a line changes nothing `Brief` keeps.
// ---------------------------------------------------------------------------

/// `b` is `a` with the carriage return taken off the end of some of its lines.
spec fn echoes(a: Seq<Seq<char>>, b: Seq<Seq<char>>) -> bool {
    &&& a.len() == b.len()
    &&& forall|i: int|
        0 <= i < a.len() ==> #[trigger] b[i] == a[i] || b[i] == text::strip_return(a[i])
}

proof fn lemma_trim_ignores_return(line: Seq<char>)
    requires
        line.len() != 0,
        line.last() == '\r',
    ensures
        text::trim_end(line) == text::trim_end(line.drop_last()),
        text::trim(line) == text::trim(line.drop_last()),
        text::is_blank(line) == text::is_blank(line.drop_last()),
        !text::is_blank(line) ==> {
            &&& text::indent_len(line) == text::indent_len(line.drop_last())
            &&& text::trim_start(line) == text::trim_start(line.drop_last()).push('\r')
        },
{
    let cut = line.drop_last();
    text::lemma_trim_end(line);
    text::lemma_trim_end(cut);
    text::lemma_trim_start(line);
    text::lemma_trim_start(cut);
    if text::is_blank(line) {
        assert(text::trim_start(line) =~= text::trim_start(cut));
    } else {
        let n = text::indent_len(line);
        assert(!text::is_space(line[n]));
        assert(n < cut.len());
        assert(cut[n] == line[n]);
        assert forall|i: int| 0 <= i < n implies text::is_space(#[trigger] cut[i]) by {
            assert(cut[i] == line[i]);
        }
        text::lemma_trim_start_is(cut, n);
        assert(text::trim_start(line) =~= text::trim_start(cut).push('\r'));
        assert(text::trim_start(line).drop_last() =~= text::trim_start(cut));
    }
}

/// A carriage return at the end of a line changes nothing about it.
proof fn lemma_line_echoes(a: Seq<char>, b: Seq<char>)
    requires
        b == a || b == text::strip_return(a),
    ensures
        text::trim_end(b) == text::trim_end(a),
        text::is_blank(b) == text::is_blank(a),
        forall|width: nat|
            #[trigger] compare::carries_on(b, width) == compare::carries_on(a, width),
        compare::is_span(b) == compare::is_span(a),
        compare::is_span(a) ==> compare::span_line(b) == compare::span_line(a),
        compare::is_heading(b) == compare::is_heading(a),
        compare::prefix_width(b) == compare::prefix_width(a),
{
    if b != a {
        lemma_arrow();
        lemma_levels();
        lemma_trim_ignores_return(a);
        let inner = text::trim_start(a);
        let cut = text::trim_start(b);
        text::lemma_trim_start(a);
        text::lemma_trim_start(b);
        lemma_starts_echo(a, b, "error"@);
        lemma_starts_echo(a, b, "warning"@);
        assert(b == a.take(b.len() as int));
        lemma_prefix_width_survives(a, b);
        if !text::is_blank(a) {
            assert(cut =~= inner.drop_last());
            lemma_starts_echo(inner, cut, ARROW@);
            reveal_strlit("::: ");
            reveal_strlit("|");
            reveal_strlit("= note:");
            reveal_strlit("= help:");
            lemma_starts_echo(inner, cut, "::: "@);
            lemma_starts_echo(inner, cut, "|"@);
            lemma_starts_echo(inner, cut, "= note:"@);
            lemma_starts_echo(inner, cut, "= help:"@);
            assert(a.take(text::indent_len(a)) =~= b.take(text::indent_len(b)));
            if compare::is_span(a) {
                let target = inner.skip(4);
                if target.len() == 0 {
                    assert(inner.take(4)[3] == inner.last());
                }
                assert(target.last() == '\r');
                assert(cut.skip(4) =~= target.drop_last());
                lemma_trim_ignores_return(target);
            }
        }
    }
}

proof fn lemma_starts_echo(a: Seq<char>, b: Seq<char>, prefix: Seq<char>)
    requires
        a.len() != 0,
        a.last() == '\r',
        b == a.drop_last(),
        prefix.len() != 0,
        prefix.last() != '\r',
    ensures
        text::starts_with(b, prefix) == text::starts_with(a, prefix),
{
    let n = prefix.len() as int;
    if text::starts_with(a, prefix) {
        assert(a[n - 1] == a.take(n)[n - 1]);
        assert(n <= b.len());
        assert(b.take(n) =~= a.take(n));
    }
    if text::starts_with(b, prefix) {
        assert(b.take(n) =~= a.take(n));
    }
}

proof fn lemma_resumes_echoes(a: Seq<Seq<char>>, b: Seq<Seq<char>>, width: nat)
    requires
        echoes(a, b),
    ensures
        compare::resumes(b, width) == compare::resumes(a, width),
    decreases a.len(),
{
    if a.len() != 0 {
        assert(b[0] == a[0] || b[0] == text::strip_return(a[0]));
        lemma_line_echoes(a[0], b[0]);
        lemma_echoes_rest(a, b);
        lemma_resumes_echoes(a.skip(1), b.skip(1), width);
    }
}

proof fn lemma_echoes_rest(a: Seq<Seq<char>>, b: Seq<Seq<char>>)
    requires
        echoes(a, b),
        a.len() != 0,
    ensures
        echoes(a.skip(1), b.skip(1)),
{
    assert forall|i: int| 0 <= i < a.skip(1).len() implies #[trigger] b.skip(1)[i] == a.skip(1)[i]
        || b.skip(1)[i] == text::strip_return(a.skip(1)[i]) by {
        assert(b.skip(1)[i] == b[i + 1]);
        assert(a.skip(1)[i] == a[i + 1]);
    }
}

proof fn lemma_brief_lines_echo(a: Seq<Seq<char>>, b: Seq<Seq<char>>, message: Option<nat>)
    requires
        echoes(a, b),
    ensures
        compare::brief_lines(b, message) == compare::brief_lines(a, message),
    decreases a.len(),
{
    if a.len() != 0 {
        assert(b[0] == a[0] || b[0] == text::strip_return(a[0]));
        lemma_line_echoes(a[0], b[0]);
        lemma_echoes_rest(a, b);
        if message is Some {
            lemma_resumes_echoes(a.skip(1), b.skip(1), message->0);
        }
        let next = match compare::role(a, message) {
            Role::Text => message,
            Role::Gap => message,
            Role::Heading => compare::prefix_width(a[0]),
            _ => None,
        };
        lemma_brief_lines_echo(a.skip(1), b.skip(1), next);
    }
}

/// Unifying line endings up to and including the first `\n`.
proof fn lemma_unify_first_line(text: Seq<char>)
    requires
        text::position(text, '\n') < text.len(),
    ensures
        ({
            let at = text::position(text, '\n') as int;
            compare::unify(text) == text::strip_return(text.take(at)).push('\n') + compare::unify(
                text.skip(at + 1),
            )
        }),
    decreases text.len(),
{
    let at = text::position(text, '\n') as int;
    text::lemma_position(text, '\n');
    let rest = text.skip(1);
    let after = compare::unify(text.skip(at + 1));
    if at == 0 {
        assert(text.take(0) =~= Seq::<char>::empty());
        assert(compare::unify(text) =~= text::strip_return(text.take(at)).push('\n') + after);
    } else {
        text::lemma_position(rest, '\n');
        lemma_unify_first_line(rest);
        assert(rest.skip(at) =~= text.skip(at + 1));
        if at == 1 && text[0] == '\r' {
            assert(rest.take(0) =~= Seq::<char>::empty());
            assert(text.take(1).drop_last() =~= Seq::<char>::empty());
            assert(compare::unify(text) =~= text::strip_return(text.take(at)).push('\n') + after);
        } else {
            assert(text[1] == '\n' ==> at == 1);
            let line = text.take(at);
            assert(line =~= seq![text[0]] + rest.take(at - 1));
            assert(text::strip_return(line) =~= seq![text[0]] + text::strip_return(
                rest.take(at - 1),
            ));
            assert(compare::unify(text) =~= text::strip_return(line).push('\n') + after);
        }
    }
}

/// Unifying line endings leaves each line as it was, or without one carriage
/// return at its end.
proof fn lemma_unify_echoes(text: Seq<char>)
    ensures
        echoes(text::lines(text), text::lines(compare::unify(text))),
    decreases text.len(),
{
    if text.len() != 0 {
        let at = text::position(text, '\n') as int;
        text::lemma_position(text, '\n');
        let unified = compare::unify(text);
        if at >= text.len() {
            assert forall|i: int| !#[trigger] is_pair(text, i) by {}
            lemma_unify_nothing(text);
        } else {
            let rest = text.skip(at + 1);
            let line = text::strip_return(text.take(at));
            lemma_unify_first_line(text);
            lemma_unify_echoes(rest);
            assert forall|i: int| 0 <= i < line.len() implies unified[i] != '\n' by {
                assert(unified[i] == line[i]);
                assert(line[i] == text[i]);
            }
            assert(unified[line.len() as int] == '\n');
            text::lemma_position_is(unified, '\n', line.len() as int);
            assert(unified.take(line.len() as int) =~= line);
            assert(unified.skip(line.len() as int + 1) =~= compare::unify(rest));
            let a = text::lines(text);
            let b = text::lines(unified);
            assert(a == seq![line] + text::lines(rest));
            assert(b == seq![text::strip_return(line)] + text::lines(compare::unify(rest)));
            assert forall|i: int| 0 <= i < a.len() implies #[trigger] b[i] == a[i] || b[i]
                == text::strip_return(a[i]) by {
                if i > 0 {
                    assert(a[i] == text::lines(rest)[i - 1]);
                    assert(b[i] == text::lines(compare::unify(rest))[i - 1]);
                }
            }
        }
    }
}

/// `Brief` reads a text the same whether or not its line endings were unified
/// before.
proof fn lemma_brief_text_unified(text: Seq<char>)
    ensures
        compare::brief_text(compare::unify(text)) == compare::brief_text(text),
{
    lemma_unify_echoes(text);
    lemma_brief_lines_echo(text::lines(text), text::lines(compare::unify(text)), None);
}

// ---------------------------------------------------------------------------
// The laws.
// ---------------------------------------------------------------------------

/// Filtering is idempotent, which is what makes filtering both sides of a
/// comparison safe: a golden that holds what a mode keeps is left as it is by
/// that mode.
///
/// `Exact` takes one carriage return off each line ending, so it is idempotent
/// only on a text in which no line ending carries two.
pub proof fn law_filtering_twice_is_filtering_once(
    text: Seq<char>,
    mode: Mode,
    fixture: Seq<char>,
)
    requires
        mode is Exact ==> !text::contains(text, seq!['\r', '\r', '\n']),
    ensures
        compare::filtered(compare::filtered(text, mode, fixture), mode, fixture)
            == compare::filtered(text, mode, fixture),
{
    let unified = compare::unify(text);
    match mode {
        Mode::Exact => {
            assert forall|i: int| !#[trigger] is_triple(text, i) by {
                if is_triple(text, i) {
                    assert(text.subrange(i, i + 3) =~= seq!['\r', '\r', '\n']);
                    assert(text::occurs_at(text, seq!['\r', '\r', '\n'], i));
                }
            }
            lemma_unified_has_no_pair(text);
            lemma_unify_nothing(unified);
        },
        Mode::Brief => {
            lemma_brief_text(unified);
        },
        Mode::BriefLocal => {
            lemma_local_text(unified, fixture);
        },
    }
}

/// Two carriage returns before a line feed, at `i`.
spec fn is_triple(text: Seq<char>, i: int) -> bool {
    0 <= i && i + 2 < text.len() && text[i] == '\r' && text[i + 1] == '\r' && text[i + 2] == '\n'
}

proof fn lemma_unified_has_no_pair(text: Seq<char>)
    requires
        forall|i: int| !#[trigger] is_triple(text, i),
    ensures
        forall|i: int| !#[trigger] is_pair(compare::unify(text), i),
        text.len() != 0 ==> compare::unify(text).len() != 0 && compare::unify(text)[0] == (
        if is_pair(text, 0) {
            '\n'
        } else {
            text[0]
        }),
    decreases text.len(),
{
    if text.len() != 0 {
        let rest = text.skip(1);
        assert forall|i: int| !#[trigger] is_triple(rest, i) by {
            assert(!is_triple(text, i + 1));
        }
        lemma_unified_has_no_pair(rest);
        assert(!is_triple(text, 0));
        let unified = compare::unify(text);
        if !is_pair(text, 0) {
            assert forall|i: int| !#[trigger] is_pair(unified, i) by {
                if i > 0 {
                    assert(!is_pair(compare::unify(rest), i - 1));
                }
            }
        }
    }
}

/// A mode that keeps less accepts a golden written in `Exact`: filtering what
/// `Exact` kept gives what filtering the diagnostics gives, so switching modes
/// needs no new golden.
pub proof fn law_a_brief_mode_accepts_an_exact_golden(
    text: Seq<char>,
    mode: Mode,
    fixture: Seq<char>,
)
    requires
        mode !is Exact,
    ensures
        compare::filtered(compare::filtered(text, Mode::Exact, fixture), mode, fixture)
            == compare::filtered(text, mode, fixture),
{
    lemma_brief_text_unified(compare::unify(text));
}

/// `BriefLocal` accepts a golden written in `Brief`.
pub proof fn law_brief_local_accepts_a_brief_golden(text: Seq<char>, fixture: Seq<char>)
    ensures
        compare::filtered(
            compare::filtered(text, Mode::Brief, fixture),
            Mode::BriefLocal,
            fixture,
        ) == compare::filtered(text, Mode::BriefLocal, fixture),
{
    lemma_brief_text(compare::unify(text));
}

/// A mode compares a text and the text with its line endings unified alike.
///
/// In `Exact`, a text with two carriage returns before a line feed is left out.
pub proof fn law_unified_endings_compare_the_same(
    text: Seq<char>,
    mode: Mode,
    fixture: Seq<char>,
)
    requires
        mode is Exact ==> !text::contains(text, seq!['\r', '\r', '\n']),
    ensures
        compare::filtered(compare::unify(text), mode, fixture) == compare::filtered(
            text,
            mode,
            fixture,
        ),
{
    if mode is Exact {
        law_filtering_twice_is_filtering_once(text, mode, fixture);
    } else {
        lemma_brief_text_unified(compare::unify(text));
    }
}

/// `text` as git checks it out on Windows: every `\n` becomes `\r\n`.
pub open spec fn checked_out_as_crlf(text: Seq<char>) -> Seq<char>
    decreases text.len(),
{
    if text.len() == 0 {
        seq![]
    } else if text[0] == '\n' {
        seq!['\r', '\n'] + checked_out_as_crlf(text.skip(1))
    } else {
        seq![text[0]] + checked_out_as_crlf(text.skip(1))
    }
}

/// Unifying line endings undoes a CRLF checkout, whatever the text.
pub proof fn law_unifying_undoes_a_crlf_checkout(text: Seq<char>)
    ensures
        compare::unify(checked_out_as_crlf(text)) == text,
    decreases text.len(),
{
    reveal_with_fuel(checked_out_as_crlf, 2);
    reveal_with_fuel(compare::unify, 2);
    if text.len() != 0 {
        let rest = text.skip(1);
        law_unifying_undoes_a_crlf_checkout(rest);
        let out = checked_out_as_crlf(text);
        let after = checked_out_as_crlf(rest);
        if text[0] == '\n' {
            assert(out.skip(1) =~= seq!['\n'] + after);
            assert(out.skip(1).skip(1) =~= after);
        } else {
            assert(out.skip(1) =~= after);
            if out.len() > 1 && rest.len() != 0 {
                assert(after[0] == (if rest[0] == '\n' {
                    '\r'
                } else {
                    rest[0]
                }));
            }
        }
        assert(seq![text[0]] + rest =~= text);
    }
}

/// A golden compares the same however git checked it out.
///
/// In `Exact`, a golden that itself holds a CRLF pair is left out: unifying
/// takes one carriage return off it however it was checked out.
pub proof fn law_a_crlf_checkout_compares_the_same(
    text: Seq<char>,
    mode: Mode,
    fixture: Seq<char>,
)
    requires
        mode is Exact ==> !text::contains(text, seq!['\r', '\n']),
    ensures
        compare::filtered(checked_out_as_crlf(text), mode, fixture) == compare::filtered(
            text,
            mode,
            fixture,
        ),
{
    law_unifying_undoes_a_crlf_checkout(text);
    lemma_brief_text_unified(text);
    if mode is Exact {
        law_exact_is_the_identity(text, fixture);
    }
}

/// `Exact` compares a text with no CRLF pair in it exactly as it is.
pub proof fn law_exact_is_the_identity(text: Seq<char>, fixture: Seq<char>)
    requires
        !text::contains(text, seq!['\r', '\n']),
    ensures
        compare::filtered(text, Mode::Exact, fixture) == text,
{
    assert forall|i: int| !#[trigger] is_pair(text, i) by {
        if is_pair(text, i) {
            assert(text.subrange(i, i + 2) =~= seq!['\r', '\n']);
            assert(text::occurs_at(text, seq!['\r', '\n'], i));
        }
    }
    lemma_unify_nothing(text);
}

/// The first lines of the primary messages among `lines`, in order.
pub open spec fn headings(lines: Seq<Seq<char>>) -> Seq<Seq<char>>
    decreases lines.len(),
{
    if lines.len() == 0 {
        seq![]
    } else if compare::is_heading(lines[0]) {
        seq![text::trim_end(lines[0])] + headings(lines.skip(1))
    } else {
        headings(lines.skip(1))
    }
}

/// Every mode keeps every primary message: each error code and the text after
/// it, in the order the compiler gave them. So two diagnostics whose messages
/// differ never compare equal, whatever the mode.
pub proof fn law_every_mode_keeps_every_heading(text: Seq<char>, mode: Mode, fixture: Seq<char>)
    ensures
        headings(text::lines(compare::filtered(text, mode, fixture))) == headings(
            text::lines(compare::unify(text)),
        ),
{
    let unified = compare::unify(text);
    let all = text::lines(unified);
    match mode {
        Mode::Exact => {},
        Mode::Brief => {
            lemma_brief_text(unified);
            lemma_headings_kept(all, None);
        },
        Mode::BriefLocal => {
            lemma_local_text(unified, fixture);
            lemma_headings_kept(all, None);
            lemma_headings_local(compare::brief_lines(all, None), fixture);
        },
    }
}

proof fn lemma_headings_kept(lines: Seq<Seq<char>>, message: Option<nat>)
    ensures
        headings(compare::brief_lines(lines, message)) == headings(lines),
    decreases lines.len(),
{
    if lines.len() != 0 {
        let line = lines[0];
        let rest = lines.skip(1);
        let kept = compare::brief_lines(lines, message);
        let next = match compare::role(lines, message) {
            Role::Text => message,
            Role::Gap => message,
            Role::Heading => compare::prefix_width(line),
            _ => None,
        };
        lemma_headings_kept(rest, next);
        if compare::role(lines, message) !is Rendering {
            assert(kept.skip(1) =~= compare::brief_lines(rest, next));
        }
        if compare::is_heading(line) {
            lemma_heading_flush(line);
            lemma_flush(line);
            lemma_heading_survives(line);
            lemma_trim_end_twice(line);
        } else {
            match compare::role(lines, message) {
                Role::Text => {
                    lemma_carries_on_survives(line, message->0);
                    if compare::is_heading(text::trim_end(line)) {
                        lemma_heading_flush(text::trim_end(line));
                        lemma_flush(text::trim_end(line));
                    }
                },
                Role::Gap => {
                    lemma_levels();
                },
                Role::Span => {
                    lemma_span_survives(line);
                    if compare::is_heading(compare::span_line(line)) {
                        lemma_heading_flush(compare::span_line(line));
                    }
                },
                _ => {},
            }
        }
    }
}

proof fn lemma_headings_local(lines: Seq<Seq<char>>, fixture: Seq<char>)
    ensures
        headings(compare::local_lines(lines, fixture)) == headings(lines),
    decreases lines.len(),
{
    if lines.len() != 0 {
        let kept = compare::local_lines(lines, fixture);
        lemma_headings_local(lines.skip(1), fixture);
        if compare::points_elsewhere(lines[0], fixture) {
            if compare::is_heading(lines[0]) {
                lemma_heading_flush(lines[0]);
                lemma_flush(lines[0]);
            }
        } else {
            assert(kept.skip(1) =~= compare::local_lines(lines.skip(1), fixture));
        }
    }
}

/// What `BriefLocal` keeps is what `Brief` keeps without the lines that point
/// outside the fixture, and with every other line.
pub proof fn law_brief_local_is_brief_minus_whole_lines(text: Seq<char>, fixture: Seq<char>)
    ensures
        text::lines(compare::filtered(text, Mode::BriefLocal, fixture)) == text::lines(
            compare::filtered(text, Mode::Brief, fixture),
        ).filter(|line: Seq<char>| !compare::points_elsewhere(line, fixture)),
{
    let unified = compare::unify(text);
    lemma_local_text(unified, fixture);
    lemma_brief_text(unified);
    lemma_local_lines_filter(compare::brief_lines(text::lines(unified), None), fixture);
}

proof fn lemma_local_lines_filter(lines: Seq<Seq<char>>, fixture: Seq<char>)
    ensures
        compare::local_lines(lines, fixture) == lines.filter(
            |line: Seq<char>| !compare::points_elsewhere(line, fixture),
        ),
    decreases lines.len(),
{
    let keep = |line: Seq<char>| !compare::points_elsewhere(line, fixture);
    reveal(Seq::filter);
    if lines.len() != 0 {
        let rest = lines.skip(1);
        lemma_local_lines_filter(rest, fixture);
        let first = seq![lines[0]];
        assert(lines =~= first + rest);
        Seq::filter_distributes_over_add(first, rest, keep);
        assert(first.drop_last() =~= Seq::<Seq<char>>::empty());
        assert(first.drop_last().filter(keep) =~= Seq::<Seq<char>>::empty());
        if keep(lines[0]) {
            assert(first.filter(keep) =~= first);
        } else {
            assert(first.filter(keep) =~= Seq::<Seq<char>>::empty());
            assert(first.filter(keep) + rest.filter(keep) =~= rest.filter(keep));
        }
    }
}

/// A line that is a primary message's first, a location, a blank line between the
/// paragraphs of a message, or a later line of one: padded at least as far as
/// `error: ` reaches, which no gutter beside fewer than a hundred thousand lines is,
/// or no rendering.
pub open spec fn is_message_or_location(line: Seq<char>) -> bool {
    ||| compare::is_heading(line)
    ||| text::starts_with(line, compare::ARROW@)
    ||| line.len() == 0
    ||| compare::padding(line) >= 7
    ||| compare::padding(line) != 0 && !compare::is_rendering(text::trim_start(line))
}

/// The brief modes keep messages and locations and nothing else: no gutter, no
/// snippet and no note, whether or not the diagnostic has a location.
pub proof fn law_a_brief_mode_keeps_messages_and_locations_only(
    text: Seq<char>,
    mode: Mode,
    fixture: Seq<char>,
    at: int,
)
    requires
        mode !is Exact,
        0 <= at < text::lines(compare::filtered(text, mode, fixture)).len(),
    ensures
        is_message_or_location(text::lines(compare::filtered(text, mode, fixture))[at]),
{
    let unified = compare::unify(text);
    let all = compare::brief_lines(text::lines(unified), None);
    lemma_brief_text(unified);
    lemma_messages_and_locations(text::lines(unified), None);
    if mode is BriefLocal {
        lemma_local_text(unified, fixture);
        lemma_local_lines_are_lines(all, fixture);
        let kept = compare::local_lines(all, fixture);
        assert(all.contains(kept[at]));
    }
}

proof fn lemma_local_lines_are_lines(lines: Seq<Seq<char>>, fixture: Seq<char>)
    ensures
        forall|i: int|
            0 <= i < compare::local_lines(lines, fixture).len() ==> lines.contains(
                #[trigger] compare::local_lines(lines, fixture)[i],
            ),
    decreases lines.len(),
{
    if lines.len() != 0 {
        let rest = lines.skip(1);
        lemma_local_lines_are_lines(rest, fixture);
        let kept = compare::local_lines(lines, fixture);
        let later = compare::local_lines(rest, fixture);
        assert forall|i: int| 0 <= i < kept.len() implies lines.contains(#[trigger] kept[i]) by {
            let back = kept.len() - later.len();
            if i < back {
                assert(kept[i] == lines[0]);
            } else {
                assert(kept[i] == later[i - back]);
                let k = rest.index_of(later[i - back]);
                assert(lines[k + 1] == kept[i]);
            }
        }
    }
}

proof fn lemma_prefix_is_wide(line: Seq<char>)
    requires
        compare::is_heading(line),
    ensures
        compare::prefix_width(line) matches Some(width) ==> width >= 7,
{
    reveal_strlit("error");
    reveal_strlit("warning");
    let colon = text::position(line, ':') as int;
    text::lemma_position(line, ':');
    if colon < line.len() {
        if colon < 5 {
            assert(line[colon] == line.take(5)[colon]);
            if text::starts_with(line, "error"@) {
                assert(line.take(5)[colon] == "error"@[colon]);
            } else {
                assert(line.take(7)[colon] == "warning"@[colon]);
                assert(line.take(7)[colon] == line[colon]);
            }
        }
        lemma_bytes_and_chars(line.take(colon));
    }
}

proof fn lemma_bytes_and_chars(text: Seq<char>)
    ensures
        text::byte_len(text) >= text.len(),
    decreases text.len(),
{
    if text.len() != 0 {
        lemma_bytes_and_chars(text.drop_last());
    }
}

proof fn lemma_messages_and_locations(lines: Seq<Seq<char>>, message: Option<nat>)
    requires
        message matches Some(width) ==> width >= 7,
    ensures
        forall|i: int|
            0 <= i < compare::brief_lines(lines, message).len() ==> is_message_or_location(
                #[trigger] compare::brief_lines(lines, message)[i],
            ),
    decreases lines.len(),
{
    if lines.len() != 0 {
        let line = lines[0];
        let rest = lines.skip(1);
        let role = compare::role(lines, message);
        let next = match role {
            compare::Role::Text => message,
            compare::Role::Gap => message,
            compare::Role::Heading => compare::prefix_width(line),
            _ => None,
        };
        if role is Heading {
            lemma_prefix_is_wide(line);
            lemma_heading_survives(line);
        }
        if role is Text {
            lemma_carries_on_survives(line, message->0);
        }
        if role is Span {
            let shown = compare::span_line(line);
            assert(shown.take(compare::ARROW@.len() as int) =~= compare::ARROW@);
        }
        lemma_messages_and_locations(rest, next);
        let kept = compare::brief_lines(lines, message);
        let later = compare::brief_lines(rest, next);
        assert forall|i: int| 0 <= i < kept.len() implies is_message_or_location(
            #[trigger] kept[i],
        ) by {
            let back = kept.len() - later.len();
            if i >= back {
                assert(kept[i] == later[i - back]);
            }
        }
    }
}

} // verus!
