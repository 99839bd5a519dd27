//! What holds of normalized diagnostics.

use vstd::prelude::*;

use crate::normalize;
use crate::normalize::implementors;
use crate::normalize::implementors::LISTED;
use crate::normalize::paths;
use crate::normalize::paths::{Match, Pair, Reach, Replacements};
use crate::normalize::spans;
use crate::normalize::spans::Row;
use crate::normalize::{Rules, CARGO_REGISTRY, CRATE, DIR, IMPLEMENTORS, N, RUST, SCRATCH};
use crate::path;
use crate::scratch::Declared;
use crate::text;

verus! {

// ---------------------------------------------------------------------------
// Whitespace.
// ---------------------------------------------------------------------------

proof fn lemma_settled(lines: Seq<Seq<char>>)
    ensures
        normalize::settled(lines).len() <= lines.len(),
        normalize::settled(lines) == lines.take(normalize::settled(lines).len() as int),
        normalize::settled(lines).len() != 0 ==> normalize::settled(lines).last().len() != 0,
    decreases lines.len(),
{
    if lines.len() != 0 && lines.last().len() == 0 {
        let rest = lines.drop_last();
        lemma_settled(rest);
        let n = normalize::settled(lines).len() as int;
        assert(lines.take(n) =~= rest.take(n));
    } else {
        assert(lines.take(lines.len() as int) =~= lines);
    }
}

proof fn lemma_settled_lines(lines: Seq<Seq<char>>, at: int)
    requires
        0 <= at < normalize::settled(normalize::stripped(lines)).len(),
    ensures
        at < lines.len(),
        normalize::settled(normalize::stripped(lines))[at] == text::trim_end(lines[at]),
{
    lemma_settled(normalize::stripped(lines));
    let all = normalize::stripped(lines);
    let kept = normalize::settled(all);
    assert(kept[at] == all.take(kept.len() as int)[at]);
}

/// No line of what is written into a golden ends in whitespace, and the last one
/// is not empty. So a golden is empty, or ends in exactly one newline.
pub proof fn law_a_golden_has_no_loose_ends(rules: Rules, text: Seq<char>, fixture: Seq<char>)
    ensures
        ({
            let lines = normalize::normalized_lines(rules, text, fixture);
            let whole = normalize::normalized(rules, text, fixture);
            &&& forall|i: int|
                0 <= i < lines.len() ==> (#[trigger] lines[i]).len() == 0 || !text::is_space(
                    lines[i].last(),
                )
            &&& lines.len() != 0 ==> lines.last().len() != 0
            &&& whole.len() == 0 <==> lines.len() == 0
            &&& whole.len() != 0 ==> whole.len() >= 2 && whole.last() == '\n' && !text::is_space(
                whole[whole.len() - 2],
            )
        }),
{
    let table = normalize::replacements(rules, fixture);
    let tidy = normalize::all_tidied(
        normalize::replaced(text::lines(text), table),
        fixture,
        rules.elide,
    );
    let lines = normalize::normalized_lines(rules, text, fixture);
    let whole = normalize::normalized(rules, text, fixture);
    assert forall|i: int| 0 <= i < lines.len() implies (#[trigger] lines[i]).len() == 0
        || !text::is_space(lines[i].last()) by {
        lemma_settled_lines(tidy, i);
        text::lemma_trim_end(tidy[i]);
    }
    lemma_settled(normalize::stripped(tidy));
    if lines.len() != 0 {
        let last = lines.last();
        assert(lines[lines.len() - 1] == last);
        assert(whole == text::unlines(lines.drop_last()) + last.push('\n'));
        assert(whole[whole.len() - 2] == last.last());
    }
}

// ---------------------------------------------------------------------------
// Lines stay lines.
// ---------------------------------------------------------------------------

/// `text` holds no line feed.
pub open spec fn is_one_line(text: Seq<char>) -> bool {
    forall|i: int| 0 <= i < text.len() ==> text[i] != '\n'
}

/// Each of `lines` holds no line feed.
spec fn are_lines(lines: Seq<Seq<char>>) -> bool {
    forall|i: int| 0 <= i < lines.len() ==> is_one_line(#[trigger] lines[i])
}

/// Everything `table` puts into a line is one line.
spec fn puts_lines(table: Replacements) -> bool {
    forall|i: int| 0 <= i < table.known.len() ==> is_one_line((#[trigger] table.known[i]).shown)
}

proof fn lemma_longest_is_one_line(line: Seq<char>, known: Seq<Pair>, at: int)
    requires
        forall|i: int| 0 <= i < known.len() ==> is_one_line((#[trigger] known[i]).shown),
    ensures
        is_one_line(paths::longest(line, known, at).shown),
    decreases known.len(),
{
    if known.len() != 0 {
        let rest = known.drop_last();
        assert forall|i: int| 0 <= i < rest.len() implies is_one_line(
            (#[trigger] rest[i]).shown,
        ) by {
            assert(rest[i] == known[i]);
        }
        lemma_longest_is_one_line(line, rest, at);
        assert(known[known.len() - 1] == known.last());
    }
}

proof fn lemma_placeholders_are_one_line()
    ensures
        is_one_line(RUST@),
        is_one_line(CARGO_REGISTRY@),
        is_one_line(CRATE@),
        is_one_line(normalize::CARGO_HOME@),
        is_one_line(DIR@),
        is_one_line(SCRATCH@),
        is_one_line(N@),
        is_one_line(IMPLEMENTORS@),
        is_one_line("and "@),
        is_one_line(" others"@),
        is_one_line("$"@),
{
    reveal_strlit("$RUST");
    reveal_strlit("$CARGO_REGISTRY");
    reveal_strlit("$CRATE");
    reveal_strlit("$CARGO_HOME");
    reveal_strlit("$DIR");
    reveal_strlit("$SCRATCH");
    reveal_strlit("$N");
    reveal_strlit("$IMPLEMENTORS");
    reveal_strlit("and ");
    reveal_strlit(" others");
    reveal_strlit("$");
}

proof fn lemma_rewritten_from_is_one_line(
    line: Seq<char>,
    table: Replacements,
    at: int,
    inside: Option<Reach>,
)
    requires
        is_one_line(line),
        puts_lines(table),
    ensures
        is_one_line(paths::rewritten_from(line, table, at, inside)),
    decreases line.len() - at,
{
    if 0 <= at < line.len() {
        let read = paths::folded(line, table.fold);
        let found = paths::match_at(read, table, at);
        lemma_placeholders_are_one_line();
        lemma_longest_is_one_line(read, table.known, at);
        assert(is_one_line(found.shown) || found.len == 0);
        if 0 < found.len <= line.len() - at {
            lemma_rewritten_from_is_one_line(
                line,
                table,
                at + found.len,
                Some(paths::reach_of(read, at)),
            );
        } else {
            let path = paths::still_inside(read, inside, at);
            lemma_rewritten_from_is_one_line(line, table, at + 1, path);
            assert(read[at] == paths::folded_char(line[at], table.fold));
        }
    }
}

pub(crate) proof fn lemma_spaces(n: nat)
    ensures
        spans::spaces(n).len() == n,
        forall|i: int| 0 <= i < n ==> #[trigger] spans::spaces(n)[i] == ' ',
    decreases n,
{
    if n > 0 {
        lemma_spaces((n - 1) as nat);
    }
}

proof fn lemma_without_number(target: Seq<char>)
    ensures
        spans::without_number(target).len() <= target.len(),
        spans::without_number(target) == target.take(spans::without_number(target).len() as int),
{
    assert(target.take(target.len() as int) =~= target);
}

proof fn lemma_unplaced_is_one_line(header: Seq<char>)
    requires
        is_one_line(header),
        text::trim_start(header).len() >= 4,
    ensures
        is_one_line(spans::unplaced(header)),
{
    let unpadded = text::trim_start(header);
    text::lemma_trim_start(header);
    let rest = unpadded.skip(4);
    let place = spans::target(header);
    assert forall|i: int| 0 <= i < rest.len() implies rest[i] != '\n' by {
        assert(rest[i] == header[text::indent_len(header) + 4 + i]);
    }
    text::lemma_trim_start(rest);
    text::lemma_trim_end(text::trim_start(rest));
    assert forall|i: int| 0 <= i < place.len() implies place[i] != '\n' by {
        assert(place[i] == rest[text::indent_len(rest) + i]);
    }
    lemma_without_number(place);
    lemma_without_number(spans::without_number(place));
    let start = text::indent_len(header) + 4;
    let left = spans::without_position(place);
    assert(left.len() <= place.len() && left =~= place.take(left.len() as int));
    let shown = spans::unplaced(header);
    assert forall|i: int| 0 <= i < shown.len() implies shown[i] != '\n' by {
        if i >= start {
            assert(shown[i] == place[i - start]);
        } else {
            assert(shown[i] == header[i]);
        }
    }
}

proof fn lemma_header_is_long(line: Seq<char>, message: Option<nat>)
    requires
        spans::row(line, message) is Header,
    ensures
        text::trim_start(line).len() >= 4,
{
    reveal_strlit("--> ");
    reveal_strlit("::: ");
}

proof fn lemma_digit_count(line: Seq<char>)
    ensures
        spans::digit_count(line) <= line.len(),
    decreases line.len(),
{
    if line.len() != 0 {
        lemma_digit_count(line.skip(1));
    }
}

proof fn lemma_leading_spaces(line: Seq<char>, n: nat)
    ensures
        spans::leading_spaces(line, n) <= line.len(),
        spans::leading_spaces(line, n) <= n,
    decreases n,
{
    if n > 0 && line.len() != 0 {
        lemma_leading_spaces(line.skip(1), (n - 1) as nat);
    }
}

proof fn lemma_pulled_is_one_line(line: Seq<char>, n: nat)
    requires
        is_one_line(line),
    ensures
        is_one_line(spans::pulled(line, n)),
{
    lemma_leading_spaces(line, n);
    let k = spans::leading_spaces(line, n) as int;
    let out = spans::pulled(line, n);
    assert forall|i: int| 0 <= i < out.len() implies out[i] != '\n' by {
        assert(out[i] == line[k + i]);
    }
}

proof fn lemma_unplaced_lines(lines: Seq<Seq<char>>, fixture: Seq<char>)
    requires
        are_lines(lines),
    ensures
        are_lines(spans::unplaced_lines(lines, fixture)),
{
    let out = spans::unplaced_lines(lines, fixture);
    assert forall|i: int| 0 <= i < out.len() implies is_one_line(#[trigger] out[i]) by {
        let line = lines[i];
        assert(is_one_line(line));
        match spans::row_at(lines, i) {
            Row::Header => {
                lemma_header_is_long(line, spans::open_message(lines.take(i)));
                lemma_unplaced_is_one_line(line);
            },
            Row::Numbered => {
                lemma_digit_count(line);
                lemma_spaces(spans::digit_count(line));
                let shown = spans::unnumbered(line);
                let n = spans::digit_count(line) as int;
                assert forall|k: int| 0 <= k < shown.len() implies shown[k] != '\n' by {
                    if k >= n {
                        assert(shown[k] == line[k]);
                    } else {
                        assert(shown[k] == spans::spaces(spans::digit_count(line))[k]);
                    }
                }
            },
            _ => {},
        }
    }
}

proof fn lemma_narrowed_is_one_line(line: Seq<char>, row: Row, n: nat)
    requires
        is_one_line(line),
    ensures
        is_one_line(spans::narrowed(line, row, n)),
{
    reveal_strlit("...");
    lemma_digit_count(line);
    let kept = match row {
        Row::Numbered => spans::digit_count(line) as int,
        _ => if text::starts_with(line, "..."@) {
            3
        } else {
            0
        },
    };
    let rest = line.skip(kept);
    assert forall|i: int| 0 <= i < rest.len() implies rest[i] != '\n' by {
        assert(rest[i] == line[kept + i]);
    }
    lemma_pulled_is_one_line(rest, n);
    lemma_pulled_is_one_line(line, n);
}

proof fn lemma_realigned_lines(lines: Seq<Seq<char>>)
    requires
        are_lines(lines),
    ensures
        are_lines(spans::realigned(lines)),
{
    let out = spans::realigned(lines);
    assert forall|i: int| 0 <= i < out.len() implies is_one_line(#[trigger] out[i]) by {
        assert(is_one_line(lines[i]));
        lemma_narrowed_is_one_line(lines[i], spans::row_at(lines, i), spans::excess(lines));
    }
}

proof fn lemma_add_lines(a: Seq<Seq<char>>, b: Seq<Seq<char>>)
    requires
        are_lines(a),
        are_lines(b),
    ensures
        are_lines(a + b),
{
    let all = a + b;
    assert forall|i: int| 0 <= i < all.len() implies is_one_line(#[trigger] all[i]) by {
        if i < a.len() {
            assert(all[i] == a[i]);
        } else {
            assert(all[i] == b[i - a.len()]);
        }
    }
}

proof fn lemma_part_of_lines(lines: Seq<Seq<char>>, from: int, to: int)
    requires
        are_lines(lines),
        0 <= from <= to <= lines.len(),
    ensures
        are_lines(lines.subrange(from, to)),
{
    let part = lines.subrange(from, to);
    assert forall|i: int| 0 <= i < part.len() implies is_one_line(#[trigger] part[i]) by {
        assert(part[i] == lines[from + i]);
    }
}

proof fn lemma_count_line(column: nat)
    ensures
        is_one_line(implementors::count_line(column)),
        is_one_line(spans::spaces(column + 2) + IMPLEMENTORS@),
{
    lemma_placeholders_are_one_line();
    lemma_spaces(column);
    lemma_spaces(column + 2);
    let counted = implementors::count_line(column);
    let head = spans::spaces(column) + "and "@ + N@;
    assert(counted == head + " others"@);
}

proof fn lemma_shown_entries(entries: Seq<Seq<char>>, column: nat, elide: bool)
    requires
        are_lines(entries),
    ensures
        are_lines(implementors::shown_entries(entries, column, elide)),
{
    lemma_count_line(column);
    let shown = implementors::shown_entries(entries, column, elide);
    assert forall|i: int| 0 <= i < shown.len() implies is_one_line(#[trigger] shown[i]) by {
        if entries.len() != 0 && !elide && shown[i] != implementors::count_line(column) {
            assert(shown[i] == entries[i]);
        }
    }
}

proof fn lemma_with_lists(lines: Seq<Seq<char>>, elide: bool)
    requires
        are_lines(lines),
    ensures
        are_lines(implementors::with_lists(lines, elide)),
    decreases lines.len(),
{
    if lines.len() != 0 {
        let first = seq![lines[0]];
        assert(is_one_line(lines[0]));
        assert(are_lines(first));
        if implementors::is_list_heading(lines[0]) {
            let column = implementors::list_column(lines[0]);
            let n = implementors::list_len(lines.skip(1), column) as int;
            implementors::lemma_list_len(lines.skip(1), column);
            lemma_part_of_lines(lines, 1, 1 + n);
            lemma_shown_entries(lines.subrange(1, 1 + n), column, elide);
            let shown = implementors::shown_entries(lines.subrange(1, 1 + n), column, elide);
            lemma_add_lines(first, shown);
            lemma_part_of_lines(lines, 1 + n, lines.len() as int);
            assert(lines.skip(1 + n) =~= lines.subrange(1 + n, lines.len() as int));
            lemma_with_lists(lines.skip(1 + n), elide);
            lemma_add_lines(first + shown, implementors::with_lists(lines.skip(1 + n), elide));
        } else {
            lemma_part_of_lines(lines, 1, lines.len() as int);
            assert(lines.skip(1) =~= lines.subrange(1, lines.len() as int));
            lemma_with_lists(lines.skip(1), elide);
            lemma_add_lines(first, implementors::with_lists(lines.skip(1), elide));
        }
    }
}

proof fn lemma_all_tidied(lines: Seq<Seq<char>>, fixture: Seq<char>, elide: bool)
    requires
        are_lines(lines),
    ensures
        are_lines(normalize::all_tidied(lines, fixture, elide)),
    decreases lines.len(),
{
    if lines.len() != 0 {
        normalize::lemma_before_next(lines.skip(1));
        let n = 1 + normalize::before_next(lines.skip(1)) as int;
        let chunk = lines.take(n);
        assert(chunk =~= lines.subrange(0, n));
        lemma_part_of_lines(lines, 0, n);
        lemma_unplaced_lines(chunk, fixture);
        lemma_realigned_lines(spans::unplaced_lines(chunk, fixture));
        lemma_with_lists(spans::realigned(spans::unplaced_lines(chunk, fixture)), elide);
        lemma_part_of_lines(lines, n, lines.len() as int);
        assert(lines.skip(n) =~= lines.subrange(n, lines.len() as int));
        lemma_all_tidied(lines.skip(n), fixture, elide);
        lemma_add_lines(
            normalize::tidied(chunk, fixture, elide),
            normalize::all_tidied(lines.skip(n), fixture, elide),
        );
    }
}

/// The placeholders of `dependencies` are one line each, as they are where the names
/// they are made of hold no line feed.
pub open spec fn have_plain_placeholders(dependencies: Seq<Declared>) -> bool {
    forall|i: int|
        0 <= i < dependencies.len() ==> is_one_line(
            normalize::placeholder_of((#[trigger] dependencies[i]).name),
        )
}

/// An ASCII name without a line feed makes a placeholder without one.
pub proof fn law_a_plain_name_has_a_plain_placeholder(name: Seq<char>)
    requires
        normalize::is_ascii_text(name),
        is_one_line(name),
    ensures
        is_one_line(normalize::placeholder_of(name)),
{
    lemma_placeholders_are_one_line();
    let upper = normalize::uppercased(name);
    let shown = normalize::placeholder_of(name);
    assert forall|i: int| 0 <= i < shown.len() implies shown[i] != '\n' by {
        let at = i - "$"@.len();
        if at >= 0 {
            assert(upper[at] == normalize::upper_char(name[at]));
            let n = name[at] as u32 - 32;
            if 'a' <= name[at] && name[at] <= 'z' {
                assert(65 <= n <= 90);
            }
        }
    }
}

proof fn lemma_dependency_pairs(dependencies: Seq<Declared>, manifest_dir: Seq<path::Part>)
    requires
        have_plain_placeholders(dependencies),
    ensures
        forall|i: int|
            0 <= i < normalize::dependency_pairs(dependencies, manifest_dir).len() ==> is_one_line(
                (#[trigger] normalize::dependency_pairs(dependencies, manifest_dir)[i]).shown,
            ),
    decreases dependencies.len(),
{
    if dependencies.len() != 0 {
        let rest = dependencies.drop_last();
        assert forall|i: int| 0 <= i < rest.len() implies is_one_line(
            normalize::placeholder_of((#[trigger] rest[i]).name),
        ) by {
            assert(rest[i] == dependencies[i]);
        }
        lemma_dependency_pairs(rest, manifest_dir);
        assert(dependencies[dependencies.len() - 1] == dependencies.last());
        let before = normalize::dependency_pairs(rest, manifest_dir);
        let all = normalize::dependency_pairs(dependencies, manifest_dir);
        assert forall|i: int| 0 <= i < all.len() implies is_one_line(
            (#[trigger] all[i]).shown,
        ) by {
            if i < before.len() {
                assert(all[i] == before[i]);
            }
        }
    }
}

proof fn lemma_replacements(rules: Rules, fixture: Seq<char>)
    requires
        is_one_line(fixture),
        have_plain_placeholders(rules.dependencies),
    ensures
        puts_lines(normalize::replacements(rules, fixture)),
{
    lemma_placeholders_are_one_line();
    lemma_dependency_pairs(rules.dependencies, rules.manifest_dir);
    let all = normalize::replacements(rules, fixture).known;
    let more = normalize::dependency_pairs(rules.dependencies, rules.manifest_dir);
    assert forall|i: int| 0 <= i < all.len() implies is_one_line((#[trigger] all[i]).shown) by {
        let before = all.len() - more.len();
        if i >= before {
            assert(all[i] == more[i - before]);
        }
    }
}

/// What is written into a golden reads back as the lines that were written, with
/// no carriage return before a line feed, so no mode takes anything off it that
/// it did not take off before.
///
/// A fixture whose own name holds a line feed is left out, and so is a dependency
/// whose placeholder does: they put one into the text.
pub proof fn law_a_golden_is_made_of_lines(rules: Rules, text: Seq<char>, fixture: Seq<char>)
    requires
        is_one_line(fixture),
        have_plain_placeholders(rules.dependencies),
    ensures
        text::lines(normalize::normalized(rules, text, fixture)) == normalize::normalized_lines(
            rules,
            text,
            fixture,
        ),
        !text::contains(normalize::normalized(rules, text, fixture), seq!['\r', '\n']),
        !text::contains(normalize::normalized(rules, text, fixture), seq!['\r', '\r', '\n']),
{
    let table = normalize::replacements(rules, fixture);
    lemma_replacements(rules, fixture);
    let read = text::lines(text);
    text::lemma_lines_hold_no_newline(text);
    let known = normalize::replaced(read, table);
    assert forall|i: int| 0 <= i < known.len() implies is_one_line(#[trigger] known[i]) by {
        assert(is_one_line(read[i])) by {
            assert forall|k: int| 0 <= k < read[i].len() implies read[i][k] != '\n' by {
                assert(text::lines(text)[i][k] != '\n');
            }
        }
        lemma_rewritten_from_is_one_line(read[i], table, 0, None);
    }
    lemma_all_tidied(known, fixture, rules.elide);
    let tidy = normalize::all_tidied(known, fixture, rules.elide);
    let lines = normalize::normalized_lines(rules, text, fixture);
    law_a_golden_has_no_loose_ends(rules, text, fixture);
    assert forall|i: int| 0 <= i < lines.len() implies text::is_line(#[trigger] lines[i]) by {
        lemma_settled_lines(tidy, i);
        text::lemma_trim_end(tidy[i]);
        assert(is_one_line(tidy[i]));
    }
    text::lemma_lines_unlines(lines);
    let whole = normalize::normalized(rules, text, fixture);
    crate::laws::compare::lemma_no_pairs(lines);
    assert forall|at: int| !text::occurs_at(whole, seq!['\r', '\n'], at) by {
        if text::occurs_at(whole, seq!['\r', '\n'], at) {
            let pair = whole.subrange(at, at + 2);
            assert(pair[0] == whole[at] && pair[1] == whole[at + 1]);
        }
    }
    assert forall|at: int| !text::occurs_at(whole, seq!['\r', '\r', '\n'], at) by {
        if text::occurs_at(whole, seq!['\r', '\r', '\n'], at) {
            let triple = whole.subrange(at, at + 3);
            assert(triple[1] == whole[at + 1] && triple[2] == whole[at + 2]);
        }
    }
}

// ---------------------------------------------------------------------------
// Known paths.
// ---------------------------------------------------------------------------

/// What replaces a known path is the placeholder of a path that does stand there,
/// whole components of it, and of the longest that does. A sibling whose name
/// merely begins like a known one is no match for it: behind what is replaced the
/// path is over, or a separator stands.
pub proof fn law_a_known_path_is_matched_whole(line: Seq<char>, known: Seq<Pair>, at: int)
    ensures
        ({
            let found = paths::longest(line, known, at);
            &&& found.len != 0 ==> exists|i: int|
                0 <= i < known.len() && (#[trigger] known[i]).prefix.len() == found.len
                    && known[i].shown == found.shown && paths::known_at(line, known[i].prefix, at)
            &&& found.len != 0 ==> ({
                let reach = paths::reach_of(line, at);
                let end = (at + found.len) as int;
                !paths::goes_on(line, reach, end) || line[end] == '/'
            })
            &&& forall|i: int|
                0 <= i < known.len() && paths::known_at(line, (#[trigger] known[i]).prefix, at)
                    ==> known[i].prefix.len() <= found.len
        }),
    decreases known.len(),
{
    if known.len() != 0 {
        let rest = known.drop_last();
        law_a_known_path_is_matched_whole(line, rest, at);
        let found = paths::longest(line, known, at);
        let before = paths::longest(line, rest, at);
        let last = known.last();
        assert forall|i: int|
            0 <= i < known.len() && paths::known_at(
                line,
                (#[trigger] known[i]).prefix,
                at,
            ) implies known[i].prefix.len() <= found.len by {
            if i < rest.len() {
                assert(rest[i] == known[i]);
            }
        }
        if found.len != 0 {
            if paths::known_at(line, last.prefix, at) && last.prefix.len() > before.len {
                assert(known[known.len() - 1] == last);
            } else {
                let i = choose|i: int|
                    0 <= i < rest.len() && (#[trigger] rest[i]).prefix.len() == before.len
                        && rest[i].shown == before.shown && paths::known_at(
                        line,
                        rest[i].prefix,
                        at,
                    );
                assert(known[i] == rest[i]);
            }
        }
    }
}

/// A line in which nothing known stands anywhere is left exactly as it is: source
/// a diagnostic quotes is not misquoted.
pub proof fn law_a_line_that_mentions_nothing_known_is_left_alone(
    line: Seq<char>,
    table: Replacements,
)
    requires
        forall|at: int|
            0 <= at < line.len() ==> (#[trigger] paths::match_at(
                paths::folded(line, table.fold),
                table,
                at,
            )).len == 0,
    ensures
        paths::rewritten(line, table) == line,
{
    lemma_left_alone(line, table, 0);
    assert(line.skip(0) =~= line);
}

proof fn lemma_left_alone(line: Seq<char>, table: Replacements, from: int)
    requires
        0 <= from <= line.len(),
        forall|at: int|
            0 <= at < line.len() ==> (#[trigger] paths::match_at(
                paths::folded(line, table.fold),
                table,
                at,
            )).len == 0,
    ensures
        paths::rewritten_from(line, table, from, None) == line.skip(from),
    decreases line.len() - from,
{
    if from < line.len() {
        let found = paths::match_at(paths::folded(line, table.fold), table, from);
        assert(found.len == 0);
        lemma_left_alone(line, table, from + 1);
        assert(seq![line[from]] + line.skip(from + 1) =~= line.skip(from));
    } else {
        assert(line.skip(from) =~= Seq::<char>::empty());
    }
}

/// `a` and `b` are the same from `at` on, but for which way the separators lean in
/// paths that are known. `inside` says how far the path can reach that `at` stands
/// in, where it is such a path.
pub open spec fn agree_outside_known_paths(
    a: Seq<char>,
    b: Seq<char>,
    table: Replacements,
    at: int,
    inside: Option<Reach>,
) -> bool
    decreases a.len() - at,
{
    if !(0 <= at < a.len()) {
        true
    } else {
        let read = paths::folded(a, table.fold);
        let found = paths::match_at(read, table, at);
        if 0 < found.len <= a.len() - at {
            agree_outside_known_paths(
                a,
                b,
                table,
                at + found.len,
                Some(paths::reach_of(read, at)),
            )
        } else {
            let path = paths::still_inside(read, inside, at);
            (path is Some || a[at] == b[at]) && agree_outside_known_paths(
                a,
                b,
                table,
                at + 1,
                path,
            )
        }
    }
}

/// Where `\` separates components too, which of the two a known path is spelled
/// with does not matter. A `\` anywhere else is left as it is.
pub proof fn law_separators_in_known_paths_do_not_matter(
    a: Seq<char>,
    b: Seq<char>,
    table: Replacements,
)
    requires
        paths::folded(a, table.fold) == paths::folded(b, table.fold),
        agree_outside_known_paths(a, b, table, 0, None),
    ensures
        paths::rewritten(a, table) == paths::rewritten(b, table),
{
    lemma_separators(a, b, table, 0, None);
}

proof fn lemma_separators(
    a: Seq<char>,
    b: Seq<char>,
    table: Replacements,
    at: int,
    inside: Option<Reach>,
)
    requires
        paths::folded(a, table.fold) == paths::folded(b, table.fold),
        agree_outside_known_paths(a, b, table, at, inside),
    ensures
        paths::rewritten_from(a, table, at, inside) == paths::rewritten_from(b, table, at, inside),
    decreases a.len() - at,
{
    let read = paths::folded(a, table.fold);
    assert(a.len() == read.len() && b.len() == read.len());
    if 0 <= at < a.len() {
        let found = paths::match_at(read, table, at);
        if 0 < found.len <= a.len() - at {
            let path = Some(paths::reach_of(read, at));
            lemma_separators(a, b, table, at + found.len, path);
        } else {
            let path = paths::still_inside(read, inside, at);
            lemma_separators(a, b, table, at + 1, path);
        }
    }
}

/// `path` is what is replaced in `before + path + after`, by `shown`, and nothing
/// else in it is.
pub open spec fn is_replaced_alone(
    before: Seq<char>,
    path: Seq<char>,
    after: Seq<char>,
    table: Replacements,
    shown: Seq<char>,
) -> bool {
    let read = paths::folded(before + path + after, table.fold);
    &&& path.len() != 0
    &&& forall|at: int|
        0 <= at < before.len() || before.len() + path.len() <= at < read.len() ==> (
        #[trigger] paths::match_at(read, table, at)).len == 0
    &&& paths::match_at(read, table, before.len() as int) == (Match { len: path.len(), shown })
}

/// How `after` is written behind what stands for `path`: the rest of the path with
/// `/` between its components, and what follows it as it is.
pub open spec fn written_behind(
    before: Seq<char>,
    path: Seq<char>,
    after: Seq<char>,
    fold: bool,
) -> Seq<char> {
    let read = paths::folded(before + path + after, fold);
    let end = (before.len() + path.len()) as int;
    let n = paths::path_end(read, paths::reach_of(read, before.len() as int), end) - end;
    paths::folded(after.take(n), fold) + after.skip(n)
}

/// Where things are kept does not matter, nor which way separators lean there: a
/// line that mentions one of them reads the same on two machines that keep it in
/// different places, on one platform or on two, as long as it goes on alike.
pub proof fn law_where_things_are_kept_does_not_matter(
    before: Seq<char>,
    shown: Seq<char>,
    a_path: Seq<char>,
    a_after: Seq<char>,
    a: Replacements,
    b_path: Seq<char>,
    b_after: Seq<char>,
    b: Replacements,
)
    requires
        is_replaced_alone(before, a_path, a_after, a, shown),
        is_replaced_alone(before, b_path, b_after, b, shown),
        written_behind(before, a_path, a_after, a.fold) == written_behind(
            before,
            b_path,
            b_after,
            b.fold,
        ),
    ensures
        paths::rewritten(before + a_path + a_after, a) == paths::rewritten(
            before + b_path + b_after,
            b,
        ),
{
    lemma_replaced_alone(before, a_path, a_after, a, shown, 0);
    lemma_replaced_alone(before, b_path, b_after, b, shown, 0);
}

/// A span header reads the same on every platform: one that points into something
/// that is kept in different places, with separators that lean either way, is
/// written alike.
pub proof fn law_a_span_header_reads_the_same_on_every_platform(
    before: Seq<char>,
    shown: Seq<char>,
    a_path: Seq<char>,
    a_after: Seq<char>,
    a: Replacements,
    b_path: Seq<char>,
    b_after: Seq<char>,
    b: Replacements,
)
    requires
        is_replaced_alone(before, a_path, a_after, a, shown),
        is_replaced_alone(before, b_path, b_after, b, shown),
        is_header_up_to(before, a_path + a_after, a.fold),
        is_header_up_to(before, b_path + b_after, b.fold),
        paths::folded(a_after, a.fold) == paths::folded(b_after, b.fold),
    ensures
        paths::rewritten(before + a_path + a_after, a) == paths::rewritten(
            before + b_path + b_after,
            b,
        ),
{
    lemma_written_behind_a_header(before, a_path, a_after, a.fold);
    lemma_written_behind_a_header(before, b_path, b_after, b.fold);
    law_where_things_are_kept_does_not_matter(
        before,
        shown,
        a_path,
        a_after,
        a,
        b_path,
        b_after,
        b,
    );
}

/// `before + rest` is a span header, and `before` is its padding and its arrow.
pub open spec fn is_header_up_to(before: Seq<char>, rest: Seq<char>, fold: bool) -> bool {
    let read = paths::folded(before + rest, fold);
    paths::is_header(read) && paths::place_start(read) == before.len()
}

proof fn lemma_path_end(line: Seq<char>, reach: Reach, at: int)
    requires
        0 <= at <= line.len(),
    ensures
        at <= paths::path_end(line, reach, at) <= line.len(),
        forall|i: int|
            at <= i < paths::path_end(line, reach, at) ==> #[trigger] paths::goes_on(
                line,
                reach,
                i,
            ),
        !paths::goes_on(line, reach, paths::path_end(line, reach, at)),
    decreases line.len() - at,
{
    if paths::goes_on(line, reach, at) {
        lemma_path_end(line, reach, at + 1);
    }
}

proof fn lemma_number_is_digits(target: Seq<char>)
    ensures
        spans::without_number(target).len() <= target.len(),
        forall|i: int|
            spans::without_number(target).len() <= i < target.len() ==> (#[trigger] target[i])
                == ':' || ('0' <= target[i] && target[i] <= '9'),
        spans::without_number(target) == target.take(spans::without_number(target).len() as int),
{
    lemma_digits_at_the_end(target);
    let end = target.len() - spans::trailing_digits(target) - 1;
    assert(target.take(target.len() as int) =~= target);
}

proof fn lemma_digits_at_the_end(target: Seq<char>)
    ensures
        spans::trailing_digits(target) <= target.len(),
        forall|i: int|
            target.len() - spans::trailing_digits(target) <= i < target.len() ==> '0'
                <= #[trigger] target[i] && target[i] <= '9',
    decreases target.len(),
{
    if target.len() != 0 && '0' <= target.last() && target.last() <= '9' {
        let rest = target.drop_last();
        lemma_digits_at_the_end(rest);
        assert forall|i: int|
            target.len() - spans::trailing_digits(target) <= i < target.len() implies '0'
            <= #[trigger] target[i] && target[i] <= '9' by {
            if i < rest.len() {
                assert(target[i] == rest[i]);
            }
        }
    }
}

/// What follows the path of a span header is made of digits and colons.
proof fn lemma_position_is_digits(line: Seq<char>)
    ensures
        0 <= paths::place_end(line) <= line.len(),
        forall|i: int|
            paths::place_end(line) <= i < line.len() ==> (#[trigger] line[i]) == ':' || ('0'
                <= line[i] && line[i] <= '9'),
{
    let inner = spans::without_number(line);
    lemma_number_is_digits(line);
    lemma_number_is_digits(inner);
    assert forall|i: int| paths::place_end(line) <= i < line.len() implies (#[trigger] line[i])
        == ':' || ('0' <= line[i] && line[i] <= '9') by {
        if i < inner.len() {
            assert(line[i] == inner[i]);
        }
    }
}

pub(crate) proof fn lemma_written_behind_a_header(
    before: Seq<char>,
    path: Seq<char>,
    after: Seq<char>,
    fold: bool,
)
    requires
        is_header_up_to(before, path + after, fold),
    ensures
        written_behind(before, path, after, fold) == paths::folded(after, fold),
{
    let line = before + path + after;
    assert(line =~= before + (path + after));
    let read = paths::folded(line, fold);
    let end = (before.len() + path.len()) as int;
    let reach = paths::reach_of(read, before.len() as int);
    let stop = paths::path_end(read, reach, end);
    lemma_path_end(read, reach, end);
    lemma_position_is_digits(read);
    let n = stop - end;
    assert forall|i: int| n <= i < after.len() implies after[i] == paths::folded(after, fold)[i] by {
        assert(line[end + i] == after[i]);
        assert(read[end + i] == paths::folded_char(after[i], fold));
        assert(stop >= paths::place_end(read));
        assert(read[end + i] == ':' || ('0' <= read[end + i] && read[end + i] <= '9'));
    }
    assert(written_behind(before, path, after, fold) =~= paths::folded(after, fold));
}

proof fn lemma_carried_on(line: Seq<char>, table: Replacements, at: int, inside: Option<Reach>)
    requires
        0 <= at <= line.len(),
        forall|i: int|
            at <= i < line.len() ==> (#[trigger] paths::match_at(
                paths::folded(line, table.fold),
                table,
                i,
            )).len == 0,
    ensures
        ({
            let read = paths::folded(line, table.fold);
            let stop = match inside {
                Some(reach) => paths::path_end(read, reach, at),
                None => at,
            };
            paths::rewritten_from(line, table, at, inside) == paths::folded(
                line.subrange(at, stop),
                table.fold,
            ) + line.skip(stop)
        }),
    decreases line.len() - at,
{
    let read = paths::folded(line, table.fold);
    let stop = match inside {
        Some(reach) => paths::path_end(read, reach, at),
        None => at,
    };
    if let Some(reach) = inside {
        lemma_path_end(read, reach, at);
    }
    let rest = paths::folded(line.subrange(at, stop), table.fold) + line.skip(stop);
    if at < line.len() {
        assert(paths::match_at(read, table, at).len == 0);
        let path = paths::still_inside(read, inside, at);
        lemma_carried_on(line, table, at + 1, path);
        if path is Some {
            lemma_path_end(read, path->0, at + 1);
            let more = paths::folded(line.subrange(at + 1, stop), table.fold) + line.skip(stop);
            assert(paths::rewritten_from(line, table, at + 1, path) == more);
            assert(seq![read[at]] + more =~= rest);
        } else {
            assert(stop == at);
            let none = paths::folded(line.subrange(at + 1, at + 1), table.fold);
            assert(seq![line[at]] + (none + line.skip(at + 1)) =~= rest);
        }
    } else {
        assert(rest =~= Seq::<char>::empty());
    }
}

pub(crate) proof fn lemma_replaced_alone(
    before: Seq<char>,
    path: Seq<char>,
    after: Seq<char>,
    table: Replacements,
    shown: Seq<char>,
    at: int,
)
    requires
        is_replaced_alone(before, path, after, table, shown),
        0 <= at <= before.len(),
    ensures
        paths::rewritten_from(before + path + after, table, at, None) == before.skip(at) + (shown
            + written_behind(before, path, after, table.fold)),
    decreases before.len() - at,
{
    let line = before + path + after;
    let read = paths::folded(line, table.fold);
    let behind = written_behind(before, path, after, table.fold);
    if at < before.len() {
        assert(paths::match_at(read, table, at).len == 0);
        lemma_replaced_alone(before, path, after, table, shown, at + 1);
        assert(line[at] == before[at]);
        assert(seq![before[at]] + (before.skip(at + 1) + (shown + behind)) =~= before.skip(at) + (
        shown + behind));
    } else {
        let end = (before.len() + path.len()) as int;
        let reach = paths::reach_of(read, at);
        lemma_carried_on(line, table, end, Some(reach));
        lemma_path_end(read, reach, end);
        let stop = paths::path_end(read, reach, end);
        assert(line.subrange(end, stop) =~= after.take(stop - end));
        assert(line.skip(stop) =~= after.skip(stop - end));
        assert(before.skip(at) + (shown + behind) =~= shown + behind);
    }
}

// ---------------------------------------------------------------------------
// The toolchain.
// ---------------------------------------------------------------------------

/// What the path of the toolchain's own source ends with, in one of its shapes.
pub open spec fn is_library(marker: Seq<char>) -> bool {
    marker == paths::LIBRARY@ || marker == paths::OLD_LIBRARY@
}

/// No marker begins inside another, other than where it begins.
proof fn lemma_markers_do_not_overlap(
    marker: Seq<char>,
    other: Seq<char>,
    line: Seq<char>,
    at: int,
    k: int,
)
    requires
        is_library(marker),
        is_library(other),
        text::occurs_at(line, marker, at),
        0 < k < marker.len(),
    ensures
        !text::occurs_at(line, other, at + k),
{
    reveal_strlit("/lib/rustlib/src/rust/library");
    reveal_strlit("/lib/rustlib/src/rust/src");
    if text::occurs_at(line, other, at + k) {
        let here = line.subrange(at, at + marker.len());
        let there = line.subrange(at + k, at + k + other.len());
        assert(here[k] == line[at + k] && there[0] == line[at + k]);
        assert(marker[k] == '/');
        assert(k == 4 || k == 12 || k == 16 || k == 21);
        assert(here[k + 1] == line[at + k + 1] && there[1] == line[at + k + 1]);
        assert(k == 21 && marker == paths::LIBRARY@);
        assert(here[25] == line[at + 25] && there[4] == line[at + 25]);
    }
}

proof fn lemma_name_ends_by(line: Seq<char>, reach: Reach, at: int, slash: int)
    requires
        0 <= at <= slash < line.len(),
        line[slash] == '/',
    ensures
        at <= paths::name_end(line, reach, at) <= slash,
    decreases slash - at,
{
    if !paths::component_ends(line, reach, at) {
        lemma_name_ends_by(line, reach, at + 1, slash);
    }
}

proof fn lemma_through(line: Seq<char>, at: int, end: int, marker: Seq<char>)
    requires
        0 <= at <= end <= line.len(),
    ensures
        paths::through(line, at, end, marker) <= end - at,
        paths::through(line, at, end, marker) != 0 ==> text::occurs_at(
            line,
            marker,
            at + paths::through(line, at, end, marker) - marker.len(),
        ) && paths::through(line, at, end, marker) >= marker.len(),
        forall|stop: int|
            at + marker.len() <= stop <= end && marker.len() != 0 && text::occurs_at(
                line,
                marker,
                stop - marker.len(),
            ) && #[trigger] paths::component_ends(line, paths::reach_of(line, at), stop) ==> stop
                - at <= paths::through(line, at, end, marker),
    decreases end - at,
{
    if end - at >= marker.len() && marker.len() != 0 && !(text::occurs_at(
        line,
        marker,
        end - marker.len(),
    ) && paths::component_ends(line, paths::reach_of(line, at), end)) {
        lemma_through(line, at, end - 1, marker);
    }
}

/// The path of the toolchain's own source stands behind an arrow: `directory`, one
/// of the markers, and what is in it.
spec fn is_in_library(
    line: Seq<char>,
    directory: Seq<char>,
    marker: Seq<char>,
    rest: Seq<char>,
) -> bool {
    &&& paths::is_header(line)
    &&& paths::place_start(line) <= line.len()
    &&& line.skip(paths::place_start(line)) == directory + marker + rest
    &&& is_library(marker)
    &&& rest.len() != 0 ==> rest[0] == '/'
    &&& !text::contains(rest, paths::LIBRARY@)
    &&& !text::contains(rest, paths::OLD_LIBRARY@)
}

proof fn lemma_library_stands(
    line: Seq<char>,
    directory: Seq<char>,
    marker: Seq<char>,
    rest: Seq<char>,
)
    requires
        is_in_library(line, directory, marker, rest),
    ensures
        text::occurs_at(line, marker, paths::place_start(line) + directory.len()),
        0 <= paths::place_start(line),
        line.len() == paths::place_start(line) + directory.len() + marker.len() + rest.len(),
        forall|i: int|
            0 <= i < rest.len() ==> rest[i] == #[trigger] line[paths::place_start(line)
                + directory.len() + marker.len() + i],
        25 <= marker.len() <= 29,
        !('0' <= marker.last() && marker.last() <= '9') && marker.last() != ':',
        marker[12] == '/',
{
    spans::lemma_arrow(line);
    let start = paths::place_start(line);
    let tail = line.skip(start);
    let at = start + directory.len();
    assert(tail.len() == line.len() - start);
    assert(tail == directory + marker + rest);
    assert(tail.len() == directory.len() + marker.len() + rest.len());
    assert(line.subrange(at, at + marker.len()) =~= marker) by {
        assert forall|i: int| 0 <= i < marker.len() implies line[at + i] == marker[i] by {
            assert(tail[directory.len() + i] == line[at + i]);
        }
    }
    assert forall|i: int| 0 <= i < rest.len() implies rest[i] == #[trigger] line[start
        + directory.len() + marker.len() + i] by {
        assert(tail[directory.len() + marker.len() + i] == line[at + marker.len() + i]);
    }
    reveal_strlit("/lib/rustlib/src/rust/library");
    reveal_strlit("/lib/rustlib/src/rust/src");
}

/// No marker ends behind the one that is there.
proof fn lemma_last_marker(
    line: Seq<char>,
    directory: Seq<char>,
    marker: Seq<char>,
    rest: Seq<char>,
    other: Seq<char>,
    at: int,
)
    requires
        is_in_library(line, directory, marker, rest),
        is_library(other),
        at + other.len() > paths::place_start(line) + directory.len() + marker.len(),
    ensures
        !text::occurs_at(line, other, at),
{
    lemma_library_stands(line, directory, marker, rest);
    let there = paths::place_start(line) + directory.len();
    let end = there + marker.len();
    if text::occurs_at(line, other, at) {
        if at >= end {
            let inner = rest.subrange(at - end, at - end + other.len());
            assert(inner =~= line.subrange(at, at + other.len())) by {
                assert forall|i: int| 0 <= i < other.len() implies inner[i] == line[at + i] by {
                    assert(rest[at - end + i] == line[end + (at - end + i)]);
                }
            }
            assert(text::occurs_at(rest, other, at - end));
        } else if at > there {
            lemma_markers_do_not_overlap(marker, other, line, there, at - there);
        } else if at < there {
            assert(there - at < other.len());
            lemma_markers_do_not_overlap(other, marker, line, at, there - at);
        } else {
            reveal_strlit("/lib/rustlib/src/rust/library");
            reveal_strlit("/lib/rustlib/src/rust/src");
            assert(line.subrange(at, at + marker.len())[22] == line[at + 22]);
            assert(line.subrange(at, at + other.len())[22] == line[at + 22]);
        }
    }
}

proof fn lemma_toolchain_len(
    line: Seq<char>,
    directory: Seq<char>,
    marker: Seq<char>,
    rest: Seq<char>,
)
    requires
        is_in_library(line, directory, marker, rest),
    ensures
        paths::rust_len(line, paths::place_start(line)) == directory.len() + marker.len(),
{
    lemma_library_stands(line, directory, marker, rest);
    lemma_position_is_digits(line);
    let start = paths::place_start(line);
    let end = start + directory.len() + marker.len();
    let reach = paths::reach_of(line, start);
    let place = paths::place_end(line);
    assert(line.subrange(start + directory.len(), end).last() == line[end - 1]);
    assert(place >= end);
    let from = if paths::drive_at(line, start) {
        start + 2
    } else {
        start
    };
    lemma_path_end(line, reach, from);
    let stop = paths::path_end(line, reach, from);
    assert(stop >= place);
    assert(stop <= place) by {
        if stop > place {
            assert(paths::goes_on(line, reach, stop - 1));
        }
    }
    lemma_through(line, start, stop, paths::LIBRARY@);
    lemma_through(line, start, stop, paths::OLD_LIBRARY@);
    assert(paths::component_ends(line, reach, end)) by {
        if end < place {
            assert(rest[0] == line[end + 0]);
        }
    }
    assert(end - marker.len() == start + directory.len());
    let a = paths::through(line, start, stop, paths::LIBRARY@);
    let b = paths::through(line, start, stop, paths::OLD_LIBRARY@);
    if a > directory.len() + marker.len() {
        let at = start + a - paths::LIBRARY@.len();
        lemma_last_marker(line, directory, marker, rest, paths::LIBRARY@, at);
    }
    if b > directory.len() + marker.len() {
        let at = start + b - paths::OLD_LIBRARY@.len();
        lemma_last_marker(line, directory, marker, rest, paths::OLD_LIBRARY@, at);
    }
    assert(paths::commit_len(line, start) <= directory.len() + marker.len()) by {
        reveal_strlit("/rustc/");
        reveal_strlit("/library");
        let slash = start + directory.len() + 12;
        assert(line.subrange(start + directory.len(), end)[12] == line[slash]);
        lemma_name_ends_by(line, reach, start + 7, slash);
    }
}

/// The toolchain's location never reaches a golden: whatever directory it is
/// installed in, a span header into its source is written from `$RUST` on. So a
/// home directory and a host triple, which that path carries, are not recorded.
///
/// A dependency that is kept inside the toolchain's source has a placeholder of its
/// own, which is left out here.
pub proof fn law_the_toolchains_location_never_reaches_a_golden(
    before: Seq<char>,
    directory: Seq<char>,
    marker: Seq<char>,
    path: Seq<char>,
    after: Seq<char>,
    table: Replacements,
)
    requires
        is_header_up_to(before, path + after, table.fold),
        is_library(marker),
        paths::folded(path, table.fold) == directory + marker,
        after.len() != 0 ==> paths::folded_char(after[0], table.fold) == '/',
        !text::contains(paths::folded(after, table.fold), paths::LIBRARY@),
        !text::contains(paths::folded(after, table.fold), paths::OLD_LIBRARY@),
        is_mentioned_alone(before, path, after, table),
    ensures
        paths::rewritten(before + path + after, table) == before + RUST@ + paths::folded(
            after,
            table.fold,
        ),
{
    let line = before + path + after;
    let read = paths::folded(line, table.fold);
    let rest = paths::folded(after, table.fold);
    lemma_toolchain_behind_an_arrow(before, directory, marker, path, after, table.fold);
    lemma_toolchain_is_matched(read, directory, marker, rest, table);
    assert(is_replaced_alone(before, path, after, table, RUST@));
    lemma_replaced_alone(before, path, after, table, RUST@, 0);
    lemma_written_behind_a_header(before, path, after, table.fold);
    assert(before.skip(0) =~= before);
    assert(before + (RUST@ + rest) =~= before + RUST@ + rest);
}

proof fn lemma_toolchain_behind_an_arrow(
    before: Seq<char>,
    directory: Seq<char>,
    marker: Seq<char>,
    path: Seq<char>,
    after: Seq<char>,
    fold: bool,
)
    requires
        is_header_up_to(before, path + after, fold),
        is_library(marker),
        paths::folded(path, fold) == directory + marker,
        after.len() != 0 ==> paths::folded_char(after[0], fold) == '/',
        !text::contains(paths::folded(after, fold), paths::LIBRARY@),
        !text::contains(paths::folded(after, fold), paths::OLD_LIBRARY@),
    ensures
        is_in_library(
            paths::folded(before + path + after, fold),
            directory,
            marker,
            paths::folded(after, fold),
        ),
        paths::place_start(paths::folded(before + path + after, fold)) == before.len(),
        path.len() == directory.len() + marker.len(),
        path.len() != 0,
{
    let line = before + path + after;
    let read = paths::folded(line, fold);
    let rest = paths::folded(after, fold);
    assert(line =~= before + (path + after));
    assert(read.skip(before.len() as int) =~= paths::folded(path, fold) + rest);
    assert(path.len() == paths::folded(path, fold).len());
    assert(is_in_library(read, directory, marker, rest));
    lemma_library_stands(read, directory, marker, rest);
}

proof fn lemma_toolchain_is_matched(
    line: Seq<char>,
    directory: Seq<char>,
    marker: Seq<char>,
    rest: Seq<char>,
    table: Replacements,
)
    requires
        is_in_library(line, directory, marker, rest),
        paths::longest(line, table.known, paths::place_start(line)).len < directory.len()
            + marker.len(),
        table.registry matches Some(registry) ==> paths::registry_len(
            line,
            registry,
            paths::place_start(line),
        ) < directory.len() + marker.len(),
    ensures
        paths::match_at(line, table, paths::place_start(line)) == (Match {
            len: directory.len() + marker.len(),
            shown: RUST@,
        }),
{
    lemma_toolchain_len(line, directory, marker, rest);
    lemma_library_stands(line, directory, marker, rest);
    lemma_path_begins_behind_an_arrow(line);
}

proof fn lemma_path_begins_behind_an_arrow(line: Seq<char>)
    requires
        paths::is_header(line),
    ensures
        paths::path_begins(line, paths::place_start(line)),
{
    lemma_arrow_ends_in_a_space(line);
}

/// Nothing else that is known stands in `before + path + after`, and none that is
/// as long where `path` does.
pub open spec fn is_mentioned_alone(
    before: Seq<char>,
    path: Seq<char>,
    after: Seq<char>,
    table: Replacements,
) -> bool {
    let read = paths::folded(before + path + after, table.fold);
    let start = before.len() as int;
    &&& forall|at: int|
        0 <= at < start || start + path.len() <= at < read.len() ==> (#[trigger] paths::match_at(
            read,
            table,
            at,
        )).len == 0
    &&& paths::longest(read, table.known, start).len < path.len()
    &&& table.registry matches Some(registry) ==> paths::registry_len(read, registry, start)
        < path.len()
}

proof fn lemma_arrow_ends_in_a_space(line: Seq<char>)
    requires
        paths::is_header(line),
    ensures
        line[paths::place_start(line) - 1] == ' ',
{
    spans::lemma_arrow(line);
    text::lemma_trim_start(line);
    let n = text::indent_len(line);
    let unpadded = text::trim_start(line);
    reveal_strlit("--> ");
    reveal_strlit("::: ");
    assert(unpadded[3] == line[n + 3]);
    assert(unpadded.take(4)[3] == unpadded[3]);
}

// ---------------------------------------------------------------------------
// Positions.
// ---------------------------------------------------------------------------

proof fn lemma_number_goes(place: Seq<char>, number: Seq<char>)
    requires
        implementors::is_number(number),
    ensures
        spans::without_number(place.push(':') + number) == place,
{
    let whole = place.push(':') + number;
    lemma_trailing_digits(whole, number.len() as int);
    assert(whole[place.len() as int] == ':');
    assert(whole.take(place.len() as int) =~= place);
}

proof fn lemma_trailing_digits(target: Seq<char>, n: int)
    requires
        0 <= n < target.len(),
        forall|i: int|
            target.len() - n <= i < target.len() ==> '0' <= #[trigger] target[i] && target[i]
                <= '9',
        !('0' <= target[target.len() - n - 1] && target[target.len() - n - 1] <= '9'),
    ensures
        spans::trailing_digits(target) == n,
    decreases n,
{
    if n > 0 {
        assert('0' <= target[target.len() - 1] && target[target.len() - 1] <= '9');
        lemma_trailing_digits(target.drop_last(), n - 1);
    }
}

/// The line and the column a span header points at go, whatever they are: only
/// the place is left.
pub proof fn law_a_position_goes_whatever_it_is(
    place: Seq<char>,
    line: Seq<char>,
    column: Seq<char>,
)
    requires
        implementors::is_number(line),
        implementors::is_number(column),
    ensures
        spans::without_position(place.push(':') + line.push(':') + column) == place,
{
    let whole = place.push(':') + line.push(':') + column;
    let inner = place.push(':') + line;
    assert(whole =~= inner.push(':') + column);
    lemma_number_goes(inner, column);
    lemma_number_goes(place, line);
}

/// The fixture's own spans and the line numbers beside its own source are left as
/// they are: taking positions away changes no line of a diagnostic that stays in
/// the fixture.
pub proof fn law_the_fixtures_own_positions_stay(lines: Seq<Seq<char>>, fixture: Seq<char>)
    requires
        forall|i: int|
            0 <= i < lines.len() && (#[trigger] spans::row_at(lines, i)) is Header
                ==> normalize::names_place_in(spans::target(lines[i]), fixture),
    ensures
        spans::unplaced_lines(lines, fixture) == lines,
{
    assert forall|i: int| 0 <= i < lines.len() implies spans::unplaced_line(lines, fixture, i)
        == lines[i] by {
        assert(spans::row_at(lines, i) is Header ==> normalize::names_place_in(
            spans::target(lines[i]),
            fixture,
        ));
        lemma_always_here(lines, fixture, i);
    }
    assert(spans::unplaced_lines(lines, fixture) =~= lines);
}

proof fn lemma_always_here(lines: Seq<Seq<char>>, fixture: Seq<char>, at: int)
    requires
        0 <= at <= lines.len(),
        forall|i: int|
            0 <= i < lines.len() && (#[trigger] spans::row_at(lines, i)) is Header
                ==> normalize::names_place_in(spans::target(lines[i]), fixture),
    ensures
        spans::locality(lines.take(at), fixture).here,
        spans::locality(lines.take(at), fixture).first != Some(false),
    decreases at,
{
    if at > 0 {
        lemma_always_here(lines, fixture, at - 1);
        assert(lines.take(at).drop_last() =~= lines.take(at - 1));
        assert(lines.take(at).last() == lines[at - 1]);
        assert(spans::row_at(lines, at - 1) == spans::row(
            lines[at - 1],
            spans::open_message(lines.take(at - 1)),
        ));
    }
}

// ---------------------------------------------------------------------------
// Implementor lists.
// ---------------------------------------------------------------------------

/// `line` is an entry of a list whose count is printed at `column`, or its count.
pub open spec fn is_listed(line: Seq<char>, column: nat) -> bool {
    !text::is_blank(line) && text::indent_len(line) >= column
}

/// Each of `lines` belongs to a list whose count is printed at `column`.
pub open spec fn are_listed(lines: Seq<Seq<char>>, column: nat) -> bool {
    forall|i: int| 0 <= i < lines.len() ==> is_listed(#[trigger] lines[i], column)
}

proof fn lemma_list_len_is(entries: Seq<Seq<char>>, rest: Seq<Seq<char>>, column: nat)
    requires
        are_listed(entries, column),
        rest.len() != 0 ==> !is_listed(rest[0], column),
    ensures
        implementors::list_len(entries + rest, column) == entries.len(),
    decreases entries.len(),
{
    let all = entries + rest;
    if entries.len() == 0 {
        if rest.len() != 0 {
            assert(all[0] == rest[0]);
        }
    } else {
        assert(all[0] == entries[0]);
        let fewer = entries.skip(1);
        assert forall|i: int| 0 <= i < fewer.len() implies is_listed(
            #[trigger] fewer[i],
            column,
        ) by {
            assert(fewer[i] == entries[i + 1]);
        }
        assert(all.skip(1) =~= fewer + rest);
        lemma_list_len_is(fewer, rest, column);
    }
}

pub(crate) proof fn lemma_shown_list(
    heading: Seq<char>,
    entries: Seq<Seq<char>>,
    rest: Seq<Seq<char>>,
    elide: bool,
)
    requires
        implementors::is_list_heading(heading),
        are_listed(entries, implementors::list_column(heading)),
        rest.len() != 0 ==> !is_listed(rest[0], implementors::list_column(heading)),
    ensures
        implementors::with_lists(seq![heading] + entries + rest, elide) == seq![heading]
            + implementors::shown_entries(entries, implementors::list_column(heading), elide)
            + implementors::with_lists(rest, elide),
{
    let column = implementors::list_column(heading);
    let lines = seq![heading] + entries + rest;
    assert(lines[0] == heading);
    assert(lines.skip(1) =~= entries + rest);
    lemma_list_len_is(entries, rest, column);
    let n = entries.len() as int;
    assert(lines.subrange(1, 1 + n) =~= entries);
    assert(lines.skip(1 + n) =~= rest);
}

/// Where lists are elided, a diagnostic reads the same whichever implementors
/// rustc lists in it, however many, with or without a count: only the heading is
/// left to notice.
pub proof fn law_an_elided_list_does_not_depend_on_its_entries(
    heading: Seq<char>,
    a: Seq<Seq<char>>,
    b: Seq<Seq<char>>,
    rest: Seq<Seq<char>>,
)
    requires
        implementors::is_list_heading(heading),
        a.len() != 0,
        b.len() != 0,
        are_listed(a, implementors::list_column(heading)),
        are_listed(b, implementors::list_column(heading)),
        rest.len() != 0 ==> !is_listed(rest[0], implementors::list_column(heading)),
    ensures
        implementors::with_lists(seq![heading] + a + rest, true) == implementors::with_lists(
            seq![heading] + b + rest,
            true,
        ),
{
    lemma_shown_list(heading, a, rest, true);
    lemma_shown_list(heading, b, rest, true);
}

/// How many implementors rustc left out of a list does not matter.
pub proof fn law_the_count_of_a_list_does_not_matter(
    heading: Seq<char>,
    entries: Seq<Seq<char>>,
    a: Seq<char>,
    b: Seq<char>,
    rest: Seq<Seq<char>>,
    elide: bool,
)
    requires
        implementors::is_list_heading(heading),
        are_listed(entries.push(a), implementors::list_column(heading)),
        are_listed(entries.push(b), implementors::list_column(heading)),
        implementors::is_count(a),
        implementors::is_count(b),
        rest.len() != 0 ==> !is_listed(rest[0], implementors::list_column(heading)),
    ensures
        implementors::with_lists(seq![heading] + entries.push(a) + rest, elide)
            == implementors::with_lists(seq![heading] + entries.push(b) + rest, elide),
{
    lemma_shown_list(heading, entries.push(a), rest, elide);
    lemma_shown_list(heading, entries.push(b), rest, elide);
    assert(entries.push(a).drop_last() =~= entries);
    assert(entries.push(b).drop_last() =~= entries);
}

/// On which side of the length rustc cuts a list at the list stands does not
/// matter: a long list reads the same whole as cut down to its first eight entries
/// and a count.
pub proof fn law_a_long_list_reads_the_same_cut_or_whole(
    heading: Seq<char>,
    entries: Seq<Seq<char>>,
    count: Seq<char>,
    rest: Seq<Seq<char>>,
    elide: bool,
)
    requires
        implementors::is_list_heading(heading),
        entries.len() > LISTED,
        are_listed(entries, implementors::list_column(heading)),
        is_listed(count, implementors::list_column(heading)),
        implementors::is_count(count),
        !implementors::is_count(entries.last()),
        rest.len() != 0 ==> !is_listed(rest[0], implementors::list_column(heading)),
    ensures
        implementors::with_lists(seq![heading] + entries + rest, elide) == implementors::with_lists(
            seq![heading] + entries.take(LISTED as int).push(count) + rest,
            elide,
        ),
{
    let column = implementors::list_column(heading);
    let cut = entries.take(LISTED as int).push(count);
    assert forall|i: int| 0 <= i < cut.len() implies is_listed(#[trigger] cut[i], column) by {
        if i < LISTED {
            assert(cut[i] == entries[i]);
        }
    }
    lemma_shown_list(heading, entries, rest, elide);
    lemma_shown_list(heading, cut, rest, elide);
    assert(cut.drop_last() =~= entries.take(LISTED as int));
}

} // verus!
