//! What holds of the positions a diagnostic gives in files other than the fixture.
//!
//! rustc lays a diagnostic out around a gutter as wide as the widest line number
//! in it, so a number in another file shows in every row. The rows below are what
//! it lays out, before it chose a gutter.

use vstd::prelude::*;

use crate::laws::normalize::{law_a_position_goes_whatever_it_is, lemma_spaces};
use crate::normalize;
use crate::normalize::implementors;
use crate::normalize::spans;
use crate::normalize::spans::Row;
use crate::text;

verus! {

/// A row of a diagnostic.
pub enum Printed {
    /// A line of a message, or an empty line. Printed as it is.
    Words(Seq<char>),
    /// A span header.
    Place { arrow: Seq<char>, place: Seq<char>, line: Seq<char>, column: Seq<char> },
    /// Code, beside its line number.
    Numbered { number: Seq<char>, code: Seq<char> },
    /// Anything else that stands behind the gutter.
    Beside(Seq<char>),
    /// What stands behind the dots that leave lines out.
    Elided(Seq<char>),
}

/// A place, with the line and the column in it.
pub open spec fn positioned(place: Seq<char>, line: Seq<char>, column: Seq<char>) -> Seq<char> {
    place.push(':') + line.push(':') + column
}

/// `row`, printed around a gutter of `width`.
pub open spec fn printed(row: Printed, width: nat) -> Seq<char> {
    match row {
        Printed::Words(words) => words,
        Printed::Place { arrow, place, line, column } => spans::spaces(width) + arrow + positioned(
            place,
            line,
            column,
        ),
        Printed::Numbered { number, code } => number + spans::spaces(
            (width - number.len()) as nat,
        ) + code,
        Printed::Beside(rest) => spans::spaces(width) + rest,
        Printed::Elided(rest) => "..."@ + spans::spaces(width) + rest,
    }
}

/// `rows`, printed around a gutter of `width`.
pub open spec fn rendering(rows: Seq<Printed>, width: nat) -> Seq<Seq<char>> {
    Seq::new(rows.len(), |i: int| printed(rows[i], width))
}

/// `row` is what rustc lays out, and its number fits a gutter of `width`.
pub open spec fn is_laid_out(row: Printed, width: nat) -> bool {
    match row {
        Printed::Place { arrow, place, line, column } => {
            &&& arrow == "--> "@ || arrow == "::: "@
            &&& place.len() != 0
            &&& !text::is_space(place[0])
            &&& implementors::is_number(line)
            &&& implementors::is_number(column)
        },
        Printed::Numbered { number, code } => {
            &&& implementors::is_number(number)
            &&& number.len() <= width
            &&& code.len() != 0
            &&& code[0] == ' '
            &&& !spans::has_arrow(text::trim_start(code))
        },
        _ => true,
    }
}

/// A line read as `read` is read as the `row` it was printed from.
pub open spec fn is_read_as(row: Printed, read: Row) -> bool {
    match row {
        Printed::Words(words) => read is Diagnostic || read is Child || read is Text || words.len()
            == 0,
        Printed::Place { .. } => read is Header,
        Printed::Numbered { .. } => read is Numbered,
        _ => read is Other,
    }
}

/// `rows`, printed around a gutter of `width`, are read as what they are. A gutter
/// as wide as the word a message opens with is left out: what stands behind one
/// cannot be told from the message's own text.
pub open spec fn is_readable(rows: Seq<Printed>, width: nat) -> bool {
    let lines = rendering(rows, width);
    &&& width >= 1
    &&& forall|i: int| 0 <= i < rows.len() ==> is_laid_out(#[trigger] rows[i], width)
    &&& forall|i: int|
        0 <= i < rows.len() ==> is_read_as(#[trigger] rows[i], spans::row_at(lines, i))
    &&& forall|i: int|
        0 <= i < rows.len() && (#[trigger] rows[i]) is Numbered ==> spans::open_message(
            lines.take(i),
        ) is None
}

/// What the row at `at` shows is in the fixture.
pub open spec fn is_here(rows: Seq<Printed>, width: nat, fixture: Seq<char>, at: int) -> bool {
    match rows[at] {
        Printed::Place { place, line, column, .. } => normalize::names_place_in(
            positioned(place, line, column),
            fixture,
        ),
        _ => spans::locality(rendering(rows, width).take(at), fixture).here,
    }
}

/// Two rows are the same, but for a position that is not in the fixture.
pub open spec fn are_alike(a: Printed, b: Printed, a_here: bool, b_here: bool) -> bool {
    match (a, b) {
        (
            Printed::Place { arrow: a_arrow, place: a_place, .. },
            Printed::Place { arrow: b_arrow, place: b_place, .. },
        ) => a_arrow == b_arrow && a_place == b_place && (a == b || !a_here && !b_here),
        (
            Printed::Numbered { code: a_code, .. },
            Printed::Numbered { code: b_code, .. },
        ) => a_code == b_code && (a == b || !a_here && !b_here),
        _ => a == b,
    }
}

/// Two diagnostics are the same, but for positions that are not in the fixture and
/// the gutters that follow from them.
pub open spec fn differ_elsewhere(
    a: Seq<Printed>,
    a_width: nat,
    b: Seq<Printed>,
    b_width: nat,
    fixture: Seq<char>,
) -> bool {
    &&& a.len() == b.len()
    &&& forall|i: int|
        0 <= i < a.len() ==> are_alike(
            #[trigger] a[i],
            b[i],
            is_here(a, a_width, fixture, i),
            is_here(b, b_width, fixture, i),
        )
}

proof fn lemma_more_spaces(a: nat, b: nat)
    ensures
        spans::spaces(a) + spans::spaces(b) == spans::spaces(a + b),
{
    lemma_spaces(a);
    lemma_spaces(b);
    lemma_spaces(a + b);
    assert(spans::spaces(a) + spans::spaces(b) =~= spans::spaces(a + b));
}

/// A line that begins with a space opens nothing.
proof fn lemma_padded(line: Seq<char>)
    requires
        line.len() != 0,
        line[0] == ' ',
    ensures
        !spans::opens_diagnostic(line),
        !spans::opens_child(line),
        !text::starts_with(line, "..."@),
        spans::digit_count(line) == 0,
{
    reveal_strlit("error");
    reveal_strlit("warning");
    reveal_strlit("note");
    reveal_strlit("help");
    reveal_strlit("...");
    if text::starts_with(line, "error"@) {
        assert(line.take(5)[0] == "error"@[0]);
    }
    if text::starts_with(line, "warning"@) {
        assert(line.take(7)[0] == "warning"@[0]);
    }
    if text::starts_with(line, "note"@) {
        assert(line.take(4)[0] == "note"@[0]);
    }
    if text::starts_with(line, "help"@) {
        assert(line.take(4)[0] == "help"@[0]);
    }
    if text::starts_with(line, "..."@) {
        assert(line.take(3)[0] == "..."@[0]);
    }
}

/// A span header is read past its gutter and its arrow.
proof fn lemma_header(arrow: Seq<char>, place: Seq<char>, width: nat)
    requires
        arrow == "--> "@ || arrow == "::: "@,
        width >= 1,
    ensures
        ({
            let line = spans::spaces(width) + arrow + place;
            &&& text::indent_len(line) == width
            &&& text::trim_start(line) == arrow + place
            &&& spans::has_arrow(text::trim_start(line))
            &&& spans::target(line) == text::trim(place)
            &&& !text::is_blank(line)
            &&& line.take(text::indent_len(line) + 4) == spans::spaces(width) + arrow
            &&& !spans::opens_diagnostic(line)
            &&& !spans::opens_child(line)
            &&& !text::starts_with(line, "..."@)
            &&& line.take(text::indent_len(line)) == spans::spaces(width)
        }),
{
    reveal_strlit("--> ");
    reveal_strlit("::: ");
    lemma_spaces(width);
    let line = spans::spaces(width) + arrow + place;
    assert(arrow.len() == 4 && !text::is_space(arrow[0]));
    assert(line[width as int] == arrow[0]);
    assert forall|i: int| 0 <= i < width implies text::is_space(#[trigger] line[i]) by {
        assert(line[i] == spans::spaces(width)[i]);
    }
    text::lemma_trim_start_is(line, width as int);
    assert(line.skip(width as int) =~= arrow + place);
    assert((arrow + place).take(4) =~= arrow);
    assert((arrow + place).skip(4) =~= place);
    assert(line.take(width + 4int) =~= spans::spaces(width) + arrow);
    assert(line.take(width as int) =~= spans::spaces(width));
    if text::is_blank(line) {
        assert(text::is_space(line[width as int]));
    }
    assert(line[0] == spans::spaces(width)[0]);
    lemma_padded(line);
}

proof fn lemma_positioned(place: Seq<char>, line: Seq<char>, column: Seq<char>)
    requires
        place.len() != 0,
        !text::is_space(place[0]),
        implementors::is_number(column),
    ensures
        text::trim(positioned(place, line, column)) == positioned(place, line, column),
{
    let whole = positioned(place, line, column);
    assert(whole[0] == place[0]);
    text::lemma_trim_start_is(whole, 0);
    assert(whole.skip(0) =~= whole);
    let n = whole.len() as int;
    assert(whole[n - 1] == column[column.len() - 1]);
    text::lemma_trim_end_is(whole, n);
    assert(whole.take(n) =~= whole);
}

/// A numbered row is read past its number.
proof fn lemma_number(number: Seq<char>, code: Seq<char>, width: nat)
    requires
        implementors::is_number(number),
        number.len() <= width,
        code.len() != 0,
        code[0] == ' ',
    ensures
        ({
            let line = number + spans::spaces((width - number.len()) as nat) + code;
            &&& spans::digit_count(line) == number.len()
            &&& line.take(number.len() as int) == number
            &&& line.skip(number.len() as int) == spans::spaces((width - number.len()) as nat)
                + code
            &&& spans::unnumbered(line) == spans::spaces(width) + code
        }),
{
    let pad = (width - number.len()) as nat;
    lemma_spaces(pad);
    let line = number + spans::spaces(pad) + code;
    let n = number.len() as int;
    assert forall|i: int| 0 <= i < n implies '0' <= #[trigger] line[i] && line[i] <= '9' by {
        assert(line[i] == number[i]);
    }
    assert(line[n] == ' ') by {
        if pad == 0 {
            assert(line[n] == code[0]);
        } else {
            assert(line[n] == spans::spaces(pad)[0]);
        }
    }
    spans::lemma_digit_count_is(line, n);
    assert(line.take(n) =~= number);
    assert(line.skip(n) =~= spans::spaces(pad) + code);
    lemma_more_spaces(number.len(), pad);
    assert(spans::unnumbered(line) =~= (spans::spaces(number.len()) + spans::spaces(pad)) + code);
}

/// What is left of the row at `at` once no position outside the fixture is.
spec fn kept(row: Printed, width: nat, here: bool) -> Seq<char> {
    match row {
        Printed::Place { arrow, place, .. } => if here {
            printed(row, width)
        } else {
            spans::spaces(width) + arrow + place
        },
        Printed::Numbered { code, .. } => if here {
            printed(row, width)
        } else {
            spans::spaces(width) + code
        },
        _ => printed(row, width),
    }
}

spec fn all_kept(rows: Seq<Printed>, width: nat, fixture: Seq<char>) -> Seq<Seq<char>> {
    Seq::new(rows.len(), |i: int| kept(rows[i], width, is_here(rows, width, fixture, i)))
}

proof fn lemma_unplaced(rows: Seq<Printed>, width: nat, fixture: Seq<char>)
    requires
        is_readable(rows, width),
    ensures
        spans::unplaced_lines(rendering(rows, width), fixture) == all_kept(rows, width, fixture),
{
    let lines = rendering(rows, width);
    assert forall|i: int| 0 <= i < rows.len() implies spans::unplaced_line(lines, fixture, i)
        == kept(rows[i], width, is_here(rows, width, fixture, i)) by {
        assert(is_laid_out(rows[i], width));
        assert(is_read_as(rows[i], spans::row_at(lines, i)));
        assert(lines[i] == printed(rows[i], width));
        match rows[i] {
            Printed::Place { arrow, place, line, column } => {
                lemma_header(arrow, positioned(place, line, column), width);
                lemma_positioned(place, line, column);
                law_a_position_goes_whatever_it_is(place, line, column);
            },
            Printed::Numbered { number, code } => {
                lemma_number(number, code, width);
            },
            Printed::Words(words) => {
                if words.len() == 0 {
                    lemma_empty_line(words, spans::open_message(lines.take(i)));
                }
            },
            _ => {},
        }
    }
    assert(spans::unplaced_lines(lines, fixture) =~= all_kept(rows, width, fixture));
}

proof fn lemma_empty_line(line: Seq<char>, message: Option<nat>)
    requires
        line.len() == 0,
    ensures
        spans::row(line, message) is Other,
        text::is_blank(line),
        !spans::opens_diagnostic(line),
        !spans::opens_child(line),
{
    reveal_strlit("error");
    reveal_strlit("warning");
    reveal_strlit("note");
    reveal_strlit("help");
    reveal_strlit("--> ");
    reveal_strlit("::: ");
}

/// Taking positions away does not change what a line is read as, but for the rows
/// that lose their number.
proof fn lemma_read_again(rows: Seq<Printed>, width: nat, fixture: Seq<char>, at: int)
    requires
        is_readable(rows, width),
        0 <= at <= rows.len(),
    ensures
        spans::open_message(all_kept(rows, width, fixture).take(at)) == spans::open_message(
            rendering(rows, width).take(at),
        ),
        at < rows.len() ==> spans::row_at(all_kept(rows, width, fixture), at) == (if rows[at]
            is Numbered && !is_here(rows, width, fixture, at) {
            Row::Other
        } else {
            spans::row_at(rendering(rows, width), at)
        }),
    decreases at,
{
    let lines = rendering(rows, width);
    let left = all_kept(rows, width, fixture);
    if at > 0 {
        lemma_read_again(rows, width, fixture, at - 1);
        assert(lines.take(at).drop_last() =~= lines.take(at - 1));
        assert(left.take(at).drop_last() =~= left.take(at - 1));
        assert(lines.take(at).last() == lines[at - 1]);
        assert(left.take(at).last() == left[at - 1]);
        lemma_kept_line(rows, width, fixture, at - 1);
    }
    if at < rows.len() {
        lemma_kept_line(rows, width, fixture, at);
    }
}

proof fn lemma_kept_line(rows: Seq<Printed>, width: nat, fixture: Seq<char>, at: int)
    requires
        is_readable(rows, width),
        0 <= at < rows.len(),
    ensures
        ({
            let lines = rendering(rows, width);
            let line = kept(rows[at], width, is_here(rows, width, fixture, at));
            let message = spans::open_message(lines.take(at));
            &&& all_kept(rows, width, fixture)[at] == line
            &&& lines[at] == printed(rows[at], width)
            &&& spans::message_after(message, line) == spans::message_after(message, lines[at])
            &&& spans::row(line, message) == (if rows[at] is Numbered && !is_here(
                rows,
                width,
                fixture,
                at,
            ) {
                Row::Other
            } else {
                spans::row(lines[at], message)
            })
        }),
{
    let lines = rendering(rows, width);
    let here = is_here(rows, width, fixture, at);
    let line = kept(rows[at], width, here);
    let message = spans::open_message(lines.take(at));
    assert(is_laid_out(rows[at], width));
    assert(is_read_as(rows[at], spans::row_at(lines, at)));
    match rows[at] {
        Printed::Place { arrow, place, line: number, column } => {
            lemma_header(arrow, positioned(place, number, column), width);
            lemma_header(arrow, place, width);
        },
        Printed::Numbered { number, code } => {
            if !here {
                lemma_spaces(width);
                assert(line[0] == spans::spaces(width)[0]);
                lemma_padded(line);
                assert(message is None);
                lemma_padding(width, code);
            }
        },
        _ => {},
    }
}

/// Padding changes nothing of what follows it.
proof fn lemma_padding(width: nat, rest: Seq<char>)
    ensures
        text::trim_start(spans::spaces(width) + rest) == text::trim_start(rest),
{
    lemma_spaces(width);
    text::lemma_trim_start(rest);
    let line = spans::spaces(width) + rest;
    let n = width + text::indent_len(rest);
    assert forall|i: int| 0 <= i < n implies text::is_space(#[trigger] line[i]) by {
        if i < width {
            assert(line[i] == spans::spaces(width)[i]);
        } else {
            assert(line[i] == rest[i - width]);
        }
    }
    if n < line.len() {
        assert(line[n] == text::trim_start(rest)[0]);
    }
    text::lemma_trim_start_is(line, n);
    assert(line.skip(n) =~= text::trim_start(rest));
}

/// Two diagnostics that differ elsewhere alone are in the fixture at the same rows.
proof fn lemma_same_locality(
    a: Seq<Printed>,
    a_width: nat,
    b: Seq<Printed>,
    b_width: nat,
    fixture: Seq<char>,
    at: int,
)
    requires
        is_readable(a, a_width),
        is_readable(b, b_width),
        differ_elsewhere(a, a_width, b, b_width, fixture),
        0 <= at <= a.len(),
    ensures
        spans::locality(rendering(a, a_width).take(at), fixture) == spans::locality(
            rendering(b, b_width).take(at),
            fixture,
        ),
    decreases at,
{
    if at > 0 {
        lemma_same_locality(a, a_width, b, b_width, fixture, at - 1);
        lemma_locality_after(a, a_width, fixture, at - 1);
        lemma_locality_after(b, b_width, fixture, at - 1);
        assert(are_alike(
            a[at - 1],
            b[at - 1],
            is_here(a, a_width, fixture, at - 1),
            is_here(b, b_width, fixture, at - 1),
        ));
    }
}

/// What a row changes of where the snippet after it is from.
spec fn moved(before: spans::Locality, row: Printed, fixture: Seq<char>) -> spans::Locality {
    match row {
        Printed::Words(words) => if spans::opens_diagnostic(words) {
            spans::Locality { here: true, first: None }
        } else if spans::opens_child(words) {
            spans::Locality { here: before.first != Some(false), first: before.first }
        } else {
            before
        },
        Printed::Place { place, line, column, .. } => {
            let here = normalize::names_place_in(positioned(place, line, column), fixture);
            spans::Locality {
                here,
                first: if before.first is None {
                    Some(here)
                } else {
                    before.first
                },
            }
        },
        _ => before,
    }
}

proof fn lemma_locality_after(rows: Seq<Printed>, width: nat, fixture: Seq<char>, at: int)
    requires
        is_readable(rows, width),
        0 <= at < rows.len(),
    ensures
        spans::locality(rendering(rows, width).take(at + 1), fixture) == moved(
            spans::locality(rendering(rows, width).take(at), fixture),
            rows[at],
            fixture,
        ),
{
    let lines = rendering(rows, width);
    assert(lines.take(at + 1).drop_last() =~= lines.take(at));
    assert(lines.take(at + 1).last() == lines[at]);
    assert(lines[at] == printed(rows[at], width));
    assert(is_laid_out(rows[at], width));
    assert(is_read_as(rows[at], spans::row_at(lines, at)));
    match rows[at] {
        Printed::Place { arrow, place, line, column } => {
            lemma_header(arrow, positioned(place, line, column), width);
            lemma_positioned(place, line, column);
        },
        Printed::Words(words) => {
            if words.len() == 0 {
                lemma_empty_line(words, spans::open_message(lines.take(at)));
            }
        },
        _ => {},
    }
}

/// The widest number in the fixture among the first `at` rows, at least one digit
/// wide.
spec fn room(rows: Seq<Printed>, width: nat, fixture: Seq<char>, at: int) -> nat
    decreases at,
{
    if at <= 0 {
        1
    } else {
        let before = room(rows, width, fixture, at - 1);
        match rows[at - 1] {
            Printed::Numbered { number, .. } => if is_here(rows, width, fixture, at - 1)
                && number.len() > before {
                number.len()
            } else {
                before
            },
            _ => before,
        }
    }
}

/// There is a span header among the first `at` rows.
spec fn is_placed(rows: Seq<Printed>, at: int) -> bool
    decreases at,
{
    at > 0 && (rows[at - 1] is Place || is_placed(rows, at - 1))
}

proof fn lemma_placed(rows: Seq<Printed>, there: int, at: int)
    requires
        0 <= there < at,
        rows[there] is Place,
    ensures
        is_placed(rows, at),
    decreases at,
{
    if there < at - 1 {
        lemma_placed(rows, there, at - 1);
    }
}

/// What is left of the row at `at` is read as.
proof fn lemma_left(rows: Seq<Printed>, width: nat, fixture: Seq<char>, at: int)
    requires
        is_readable(rows, width),
        0 <= at < rows.len(),
    ensures
        ({
            let left = all_kept(rows, width, fixture);
            let here = is_here(rows, width, fixture, at);
            let read = spans::row_at(left, at);
            &&& left[at] == kept(rows[at], width, here)
            &&& is_read_again_as(rows[at], read, here)
            &&& rows[at] is Place ==> text::indent_len(left[at]) == width
            &&& rows[at] is Numbered && here ==> spans::digit_count(left[at])
                == rows[at]->number.len()
        }),
{
    lemma_read_again(rows, width, fixture, at);
    lemma_kept_line(rows, width, fixture, at);
    assert(is_laid_out(rows[at], width));
    assert(is_read_as(rows[at], spans::row_at(rendering(rows, width), at)));
    match rows[at] {
        Printed::Place { arrow, place, line, column } => {
            lemma_header(arrow, positioned(place, line, column), width);
            lemma_header(arrow, place, width);
        },
        Printed::Numbered { number, code } => {
            lemma_number(number, code, width);
        },
        Printed::Words(words) => {
            if words.len() == 0 {
                lemma_empty_line(words, spans::open_message(rendering(rows, width).take(at)));
            }
        },
        _ => {},
    }
}

/// A line read as `read` is read as what is left of `row`.
spec fn is_read_again_as(row: Printed, read: Row, here: bool) -> bool {
    match row {
        Printed::Words(words) => read is Diagnostic || read is Child || read is Text || words.len()
            == 0 && read is Other,
        Printed::Place { .. } => read is Header,
        Printed::Numbered { .. } => if here {
            read is Numbered
        } else {
            read is Other
        },
        _ => read is Other,
    }
}

/// What one more line adds to the widths of those before it.
proof fn lemma_one_more(lines: Seq<Seq<char>>, at: int)
    requires
        0 <= at < lines.len(),
    ensures
        spans::widest(lines.take(at + 1)) == (if spans::row_at(lines, at) is Numbered
            && spans::digit_count(lines[at]) > spans::widest(lines.take(at)) {
            spans::digit_count(lines[at])
        } else {
            spans::widest(lines.take(at))
        }),
        spans::gutter(lines.take(at + 1)) == (match spans::gutter(lines.take(at)) {
            Some(width) => Some(width),
            None => if spans::row_at(lines, at) is Header {
                Some(text::indent_len(lines[at]) as nat)
            } else {
                None
            },
        }),
{
    assert(lines.take(at + 1).drop_last() =~= lines.take(at));
    assert(lines.take(at + 1).last() == lines[at]);
}

proof fn lemma_widths(rows: Seq<Printed>, width: nat, fixture: Seq<char>, at: int)
    requires
        is_readable(rows, width),
        0 <= at <= rows.len(),
    ensures
        spans::widest(all_kept(rows, width, fixture).take(at)) == room(rows, width, fixture, at),
        spans::gutter(all_kept(rows, width, fixture).take(at)) == (if is_placed(rows, at) {
            Some(width)
        } else {
            None
        }),
    decreases at,
{
    if at > 0 {
        lemma_widths(rows, width, fixture, at - 1);
        lemma_left(rows, width, fixture, at - 1);
        lemma_one_more(all_kept(rows, width, fixture), at - 1);
    }
}

proof fn lemma_room(rows: Seq<Printed>, width: nat, fixture: Seq<char>, at: int)
    requires
        is_readable(rows, width),
        0 <= at <= rows.len(),
    ensures
        room(rows, width, fixture, at) <= width,
        forall|i: int|
            0 <= i < at && is_here(rows, width, fixture, i) && (#[trigger] rows[i])
                is Numbered ==> rows[i]->number.len() <= room(rows, width, fixture, at),
    decreases at,
{
    if at > 0 {
        lemma_room(rows, width, fixture, at - 1);
        assert(is_laid_out(rows[at - 1], width));
    }
}

proof fn lemma_pulled(width: nat, n: nat, rest: Seq<char>)
    requires
        n <= width,
    ensures
        spans::pulled(spans::spaces(width) + rest, n) == spans::spaces((width - n) as nat) + rest,
{
    lemma_leading_spaces(width, n, rest);
    lemma_spaces(width);
    lemma_spaces((width - n) as nat);
    assert((spans::spaces(width) + rest).skip(n as int) =~= spans::spaces((width - n) as nat)
        + rest);
}

proof fn lemma_leading_spaces(width: nat, n: nat, rest: Seq<char>)
    requires
        n <= width,
    ensures
        spans::leading_spaces(spans::spaces(width) + rest, n) == n,
    decreases n,
{
    if n > 0 {
        lemma_spaces(width);
        lemma_spaces((width - 1) as nat);
        let line = spans::spaces(width) + rest;
        assert(line[0] == spans::spaces(width)[0]);
        assert(line.skip(1) =~= spans::spaces((width - 1) as nat) + rest);
        lemma_leading_spaces((width - 1) as nat, (n - 1) as nat, rest);
    }
}

/// A row whose gutter is narrower is what is left of it around that gutter.
proof fn lemma_narrowed(row: Printed, read: Row, here: bool, width: nat, n: nat)
    requires
        width >= 1,
        n <= width,
        is_laid_out(row, width),
        is_read_again_as(row, read, here),
        row is Numbered && here ==> row->number.len() <= width - n,
    ensures
        spans::narrowed(kept(row, width, here), read, n) == kept(row, (width - n) as nat, here),
{
    let line = kept(row, width, here);
    let narrow = (width - n) as nat;
    lemma_spaces(width);
    match row {
        Printed::Place { arrow, place, line: number, column } => {
            let shown = if here {
                positioned(place, number, column)
            } else {
                place
            };
            lemma_header(arrow, shown, width);
            assert(line =~= spans::spaces(width) + (arrow + shown));
            lemma_pulled(width, n, arrow + shown);
            assert(spans::spaces(narrow) + (arrow + shown) =~= spans::spaces(narrow) + arrow
                + shown);
        },
        Printed::Numbered { number, code } => {
            if here {
                lemma_number(number, code, width);
                lemma_pulled((width - number.len()) as nat, n, code);
                assert(number + (spans::spaces((narrow - number.len()) as nat) + code) =~= number
                    + spans::spaces((narrow - number.len()) as nat) + code);
            } else {
                assert(line[0] == spans::spaces(width)[0]);
                lemma_padded(line);
                lemma_pulled(width, n, code);
            }
        },
        Printed::Beside(rest) => {
            assert(line[0] == spans::spaces(width)[0]);
            lemma_padded(line);
            lemma_pulled(width, n, rest);
        },
        Printed::Elided(rest) => {
            reveal_strlit("...");
            assert(line.take(3) =~= "..."@);
            assert(line.skip(3) =~= spans::spaces(width) + rest);
            lemma_pulled(width, n, rest);
            assert("..."@ + (spans::spaces(narrow) + rest) =~= "..."@ + spans::spaces(narrow)
                + rest);
        },
        Printed::Words(words) => {
            if words.len() == 0 {
                reveal_strlit("...");
                assert(words.skip(0) =~= words);
            }
        },
    }
}

/// How much too wide the gutter is once no position outside the fixture is left.
proof fn lemma_excess(rows: Seq<Printed>, width: nat, fixture: Seq<char>)
    requires
        is_readable(rows, width),
        is_placed(rows, rows.len() as int),
    ensures
        spans::excess(all_kept(rows, width, fixture)) == width - room(
            rows,
            width,
            fixture,
            rows.len() as int,
        ),
{
    let left = all_kept(rows, width, fixture);
    lemma_widths(rows, width, fixture, rows.len() as int);
    lemma_room(rows, width, fixture, rows.len() as int);
    assert(left.take(rows.len() as int) =~= left);
}

/// Once the gutter is as narrow as it can be, every row is what is left of it
/// around that gutter.
proof fn lemma_realigned(rows: Seq<Printed>, width: nat, fixture: Seq<char>, at: int)
    requires
        is_readable(rows, width),
        is_placed(rows, rows.len() as int),
        0 <= at < rows.len(),
    ensures
        spans::realigned(all_kept(rows, width, fixture))[at] == kept(
            rows[at],
            room(rows, width, fixture, rows.len() as int),
            is_here(rows, width, fixture, at),
        ),
{
    let left = all_kept(rows, width, fixture);
    let here = is_here(rows, width, fixture, at);
    let n = spans::excess(left);
    lemma_excess(rows, width, fixture);
    assert(n <= width && is_laid_out(rows[at], width) && (rows[at] is Numbered && here
        ==> rows[at]->number.len() <= width - n)) by {
        lemma_room(rows, width, fixture, rows.len() as int);
    }
    assert(left[at] == kept(rows[at], width, here) && is_read_again_as(
        rows[at],
        spans::row_at(left, at),
        here,
    )) by {
        lemma_left(rows, width, fixture, at);
    }
    lemma_narrowed(rows[at], spans::row_at(left, at), here, width, n);
}

proof fn lemma_same_room(
    a: Seq<Printed>,
    a_width: nat,
    b: Seq<Printed>,
    b_width: nat,
    fixture: Seq<char>,
    at: int,
)
    requires
        is_readable(a, a_width),
        is_readable(b, b_width),
        differ_elsewhere(a, a_width, b, b_width, fixture),
        0 <= at <= a.len(),
    ensures
        room(a, a_width, fixture, at) == room(b, b_width, fixture, at),
    decreases at,
{
    if at > 0 {
        lemma_same_room(a, a_width, b, b_width, fixture, at - 1);
        lemma_same_locality(a, a_width, b, b_width, fixture, at - 1);
        assert(are_alike(
            a[at - 1],
            b[at - 1],
            is_here(a, a_width, fixture, at - 1),
            is_here(b, b_width, fixture, at - 1),
        ));
    }
}

/// Where another file keeps its code does not matter: a diagnostic reads the same
/// whatever lines and columns it gives outside the fixture, however wide the
/// numbers among them made its gutter.
pub proof fn law_where_other_files_put_their_code_does_not_matter(
    a: Seq<Printed>,
    a_width: nat,
    b: Seq<Printed>,
    b_width: nat,
    fixture: Seq<char>,
    elide: bool,
)
    requires
        is_readable(a, a_width),
        is_readable(b, b_width),
        differ_elsewhere(a, a_width, b, b_width, fixture),
        exists|i: int| 0 <= i < a.len() && (#[trigger] a[i]) is Place,
    ensures
        normalize::tidied(rendering(a, a_width), fixture, elide) == normalize::tidied(
            rendering(b, b_width),
            fixture,
            elide,
        ),
{
    lemma_unplaced(a, a_width, fixture);
    lemma_unplaced(b, b_width, fixture);
    lemma_same_room(a, a_width, b, b_width, fixture, a.len() as int);
    let there = choose|i: int| 0 <= i < a.len() && (#[trigger] a[i]) is Place;
    assert(are_alike(
        a[there],
        b[there],
        is_here(a, a_width, fixture, there),
        is_here(b, b_width, fixture, there),
    ));
    assert(b[there] is Place);
    lemma_placed(a, there, a.len() as int);
    lemma_placed(b, there, b.len() as int);
    let a_shown = spans::realigned(all_kept(a, a_width, fixture));
    let b_shown = spans::realigned(all_kept(b, b_width, fixture));
    assert forall|i: int| 0 <= i < a.len() implies a_shown[i] == b_shown[i] by {
        lemma_realigned(a, a_width, fixture, i);
        lemma_realigned(b, b_width, fixture, i);
        lemma_same_locality(a, a_width, b, b_width, fixture, i);
        assert(are_alike(
            a[i],
            b[i],
            is_here(a, a_width, fixture, i),
            is_here(b, b_width, fixture, i),
        ));
    }
    assert(a_shown =~= b_shown);
}

} // verus!
