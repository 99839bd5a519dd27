//! Where a diagnostic points, and the gutter beside what it quotes.
//!
//! Only the fixture's own spans keep their line and column. A span pointing
//! anywhere else loses them, along with the line numbers in the snippet printed
//! beneath it: those record where another file happens to put its code today. The
//! gutter shrinks with them. rustc sizes it to the widest line number anywhere in
//! a diagnostic, so left alone the other file's line count would be back in the
//! golden through the side door.

use vstd::prelude::*;

use crate::compare;
use crate::compare::level_prefix_width;
use crate::normalize;
use crate::normalize::points_into;
use crate::text;
use crate::text::{
    begins_with_str, blank, extend, indent, slice, trimmed, width_of, without_indent,
};

verus! {

// ---------------------------------------------------------------------------
// Reading a rendered diagnostic line by line.
// ---------------------------------------------------------------------------

/// The first line of a diagnostic that a build fails or warns with.
pub open spec fn opens_diagnostic(line: Seq<char>) -> bool {
    compare::is_heading(line)
}

/// The first line of a message attached to a diagnostic.
pub open spec fn opens_child(line: Seq<char>) -> bool {
    text::starts_with(line, "note"@) || text::starts_with(line, "help"@)
}

/// The width of the level prefix of the message that the line after `lines` may
/// still belong to, if any. Every later line of a message is padded at least that
/// far, and a blank line settles nothing.
pub open spec fn open_message(lines: Seq<Seq<char>>) -> Option<nat>
    decreases lines.len(),
{
    if lines.len() == 0 {
        None
    } else {
        message_after(open_message(lines.drop_last()), lines.last())
    }
}

/// The message that is open after `line`, where `before` was before it.
pub open spec fn message_after(before: Option<nat>, line: Seq<char>) -> Option<nat> {
    if opens_diagnostic(line) || opens_child(line) {
        compare::prefix_width(line)
    } else if text::is_blank(line) || continues(line, before) {
        before
    } else {
        None
    }
}

/// `line` is the text of the message that is open, whatever it looks like.
pub open spec fn continues(line: Seq<char>, message: Option<nat>) -> bool {
    message is Some && !text::is_blank(line) && compare::padding(line) >= message->0
}

/// A span header's arrow: `--> ` before the place a snippet is from, `::: ` before
/// that of a snippet added to it.
pub open spec fn has_arrow(unpadded: Seq<char>) -> bool {
    text::starts_with(unpadded, "--> "@) || text::starts_with(unpadded, "::: "@)
}

/// How many decimal digits `line` begins with.
pub open spec fn digit_count(line: Seq<char>) -> nat
    decreases line.len(),
{
    if line.len() != 0 && '0' <= line[0] && line[0] <= '9' {
        1 + digit_count(line.skip(1))
    } else {
        0
    }
}

/// What separates a line number from the code beside it.
pub open spec fn is_separator(c: char) -> bool {
    c == '|' || c == '+' || c == '-' || c == '~'
}

/// A snippet row that begins with a line number.
pub open spec fn is_numbered(line: Seq<char>) -> bool {
    let rest = line.skip(digit_count(line) as int);
    let code = text::trim_start(rest);
    &&& digit_count(line) != 0
    &&& rest.len() != 0
    &&& rest[0] == ' '
    &&& code.len() != 0
    &&& is_separator(code[0])
}

/// What a line of a rendered diagnostic is.
#[derive(Debug, Clone, Copy, PartialEq, Eq, Structural)]
pub enum Row {
    /// The first line of a diagnostic.
    Diagnostic,
    /// The first line of a message attached to one.
    Child,
    /// A later line of a message.
    Text,
    /// A span header.
    Header,
    /// A snippet row with a line number.
    Numbered,
    /// Anything else.
    Other,
}

/// What `line` is, where `message` may still be open.
pub open spec fn row(line: Seq<char>, message: Option<nat>) -> Row {
    if opens_diagnostic(line) {
        Row::Diagnostic
    } else if opens_child(line) {
        Row::Child
    } else if continues(line, message) {
        Row::Text
    } else if has_arrow(text::trim_start(line)) {
        Row::Header
    } else if is_numbered(line) {
        Row::Numbered
    } else {
        Row::Other
    }
}

/// What the line at `at` is.
pub open spec fn row_at(lines: Seq<Seq<char>>, at: int) -> Row {
    row(lines[at], open_message(lines.take(at)))
}

/// Where a span header points.
pub open spec fn target(header: Seq<char>) -> Seq<char> {
    text::trim(text::trim_start(header).skip(4))
}

/// Whether the snippet that comes next is from the fixture, and whether the
/// diagnostic's first one is. A message attached to a diagnostic goes back to the
/// file of the first.
#[derive(Debug, Clone, Copy)]
pub struct Locality {
    /// The snippet is from the fixture.
    pub here: bool,
    /// The diagnostic's first snippet is, once it has one.
    pub first: Option<bool>,
}

/// Where the snippet after `lines` is from.
pub open spec fn locality(lines: Seq<Seq<char>>, fixture: Seq<char>) -> Locality
    decreases lines.len(),
{
    if lines.len() == 0 {
        Locality { here: true, first: None }
    } else {
        locality_after(
            locality(lines.drop_last(), fixture),
            lines.last(),
            row(lines.last(), open_message(lines.drop_last())),
            fixture,
        )
    }
}

/// Where the snippet after `line` is from, where `before` held before it.
pub open spec fn locality_after(
    before: Locality,
    line: Seq<char>,
    row: Row,
    fixture: Seq<char>,
) -> Locality {
    match row {
        Row::Diagnostic => Locality { here: true, first: None },
        Row::Child => Locality { here: before.first != Some(false), first: before.first },
        Row::Header => {
            let here = normalize::names_place_in(target(line), fixture);
            Locality {
                here,
                first: if before.first is None {
                    Some(here)
                } else {
                    before.first
                },
            }
        },
        _ => before,
    }
}

// ---------------------------------------------------------------------------
// Taking positions away.
// ---------------------------------------------------------------------------

/// How many decimal digits `target` ends with.
pub open spec fn trailing_digits(target: Seq<char>) -> nat
    decreases target.len(),
{
    if target.len() != 0 && '0' <= target.last() && target.last() <= '9' {
        1 + trailing_digits(target.drop_last())
    } else {
        0
    }
}

/// `target` without the `:` and the number it ends with, if it ends with them.
pub open spec fn without_number(target: Seq<char>) -> Seq<char> {
    let end = target.len() - trailing_digits(target) - 1;
    if trailing_digits(target) != 0 && end >= 0 && target[end] == ':' {
        target.take(end)
    } else {
        target
    }
}

/// `target` without the line and column it ends with, if it ends with them.
pub open spec fn without_position(target: Seq<char>) -> Seq<char> {
    without_number(without_number(target))
}

/// A header that points outside the fixture, without the position.
pub open spec fn unplaced(header: Seq<char>) -> Seq<char> {
    let start = text::indent_len(header) + 4;
    header.take(start) + without_position(target(header))
}

/// `n` spaces.
pub open spec fn spaces(n: nat) -> Seq<char>
    decreases n,
{
    if n == 0 {
        seq![]
    } else {
        spaces((n - 1) as nat).push(' ')
    }
}

/// A snippet row without its line number.
pub open spec fn unnumbered(line: Seq<char>) -> Seq<char> {
    spaces(digit_count(line)) + line.skip(digit_count(line) as int)
}

/// The line at `at`, with no position outside the fixture.
pub open spec fn unplaced_line(lines: Seq<Seq<char>>, fixture: Seq<char>, at: int) -> Seq<char> {
    match row_at(lines, at) {
        Row::Header => if normalize::names_place_in(target(lines[at]), fixture) {
            lines[at]
        } else {
            unplaced(lines[at])
        },
        Row::Numbered => if locality(lines.take(at), fixture).here {
            lines[at]
        } else {
            unnumbered(lines[at])
        },
        _ => lines[at],
    }
}

/// `lines`, with no position outside the fixture.
pub open spec fn unplaced_lines(lines: Seq<Seq<char>>, fixture: Seq<char>) -> Seq<Seq<char>> {
    Seq::new(lines.len(), |at: int| unplaced_line(lines, fixture, at))
}

// ---------------------------------------------------------------------------
// Shrinking the gutter.
// ---------------------------------------------------------------------------

/// The gutter the first span header of `lines` is padded to.
pub open spec fn gutter(lines: Seq<Seq<char>>) -> Option<nat>
    decreases lines.len(),
{
    if lines.len() == 0 {
        None
    } else {
        match gutter(lines.drop_last()) {
            Some(width) => Some(width),
            None => match row(lines.last(), open_message(lines.drop_last())) {
                Row::Header => Some(text::indent_len(lines.last()) as nat),
                _ => None,
            },
        }
    }
}

/// The widest line number in `lines`, at least one digit wide.
pub open spec fn widest(lines: Seq<Seq<char>>) -> nat
    decreases lines.len(),
{
    if lines.len() == 0 {
        1
    } else {
        let before = widest(lines.drop_last());
        match row(lines.last(), open_message(lines.drop_last())) {
            Row::Numbered => if digit_count(lines.last()) > before {
                digit_count(lines.last())
            } else {
                before
            },
            _ => before,
        }
    }
}

/// How many columns too wide the gutter of `lines` is.
pub open spec fn excess(lines: Seq<Seq<char>>) -> nat {
    match gutter(lines) {
        Some(width) => if width > widest(lines) {
            (width - widest(lines)) as nat
        } else {
            0
        },
        None => 0,
    }
}

/// How many of the first `n` characters of `line` are spaces, up to the first
/// that is not.
pub open spec fn leading_spaces(line: Seq<char>, n: nat) -> nat
    decreases n,
{
    if n == 0 || line.len() == 0 || line[0] != ' ' {
        0
    } else {
        1 + leading_spaces(line.skip(1), (n - 1) as nat)
    }
}

/// `line` without up to `n` of the spaces it begins with.
pub open spec fn pulled(line: Seq<char>, n: nat) -> Seq<char> {
    line.skip(leading_spaces(line, n) as int)
}

/// A line with its gutter `n` columns narrower. What stands in the gutter stays,
/// and the space behind it goes.
pub open spec fn narrowed(line: Seq<char>, row: Row, n: nat) -> Seq<char> {
    match row {
        Row::Diagnostic => line,
        Row::Child => line,
        Row::Text => line,
        Row::Numbered => {
            let digits = digit_count(line) as int;
            line.take(digits) + pulled(line.skip(digits), n)
        },
        _ => if text::starts_with(line, "..."@) {
            line.take(3) + pulled(line.skip(3), n)
        } else {
            pulled(line, n)
        },
    }
}

/// `lines`, with the gutter no wider than the widest line number in it.
pub open spec fn realigned(lines: Seq<Seq<char>>) -> Seq<Seq<char>> {
    Seq::new(
        lines.len(),
        |at: int| narrowed(lines[at], row_at(lines, at), excess(lines)),
    )
}

// ---------------------------------------------------------------------------
// Computing it.
// ---------------------------------------------------------------------------

/// How many bytes of whitespace `line` is padded by.
fn padding(line: &Vec<char>) -> (width: u128)
    ensures
        width == compare::padding(line@),
{
    width_of(line, indent(line))
}

/// Whether `line` is the text of the message that is open.
fn is_text(line: &Vec<char>, message: Option<u128>) -> (yes: bool)
    ensures
        yes == continues(line@, compare::widened(message)),
{
    match message {
        Some(width) => !blank(line) && padding(line) >= width,
        None => false,
    }
}

/// Whether `line` is the first of a diagnostic.
pub fn is_diagnostic(line: &Vec<char>) -> (yes: bool)
    ensures
        yes == opens_diagnostic(line@),
{
    begins_with_str(line, "error") || begins_with_str(line, "warning")
}

/// Whether `line` is the first of a message attached to a diagnostic.
fn is_child(line: &Vec<char>) -> (yes: bool)
    ensures
        yes == opens_child(line@),
{
    begins_with_str(line, "note") || begins_with_str(line, "help")
}

/// The message that is open after `line`.
fn next_message(before: Option<u128>, line: &Vec<char>) -> (after: Option<u128>)
    ensures
        compare::widened(after) == message_after(compare::widened(before), line@),
{
    if is_diagnostic(line) || is_child(line) {
        level_prefix_width(line)
    } else if blank(line) || is_text(line, before) {
        before
    } else {
        None
    }
}

pub(crate) proof fn lemma_digit_count_is(line: Seq<char>, n: int)
    requires
        0 <= n <= line.len(),
        forall|i: int| 0 <= i < n ==> '0' <= #[trigger] line[i] && line[i] <= '9',
        n < line.len() ==> !('0' <= line[n] && line[n] <= '9'),
    ensures
        digit_count(line) == n,
    decreases line.len(),
{
    if n > 0 {
        assert('0' <= line[0] && line[0] <= '9');
        let rest = line.skip(1);
        assert forall|i: int| 0 <= i < n - 1 implies '0' <= #[trigger] rest[i] && rest[i] <= '9' by {
            assert(rest[i] == line[i + 1]);
        }
        lemma_digit_count_is(rest, n - 1);
    }
}

/// How many decimal digits `line` begins with.
fn count_digits(line: &Vec<char>) -> (n: usize)
    ensures
        n == digit_count(line@),
        n <= line.len(),
{
    let mut n: usize = 0;
    while n < line.len() && '0' <= line[n] && line[n] <= '9'
        invariant
            n <= line.len(),
            forall|i: int| 0 <= i < n ==> '0' <= #[trigger] line@[i] && line@[i] <= '9',
        decreases line.len() - n,
    {
        n += 1;
    }
    proof {
        lemma_digit_count_is(line@, n as int);
    }
    n
}

/// Whether `line` is a snippet row with a line number.
fn has_number(line: &Vec<char>) -> (yes: bool)
    ensures
        yes == is_numbered(line@),
{
    let n = count_digits(line);
    let rest = slice(line, n, line.len());
    assert(rest@ =~= line@.skip(n as int));
    if n == 0 || rest.len() == 0 || rest[0] != ' ' {
        return false;
    }
    let code = without_indent(&rest);
    code.len() != 0 && (code[0] == '|' || code[0] == '+' || code[0] == '-' || code[0] == '~')
}

/// What `line` is, where `message` may still be open.
fn classify(line: &Vec<char>, message: Option<u128>) -> (kind: Row)
    ensures
        kind == row(line@, compare::widened(message)),
{
    if is_diagnostic(line) {
        return Row::Diagnostic;
    }
    if is_child(line) {
        return Row::Child;
    }
    if is_text(line, message) {
        return Row::Text;
    }
    let unpadded = without_indent(line);
    if begins_with_str(&unpadded, "--> ") || begins_with_str(&unpadded, "::: ") {
        Row::Header
    } else if has_number(line) {
        Row::Numbered
    } else {
        Row::Other
    }
}

/// Where a span header points.
fn target_of(header: &Vec<char>) -> (place: Vec<char>)
    requires
        has_arrow(text::trim_start(header@)),
    ensures
        place@ == target(header@),
{
    proof {
        lemma_arrow(header@);
    }
    let unpadded = without_indent(header);
    let place = slice(&unpadded, 4, unpadded.len());
    assert(place@ =~= unpadded@.skip(4));
    trimmed(&place)
}

pub(crate) proof fn lemma_arrow(header: Seq<char>)
    requires
        has_arrow(text::trim_start(header)),
    ensures
        text::trim_start(header).len() >= 4,
        0 <= text::indent_len(header),
        text::indent_len(header) + 4 <= header.len(),
{
    reveal_strlit("--> ");
    reveal_strlit("::: ");
    text::lemma_trim_start(header);
}

proof fn lemma_trailing_digits_is(target: Seq<char>, n: int)
    requires
        0 <= n <= target.len(),
        forall|i: int|
            target.len() - n <= i < target.len() ==> '0' <= #[trigger] target[i] && target[i]
                <= '9',
        n < target.len() ==> !('0' <= target[target.len() - n - 1] && target[target.len() - n - 1]
            <= '9'),
    ensures
        trailing_digits(target) == n,
    decreases target.len(),
{
    if n > 0 {
        assert('0' <= target[target.len() - 1] && target[target.len() - 1] <= '9');
        lemma_trailing_digits_is(target.drop_last(), n - 1);
    }
}

/// `target` without the `:` and the number it ends with, if it ends with them.
pub(crate) fn drop_number(place: &Vec<char>) -> (rest: Vec<char>)
    ensures
        rest@ == without_number(place@),
{
    let mut n: usize = 0;
    while n < place.len() && '0' <= place[place.len() - 1 - n] && place[place.len() - 1 - n] <= '9'
        invariant
            n <= place.len(),
            forall|i: int|
                place@.len() - n <= i < place@.len() ==> '0' <= #[trigger] place@[i] && place@[i]
                    <= '9',
        decreases place.len() - n,
    {
        n += 1;
    }
    proof {
        lemma_trailing_digits_is(place@, n as int);
    }
    let end: usize = if n != 0 && n < place.len() && place[place.len() - n - 1] == ':' {
        place.len() - n - 1
    } else {
        place.len()
    };
    let rest = slice(place, 0, end);
    assert(rest@ =~= without_number(place@));
    rest
}

/// A header that points outside the fixture, without the position.
fn unplace(header: &Vec<char>, place: &Vec<char>) -> (shown: Vec<char>)
    requires
        has_arrow(text::trim_start(header@)),
        place@ == target(header@),
    ensures
        shown@ == unplaced(header@),
{
    proof {
        lemma_arrow(header@);
    }
    let padded = indent(header);
    assert(padded + 4 <= header.len());
    let start = padded + 4;
    let mut shown = slice(header, 0, start);
    assert(shown@ =~= header@.take(start as int));
    extend(&mut shown, &drop_number(&drop_number(place)));
    shown
}

/// `n` spaces.
pub fn blanks(n: usize) -> (out: Vec<char>)
    ensures
        out@ == spaces(n as nat),
{
    let mut out: Vec<char> = Vec::new();
    for i in 0..n
        invariant
            out@ == spaces(i as nat),
    {
        out.push(' ');
    }
    out
}

/// A snippet row without its line number.
fn unnumber(line: &Vec<char>) -> (shown: Vec<char>)
    ensures
        shown@ == unnumbered(line@),
{
    let n = count_digits(line);
    let mut shown = blanks(n);
    let rest = slice(line, n, line.len());
    assert(rest@ =~= line@.skip(n as int));
    extend(&mut shown, &rest);
    shown
}

/// A copy of `line`.
pub fn copy_line(line: &Vec<char>) -> (copy: Vec<char>)
    ensures
        copy@ == line@,
{
    let copy = slice(line, 0, line.len());
    assert(copy@ =~= line@);
    copy
}

/// `lines`, with no position outside the fixture.
pub fn unplace_lines(lines: &Vec<Vec<char>>, fixture: &str) -> (out: Vec<Vec<char>>)
    ensures
        text::views(out@) == unplaced_lines(text::views(lines@), fixture@),
{
    let ghost all = text::views(lines@);
    let ghost wanted = unplaced_lines(all, fixture@);
    let mut out: Vec<Vec<char>> = Vec::new();
    let mut message: Option<u128> = None;
    let mut place = Locality { here: true, first: None };
    assert(all.take(0) =~= seq![]);
    for i in 0..lines.len()
        invariant
            all == text::views(lines@),
            wanted == unplaced_lines(all, fixture@),
            compare::widened(message) == open_message(all.take(i as int)),
            place == locality(all.take(i as int), fixture@),
            text::views(out@) == wanted.take(i as int),
    {
        let ghost before = text::views(out@);
        let line = &lines[i];
        assert(all[i as int] == line@);
        assert(all.take(i + 1).drop_last() =~= all.take(i as int));
        assert(all.take(i + 1).last() == line@);
        let kind = classify(line, message);
        let shown = match kind {
            Row::Header => {
                let target = target_of(line);
                let here = points_into(&target, fixture);
                place = Locality {
                    here,
                    first: match place.first {
                        None => Some(here),
                        Some(first) => Some(first),
                    },
                };
                if here {
                    copy_line(line)
                } else {
                    unplace(line, &target)
                }
            },
            Row::Numbered => {
                if place.here {
                    copy_line(line)
                } else {
                    unnumber(line)
                }
            },
            Row::Diagnostic => {
                place = Locality { here: true, first: None };
                copy_line(line)
            },
            Row::Child => {
                let here = match place.first {
                    Some(first) => first,
                    None => true,
                };
                place = Locality { here, first: place.first };
                copy_line(line)
            },
            Row::Text => copy_line(line),
            Row::Other => copy_line(line),
        };
        message = next_message(message, line);
        assert(shown@ == wanted[i as int]);
        out.push(shown);
        assert(text::views(out@) =~= before.push(shown@));
    }
    assert(wanted.take(wanted.len() as int) =~= wanted);
    out
}

/// How many columns too wide the gutter of `lines` is.
fn find_excess(lines: &Vec<Vec<char>>) -> (n: usize)
    ensures
        n == excess(text::views(lines@)),
{
    let ghost all = text::views(lines@);
    let mut message: Option<u128> = None;
    let mut width: Option<usize> = None;
    let mut widest_number: usize = 1;
    assert(all.take(0) =~= seq![]);
    for i in 0..lines.len()
        invariant
            all == text::views(lines@),
            compare::widened(message) == open_message(all.take(i as int)),
            match width {
                Some(width) => gutter(all.take(i as int)) == Some(width as nat),
                None => gutter(all.take(i as int)) is None,
            },
            widest_number == widest(all.take(i as int)),
    {
        let line = &lines[i];
        assert(all.take(i + 1).drop_last() =~= all.take(i as int));
        assert(all.take(i + 1).last() == line@);
        match classify(line, message) {
            Row::Header => {
                if width.is_none() {
                    width = Some(indent(line));
                }
            },
            Row::Numbered => {
                let digits = count_digits(line);
                if digits > widest_number {
                    widest_number = digits;
                }
            },
            _ => {},
        }
        message = next_message(message, line);
    }
    assert(all.take(all.len() as int) =~= all);
    match width {
        Some(width) => if width > widest_number {
            width - widest_number
        } else {
            0
        },
        None => 0,
    }
}

proof fn lemma_leading_spaces_is(line: Seq<char>, n: nat, k: int)
    requires
        0 <= k <= line.len(),
        k <= n,
        forall|i: int| 0 <= i < k ==> #[trigger] line[i] == ' ',
        k == n || k == line.len() || line[k] != ' ',
    ensures
        leading_spaces(line, n) == k,
    decreases n,
{
    if k > 0 {
        assert(line[0] == ' ');
        let rest = line.skip(1);
        assert forall|i: int| 0 <= i < k - 1 implies #[trigger] rest[i] == ' ' by {
            assert(rest[i] == line[i + 1]);
        }
        lemma_leading_spaces_is(rest, (n - 1) as nat, k - 1);
    }
}

/// The part of `line` from `from` on, without up to `n` of the spaces it begins
/// with.
fn pull(line: &Vec<char>, from: usize, n: usize) -> (rest: Vec<char>)
    requires
        from <= line@.len(),
    ensures
        rest@ == pulled(line@.skip(from as int), n as nat),
{
    let ghost tail = line@.skip(from as int);
    let mut k: usize = 0;
    while k < n && k < line.len() - from && line[from + k] == ' '
        invariant
            k <= n,
            from + k <= line.len(),
            tail == line@.skip(from as int),
            forall|i: int| 0 <= i < k ==> #[trigger] tail[i] == ' ',
        decreases n - k,
    {
        assert(tail[k as int] == line@[from + k]);
        k += 1;
    }
    proof {
        if k < tail.len() {
            assert(tail[k as int] == line@[from + k]);
        }
        lemma_leading_spaces_is(tail, n as nat, k as int);
    }
    let rest = slice(line, from + k, line.len());
    assert(rest@ =~= tail.skip(k as int));
    rest
}

/// A line with its gutter `n` columns narrower.
fn narrow(line: &Vec<char>, kind: Row, n: usize) -> (shown: Vec<char>)
    ensures
        shown@ == narrowed(line@, kind, n as nat),
{
    proof {
        reveal_strlit("...");
        assert(line@.skip(0) =~= line@);
    }
    let kept = match kind {
        Row::Diagnostic => {
            return copy_line(line);
        },
        Row::Child => {
            return copy_line(line);
        },
        Row::Text => {
            return copy_line(line);
        },
        Row::Numbered => count_digits(line),
        _ => if begins_with_str(line, "...") {
            3
        } else {
            0
        },
    };
    let mut shown = slice(line, 0, kept);
    extend(&mut shown, &pull(line, kept, n));
    assert(shown@ =~= narrowed(line@, kind, n as nat));
    shown
}

/// `lines`, with the gutter no wider than the widest line number in it.
pub fn realign(lines: &Vec<Vec<char>>) -> (out: Vec<Vec<char>>)
    ensures
        text::views(out@) == realigned(text::views(lines@)),
{
    let ghost all = text::views(lines@);
    let ghost wanted = realigned(all);
    let n = find_excess(lines);
    let mut out: Vec<Vec<char>> = Vec::new();
    let mut message: Option<u128> = None;
    assert(all.take(0) =~= seq![]);
    for i in 0..lines.len()
        invariant
            all == text::views(lines@),
            wanted == realigned(all),
            n == excess(all),
            compare::widened(message) == open_message(all.take(i as int)),
            text::views(out@) == wanted.take(i as int),
    {
        let ghost before = text::views(out@);
        let line = &lines[i];
        assert(all[i as int] == line@);
        assert(all.take(i + 1).drop_last() =~= all.take(i as int));
        assert(all.take(i + 1).last() == line@);
        let kind = classify(line, message);
        let shown = narrow(line, kind, n);
        message = next_message(message, line);
        assert(shown@ == wanted[i as int]);
        out.push(shown);
        assert(text::views(out@) =~= before.push(shown@));
    }
    assert(wanted.take(wanted.len() as int) =~= wanted);
    out
}

} // verus!
