//! Comparison modes, and the toolchain-churn problem.
//!
//! Goldens break whenever rustc reflows a diagnostic. That is inherent to
//! golden-matching rendered text; a [`Mode`] makes it cheaper by deciding how
//! much of a diagnostic is compared at all.
//!
//! Dropping the goldens altogether is not on the table. Comparing exit status
//! alone passes a fixture that fails for a typo in the fixture, and comparing
//! error codes alone asserts nothing at all about `compile_error!`, which
//! carries none.

use vstd::prelude::*;

use crate::normalize;
use crate::normalize::points_into;
use crate::text;
use crate::text::{
    begins_with_str, blank, chars_of, extend, find_char, indent, lines_of, slice, string_of,
    trimmed, width_of, without_indent, without_tail,
};

verus! {

/// How a fixture's diagnostics are compared against its golden.
#[derive(Debug, Clone, Copy, PartialEq, Eq, Hash, Structural)]
pub enum Mode {
    /// Byte for byte after normalization. The default: its failure mode is the
    /// loud one.
    Exact,
    /// Each diagnostic's code, primary message and location, and nothing else.
    ///
    /// Drops the source snippet, the underline art, and the `= note:` /
    /// `= help:` lines. A message printed over more than one line survives
    /// whole, blank lines included. The location is each `--> ` span header,
    /// with the gutter padding in front of it trimmed. A `::: ` line heads the
    /// snippet under a secondary label, and is dropped with it.
    Brief,
    /// [`Brief`](Mode::Brief), keeping only the `--> ` span headers that point
    /// into the fixture itself.
    BriefLocal,
}

impl Default for Mode {
    fn default() -> (mode: Mode)
        ensures
            mode == Mode::Exact,
    {
        Mode::Exact
    }
}

/// What a mode is called in a report.
pub open spec fn mode_name(mode: Mode) -> Seq<char> {
    match mode {
        Mode::Exact => "Exact"@,
        Mode::Brief => "Brief"@,
        Mode::BriefLocal => "BriefLocal"@,
    }
}

impl Mode {
    /// What the mode is called in a report.
    pub fn name(self) -> (name: &'static str)
        ensures
            name@ == mode_name(self),
    {
        match self {
            Mode::Exact => "Exact",
            Mode::Brief => "Brief",
            Mode::BriefLocal => "BriefLocal",
        }
    }
}

// ---------------------------------------------------------------------------
// What each mode keeps.
// ---------------------------------------------------------------------------

/// What a span header begins with, once the gutter in front of it is trimmed.
pub const ARROW: &'static str = "--> ";

/// `text` with every CRLF pair rewritten to LF: each `\r` right before a `\n`
/// is dropped. Any other `\r` is content, and stays.
pub open spec fn unify(text: Seq<char>) -> Seq<char>
    decreases text.len(),
{
    if text.len() == 0 {
        seq![]
    } else if text.len() > 1 && text[0] == '\r' && text[1] == '\n' {
        unify(text.skip(1))
    } else {
        seq![text[0]] + unify(text.skip(1))
    }
}

/// A primary message: a line that begins, at column 0, with a level that a
/// build fails or warns at.
pub open spec fn is_heading(line: Seq<char>) -> bool {
    text::starts_with(line, "error"@) || text::starts_with(line, "warning"@)
}

/// A span header, whatever gutter it is padded to.
pub open spec fn is_span(line: Seq<char>) -> bool {
    text::starts_with(text::trim_start(line), ARROW@)
}

/// How many bytes of whitespace `line` is padded by.
pub open spec fn padding(line: Seq<char>) -> nat {
    text::byte_len(line.take(text::indent_len(line)))
}

/// The width in bytes of the level prefix a primary message opens with, up to
/// and including the space after its colon. `None` where there is no colon.
pub open spec fn prefix_width(heading: Seq<char>) -> Option<nat> {
    let colon = text::position(heading, ':') as int;
    if colon < heading.len() {
        Some(text::byte_len(heading.take(colon)) + 2)
    } else {
        None
    }
}

/// A line of a diagnostic's rendering, once the padding in front of it is trimmed: a
/// span header, the header of a secondary snippet, the gutter beside a snippet, or
/// a note.
pub open spec fn is_rendering(unpadded: Seq<char>) -> bool {
    ||| text::starts_with(unpadded, ARROW@)
    ||| text::starts_with(unpadded, "::: "@)
    ||| text::starts_with(unpadded, "|"@)
    ||| text::starts_with(unpadded, "= note:"@)
    ||| text::starts_with(unpadded, "= help:"@)
}

/// `line` carries on a message whose level prefix is `width` bytes wide: it is
/// padded and not blank. rustc pads every later line of a message at least as far
/// as its level prefix reaches, so a line padded that far is the message's own text
/// whatever it begins with. One padded less is text unless it is rendering, which
/// is padded to the digits in a line number.
pub open spec fn carries_on(line: Seq<char>, width: nat) -> bool {
    &&& padding(line) != 0
    &&& !text::is_blank(line)
    &&& padding(line) >= width || !is_rendering(text::trim_start(line))
}

/// The first line of `lines` that is not blank carries on a message whose level
/// prefix is `width` bytes wide.
pub open spec fn resumes(lines: Seq<Seq<char>>, width: nat) -> bool
    decreases lines.len(),
{
    if lines.len() == 0 {
        false
    } else if text::is_blank(lines[0]) {
        resumes(lines.skip(1), width)
    } else {
        carries_on(lines[0], width)
    }
}

/// What a line of rendered diagnostics is to [`Mode::Brief`].
pub enum Role {
    /// A later line of a primary message.
    Text,
    /// A blank line inside a primary message.
    Gap,
    /// A span header.
    Span,
    /// The first line of a primary message.
    Heading,
    /// Rendering, which is dropped.
    Rendering,
}

/// The role of the first of `lines`, where `message` is the width of the level
/// prefix of the primary message that the line before it belongs to, if any.
pub open spec fn role(lines: Seq<Seq<char>>, message: Option<nat>) -> Role {
    let line = lines[0];
    if message is Some && carries_on(line, message->0) {
        Role::Text
    } else if message is Some && text::is_blank(line) && resumes(lines.skip(1), message->0) {
        Role::Gap
    } else if is_span(line) {
        Role::Span
    } else if is_heading(line) {
        Role::Heading
    } else {
        Role::Rendering
    }
}

/// A span header with the padding around its target trimmed.
pub open spec fn span_line(line: Seq<char>) -> Seq<char> {
    ARROW@ + text::trim(text::trim_start(line).skip(ARROW@.len() as int))
}

/// The lines [`Mode::Brief`] keeps of `lines`: each primary message, whole, and
/// each span header.
pub open spec fn brief_lines(lines: Seq<Seq<char>>, message: Option<nat>) -> Seq<Seq<char>>
    decreases lines.len(),
{
    if lines.len() == 0 {
        seq![]
    } else {
        let line = lines[0];
        let rest = lines.skip(1);
        match role(lines, message) {
            Role::Text => seq![text::trim_end(line)] + brief_lines(rest, message),
            Role::Gap => seq![Seq::<char>::empty()] + brief_lines(rest, message),
            Role::Span => seq![span_line(line)] + brief_lines(rest, None),
            Role::Heading => seq![text::trim_end(line)] + brief_lines(rest, prefix_width(line)),
            Role::Rendering => brief_lines(rest, None),
        }
    }
}

/// A line of [`Mode::Brief`] output that points outside `fixture`.
pub open spec fn points_elsewhere(line: Seq<char>, fixture: Seq<char>) -> bool {
    text::starts_with(line, ARROW@) && !normalize::names_place_in(line.skip(ARROW@.len() as int), fixture)
}

/// `lines` without those that point outside `fixture`.
pub open spec fn local_lines(lines: Seq<Seq<char>>, fixture: Seq<char>) -> Seq<Seq<char>>
    decreases lines.len(),
{
    if lines.len() == 0 {
        seq![]
    } else {
        let rest = local_lines(lines.skip(1), fixture);
        if points_elsewhere(lines[0], fixture) {
            rest
        } else {
            seq![lines[0]] + rest
        }
    }
}

/// What [`Mode::Brief`] keeps of a text whose line endings are unified.
pub open spec fn brief_text(text: Seq<char>) -> Seq<char> {
    text::unlines(brief_lines(text::lines(text), None))
}

/// What is left of [`Mode::Brief`] output without the spans outside `fixture`.
pub open spec fn local_text(brief: Seq<char>, fixture: Seq<char>) -> Seq<char> {
    text::unlines(local_lines(text::lines(brief), fixture))
}

/// What `mode` compares of `text`.
pub open spec fn filtered(text: Seq<char>, mode: Mode, fixture: Seq<char>) -> Seq<char> {
    match mode {
        Mode::Exact => unify(text),
        Mode::Brief => brief_text(unify(text)),
        Mode::BriefLocal => local_text(brief_text(unify(text)), fixture),
    }
}

// ---------------------------------------------------------------------------
// Computing it.
// ---------------------------------------------------------------------------

/// Reduce `text` to what `mode` compares.
///
/// `fixture` is the fixture's path relative to the host manifest directory,
/// spelled as normalization writes it into a span header.
pub fn filter(text: &str, mode: Mode, fixture: &str) -> (kept: String)
    ensures
        kept@ == filtered(text@, mode, fixture@),
{
    let text = unify_line_endings(text);
    match mode {
        Mode::Exact => text,
        Mode::Brief => brief(text.as_str()),
        Mode::BriefLocal => local(brief(text.as_str()).as_str(), fixture),
    }
}

/// Rewrite CRLF to LF, so a golden compares the same however git checked it out.
///
/// Only the CRLF pair is rewritten, which is exactly the transformation git
/// applied. A lone `\r` is left alone: it is content rather than a line ending,
/// and rustc can put one in a diagnostic that quotes a fixture's source.
pub fn unify_line_endings(text: &str) -> (unified: String)
    ensures
        unified@ == unify(text@),
{
    let chars = chars_of(text);
    let mut unified = String::new();
    proof {
        assert(chars@.skip(0) =~= chars@);
    }
    for i in 0..chars.len()
        invariant
            unify(chars@) == unified@ + unify(chars@.skip(i as int)),
    {
        let ghost rest = chars@.skip(i as int);
        assert(rest.skip(1) =~= chars@.skip(i + 1));
        let pair = chars[i] == '\r' && i < chars.len() - 1 && chars[i + 1] == '\n';
        assert(pair == (rest.len() > 1 && rest[0] == '\r' && rest[1] == '\n'));
        if !pair {
            let ghost before = unified@;
            unified.push(chars[i]);
            assert(before + (seq![rest[0]] + unify(chars@.skip(i + 1))) =~= unified@ + unify(
                chars@.skip(i + 1),
            ));
        }
    }
    assert(unified@ + unify(chars@.skip(chars@.len() as int)) =~= unified@);
    unified
}

/// Reduce rendered diagnostics to each one's primary message and `--> ` span
/// headers, dropping everything else.
pub fn brief(text: &str) -> (kept: String)
    ensures
        kept@ == brief_text(text@),
{
    let all = lines_of(&chars_of(text));
    let ghost view = text::views(all@);
    let mut kept: Vec<char> = Vec::new();
    let ghost mut out: Seq<Seq<char>> = seq![];
    // The width of the level prefix of the primary message kept last, while the
    // lines arriving may still be the rest of it rather than the top of a
    // snippet.
    let mut message: Option<u128> = None;
    proof {
        assert(view.skip(0) =~= view);
        assert(out + brief_lines(view, None) =~= brief_lines(view, None));
    }
    for i in 0..all.len()
        invariant
            view == text::views(all@),
            kept@ == text::unlines(out),
            brief_lines(view, None) == out + brief_lines(view.skip(i as int), widened(message)),
    {
        let ghost ahead = view.skip(i as int);
        let ghost before = out;
        let line = &all[i];
        assert(ahead[0] == line@);
        assert(ahead.skip(1) =~= view.skip(i + 1));
        let mut handled: bool = false;
        if let Some(width) = message {
            if continues_message(line, width) {
                // The rest of a message that carries a newline. Tested before
                // the span header below, because the author's own text is free
                // to begin with `--> ` too.
                extend(&mut kept, &without_tail(line));
                kept.push('\n');
                proof {
                    out = out.push(text::trim_end(line@));
                    assert(out.drop_last() =~= before);
                }
                handled = true;
            } else if blank(line) && message_resumes(&all, i + 1, width) {
                // A blank line the author put in the message: what follows it
                // tells it from the one that ends a diagnostic.
                kept.push('\n');
                proof {
                    out = out.push(Seq::<char>::empty());
                    assert(out.drop_last() =~= before);
                    assert(text::unlines(out) =~= text::unlines(before).push('\n'));
                }
                handled = true;
            }
        }
        if !handled {
            let unpadded = without_indent(line);
            if begins_with_str(&unpadded, ARROW) {
                // A span header. The gutter width in front of it tracks the
                // largest line number in the snippet, so it is trimmed.
                let mut span = chars_of(ARROW);
                assert(unpadded@.subrange(ARROW@.len() as int, unpadded@.len() as int)
                    =~= unpadded@.skip(ARROW@.len() as int));
                let target = slice(&unpadded, span.len(), unpadded.len());
                extend(&mut span, &trimmed(&target));
                extend(&mut kept, &span);
                kept.push('\n');
                message = None;
                proof {
                    out = out.push(span_line(line@));
                    assert(out.drop_last() =~= before);
                }
            } else if begins_with_str(line, "error") || begins_with_str(line, "warning") {
                // A primary message: the level, an optional error code, and the
                // text. Column 0 only -- an indented `error:` is in a snippet.
                extend(&mut kept, &without_tail(line));
                kept.push('\n');
                message = level_prefix_width(line);
                proof {
                    out = out.push(text::trim_end(line@));
                    assert(out.drop_last() =~= before);
                }
            } else {
                message = None;
            }
        }
        proof {
            let rest = view.skip(i + 1);
            assert(kept@ =~= text::unlines(out));
            if out != before {
                assert(before + (seq![out.last()] + brief_lines(rest, widened(message))) =~= out
                    + brief_lines(rest, widened(message)));
            }
            assert(brief_lines(view, None) == out + brief_lines(rest, widened(message)));
        }
    }
    assert(out + brief_lines(view.skip(view.len() as int), widened(message)) =~= out);
    string_of(&kept)
}

/// An optional width as a number.
pub open spec fn widened(width: Option<u128>) -> Option<nat> {
    match width {
        Some(width) => Some(width as nat),
        None => None,
    }
}

/// Whether the first line from `from` on that is not blank carries on a message
/// whose level prefix is `width` bytes wide.
fn message_resumes(all: &Vec<Vec<char>>, from: usize, width: u128) -> (yes: bool)
    requires
        from <= all@.len(),
    ensures
        yes == resumes(text::views(all@).skip(from as int), width as nat),
{
    let ghost view = text::views(all@);
    let mut i: usize = from;
    while i < all.len()
        invariant
            view == text::views(all@),
            from <= i <= all@.len(),
            resumes(view.skip(from as int), width as nat) == resumes(
                view.skip(i as int),
                width as nat,
            ),
        decreases all@.len() - i,
    {
        let line = &all[i];
        assert(view.skip(i as int)[0] == line@);
        assert(view.skip(i as int).skip(1) =~= view.skip(i + 1));
        if !blank(line) {
            return continues_message(line, width);
        }
        i += 1;
    }
    false
}

/// The width of the level prefix a primary message opens with -- `error: `,
/// `warning: `, `error[E0080]: ` -- which is the padding rustc puts in front of
/// every later line of that message.
pub fn level_prefix_width(heading: &Vec<char>) -> (width: Option<u128>)
    ensures
        widened(width) == prefix_width(heading@),
{
    // Neither a level nor an error code contains a colon, so the first one ends
    // the prefix, and the space rustc prints after it belongs to it.
    let colon = find_char(heading, ':');
    if colon < heading.len() {
        Some(width_of(heading, colon) + 2)
    } else {
        None
    }
}

/// Whether `line` carries on a message whose level prefix is `width` bytes
/// wide, rather than ending it.
///
/// A blank line is not a continuation by itself: whether it belongs to the
/// message depends on the line after it, which only the caller can see.
pub fn continues_message(line: &Vec<char>, width: u128) -> (yes: bool)
    ensures
        yes == carries_on(line@, width as nat),
{
    let n = indent(line);
    let padding = width_of(line, n);
    // Nothing at column 0 continues a message: it is the next heading, or
    // something that is not a message at all.
    if padding == 0 || blank(line) {
        return false;
    }
    padding >= width || !renders(&without_indent(line))
}

/// Whether a line, without its padding, belongs to a diagnostic's rendering.
fn renders(unpadded: &Vec<char>) -> (yes: bool)
    ensures
        yes == is_rendering(unpadded@),
{
    begins_with_str(unpadded, ARROW) || begins_with_str(unpadded, "::: ") || begins_with_str(
        unpadded,
        "|",
    ) || begins_with_str(unpadded, "= note:") || begins_with_str(unpadded, "= help:")
}

/// Drop every span header from `brief` output that points outside `fixture`.
///
/// Taken after [`brief`] rather than folded into it, so `BriefLocal` is `Brief`
/// minus a set of whole lines and cannot disagree with it about anything else.
pub fn local(brief: &str, fixture: &str) -> (kept: String)
    ensures
        kept@ == local_text(brief@, fixture@),
{
    let all = lines_of(&chars_of(brief));
    let ghost view = text::views(all@);
    let arrow = chars_of(ARROW);
    let mut kept: Vec<char> = Vec::new();
    let ghost mut out: Seq<Seq<char>> = seq![];
    proof {
        assert(view.skip(0) =~= view);
        assert(out + local_lines(view, fixture@) =~= local_lines(view, fixture@));
    }
    for i in 0..all.len()
        invariant
            view == text::views(all@),
            arrow@ == ARROW@,
            kept@ == text::unlines(out),
            local_lines(view, fixture@) == out + local_lines(view.skip(i as int), fixture@),
    {
        let ghost ahead = view.skip(i as int);
        let ghost before = out;
        let line = &all[i];
        assert(ahead[0] == line@);
        assert(ahead.skip(1) =~= view.skip(i + 1));
        let mut elsewhere: bool = false;
        if begins_with_str(line, ARROW) {
            assert(line@.subrange(ARROW@.len() as int, line@.len() as int) =~= line@.skip(
                ARROW@.len() as int,
            ));
            let target = slice(line, arrow.len(), line.len());
            elsewhere = !points_into(&target, fixture);
        }
        if !elsewhere {
            extend(&mut kept, line);
            kept.push('\n');
            proof {
                out = out.push(line@);
                assert(out.drop_last() =~= before);
                assert(kept@ =~= text::unlines(out));
                assert(before + (seq![line@] + local_lines(view.skip(i + 1), fixture@)) =~= out
                    + local_lines(view.skip(i + 1), fixture@));
            }
        }
    }
    assert(out + local_lines(view.skip(view.len() as int), fixture@) =~= out);
    string_of(&kept)
}

} // verus!
