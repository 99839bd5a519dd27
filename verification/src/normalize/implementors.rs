//! Lists of the types that implement a trait.
//!
//! Where a diagnostic lists them, rustc prints a count of the ones it left out,
//! and which ones it prints depends on code the fixture never mentions. The count
//! becomes a placeholder, a list long enough that rustc might cut it is cut where
//! rustc's own cut would be, and a suite can ask for the entries to go altogether.

use vstd::prelude::*;

use crate::normalize::spans;
use crate::normalize::spans::{blanks, copy_line};
use crate::normalize::{IMPLEMENTORS, N};
use crate::text;
use crate::text::{
    begins_with_str, blank, chars_of, extend_str, find, indent, slice, without_indent,
    without_tail,
};

verus! {

/// How many entries rustc prints of a list it cuts.
pub const LISTED: usize = 8;

/// What a list's heading begins with, past its padding.
pub const LIST_OPENING: &'static str = "= help: the following ";

/// What names the trait in a list's heading.
pub const LIST_SUBJECT: &'static str = "types implement trait `";

/// The line a list of implementors stands under.
pub open spec fn is_list_heading(line: Seq<char>) -> bool {
    let unpadded = text::trim_start(line);
    let whole = text::trim_end(line);
    &&& text::starts_with(unpadded, LIST_OPENING@)
    &&& text::found_from(unpadded, LIST_SUBJECT@, 0) is Some
    &&& whole.len() != 0
    &&& whole.last() == ':'
}

/// The column a list's count is printed at: behind the `= help: ` of its heading.
/// Its entries are printed two columns further.
pub open spec fn list_column(heading: Seq<char>) -> nat {
    (text::indent_len(heading) + 8) as nat
}

/// How many of the first of `lines` belong to a list whose count is printed at
/// `column`.
pub open spec fn list_len(lines: Seq<Seq<char>>, column: nat) -> nat
    decreases lines.len(),
{
    if lines.len() == 0 || text::is_blank(lines[0]) || text::indent_len(lines[0]) < column {
        0
    } else {
        1 + list_len(lines.skip(1), column)
    }
}

/// `text` is one or more decimal digits.
pub open spec fn is_number(text: Seq<char>) -> bool {
    text.len() != 0 && forall|i: int|
        0 <= i < text.len() ==> '0' <= #[trigger] text[i] && text[i] <= '9'
}

/// The line that counts the entries rustc left out: `and`, a number, `others`.
pub open spec fn is_count(line: Seq<char>) -> bool {
    let counted = text::trim(line);
    let n = counted.len() - 11;
    &&& text::starts_with(counted, "and "@)
    &&& n >= 1
    &&& is_number(counted.subrange(4, 4 + n))
    &&& counted.skip(4 + n) == " others"@
}

/// The line that stands for the entries left out.
pub open spec fn count_line(column: nat) -> Seq<char> {
    spans::spaces(column) + "and "@ + N@ + " others"@
}

/// What is shown of the entries of a list.
pub open spec fn shown_entries(entries: Seq<Seq<char>>, column: nat, elide: bool) -> Seq<Seq<char>> {
    if entries.len() == 0 {
        entries
    } else if elide {
        seq![spans::spaces(column + 2) + IMPLEMENTORS@]
    } else {
        let counted = is_count(entries.last());
        let types = if counted {
            entries.drop_last()
        } else {
            entries
        };
        if types.len() > LISTED {
            types.take(LISTED as int).push(count_line(column))
        } else if counted {
            types.push(count_line(column))
        } else {
            types
        }
    }
}

/// `lines`, with what is shown of every list of implementors in them.
pub open spec fn with_lists(lines: Seq<Seq<char>>, elide: bool) -> Seq<Seq<char>>
    decreases lines.len(),
{
    if lines.len() == 0 {
        seq![]
    } else if is_list_heading(lines[0]) {
        let column = list_column(lines[0]);
        let n = list_len(lines.skip(1), column) as int;
        proof {
            lemma_list_len(lines.skip(1), column);
        }
        seq![lines[0]] + shown_entries(lines.subrange(1, 1 + n), column, elide) + with_lists(
            lines.skip(1 + n),
            elide,
        )
    } else {
        seq![lines[0]] + with_lists(lines.skip(1), elide)
    }
}

/// A list is made of the lines that are there.
pub proof fn lemma_list_len(lines: Seq<Seq<char>>, column: nat)
    ensures
        list_len(lines, column) <= lines.len(),
    decreases lines.len(),
{
    if lines.len() != 0 {
        lemma_list_len(lines.skip(1), column);
    }
}

// ---------------------------------------------------------------------------
// Computing it.
// ---------------------------------------------------------------------------

/// Whether a list of implementors stands under `line`.
fn heads_list(line: &Vec<char>) -> (yes: bool)
    ensures
        yes == is_list_heading(line@),
{
    let unpadded = without_indent(line);
    let whole = without_tail(line);
    let subject = chars_of(LIST_SUBJECT);
    let found = find(&unpadded, &subject, 0);
    proof {
        match found {
            Some(at) => text::lemma_found_is(unpadded@, subject@, 0, Some(at as int)),
            None => text::lemma_found_is(unpadded@, subject@, 0, None),
        }
    }
    begins_with_str(&unpadded, LIST_OPENING) && found.is_some() && whole.len() != 0
        && whole[whole.len() - 1] == ':'
}

/// How many lines from `from` on belong to a list whose count is printed at
/// `column`.
fn count_list(lines: &Vec<Vec<char>>, from: usize, column: usize) -> (n: usize)
    requires
        from <= lines@.len(),
    ensures
        n == list_len(text::views(lines@).skip(from as int), column as nat),
        from + n <= lines.len(),
{
    let ghost all = text::views(lines@);
    let mut n: usize = 0;
    while n < lines.len() - from && !blank(&lines[from + n]) && indent(&lines[from + n]) >= column
        invariant
            all == text::views(lines@),
            from + n <= lines.len(),
            list_len(all.skip(from as int), column as nat) == n + list_len(
                all.skip(from + n),
                column as nat,
            ),
        decreases lines.len() - from - n,
    {
        assert(all.skip(from + n)[0] == lines@[from + n]@);
        assert(all.skip(from + n).skip(1) =~= all.skip(from + n + 1));
        n += 1;
    }
    proof {
        if from + n < lines.len() {
            assert(all.skip(from + n)[0] == lines@[from + n]@);
        }
    }
    n
}

/// Whether `line` counts the entries rustc left out.
fn counts(line: &Vec<char>) -> (yes: bool)
    ensures
        yes == is_count(line@),
{
    proof {
        reveal_strlit("and ");
        reveal_strlit(" others");
    }
    let counted = crate::text::trimmed(line);
    if counted.len() < 12 || !begins_with_str(&counted, "and ") {
        return false;
    }
    let end = counted.len() - 7;
    let number = slice(&counted, 4, end);
    for i in 0..number.len()
        invariant
            number@.len() != 0,
            number@ == counted@.subrange(4, end as int),
            counted@ == text::trim(line@),
            end == counted@.len() - 7,
            forall|k: int| 0 <= k < i ==> '0' <= #[trigger] number@[k] && number@[k] <= '9',
    {
        if !('0' <= number[i] && number[i] <= '9') {
            assert(!is_number(number@)) by {
                assert(!('0' <= number@[i as int] && number@[i as int] <= '9'));
            }
            return false;
        }
    }
    let rest = slice(&counted, end, counted.len());
    assert(rest@ =~= counted@.skip(end as int));
    crate::text::same(&rest, &chars_of(" others"))
}

/// Append what is shown of the entries `lines[from..to]` of a list.
fn put_entries(
    out: &mut Vec<Vec<char>>,
    lines: &Vec<Vec<char>>,
    from: usize,
    to: usize,
    column: usize,
    elide: bool,
)
    requires
        from <= to <= lines@.len(),
        column <= usize::MAX - 2,
    ensures
        text::views(final(out)@) == text::views(old(out)@) + shown_entries(
            text::views(lines@).subrange(from as int, to as int),
            column as nat,
            elide,
        ),
{
    let ghost start = text::views(out@);
    let ghost entries = text::views(lines@).subrange(from as int, to as int);
    if from == to {
        assert(start + shown_entries(entries, column as nat, elide) =~= start);
        return;
    }
    if elide {
        let mut line = blanks(column + 2);
        extend_str(&mut line, IMPLEMENTORS);
        out.push(line);
        assert(text::views(out@) =~= start + shown_entries(entries, column as nat, elide));
        return;
    }
    assert(entries.last() == lines@[to - 1]@);
    let counted = counts(&lines[to - 1]);
    let end = if counted {
        to - 1
    } else {
        to
    };
    let cut = end - from > LISTED;
    let last = if cut {
        from + LISTED
    } else {
        end
    };
    for i in from..last
        invariant
            from <= last <= to,
            to <= lines@.len(),
            entries == text::views(lines@).subrange(from as int, to as int),
            text::views(out@) == start + entries.take(i - from),
    {
        let ghost before = text::views(out@);
        let line = copy_line(&lines[i]);
        assert(entries[i - from] == line@);
        out.push(line);
        assert(text::views(out@) =~= before.push(line@));
        assert(entries.take(i + 1 - from) =~= entries.take(i - from).push(entries[i - from]));
    }
    if cut || counted {
        let ghost before = text::views(out@);
        let mut line = blanks(column);
        extend_str(&mut line, "and ");
        extend_str(&mut line, N);
        extend_str(&mut line, " others");
        out.push(line);
        assert(text::views(out@) =~= before.push(line@));
    }
    assert(text::views(out@) =~= start + shown_entries(entries, column as nat, elide));
}

/// `lines`, with what is shown of every list of implementors in them.
pub fn show_lists(lines: &Vec<Vec<char>>, elide: bool) -> (out: Vec<Vec<char>>)
    ensures
        text::views(out@) == with_lists(text::views(lines@), elide),
{
    let ghost all = text::views(lines@);
    let mut out: Vec<Vec<char>> = Vec::new();
    let mut at: usize = 0;
    assert(all.skip(0) =~= all);
    assert(text::views(out@) + with_lists(all, elide) =~= with_lists(all, elide));
    while at < lines.len()
        invariant
            all == text::views(lines@),
            at <= lines.len(),
            with_lists(all, elide) == text::views(out@) + with_lists(all.skip(at as int), elide),
        decreases lines.len() - at,
    {
        let ghost rest = all.skip(at as int);
        let ghost before = text::views(out@);
        let line = &lines[at];
        assert(rest[0] == line@);
        assert(rest.skip(1) =~= all.skip(at + 1));
        out.push(copy_line(line));
        let ghost with_line = text::views(out@);
        assert(with_line =~= before.push(line@));
        if heads_list(line) {
            let padded = indent(line);
            proof {
                reveal_strlit("= help: the following ");
                text::lemma_trim_start(line@);
            }
            assert(padded + 22 <= line.len());
            let column = padded + 8;
            let n = count_list(lines, at + 1, column);
            put_entries(&mut out, lines, at + 1, at + 1 + n, column, elide);
            proof {
                let entries = rest.subrange(1, 1 + n);
                assert(entries =~= all.subrange(at + 1, at + 1 + n));
                assert(rest.skip(1 + n) =~= all.skip(at + 1 + n));
                assert(before + (seq![line@] + shown_entries(entries, column as nat, elide)
                    + with_lists(all.skip(at + 1 + n), elide)) =~= text::views(out@) + with_lists(
                    all.skip(at + 1 + n),
                    elide,
                ));
            }
            at = at + 1 + n;
        } else {
            proof {
                assert(before + (seq![line@] + with_lists(all.skip(at + 1), elide))
                    =~= text::views(out@) + with_lists(all.skip(at + 1), elide));
            }
            at += 1;
        }
    }
    assert(text::views(out@) + Seq::<Seq<char>>::empty() =~= text::views(out@));
    out
}

} // verus!
