//! What holds of reading and writing text.

use vstd::prelude::*;
use vstd::utf8::*;

use crate::laws::round_trip::lemma_encoding_joins;
use crate::text;

verus! {

// ---------------------------------------------------------------------------
// Characters and words.
// ---------------------------------------------------------------------------

/// A character Unicode counts as white space.
pub open spec fn is_white(c: char) -> bool {
    let n = c as u32;
    ||| c == ' ' || c == '\t' || c == '\n' || c == '\r'
    ||| n == 0x0b || n == 0x0c
    ||| n == 0x85 || n == 0xa0 || n == 0x1680
    ||| 0x2000 <= n && n <= 0x200a
    ||| n == 0x2028 || n == 0x2029 || n == 0x202f || n == 0x205f || n == 0x3000
}

/// `text` begins with `prefix`.
pub open spec fn begins(text: Seq<char>, prefix: Seq<char>) -> bool {
    prefix.len() <= text.len() && forall|i: int|
        0 <= i < prefix.len() ==> text[i] == #[trigger] prefix[i]
}

/// A text begins with a prefix exactly where it is the prefix and something more.
pub proof fn law_a_text_begins_with_its_start(text: Seq<char>, prefix: Seq<char>)
    ensures
        text::starts_with(text, prefix) <==> begins(text, prefix),
        text::starts_with(prefix + text, prefix),
{
    if begins(text, prefix) {
        assert(text.take(prefix.len() as int) =~= prefix);
    }
    if text::starts_with(text, prefix) {
        assert forall|i: int| 0 <= i < prefix.len() implies text[i] == #[trigger] prefix[i] by {
            assert(text.take(prefix.len() as int)[i] == text[i]);
        }
    }
    assert((prefix + text).take(prefix.len() as int) =~= prefix);
}

/// White space is what Unicode says it is.
pub proof fn law_white_space_is_unicodes(c: char)
    ensures
        text::is_space(c) <==> is_white(c),
{
}

/// What is trimmed off either end of a text is white space, all of it, and what is
/// left begins and ends with something else.
pub proof fn law_trimming_takes_off_white_space(text: Seq<char>)
    ensures
        ({
            let n = text.len() - text::trim_start(text).len();
            &&& 0 <= n <= text.len()
            &&& text::trim_start(text) == text.skip(n)
            &&& forall|i: int| 0 <= i < n ==> is_white(#[trigger] text[i])
            &&& n < text.len() ==> !is_white(text[n])
        }),
        ({
            let n = text::trim_end(text).len() as int;
            &&& 0 <= n <= text.len()
            &&& text::trim_end(text) == text.take(n)
            &&& forall|i: int| n <= i < text.len() ==> is_white(#[trigger] text[i])
            &&& 0 < n ==> !is_white(text[n - 1])
        }),
        text::trim(text) == text::trim_end(text::trim_start(text)),
        text::is_blank(text) <==> forall|i: int|
            0 <= i < text.len() ==> is_white(#[trigger] text[i]),
        text::indent_len(text) == text.len() - text::trim_start(text).len(),
{
    assert forall|c: char| #[trigger] is_white(c) <==> text::is_space(c) by {
        law_white_space_is_unicodes(c);
    }
    text::lemma_trim_start(text);
    text::lemma_trim_end(text);
    let n = text::indent_len(text);
    let m = text::trim_end(text).len() as int;
    assert(text.skip(n) == text::trim_start(text));
    if n < text.len() {
        assert(text::trim_start(text)[0] == text[n]);
    }
    assert(text.take(m) == text::trim_end(text));
    if 0 < m {
        assert(text::trim_end(text).last() == text[m - 1]);
    }
}

/// The first place a character stands at is the first, and so is that of a part.
pub proof fn law_what_is_found_first_is_the_first(
    text: Seq<char>,
    c: char,
    part: Seq<char>,
    from: int,
)
    requires
        0 <= from,
    ensures
        ({
            let at = text::position(text, c) as int;
            &&& at <= text.len()
            &&& at < text.len() ==> text[at] == c
            &&& forall|i: int| 0 <= i < at ==> text[i] != c
        }),
        match text::found_from(text, part, from) {
            Some(at) => {
                &&& from <= at
                &&& at + part.len() <= text.len()
                &&& text.subrange(at, at + part.len()) == part
                &&& forall|i: int|
                    from <= i < at ==> #[trigger] text.subrange(i, i + part.len()) != part
            },
            None => forall|i: int|
                from <= i && i + part.len() <= text.len() ==> #[trigger] text.subrange(
                    i,
                    i + part.len(),
                ) != part,
        },
{
    text::lemma_position(text, c);
    lemma_found(text, part, from);
}

proof fn lemma_found(text: Seq<char>, part: Seq<char>, from: int)
    requires
        0 <= from,
    ensures
        match text::found_from(text, part, from) {
            Some(at) => {
                &&& from <= at
                &&& at + part.len() <= text.len()
                &&& text.subrange(at, at + part.len()) == part
                &&& forall|i: int|
                    from <= i < at ==> #[trigger] text.subrange(i, i + part.len()) != part
            },
            None => forall|i: int|
                from <= i && i + part.len() <= text.len() ==> #[trigger] text.subrange(
                    i,
                    i + part.len(),
                ) != part,
        },
    decreases text.len() + 1 - from,
{
    if from + part.len() <= text.len() && !text::occurs_at(text, part, from) {
        lemma_found(text, part, from + 1);
    }
}

/// A text holds a part exactly where it is something, the part, and something more.
pub proof fn law_a_part_stands_between_what_is_around_it(text: Seq<char>, part: Seq<char>)
    ensures
        text::contains(text, part) <==> exists|before: Seq<char>, after: Seq<char>|
            text == #[trigger] (before + part + after),
{
    if text::contains(text, part) {
        let at = choose|at: int| text::occurs_at(text, part, at);
        let before = text.take(at);
        let after = text.skip(at + part.len());
        assert(text =~= before + part + after);
    }
    if exists|before: Seq<char>, after: Seq<char>| text == #[trigger] (before + part + after) {
        let (before, after) = choose|before: Seq<char>, after: Seq<char>|
            text == #[trigger] (before + part + after);
        let at = before.len() as int;
        assert(text.subrange(at, at + part.len()) =~= part);
        assert(text::occurs_at(text, part, at));
    }
}

/// A text comes before another where it is the beginning of it, or where the first
/// character in which they differ does.
pub proof fn law_texts_are_ordered_by_their_first_difference(
    a: Seq<char>,
    b: Seq<char>,
    at: int,
)
    requires
        0 <= at <= a.len(),
        at <= b.len(),
        a.take(at) == b.take(at),
        at < a.len() && at < b.len() ==> a[at] != b[at],
    ensures
        text::text_before(a, b) <==> at < b.len() && (at == a.len() || a[at] < b[at]),
    decreases at,
{
    if at > 0 {
        assert(a[0] == a.take(at)[0] && b[0] == b.take(at)[0]);
        assert(a.skip(1).take(at - 1) =~= a.take(at).skip(1));
        assert(b.skip(1).take(at - 1) =~= b.take(at).skip(1));
        law_texts_are_ordered_by_their_first_difference(a.skip(1), b.skip(1), at - 1);
    }
}

// ---------------------------------------------------------------------------
// Lines.
// ---------------------------------------------------------------------------

/// `line` without a carriage return at its end.
pub open spec fn without_return(line: Seq<char>) -> Seq<char> {
    if line.len() != 0 && line[line.len() - 1] == '\r' {
        line.take(line.len() - 1)
    } else {
        line
    }
}

/// A text is read line by line: its first line reaches up to the first line feed,
/// without a carriage return right before that, and the rest is read the same way.
/// What no line feed ends is a line too, unless there is nothing of it.
pub proof fn law_a_text_is_read_line_by_line(line: Seq<char>, rest: Seq<char>)
    requires
        forall|i: int| 0 <= i < line.len() ==> line[i] != '\n',
    ensures
        text::lines(line.push('\n') + rest) == seq![without_return(line)] + text::lines(rest),
        text::lines(line) == (if line.len() == 0 {
            seq![]
        } else {
            seq![line]
        }),
{
    let whole = line.push('\n') + rest;
    let n = line.len() as int;
    assert forall|i: int| 0 <= i < n implies whole[i] != '\n' by {
        assert(whole[i] == line[i]);
    }
    assert(whole[n] == '\n');
    text::lemma_position_is(whole, '\n', n);
    assert(whole.take(n) =~= line);
    assert(whole.skip(n + 1) =~= rest);
    assert(text::strip_return(line) =~= without_return(line));
    text::lemma_position_is(line, '\n', n);
}

/// Lines are written one after another, each with a line feed behind it.
pub proof fn law_lines_are_written_one_after_another(all: Seq<Seq<char>>, line: Seq<char>)
    ensures
        text::unlines(seq![]) == Seq::<char>::empty(),
        text::unlines(all.push(line)) == text::unlines(all) + line.push('\n'),
        text::concat(seq![]) == Seq::<char>::empty(),
        text::concat(all.push(line)) == text::concat(all) + line,
{
    assert(all.push(line).drop_last() =~= all);
}

/// What is written line by line is read back as it was.
pub proof fn law_written_lines_are_read_back(all: Seq<Seq<char>>)
    requires
        forall|i: int, k: int|
            0 <= i < all.len() && 0 <= k < all[i].len() ==> #[trigger] all[i][k] != '\n',
        forall|i: int|
            0 <= i < all.len() && (#[trigger] all[i]).len() != 0 ==> all[i].last() != '\r',
    ensures
        text::lines(text::unlines(all)) == all,
{
    assert forall|i: int| 0 <= i < all.len() implies text::is_line(#[trigger] all[i]) by {
        assert forall|k: int| 0 <= k < all[i].len() implies all[i][k] != '\n' by {}
    }
    text::lemma_lines_unlines(all);
}

// ---------------------------------------------------------------------------
// Widths and numbers.
// ---------------------------------------------------------------------------

/// The width of a text is how many bytes it takes as UTF-8.
pub proof fn law_a_width_is_counted_in_bytes(text: Seq<char>)
    ensures
        text::byte_len(text) == encode_utf8(text).len(),
    decreases text.len(),
{
    if text.len() != 0 {
        law_a_width_is_counted_in_bytes(text.drop_last());
        lemma_encoding_joins(text.drop_last(), seq![text.last()]);
        assert(text.drop_last() + seq![text.last()] =~= text);
        let one = seq![text.last()];
        assert(one.drop_first() =~= Seq::<char>::empty());
        assert(encode_utf8(one.drop_first()) =~= Seq::<u8>::empty());
        assert(encode_utf8(one) =~= encode_scalar(text.last() as u32));
        char_is_scalar(text.last());
    }
}

/// What decimal digits count.
pub open spec fn counted(digits: Seq<char>) -> int
    decreases digits.len(),
{
    if digits.len() == 0 {
        0
    } else {
        10 * counted(digits.drop_last()) + (digits.last() as u32 - '0' as u32)
    }
}

/// A number is written with decimal digits that count it, and no zero before them.
pub proof fn law_a_written_number_counts_itself(n: nat)
    ensures
        counted(text::decimal(n)) == n,
        text::decimal(n).len() != 0,
        forall|i: int|
            0 <= i < text::decimal(n).len() ==> '0' <= #[trigger] text::decimal(n)[i]
                && text::decimal(n)[i] <= '9',
        n != 0 ==> text::decimal(n)[0] != '0',
    decreases n,
{
    let all = text::decimal(n);
    if n >= 10 {
        law_a_written_number_counts_itself(n / 10);
        assert(all.drop_last() =~= text::decimal(n / 10));
        assert(all[0] == text::decimal(n / 10)[0]);
    } else {
        assert(all.drop_last() =~= Seq::<char>::empty());
        assert(counted(all.drop_last()) == 0);
    }
}

} // verus!
