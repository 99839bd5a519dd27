//! What holds of reading JSON.

use vstd::prelude::*;

use crate::json;
use crate::json::Json;
use crate::scratch;
use crate::text;

verus! {

/// `c` inside a JSON string, as it is commonly written.
pub open spec fn escaped_char(c: char) -> Seq<char> {
    if c == '"' || c == '\\' {
        seq!['\\', c]
    } else if c == '\n' {
        seq!['\\', 'n']
    } else if c == '\r' {
        seq!['\\', 'r']
    } else if c == '\t' {
        seq!['\\', 't']
    } else if (c as u32) < 0x20 {
        seq!['\\', 'u'] + scratch::hex(c as u64, 4)
    } else {
        seq![c]
    }
}

/// `text` inside a JSON string.
pub open spec fn escaped(text: Seq<char>) -> Seq<char>
    decreases text.len(),
{
    if text.len() == 0 {
        seq![]
    } else {
        escaped_char(text[0]) + escaped(text.skip(1))
    }
}

/// `text` as a JSON string.
pub open spec fn quoted(text: Seq<char>) -> Seq<char> {
    "\""@ + escaped(text) + "\""@
}

proof fn lemma_hex_digit(n: u64)
    requires
        n < 16,
    ensures
        json::hex_digit(scratch::hex_char(n)) == Some(n as nat),
{
}

proof fn lemma_hex_of_a_control(c: char)
    requires
        (c as u32) < 0x20,
    ensures
        scratch::hex(c as u64, 4).len() == 4,
        json::hex_at(scratch::hex(c as u64, 4), 0) == Some(c as nat),
{
    let n = c as u64;
    reveal_with_fuel(scratch::hex, 5);
    lemma_hex_digit(n % 16);
    lemma_hex_digit((n / 16) % 16);
    lemma_hex_digit((n / 16 / 16) % 16);
    lemma_hex_digit((n / 16 / 16 / 16) % 16);
}

/// Wherever the characters of one escape stand, the escape reads the same.
proof fn lemma_escape_reads_back(text: Seq<char>, at: int, c: char)
    requires
        0 <= at,
        at + escaped_char(c).len() <= text.len(),
        text.subrange(at, at + escaped_char(c).len()) == escaped_char(c),
        escaped_char(c).len() != 1,
    ensures
        text[at] == '\\',
        json::escape_at(text, at + 1) == Some((c, at + escaped_char(c).len())),
{
    let part = escaped_char(c);
    assert(forall|i: int| 0 <= i < part.len() ==> #[trigger] part[i] == text[at + i]);
    assert(part[0] == '\\');
    assert(text[at + 1] == part[1]);
    if part.len() > 2 {
        lemma_hex_of_a_control(c);
        let digits = scratch::hex(c as u64, 4);
        assert(digits[0] == part[2] && digits[1] == part[3]);
        assert(digits[2] == part[4] && digits[3] == part[5]);
        assert(text[at + 2] == part[2] && text[at + 3] == part[3]);
        assert(text[at + 4] == part[4] && text[at + 5] == part[5]);
        assert(json::hex_at(text, at + 2) == json::hex_at(digits, 0));
        assert(c as nat as char == c);
    }
}

/// A string reads back as the text that was written, wherever it stands: what a
/// diagnostic says arrives letter for letter.
pub proof fn law_a_written_string_reads_back(
    before: Seq<char>,
    text: Seq<char>,
    after: Seq<char>,
)
    ensures
        json::string_at(before + escaped(text) + "\""@ + after, before.len() as int) == Some(
            (text, (before.len() + escaped(text).len() + 1) as int),
        ),
    decreases text.len(),
{
    reveal_strlit("\"");
    let whole = before + escaped(text) + "\""@ + after;
    let at = before.len() as int;
    if text.len() == 0 {
        assert(whole[at] == '"');
        assert(text =~= seq![]);
    } else {
        let c = text[0];
        let part = escaped_char(c);
        let rest = text.skip(1);
        let further = before + part;
        assert(whole =~= further + escaped(rest) + "\""@ + after);
        law_a_written_string_reads_back(further, rest, after);
        assert(whole.subrange(at, at + part.len()) =~= part);
        assert(whole[at] == part[0]);
        assert(seq![c] + rest =~= text);
        if (c as u32) < 0x20 {
            lemma_hex_of_a_control(c);
        }
        if part.len() != 1 {
            lemma_escape_reads_back(whole, at, c);
        }
    }
}

/// A text written as a JSON string is read as that text.
pub proof fn law_a_quoted_text_is_that_text(text: Seq<char>)
    ensures
        json::parsed(quoted(text)) == Some(Json::Text(text)),
{
    reveal_strlit("\"");
    let whole = quoted(text);
    law_a_written_string_reads_back("\""@, text, seq![]);
    assert(whole =~= "\""@ + escaped(text) + "\""@ + Seq::<char>::empty());
    assert(whole[0] == '"');
    assert(json::filler_end(whole, 0) == 0);
    assert(json::filler_end(whole, whole.len() as int) == whole.len());
}

/// What stands at the end of a path of keys depends on the first member of each
/// name alone: one more behind it, or one of another name before it, changes
/// nothing.
pub proof fn law_the_first_member_of_a_name_counts(
    before: Seq<(Seq<char>, Json)>,
    after: Seq<(Seq<char>, Json)>,
    name: Seq<char>,
    value: Json,
)
    requires
        forall|i: int| 0 <= i < before.len() ==> (#[trigger] before[i]).0 != name,
    ensures
        json::field(before.push((name, value)) + after, name) == Some(value),
    decreases before.len(),
{
    let all = before.push((name, value)) + after;
    if before.len() == 0 {
        assert(all[0] == (name, value));
    } else {
        assert(all[0] == before[0]);
        assert(all[0].0 != name);
        let rest = before.skip(1);
        assert forall|i: int| 0 <= i < rest.len() implies (#[trigger] rest[i]).0 != name by {
            assert(rest[i] == before[i + 1]);
        }
        assert(all.skip(1) =~= rest.push((name, value)) + after);
        law_the_first_member_of_a_name_counts(rest, after, name, value);
    }
}

} // verus!
