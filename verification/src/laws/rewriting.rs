//! Which paths a line mentions, and what is written in their place.

use vstd::prelude::*;

use crate::laws::ingest::{lemma_occurs, stands_at};
use crate::laws::text::{begins, law_a_text_begins_with_its_start};
use crate::normalize::paths;
use crate::normalize::paths::{Match, Replacements};
use crate::normalize::spans;
use crate::text;

verus! {

// ---------------------------------------------------------------------------
// Where a path begins and ends.
// ---------------------------------------------------------------------------

/// A character that names are made of.
pub open spec fn is_in_names(c: char) -> bool {
    ||| 'a' <= c && c <= 'z'
    ||| 'A' <= c && c <= 'Z'
    ||| '0' <= c && c <= '9'
    ||| c == '_'
    ||| c as u32 > 0x7f
}

/// A character that paths are made of, where nothing else says how far one goes.
pub open spec fn is_in_paths(c: char) -> bool {
    is_in_names(c) || "-.+@/\\"@.contains(c)
}

/// A character that paths in quotes are made of.
pub open spec fn is_in_quoted_paths(c: char) -> bool {
    is_in_paths(c) || " ()[]{}"@.contains(c)
}

/// `line` is a span header.
pub open spec fn is_arrowed(line: Seq<char>) -> bool {
    begins(text::trim_start(line), "--> "@) || begins(text::trim_start(line), "::: "@)
}

/// The path behind the arrow of a span header begins at `at`.
pub open spec fn is_behind_arrow(line: Seq<char>, at: int) -> bool {
    is_arrowed(line) && at == text::indent_len(line) + 4
}

/// `c` and a root of a drive stand at `at`.
pub open spec fn is_drive(line: Seq<char>, at: int) -> bool {
    &&& 0 <= at
    &&& at + 2 < line.len()
    &&& 'a' <= line[at] && line[at] <= 'z' || 'A' <= line[at] && line[at] <= 'Z'
    &&& line[at + 1] == ':'
    &&& line[at + 2] == '/'
}

/// An absolute path begins at `at`, behind a quote, and the quote that goes with it
/// comes next at `close`.
pub open spec fn is_quoted(line: Seq<char>, at: int, close: int) -> bool {
    &&& 0 < at <= close < line.len()
    &&& "`\"'"@.contains(line[at - 1])
    &&& line[at] == '/' || is_drive(line, at)
    &&& line[close] == line[at - 1]
    &&& forall|i: int| at <= i < close ==> #[trigger] line[i] != line[at - 1]
}

/// A path that begins at `from` goes on at `at`: behind an arrow, up to the
/// position; in quotes, up to the closing one; elsewhere, as long as its characters
/// are those of a path.
pub open spec fn carries_path(line: Seq<char>, from: int, at: int) -> bool {
    0 <= at < line.len() && if is_behind_arrow(line, from) {
        at < spans::without_position(line).len()
    } else if exists|close: int| is_quoted(line, from, close) {
        exists|close: int| #[trigger]
            is_quoted(line, from, close) && at < close && is_in_quoted_paths(line[at])
    } else {
        is_in_paths(line[at])
    }
}

/// A component of a path that begins at `from` ends at `at`.
pub open spec fn ends_name(line: Seq<char>, from: int, at: int) -> bool {
    !carries_path(line, from, at) || line[at] == '/'
}

/// A path can begin at `at`. In a span header with a position it can only behind
/// the arrow; elsewhere what is before it is no character of one.
pub open spec fn can_begin(line: Seq<char>, at: int) -> bool {
    let end = spans::without_position(line).len();
    if is_arrowed(line) && text::indent_len(line) + 4 <= at < end < line.len() {
        at == text::indent_len(line) + 4
    } else {
        at == 0 || !is_in_paths(line[at - 1])
    }
}

proof fn lemma_chars(c: char)
    ensures
        paths::is_word_char(c) == is_in_names(c),
        paths::is_path_char(c) == is_in_paths(c),
        paths::is_quoted_char(c) == is_in_quoted_paths(c),
        paths::is_quote(c) == "`\"'"@.contains(c),
{
    reveal_strlit("-.+@/\\");
    reveal_strlit(" ()[]{}");
    reveal_strlit("`\"'");
    let marks = "-.+@/\\"@;
    assert(marks[0] == '-' && marks[1] == '.' && marks[2] == '+' && marks[3] == '@');
    assert(marks[4] == '/' && marks[5] == '\\');
    let more = " ()[]{}"@;
    assert(more[0] == ' ' && more[1] == '(' && more[2] == ')' && more[3] == '[');
    assert(more[4] == ']' && more[5] == '{' && more[6] == '}');
    let quotes = "`\"'"@;
    assert(quotes[0] == '`' && quotes[1] == '"' && quotes[2] == '\'');
}

proof fn lemma_arrowed(line: Seq<char>)
    ensures
        paths::is_header(line) == is_arrowed(line),
{
    law_a_text_begins_with_its_start(text::trim_start(line), "--> "@);
    law_a_text_begins_with_its_start(text::trim_start(line), "::: "@);
}

proof fn lemma_next_of(line: Seq<char>, c: char, at: int)
    requires
        0 <= at <= line.len(),
    ensures
        at <= paths::next_of(line, c, at) <= line.len(),
        paths::next_of(line, c, at) < line.len() ==> line[paths::next_of(line, c, at)] == c,
        forall|i: int| at <= i < paths::next_of(line, c, at) ==> #[trigger] line[i] != c,
    decreases line.len() - at,
{
    if at < line.len() && line[at] != c {
        lemma_next_of(line, c, at + 1);
    }
}

/// How far a path goes.
#[verifier::rlimit(40)]
pub proof fn law_how_far_a_path_goes(line: Seq<char>, from: int, at: int)
    ensures
        paths::goes_on(line, paths::reach_of(line, from), at) <==> carries_path(line, from, at),
        paths::component_ends(line, paths::reach_of(line, from), at) <==> ends_name(line, from, at),
        paths::path_begins(line, at) <==> can_begin(line, at),
{
    lemma_arrowed(line);
    if 0 <= at < line.len() {
        lemma_chars(line[at]);
    }
    lemma_chars(line[at - 1]);
    lemma_chars(line[from - 1]);
    if 0 < from < line.len() {
        lemma_next_of(line, line[from - 1], from);
        let next = paths::next_of(line, line[from - 1], from);
        if paths::is_quote(line[from - 1]) && (line[from] == '/' || paths::drive_at(line, from))
            && next < line.len() {
            assert(is_quoted(line, from, next));
        }
        assert forall|close: int| #[trigger] is_quoted(line, from, close) implies close == next by {
            if next < close {
                assert(line[next] != line[from - 1]);
            } else if close < next {
                assert(line[close] != line[from - 1]);
            }
        }
    }
}

// ---------------------------------------------------------------------------
// What can stand where a path begins.
// ---------------------------------------------------------------------------

/// `prefix` stands at `at`, whole components of a path.
pub open spec fn is_known_place(line: Seq<char>, prefix: Seq<char>, at: int) -> bool {
    prefix.len() != 0 && stands_at(line, prefix, at) && ends_name(line, at, at + prefix.len())
}

/// A component of a path that begins at `from` goes from `start` to `end`.
pub open spec fn is_name(line: Seq<char>, from: int, start: int, end: int) -> bool {
    &&& start < end
    &&& ends_name(line, from, end)
    &&& forall|i: int| start <= i < end ==> !#[trigger] ends_name(line, from, i)
}

/// The directory of an index of the registry stands at `at`, `len` long.
pub open spec fn is_index(line: Seq<char>, registry: Seq<char>, at: int, len: int) -> bool {
    registry.len() != 0 && stands_at(line, registry, at) && is_name(
        line,
        at,
        at + registry.len(),
        at + len,
    )
}

/// `/rustc/`, the name of a commit and `/library` stand at `at`, `len` long.
pub open spec fn is_commit(line: Seq<char>, at: int, len: int) -> bool {
    &&& stands_at(line, "/rustc/"@, at)
    &&& is_name(line, at, at + 7, at + len - 8)
    &&& stands_at(line, "/library"@, at + len - 8)
    &&& ends_name(line, at, at + len)
}

/// A path that ends with `marker` stands at `at`, `len` long.
pub open spec fn is_library(line: Seq<char>, marker: Seq<char>, at: int, len: int) -> bool {
    &&& marker.len() <= len
    &&& stands_at(line, marker, at + len - marker.len())
    &&& ends_name(line, at, at + len)
    &&& forall|i: int|
        (if is_drive(line, at) {
            at + 2
        } else {
            at
        }) <= i < at + len ==> #[trigger] carries_path(line, at, i)
}

/// The source of the toolchain stands at `at`, `len` long.
pub open spec fn is_rust(line: Seq<char>, at: int, len: int) -> bool {
    ||| is_commit(line, at, len)
    ||| is_library(line, "/lib/rustlib/src/rust/library"@, at, len)
    ||| is_library(line, "/lib/rustlib/src/rust/src"@, at, len)
}

proof fn lemma_name_end(line: Seq<char>, from: int, start: int)
    requires
        0 <= start <= line.len(),
    ensures
        ({
            let end = paths::name_end(line, paths::reach_of(line, from), start);
            &&& start <= end <= line.len()
            &&& ends_name(line, from, end)
            &&& forall|i: int| start <= i < end ==> !#[trigger] ends_name(line, from, i)
        }),
    decreases line.len() - start,
{
    law_how_far_a_path_goes(line, from, start);
    if !paths::component_ends(line, paths::reach_of(line, from), start) {
        lemma_name_end(line, from, start + 1);
    }
}

proof fn lemma_one_name(line: Seq<char>, from: int, start: int, a: int, b: int)
    requires
        start <= a,
        start <= b,
        ends_name(line, from, a),
        ends_name(line, from, b),
        forall|i: int| start <= i < a ==> !#[trigger] ends_name(line, from, i),
        forall|i: int| start <= i < b ==> !#[trigger] ends_name(line, from, i),
    ensures
        a == b,
{
    if a < b {
        assert(!ends_name(line, from, a));
    } else if b < a {
        assert(!ends_name(line, from, b));
    }
}

proof fn lemma_path_end(line: Seq<char>, from: int, start: int)
    requires
        0 <= start <= line.len(),
    ensures
        ({
            let end = paths::path_end(line, paths::reach_of(line, from), start);
            &&& start <= end <= line.len()
            &&& !carries_path(line, from, end)
            &&& forall|i: int| start <= i < end ==> #[trigger] carries_path(line, from, i)
        }),
    decreases line.len() - start,
{
    law_how_far_a_path_goes(line, from, start);
    if paths::goes_on(line, paths::reach_of(line, from), start) {
        lemma_path_end(line, from, start + 1);
    }
}

/// `marker` ends `len` behind `at`, and a component of the path from there with it.
spec fn is_marked(line: Seq<char>, marker: Seq<char>, at: int, len: int) -> bool {
    marker.len() <= len && stands_at(line, marker, at + len - marker.len()) && ends_name(
        line,
        at,
        at + len,
    )
}

proof fn lemma_through(line: Seq<char>, at: int, end: int, marker: Seq<char>)
    requires
        0 <= at,
        end <= line.len(),
        marker.len() != 0,
    ensures
        ({
            let len = paths::through(line, at, end, marker) as int;
            &&& len != 0 ==> at + len <= end && is_marked(line, marker, at, len)
            &&& forall|n: int| at + n <= end && #[trigger] is_marked(line, marker, at, n) ==> n
                <= len
        }),
    decreases end - at,
{
    if end - at >= marker.len() {
        lemma_occurs(line, marker, end - marker.len());
        law_how_far_a_path_goes(line, at, end);
        if is_marked(line, marker, at, end - at) {
            assert(paths::through(line, at, end, marker) == end - at);
        } else {
            lemma_through(line, at, end - 1, marker);
        }
    }
}

/// How long the directory of an index of the registry is: as long as it is.
pub proof fn law_how_much_of_a_path_is_an_index(
    line: Seq<char>,
    registry: Seq<char>,
    at: int,
    len: int,
)
    requires
        0 <= at <= line.len(),
    ensures
        is_index(line, registry, at, len) ==> paths::registry_len(line, registry, at) == len,
        paths::registry_len(line, registry, at) != 0 ==> is_index(
            line,
            registry,
            at,
            paths::registry_len(line, registry, at) as int,
        ),
{
    lemma_occurs(line, registry, at);
    let start = at + registry.len();
    if stands_at(line, registry, at) {
        lemma_name_end(line, at, start);
        let end = paths::name_end(line, paths::reach_of(line, at), start);
        if is_index(line, registry, at, len) {
            lemma_one_name(line, at, start, end, at + len);
        }
    }
}

proof fn lemma_commit_len(line: Seq<char>, at: int, len: int)
    requires
        0 <= at <= line.len(),
    ensures
        is_commit(line, at, len) ==> paths::commit_len(line, at) == len,
        paths::commit_len(line, at) != 0 ==> is_commit(
            line,
            at,
            paths::commit_len(line, at) as int,
        ),
{
    reveal_strlit("/rustc/");
    reveal_strlit("/library");
    lemma_occurs(line, "/rustc/"@, at);
    let start = at + 7;
    if stands_at(line, "/rustc/"@, at) {
        lemma_name_end(line, at, start);
        let commit = paths::name_end(line, paths::reach_of(line, at), start);
        lemma_occurs(line, "/library"@, commit);
        law_how_far_a_path_goes(line, at, commit + 8);
        if is_commit(line, at, len) {
            lemma_one_name(line, at, start, commit, at + len - 8);
        }
    }
}

/// How long the path of the toolchain's source is: as long as the longest of the
/// shapes it takes that stands there.
#[verifier::rlimit(40)]
pub proof fn law_how_much_of_a_path_is_the_toolchains(line: Seq<char>, at: int, len: int)
    requires
        0 <= at <= line.len(),
    ensures
        is_rust(line, at, len) ==> len <= paths::rust_len(line, at),
        paths::rust_len(line, at) != 0 ==> is_rust(line, at, paths::rust_len(line, at) as int),
{
    reveal_strlit("/lib/rustlib/src/rust/library");
    reveal_strlit("/lib/rustlib/src/rust/src");
    let from = if is_drive(line, at) {
        at + 2
    } else {
        at
    };
    lemma_commit_len(line, at, len);
    lemma_path_end(line, at, from);
    let end = paths::path_end(line, paths::reach_of(line, at), from);
    let first = "/lib/rustlib/src/rust/library"@;
    let second = "/lib/rustlib/src/rust/src"@;
    lemma_through(line, at, end, first);
    lemma_through(line, at, end, second);
    if is_library(line, first, at, len) || is_library(line, second, at, len) {
        assert(at + len <= end) by {
            if at + len > end {
                assert(carries_path(line, at, end));
            }
        }
    }
    if is_library(line, first, at, len) {
        assert(is_marked(line, first, at, len));
    }
    if is_library(line, second, at, len) {
        assert(is_marked(line, second, at, len));
    }
    let a = paths::through(line, at, end, first) as int;
    let b = paths::through(line, at, end, second) as int;
    if a != 0 {
        assert(is_library(line, first, at, a));
    }
    if b != 0 {
        assert(is_library(line, second, at, b));
    }
    if paths::commit_len(line, at) != 0 {
        assert(is_commit(line, at, paths::commit_len(line, at) as int));
    }
}

/// What can be replaced at `at`, `len` long, by `shown`.
pub open spec fn can_be_replaced(
    line: Seq<char>,
    table: Replacements,
    at: int,
    len: int,
    shown: Seq<char>,
) -> bool {
    ||| exists|i: int|
        0 <= i < table.known.len() && is_known_place(line, (#[trigger] table.known[i]).prefix, at)
            && len == table.known[i].prefix.len() && shown == table.known[i].shown
    ||| (table.registry matches Some(registry) && is_index(line, registry, at, len)) && shown
        == "$CARGO_REGISTRY"@
    ||| is_rust(line, at, len) && shown == "$RUST"@
}

proof fn lemma_known_at(line: Seq<char>, prefix: Seq<char>, at: int)
    requires
        0 <= at,
    ensures
        paths::known_at(line, prefix, at) == is_known_place(line, prefix, at),
{
    lemma_occurs(line, prefix, at);
    law_how_far_a_path_goes(line, at, at + prefix.len());
}

/// Where a path begins, what is replaced is the longest of all that can be. Of
/// known places that are as long it is the first, and a known place goes before an
/// index of the registry, and that before the toolchain. Where no path begins,
/// nothing is.
#[verifier::rlimit(40)]
pub proof fn law_the_longest_that_can_be_is_replaced(
    line: Seq<char>,
    table: Replacements,
    at: int,
    len: int,
    shown: Seq<char>,
)
    requires
        0 <= at <= line.len(),
    ensures
        ({
            let found = paths::path_at(line, table, at);
            &&& !can_begin(line, at) ==> found.len == 0
            &&& found.len != 0 ==> can_be_replaced(line, table, at, found.len as int, found.shown)
            &&& can_begin(line, at) && can_be_replaced(line, table, at, len, shown) ==> len
                <= found.len
            &&& can_begin(line, at) ==> forall|i: int|
                0 <= i < table.known.len() && is_known_place(
                    line,
                    (#[trigger] table.known[i]).prefix,
                    at,
                ) && table.known[i].prefix.len() == found.len && (forall|k: int|
                    0 <= k < i && is_known_place(line, (#[trigger] table.known[k]).prefix, at)
                        ==> table.known[k].prefix.len() < found.len) ==> found.shown
                    == table.known[i].shown
            &&& can_begin(line, at) && (forall|i: int|
                0 <= i < table.known.len() && is_known_place(
                    line,
                    (#[trigger] table.known[i]).prefix,
                    at,
                ) ==> table.known[i].prefix.len() < found.len) && (table.registry matches Some(
                registry,
            ) && is_index(line, registry, at, found.len as int)) ==> found.shown
                == "$CARGO_REGISTRY"@
        }),
{
    law_how_far_a_path_goes(line, at, at);
    lemma_longest(line, table, at, table.known.len() as int);
    assert(table.known.take(table.known.len() as int) =~= table.known);
    law_how_much_of_a_path_is_the_toolchains(line, at, len);
    if let Some(registry) = table.registry {
        law_how_much_of_a_path_is_an_index(line, registry, at, len);
        law_how_much_of_a_path_is_an_index(
            line,
            registry,
            at,
            paths::path_at(line, table, at).len as int,
        );
    }
}

proof fn lemma_longest(line: Seq<char>, table: Replacements, at: int, to: int)
    requires
        0 <= at,
        0 <= to <= table.known.len(),
    ensures
        ({
            let found = paths::longest(line, table.known.take(to), at);
            &&& found.len != 0 ==> exists|i: int|
                0 <= i < to && is_known_place(line, (#[trigger] table.known[i]).prefix, at)
                    && found.len == table.known[i].prefix.len() && found.shown
                    == table.known[i].shown && (forall|k: int|
                    0 <= k < i && is_known_place(line, (#[trigger] table.known[k]).prefix, at)
                        ==> table.known[k].prefix.len() < found.len)
            &&& forall|i: int|
                0 <= i < to && is_known_place(line, (#[trigger] table.known[i]).prefix, at)
                    ==> table.known[i].prefix.len() <= found.len
        }),
    decreases to,
{
    if to > 0 {
        lemma_longest(line, table, at, to - 1);
        let last = table.known[to - 1];
        lemma_known_at(line, last.prefix, at);
        assert(table.known.take(to).drop_last() =~= table.known.take(to - 1));
        assert(table.known.take(to).last() == last);
    }
}

// ---------------------------------------------------------------------------
// Writing.
// ---------------------------------------------------------------------------

/// The name of the crate stands at `at`, and no longer name that it is part of.
pub open spec fn is_crate_name(line: Seq<char>, bin: Seq<char>, at: int) -> bool {
    &&& bin.len() != 0
    &&& stands_at(line, bin, at)
    &&& at > 0 ==> !is_in_names(line[at - 1])
    &&& at + bin.len() < line.len() ==> !is_in_names(line[at + bin.len()])
}

/// The name of the crate a fixture is compiled as is replaced wherever it stands and
/// no path does, and a path is where one does.
pub proof fn law_a_path_or_the_crates_name_is_replaced(
    line: Seq<char>,
    table: Replacements,
    at: int,
)
    requires
        0 <= at <= line.len(),
    ensures
        paths::path_at(line, table, at).len != 0 ==> paths::match_at(line, table, at)
            == paths::path_at(line, table, at),
        paths::path_at(line, table, at).len == 0 && is_crate_name(line, table.bin, at)
            ==> paths::match_at(line, table, at) == (Match {
            len: table.bin.len(),
            shown: "$CRATE"@,
        }),
        paths::path_at(line, table, at).len == 0 && !is_crate_name(line, table.bin, at)
            ==> paths::match_at(line, table, at).len == 0,
{
    lemma_occurs(line, table.bin, at);
    lemma_chars(line[at - 1]);
    lemma_chars(line[at + table.bin.len()]);
}

/// A line is written from left to right. Where something is replaced, what stands
/// for it is written, and writing goes on behind it. Elsewhere a character is
/// written as it is, or, as long as the path behind the last placeholder goes on,
/// with a separator made a `/` where both are used.
#[verifier::rlimit(40)]
pub proof fn law_everything_replaced_is_written_in_its_place(
    line: Seq<char>,
    table: Replacements,
    at: int,
    from: Option<int>,
)
    requires
        0 <= at < line.len(),
    ensures
        ({
            let read = Seq::new(
                line.len(),
                |i: int|
                    if table.fold && line[i] == '\\' {
                        '/'
                    } else {
                        line[i]
                    },
            );
            let inside = match from {
                Some(from) => Some(paths::reach_of(read, from)),
                None => None,
            };
            let found = paths::match_at(read, table, at);
            let goes_on = from is Some && carries_path(read, from->0, at);
            &&& paths::folded(line, table.fold) == read
            &&& paths::rewritten(line, table) == paths::rewritten_from(line, table, 0, None)
            &&& paths::rewritten_from(line, table, at, inside) == if found.len != 0 && at
                + found.len <= line.len() {
                found.shown + paths::rewritten_from(
                    line,
                    table,
                    at + found.len,
                    Some(paths::reach_of(read, at)),
                )
            } else if goes_on {
                seq![read[at]] + paths::rewritten_from(line, table, at + 1, inside)
            } else {
                seq![line[at]] + paths::rewritten_from(line, table, at + 1, None)
            }
            &&& paths::rewritten_from(line, table, line.len() as int, inside) == Seq::<
                char,
            >::empty()
        }),
{
    let read = Seq::new(
        line.len(),
        |i: int|
            if table.fold && line[i] == '\\' {
                '/'
            } else {
                line[i]
            },
    );
    assert(paths::folded(line, table.fold) =~= read);
    if let Some(from) = from {
        law_how_far_a_path_goes(read, from, at);
    }
}

} // verus!
