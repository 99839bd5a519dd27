//! What holds of how two texts are shown to differ.

use vstd::prelude::*;

use crate::diff;
use crate::text;

verus! {

/// What is removed and what is added turn one text into the other: both begin and
/// end with the same lines, and between those stand exactly the lines shown.
pub proof fn law_the_difference_turns_one_into_the_other(a: Seq<Seq<char>>, b: Seq<Seq<char>>)
    ensures
        ({
            let start = diff::common_start(a, b) as int;
            let tail = diff::common_tail(a, b) as int;
            let before = a.take(start);
            let after = a.skip(a.len() - tail);
            &&& a == before + diff::removed(a, b) + after
            &&& b == before + diff::added(a, b) + after
        }),
{
    let start = diff::common_start(a, b) as int;
    let tail = diff::common_tail(a, b) as int;
    diff::lemma_common_start(a, b);
    diff::lemma_common_end(a.skip(start), b.skip(start));
    diff::lemma_common_parts(a, b);
    assert(a.skip(start).skip(a.len() - start - tail) =~= a.skip(a.len() - tail));
    assert(b.skip(start).skip(b.len() - start - tail) =~= b.skip(b.len() - tail));
    assert(a =~= a.take(start) + diff::removed(a, b) + a.skip(a.len() - tail));
    assert(b =~= b.take(start) + diff::added(a, b) + b.skip(b.len() - tail));
}

/// Nothing is removed and nothing added exactly where every line is the same.
pub proof fn law_only_a_difference_is_shown(a: Seq<Seq<char>>, b: Seq<Seq<char>>)
    ensures
        diff::removed(a, b).len() == 0 && diff::added(a, b).len() == 0 <==> a == b,
{
    law_the_difference_turns_one_into_the_other(a, b);
    diff::lemma_common_start(a, b);
    diff::lemma_common_parts(a, b);
    if diff::removed(a, b).len() == 0 && diff::added(a, b).len() == 0 {
        assert(diff::removed(a, b) =~= diff::added(a, b));
    }
    if a == b {
        lemma_all_in_common(a);
    }
}

proof fn lemma_all_in_common(a: Seq<Seq<char>>)
    ensures
        diff::common_start(a, a) == a.len(),
    decreases a.len(),
{
    if a.len() != 0 {
        lemma_all_in_common(a.skip(1));
    }
}

/// What is shown holds no line both texts could still share at its beginning: the
/// first line removed is not the first line added.
pub proof fn law_the_difference_begins_where_the_texts_part(a: Seq<Seq<char>>, b: Seq<Seq<char>>)
    ensures
        diff::removed(a, b).len() != 0 && diff::added(a, b).len() != 0 ==> diff::removed(a, b)[0]
            != diff::added(a, b)[0],
{
    diff::lemma_common_start(a, b);
    diff::lemma_common_parts(a, b);
}

/// The line a mismatch is reported at is the first at which the two texts are not
/// the same: every line before it is common to both, and at it they differ or one
/// of them has ended. None is reported exactly where every line is the same.
pub proof fn law_the_first_difference_is_the_first(expected: Seq<char>, actual: Seq<char>)
    ensures
        match diff::first_line_apart(expected, actual) {
            Some(line) => {
                let a = text::lines(expected);
                let b = text::lines(actual);
                &&& 1 <= line
                &&& line - 1 <= a.len()
                &&& line - 1 <= b.len()
                &&& a.take(line - 1) == b.take(line - 1)
                &&& line > a.len() || line > b.len() || a[line - 1] != b[line - 1]
                &&& line <= a.len() || line <= b.len()
            },
            None => text::lines(expected) == text::lines(actual),
        },
{
    let a = text::lines(expected);
    let b = text::lines(actual);
    diff::lemma_common_start(a, b);
    if diff::common_start(a, b) == a.len() && diff::common_start(a, b) == b.len() {
        assert(a.take(a.len() as int) =~= a);
        assert(b.take(b.len() as int) =~= b);
    }
}

} // verus!
