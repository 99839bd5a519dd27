//! Showing how two texts differ.
//!
//! One hunk is enough for a golden: what the two texts begin and end with in
//! common is cut away, and what is left between is shown as removed and added,
//! with a few lines of what surrounds it.

use vstd::prelude::*;

use crate::text;
use crate::text::{chars_of, decimal_of, extend, extend_str, lines_of, same, string_of};

verus! {

/// How many common lines are shown on either side of the difference.
pub const CONTEXT: usize = 3;

/// How many lines `a` and `b` begin with in common.
pub open spec fn common_start(a: Seq<Seq<char>>, b: Seq<Seq<char>>) -> nat
    decreases a.len(),
{
    if a.len() != 0 && b.len() != 0 && a[0] == b[0] {
        1 + common_start(a.skip(1), b.skip(1))
    } else {
        0
    }
}

/// How many lines `a` and `b` end with in common.
pub open spec fn common_end(a: Seq<Seq<char>>, b: Seq<Seq<char>>) -> nat
    decreases a.len(),
{
    if a.len() != 0 && b.len() != 0 && a.last() == b.last() {
        1 + common_end(a.drop_last(), b.drop_last())
    } else {
        0
    }
}

/// How many lines `a` and `b` end with in common, past what they begin with in
/// common.
pub open spec fn common_tail(a: Seq<Seq<char>>, b: Seq<Seq<char>>) -> nat {
    let start = common_start(a, b) as int;
    common_end(a.skip(start), b.skip(start))
}

/// The lines of `a` that `b` does not share.
pub open spec fn removed(a: Seq<Seq<char>>, b: Seq<Seq<char>>) -> Seq<Seq<char>> {
    a.subrange(common_start(a, b) as int, a.len() - common_tail(a, b))
}

/// The lines of `b` that `a` does not share.
pub open spec fn added(a: Seq<Seq<char>>, b: Seq<Seq<char>>) -> Seq<Seq<char>> {
    b.subrange(common_start(a, b) as int, b.len() - common_tail(a, b))
}

/// The smaller of two numbers.
pub open spec fn smaller(a: nat, b: nat) -> nat {
    if a < b {
        a
    } else {
        b
    }
}

/// How many lines are shown before the difference.
pub open spec fn lead(a: Seq<Seq<char>>, b: Seq<Seq<char>>) -> nat {
    smaller(common_start(a, b), CONTEXT as nat)
}

/// How many lines are shown after the difference.
pub open spec fn trail(a: Seq<Seq<char>>, b: Seq<Seq<char>>) -> nat {
    smaller(common_tail(a, b), CONTEXT as nat)
}

/// `lines`, each behind `mark` and ended by a `\n`.
pub open spec fn marked(mark: char, lines: Seq<Seq<char>>) -> Seq<char>
    decreases lines.len(),
{
    if lines.len() == 0 {
        seq![]
    } else {
        marked(mark, lines.drop_last()) + (seq![mark] + lines.last()).push('\n')
    }
}

/// Where a hunk stands in one of the two texts: its first line, counted from
/// one, and how many lines it takes there. A hunk that takes none stands at the
/// line before it.
pub open spec fn range(first: nat, count: nat) -> Seq<char> {
    text::decimal(
        if count == 0 {
            first
        } else {
            first + 1
        },
    ) + ","@ + text::decimal(count)
}

/// The hunk that turns `a` into `b`.
pub open spec fn hunk(a: Seq<Seq<char>>, b: Seq<Seq<char>>) -> Seq<char> {
    let start = common_start(a, b);
    let first = (start - lead(a, b)) as nat;
    let around = lead(a, b) + trail(a, b);
    let end = a.len() - common_tail(a, b);
    "@@ -"@ + range(first, removed(a, b).len() + around) + " +"@ + range(
        first,
        added(a, b).len() + around,
    ) + " @@\n"@ + marked(' ', a.subrange(first as int, start as int)) + marked('-', removed(a, b))
        + marked('+', added(a, b)) + marked(' ', a.subrange(end, end + trail(a, b)))
}

/// What [`unified`] shows.
pub open spec fn difference(
    expected: Seq<char>,
    actual: Seq<char>,
    left: Seq<char>,
    right: Seq<char>,
) -> Seq<char> {
    let a = text::lines(expected);
    let b = text::lines(actual);
    let heading = "--- "@ + left + "\n+++ "@ + right + "\n"@;
    if a == b {
        heading
    } else {
        heading + hunk(a, b)
    }
}

/// The first line, counted from one, at which the two texts differ.
pub open spec fn first_line_apart(expected: Seq<char>, actual: Seq<char>) -> Option<nat> {
    let a = text::lines(expected);
    let b = text::lines(actual);
    if a == b {
        None
    } else {
        Some(common_start(a, b) + 1)
    }
}

/// What [`common_start`] counts is common, and what follows it is not.
pub proof fn lemma_common_start(a: Seq<Seq<char>>, b: Seq<Seq<char>>)
    ensures
        common_start(a, b) <= a.len(),
        common_start(a, b) <= b.len(),
        a.take(common_start(a, b) as int) == b.take(common_start(a, b) as int),
        common_start(a, b) < a.len() && common_start(a, b) < b.len() ==> a[common_start(
            a,
            b,
        ) as int] != b[common_start(a, b) as int],
    decreases a.len(),
{
    if a.len() != 0 && b.len() != 0 && a[0] == b[0] {
        let n = common_start(a, b) as int;
        lemma_common_start(a.skip(1), b.skip(1));
        assert(a.take(n) =~= seq![a[0]] + a.skip(1).take(n - 1));
        assert(b.take(n) =~= seq![b[0]] + b.skip(1).take(n - 1));
    } else {
        assert(a.take(0) =~= b.take(0));
    }
}

pub(crate) proof fn lemma_common_start_is(a: Seq<Seq<char>>, b: Seq<Seq<char>>, n: int)
    requires
        0 <= n <= a.len(),
        n <= b.len(),
        forall|i: int| 0 <= i < n ==> a[i] == b[i],
        n < a.len() && n < b.len() ==> a[n] != b[n],
    ensures
        common_start(a, b) == n,
    decreases a.len(),
{
    if n > 0 {
        assert(a[0] == b[0]);
        lemma_common_start_is(a.skip(1), b.skip(1), n - 1);
    }
}

/// What [`common_end`] counts is common.
pub proof fn lemma_common_end(a: Seq<Seq<char>>, b: Seq<Seq<char>>)
    ensures
        common_end(a, b) <= a.len(),
        common_end(a, b) <= b.len(),
        a.skip(a.len() - common_end(a, b)) == b.skip(b.len() - common_end(a, b)),
    decreases a.len(),
{
    let n = common_end(a, b) as int;
    if a.len() != 0 && b.len() != 0 && a.last() == b.last() {
        lemma_common_end(a.drop_last(), b.drop_last());
        assert(a.skip(a.len() - n) =~= a.drop_last().skip(a.len() - n).push(a.last()));
        assert(b.skip(b.len() - n) =~= b.drop_last().skip(b.len() - n).push(b.last()));
    } else {
        assert(a.skip(a.len() as int) =~= b.skip(b.len() as int));
    }
}

pub(crate) proof fn lemma_common_end_is(a: Seq<Seq<char>>, b: Seq<Seq<char>>, n: int)
    requires
        0 <= n <= a.len(),
        n <= b.len(),
        forall|i: int| 1 <= i <= n ==> #[trigger] a[a.len() - i] == b[b.len() - i],
        n < a.len() && n < b.len() ==> a[a.len() - n - 1] != b[b.len() - n - 1],
    ensures
        common_end(a, b) == n,
    decreases a.len(),
{
    if n > 0 {
        assert(a[a.len() - 1] == b[b.len() - 1]);
        let c = a.drop_last();
        let d = b.drop_last();
        assert forall|i: int| 1 <= i <= n - 1 implies #[trigger] c[c.len() - i] == d[d.len()
            - i] by {
            assert(a[a.len() - (i + 1)] == b[b.len() - (i + 1)]);
        }
        lemma_common_end_is(c, d, n - 1);
    } else if a.len() != 0 && b.len() != 0 {
        assert(a.last() != b.last());
    }
}

/// The common start and tail of two texts do not overlap in either.
pub proof fn lemma_common_parts(a: Seq<Seq<char>>, b: Seq<Seq<char>>)
    ensures
        common_start(a, b) + common_tail(a, b) <= a.len(),
        common_start(a, b) + common_tail(a, b) <= b.len(),
{
    lemma_common_start(a, b);
    let start = common_start(a, b) as int;
    lemma_common_end(a.skip(start), b.skip(start));
}

/// How many lines two texts begin with in common, and whether they are the same.
fn count_start(a: &Vec<Vec<char>>, b: &Vec<Vec<char>>) -> (n: usize)
    ensures
        n == common_start(text::views(a@), text::views(b@)),
        n <= a.len(),
        n <= b.len(),
{
    let ghost left = text::views(a@);
    let ghost right = text::views(b@);
    let mut n: usize = 0;
    while n < a.len() && n < b.len() && same(&a[n], &b[n])
        invariant
            left == text::views(a@),
            right == text::views(b@),
            n <= a.len(),
            n <= b.len(),
            forall|i: int| 0 <= i < n ==> left[i] == right[i],
        decreases a.len() - n,
    {
        n += 1;
    }
    proof {
        lemma_common_start_is(left, right, n as int);
    }
    n
}

/// How many lines two texts end with in common past their first `start` lines.
fn count_tail(a: &Vec<Vec<char>>, b: &Vec<Vec<char>>, start: usize) -> (n: usize)
    requires
        start <= a.len(),
        start <= b.len(),
    ensures
        n == common_end(
            text::views(a@).skip(start as int),
            text::views(b@).skip(start as int),
        ),
        start + n <= a.len(),
        start + n <= b.len(),
{
    let ghost left = text::views(a@).skip(start as int);
    let ghost right = text::views(b@).skip(start as int);
    let mut n: usize = 0;
    while n < a.len() - start && n < b.len() - start && same(
        &a[a.len() - n - 1],
        &b[b.len() - n - 1],
    )
        invariant
            left == text::views(a@).skip(start as int),
            right == text::views(b@).skip(start as int),
            start + n <= a.len(),
            start + n <= b.len(),
            forall|i: int|
                1 <= i <= n ==> #[trigger] left[left.len() - i] == right[right.len() - i],
        decreases a.len() - n,
    {
        assert(left[left.len() - (n + 1)] == a@[a@.len() - n - 1]@);
        assert(right[right.len() - (n + 1)] == b@[b@.len() - n - 1]@);
        n += 1;
    }
    proof {
        if n < left.len() && n < right.len() {
            assert(left[left.len() - n - 1] == a@[a@.len() - n - 1]@);
            assert(right[right.len() - n - 1] == b@[b@.len() - n - 1]@);
        }
        lemma_common_end_is(left, right, n as int);
    }
    n
}

/// Two texts are the same lines exactly where nothing is left of either past
/// what they begin with in common.
proof fn lemma_same_lines(a: Seq<Seq<char>>, b: Seq<Seq<char>>)
    ensures
        a == b <==> common_start(a, b) == a.len() && common_start(a, b) == b.len(),
{
    lemma_common_start(a, b);
    if common_start(a, b) == a.len() && common_start(a, b) == b.len() {
        assert(a.take(a.len() as int) =~= a);
        assert(b.take(b.len() as int) =~= b);
    }
}

/// Whether two texts are the same line for line.
pub fn same_lines(expected: &str, actual: &str) -> (yes: bool)
    ensures
        yes == (text::lines(expected@) == text::lines(actual@)),
{
    let a = lines_of(&chars_of(expected));
    let b = lines_of(&chars_of(actual));
    let n = count_start(&a, &b);
    proof {
        lemma_same_lines(text::views(a@), text::views(b@));
    }
    n == a.len() && n == b.len()
}

/// The first line, counted from one, at which the two texts differ.
///
/// A text that ends early differs at the line after its last. `None` where every
/// line is the same.
pub fn first_difference(expected: &str, actual: &str) -> (line: Option<usize>)
    ensures
        match line {
            Some(line) => first_line_apart(expected@, actual@) == Some(line as nat),
            None => first_line_apart(expected@, actual@) is None,
        },
{
    let a = lines_of(&chars_of(expected));
    let b = lines_of(&chars_of(actual));
    let n = count_start(&a, &b);
    proof {
        lemma_same_lines(text::views(a@), text::views(b@));
    }
    if n == a.len() && n == b.len() {
        None
    } else {
        Some(n + 1)
    }
}

/// Append the lines of `all` from `from` up to `to`, each behind `mark`.
fn mark_lines(out: &mut Vec<char>, mark: char, all: &Vec<Vec<char>>, from: usize, to: usize)
    requires
        from <= to <= all.len(),
    ensures
        final(out)@ == old(out)@ + marked(
            mark,
            text::views(all@).subrange(from as int, to as int),
        ),
{
    let ghost view = text::views(all@);
    let ghost start = out@;
    assert(start + marked(mark, view.subrange(from as int, from as int)) =~= start);
    for i in from..to
        invariant
            from <= to <= all.len(),
            view == text::views(all@),
            out@ == start + marked(mark, view.subrange(from as int, i as int)),
    {
        let ghost before = out@;
        let ghost shown = view.subrange(from as int, i + 1);
        assert(shown.drop_last() =~= view.subrange(from as int, i as int));
        assert(shown.last() == all@[i as int]@);
        out.push(mark);
        extend(out, &all[i]);
        out.push('\n');
        assert(out@ =~= before + (seq![mark] + shown.last()).push('\n'));
        assert(out@ =~= start + marked(mark, shown));
    }
}

/// Append where a hunk stands.
fn put_range(out: &mut Vec<char>, first: usize, count: usize)
    requires
        first < usize::MAX,
    ensures
        final(out)@ == old(out)@ + range(first as nat, count as nat),
{
    let ghost before = out@;
    let shown: usize = if count == 0 {
        first
    } else {
        first + 1
    };
    extend_str(out, decimal_of(shown).as_str());
    extend_str(out, ",");
    extend_str(out, decimal_of(count).as_str());
    assert(out@ =~= before + range(first as nat, count as nat));
}

/// The smaller of two numbers.
fn least(a: usize, b: usize) -> (n: usize)
    ensures
        n == smaller(a as nat, b as nat),
{
    if a < b {
        a
    } else {
        b
    }
}

/// The difference between two texts, as one hunk under a heading that names
/// them. Only the heading where every line is the same.
pub fn unified(expected: &str, actual: &str, left: &str, right: &str) -> (shown: String)
    ensures
        shown@ == difference(expected@, actual@, left@, right@),
{
    let a = lines_of(&chars_of(expected));
    let b = lines_of(&chars_of(actual));
    let ghost x = text::views(a@);
    let ghost y = text::views(b@);
    let mut out: Vec<char> = chars_of("--- ");
    extend_str(&mut out, left);
    extend_str(&mut out, "\n+++ ");
    extend_str(&mut out, right);
    extend_str(&mut out, "\n");
    let ghost heading = out@;
    assert(heading == "--- "@ + left@ + "\n+++ "@ + right@ + "\n"@);
    let start = count_start(&a, &b);
    proof {
        lemma_same_lines(x, y);
    }
    if start == a.len() && start == b.len() {
        return string_of(&out);
    }
    let tail = count_tail(&a, &b, start);
    let before = least(start, CONTEXT);
    let after = least(tail, CONTEXT);
    let first = start - before;
    let end_a = a.len() - tail;
    let end_b = b.len() - tail;
    let mut shown: Vec<char> = chars_of("@@ -");
    put_range(&mut shown, first, end_a + after - first);
    extend_str(&mut shown, " +");
    put_range(&mut shown, first, end_b + after - first);
    extend_str(&mut shown, " @@\n");
    mark_lines(&mut shown, ' ', &a, first, start);
    mark_lines(&mut shown, '-', &a, start, end_a);
    mark_lines(&mut shown, '+', &b, start, end_b);
    mark_lines(&mut shown, ' ', &a, end_a, end_a + after);
    assert(shown@ == hunk(x, y));
    extend(&mut out, &shown);
    string_of(&out)
}

} // verus!
