//! Text as a sequence of characters.
//!
//! The library reasons about text one character at a time. `String` and `&str`
//! stand at its edges; inside, a text is a `Vec<char>`, and what is proved of it
//! is stated over `Seq<char>`.

use vstd::prelude::*;

verus! {

/// `String::push` appends one character to the end of the string and changes
/// nothing else.
pub assume_specification[ std::string::String::push ](s: &mut std::string::String, c: char)
    ensures
        final(s)@ == old(s)@.push(c),
;

// ---------------------------------------------------------------------------
// Between strings and characters.
// ---------------------------------------------------------------------------

/// The characters of `text`.
pub fn chars_of(text: &str) -> (chars: Vec<char>)
    ensures
        chars@ == text@,
{
    let mut chars: Vec<char> = Vec::new();
    for c in it: text.chars()
        invariant
            it.seq() == text@,
            chars@ == text@.take(it.index() as int),
    {
        chars.push(c);
    }
    chars
}

/// The string made of `chars`.
pub fn string_of(chars: &Vec<char>) -> (text: String)
    ensures
        text@ == chars@,
{
    let mut text = String::new();
    for i in 0..chars.len()
        invariant
            text@ == chars@.take(i as int),
    {
        text.push(chars[i]);
    }
    text
}

/// A copy of `text`.
pub fn copy_of(text: &str) -> (copy: String)
    ensures
        copy@ == text@,
{
    text.to_owned()
}

/// Append `more` to `chars`.
pub fn extend(chars: &mut Vec<char>, more: &Vec<char>)
    ensures
        final(chars)@ == old(chars)@ + more@,
{
    for i in 0..more.len()
        invariant
            chars@ == old(chars)@ + more@.take(i as int),
    {
        chars.push(more[i]);
    }
}

/// Append the characters of `more` to `chars`.
pub fn extend_str(chars: &mut Vec<char>, more: &str)
    ensures
        final(chars)@ == old(chars)@ + more@,
{
    for c in it: more.chars()
        invariant
            it.seq() == more@,
            chars@ == old(chars)@ + more@.take(it.index() as int),
    {
        chars.push(c);
    }
}

/// The characters of `chars` from `from` up to, not including, `to`.
pub fn slice(chars: &Vec<char>, from: usize, to: usize) -> (part: Vec<char>)
    requires
        from <= to <= chars@.len(),
    ensures
        part@ == chars@.subrange(from as int, to as int),
{
    let mut part: Vec<char> = Vec::new();
    for i in from..to
        invariant
            to <= chars@.len(),
            part@ == chars@.subrange(from as int, i as int),
    {
        part.push(chars[i]);
    }
    part
}

/// Whether two texts are the same.
pub fn same(a: &Vec<char>, b: &Vec<char>) -> (equal: bool)
    ensures
        equal == (a@ == b@),
{
    if a.len() != b.len() {
        return false;
    }
    for i in 0..a.len()
        invariant
            a@.len() == b@.len(),
            a@.take(i as int) == b@.take(i as int),
    {
        if a[i] != b[i] {
            assert(a@[i as int] != b@[i as int]);
            return false;
        }
        assert(a@.take(i + 1) =~= a@.take(i as int).push(a@[i as int]));
        assert(b@.take(i + 1) =~= b@.take(i as int).push(b@[i as int]));
    }
    assert(a@.take(a@.len() as int) =~= a@);
    assert(b@.take(b@.len() as int) =~= b@);
    true
}

/// Whether two strings are the same.
pub fn same_str(a: &str, b: &str) -> (equal: bool)
    ensures
        equal == (a@ == b@),
{
    same(&chars_of(a), &chars_of(b))
}

// ---------------------------------------------------------------------------
// Prefixes and positions.
// ---------------------------------------------------------------------------

/// `text` begins with `prefix`.
pub open spec fn starts_with(text: Seq<char>, prefix: Seq<char>) -> bool {
    prefix.len() <= text.len() && text.take(prefix.len() as int) == prefix
}

/// `part` occurs in `text` at `at`.
pub open spec fn occurs_at(text: Seq<char>, part: Seq<char>, at: int) -> bool {
    0 <= at && at + part.len() <= text.len() && text.subrange(at, at + part.len()) == part
}

/// `part` occurs somewhere in `text`.
pub open spec fn contains(text: Seq<char>, part: Seq<char>) -> bool {
    exists|at: int| occurs_at(text, part, at)
}

/// Where `c` first occurs in `text`, or the length of `text` if it does not.
pub open spec fn position(text: Seq<char>, c: char) -> nat
    decreases text.len(),
{
    if text.len() == 0 || text[0] == c {
        0
    } else {
        1 + position(text.skip(1), c)
    }
}

/// [`position`] is the first place `c` stands at, if it stands anywhere.
pub proof fn lemma_position(text: Seq<char>, c: char)
    ensures
        position(text, c) <= text.len(),
        position(text, c) < text.len() ==> text[position(text, c) as int] == c,
        forall|i: int| 0 <= i < position(text, c) ==> text[i] != c,
    decreases text.len(),
{
    if text.len() != 0 && text[0] != c {
        lemma_position(text.skip(1), c);
        assert forall|i: int| 0 <= i < position(text, c) implies text[i] != c by {
            if i > 0 {
                assert(text[i] == text.skip(1)[i - 1]);
            }
        }
    }
}

/// The first place `c` stands at is [`position`].
pub proof fn lemma_position_is(text: Seq<char>, c: char, at: int)
    requires
        0 <= at <= text.len(),
        at < text.len() ==> text[at] == c,
        forall|i: int| 0 <= i < at ==> text[i] != c,
    ensures
        position(text, c) == at,
{
    lemma_position(text, c);
}

/// Where `c` first occurs in `chars`, or the length of `chars` if it does not.
pub fn find_char(chars: &Vec<char>, c: char) -> (at: usize)
    ensures
        at == position(chars@, c),
        at <= chars@.len(),
{
    let mut at: usize = 0;
    while at < chars.len() && chars[at] != c
        invariant
            at <= chars@.len(),
            forall|i: int| 0 <= i < at ==> chars@[i] != c,
        decreases chars@.len() - at,
    {
        at += 1;
    }
    proof {
        lemma_position_is(chars@, c, at as int);
    }
    at
}

/// Whether `part` stands in `chars` at `at`.
pub fn stands_at(chars: &Vec<char>, part: &Vec<char>, at: usize) -> (yes: bool)
    ensures
        yes == occurs_at(chars@, part@, at as int),
{
    if at > chars.len() || chars.len() - at < part.len() {
        return false;
    }
    for i in 0..part.len()
        invariant
            at + part@.len() <= chars.len(),
            forall|k: int| 0 <= k < i ==> chars@[at + k] == part@[k],
    {
        if chars[at + i] != part[i] {
            assert(chars@.subrange(at as int, at + part@.len())[i as int] != part@[i as int]);
            return false;
        }
    }
    assert(chars@.subrange(at as int, at + part@.len()) =~= part@);
    true
}

/// Whether `chars` begins with `prefix`.
pub fn begins_with(chars: &Vec<char>, prefix: &Vec<char>) -> (yes: bool)
    ensures
        yes == starts_with(chars@, prefix@),
{
    assert(prefix@.len() <= chars@.len() ==> chars@.subrange(0, prefix@.len() as int)
        == chars@.take(prefix@.len() as int));
    stands_at(chars, prefix, 0)
}

/// Whether `chars` begins with the characters of `prefix`.
pub fn begins_with_str(chars: &Vec<char>, prefix: &str) -> (yes: bool)
    ensures
        yes == starts_with(chars@, prefix@),
{
    begins_with(chars, &chars_of(prefix))
}

/// The first place at or after `from` where `part` occurs in `chars`.
pub fn find(chars: &Vec<char>, part: &Vec<char>, from: usize) -> (at: Option<usize>)
    ensures
        match at {
            Some(at) => {
                &&& from <= at
                &&& occurs_at(chars@, part@, at as int)
                &&& forall|k: int| from <= k < at ==> !occurs_at(chars@, part@, k)
            },
            None => forall|k: int| from <= k ==> !occurs_at(chars@, part@, k),
        },
{
    if chars.len() < part.len() {
        return None;
    }
    let last: usize = chars.len() - part.len();
    let mut at: usize = from;
    while at <= last
        invariant
            from <= at,
            last + part@.len() == chars@.len(),
            forall|k: int| from <= k < at ==> !occurs_at(chars@, part@, k),
        decreases last + 1 - at,
    {
        if stands_at(chars, part, at) {
            return Some(at);
        }
        if at == last {
            return None;
        }
        at += 1;
    }
    None
}

/// Whether `part` occurs in `text`.
pub fn holds(text: &str, part: &str) -> (yes: bool)
    ensures
        yes == contains(text@, part@),
{
    let chars = chars_of(text);
    let part_chars = chars_of(part);
    match find(&chars, &part_chars, 0) {
        Some(at) => {
            assert(occurs_at(text@, part@, at as int));
            true
        },
        None => {
            assert forall|at: int| !occurs_at(text@, part@, at) by {
                if 0 <= at {
                    assert(!occurs_at(chars@, part_chars@, at));
                }
            }
            false
        },
    }
}

/// Where `part` first occurs in `text` at or after `from`.
pub open spec fn found_from(text: Seq<char>, part: Seq<char>, from: int) -> Option<int>
    decreases text.len() + 1 - from,
{
    if from + part.len() > text.len() {
        None
    } else if occurs_at(text, part, from) {
        Some(from)
    } else {
        found_from(text, part, from + 1)
    }
}

/// [`found_from`] is the first place at or after `from` where `part` occurs.
pub proof fn lemma_found_is(text: Seq<char>, part: Seq<char>, from: int, at: Option<int>)
    requires
        0 <= from,
        match at {
            Some(at) => {
                &&& from <= at
                &&& occurs_at(text, part, at)
                &&& forall|k: int| from <= k < at ==> !occurs_at(text, part, k)
            },
            None => forall|k: int| from <= k ==> !occurs_at(text, part, k),
        },
    ensures
        found_from(text, part, from) == at,
    decreases text.len() + 1 - from,
{
    if from + part.len() <= text.len() && !occurs_at(text, part, from) {
        lemma_found_is(text, part, from + 1, at);
    }
}

/// `a` comes before `b`, character by character.
pub open spec fn text_before(a: Seq<char>, b: Seq<char>) -> bool
    decreases a.len(),
{
    if b.len() == 0 {
        false
    } else if a.len() == 0 {
        true
    } else if a[0] != b[0] {
        a[0] < b[0]
    } else {
        text_before(a.skip(1), b.skip(1))
    }
}

/// Whether `a` comes before `b`, character by character.
pub fn precedes(a: &Vec<char>, b: &Vec<char>) -> (yes: bool)
    ensures
        yes == text_before(a@, b@),
{
    let mut i: usize = 0;
    proof {
        assert(a@.skip(0) =~= a@);
        assert(b@.skip(0) =~= b@);
    }
    while i < a.len() && i < b.len()
        invariant
            i <= a@.len(),
            i <= b@.len(),
            text_before(a@, b@) == text_before(a@.skip(i as int), b@.skip(i as int)),
        decreases a@.len() - i,
    {
        assert(a@.skip(i as int).skip(1) =~= a@.skip(i + 1));
        assert(b@.skip(i as int).skip(1) =~= b@.skip(i + 1));
        if a[i] != b[i] {
            return a[i] < b[i];
        }
        i += 1;
    }
    i < b.len()
}

/// Whether `all` holds `text`.
pub fn holds_text(all: &Vec<String>, text: &str) -> (yes: bool)
    ensures
        yes == strings(all@).contains(text@),
{
    for i in 0..all.len()
        invariant
            forall|k: int| 0 <= k < i ==> strings(all@)[k] != text@,
    {
        if same_str(all[i].as_str(), text) {
            assert(strings(all@)[i as int] == text@);
            return true;
        }
    }
    false
}

/// A copy of `all`.
pub fn copy_texts(all: &Vec<String>) -> (copy: Vec<String>)
    ensures
        strings(copy@) == strings(all@),
{
    let mut copy: Vec<String> = Vec::new();
    for i in 0..all.len()
        invariant
            strings(copy@) == strings(all@).take(i as int),
    {
        let ghost before = strings(copy@);
        let text = copy_of(all[i].as_str());
        copy.push(text);
        assert(strings(copy@) =~= before.push(text@));
    }
    assert(strings(all@).take(all@.len() as int) =~= strings(all@));
    copy
}

// ---------------------------------------------------------------------------
// Whitespace.
// ---------------------------------------------------------------------------

/// A character with Unicode's `White_Space` property, which is what
/// `char::is_whitespace` and the `trim` family of `str` go by.
pub open spec fn is_space(c: char) -> bool {
    let n = c as u32;
    ||| 0x09 <= n <= 0x0d
    ||| n == 0x20
    ||| n == 0x85
    ||| n == 0xa0
    ||| n == 0x1680
    ||| 0x2000 <= n <= 0x200a
    ||| n == 0x2028
    ||| n == 0x2029
    ||| n == 0x202f
    ||| n == 0x205f
    ||| n == 0x3000
}

/// Whether `c` is whitespace.
pub fn space(c: char) -> (yes: bool)
    ensures
        yes == is_space(c),
{
    let n: u32 = c as u32;
    (0x09 <= n && n <= 0x0d) || n == 0x20 || n == 0x85 || n == 0xa0 || n == 0x1680 || (0x2000 <= n
        && n <= 0x200a) || n == 0x2028 || n == 0x2029 || n == 0x202f || n == 0x205f || n == 0x3000
}

/// `text` without the whitespace it begins with.
pub open spec fn trim_start(text: Seq<char>) -> Seq<char>
    decreases text.len(),
{
    if text.len() != 0 && is_space(text[0]) {
        trim_start(text.skip(1))
    } else {
        text
    }
}

/// `text` without the whitespace it ends with.
pub open spec fn trim_end(text: Seq<char>) -> Seq<char>
    decreases text.len(),
{
    if text.len() != 0 && is_space(text.last()) {
        trim_end(text.drop_last())
    } else {
        text
    }
}

/// `text` without the whitespace at either end.
pub open spec fn trim(text: Seq<char>) -> Seq<char> {
    trim_end(trim_start(text))
}

/// `text` is nothing but whitespace.
pub open spec fn is_blank(text: Seq<char>) -> bool {
    forall|i: int| 0 <= i < text.len() ==> is_space(#[trigger] text[i])
}

/// How many characters of whitespace `text` begins with.
pub open spec fn indent_len(text: Seq<char>) -> int {
    text.len() - trim_start(text).len()
}

/// [`trim_start`] takes off a run of whitespace and stops at the first
/// character that is not.
pub proof fn lemma_trim_start(text: Seq<char>)
    ensures
        0 <= indent_len(text) <= text.len(),
        trim_start(text) == text.skip(indent_len(text)),
        forall|i: int| 0 <= i < indent_len(text) ==> is_space(#[trigger] text[i]),
        trim_start(text).len() != 0 ==> !is_space(trim_start(text)[0]),
        trim_start(text).len() == 0 <==> is_blank(text),
    decreases text.len(),
{
    if text.len() != 0 && is_space(text[0]) {
        let rest = text.skip(1);
        lemma_trim_start(rest);
        assert(text.skip(indent_len(text)) =~= rest.skip(indent_len(rest)));
        assert forall|i: int| 0 <= i < indent_len(text) implies is_space(#[trigger] text[i]) by {
            if i > 0 {
                assert(text[i] == rest[i - 1]);
            }
        }
        if is_blank(text) {
            assert forall|i: int| 0 <= i < rest.len() implies is_space(#[trigger] rest[i]) by {
                assert(rest[i] == text[i + 1]);
            }
        }
        if is_blank(rest) {
            assert forall|i: int| 0 <= i < text.len() implies is_space(#[trigger] text[i]) by {
                if i > 0 {
                    assert(text[i] == rest[i - 1]);
                }
            }
        }
    } else {
        assert(text.skip(0) =~= text);
        if text.len() != 0 {
            assert(!is_space(text[0]));
        }
    }
}

/// A run of whitespace followed by something else is what [`trim_start`]
/// takes off.
pub proof fn lemma_trim_start_is(text: Seq<char>, n: int)
    requires
        0 <= n <= text.len(),
        forall|i: int| 0 <= i < n ==> is_space(#[trigger] text[i]),
        n < text.len() ==> !is_space(text[n]),
    ensures
        trim_start(text) == text.skip(n),
        indent_len(text) == n,
{
    lemma_trim_start(text);
    let m = indent_len(text);
    if m < n {
        assert(trim_start(text)[0] == text[m]);
    }
    if n < m {
        assert(is_space(text[n]));
    }
}

/// [`trim_end`] takes off a run of whitespace and stops at the last character
/// that is not.
pub proof fn lemma_trim_end(text: Seq<char>)
    ensures
        trim_end(text).len() <= text.len(),
        trim_end(text) == text.take(trim_end(text).len() as int),
        forall|i: int| trim_end(text).len() <= i < text.len() ==> is_space(#[trigger] text[i]),
        trim_end(text).len() != 0 ==> !is_space(trim_end(text).last()),
        trim_end(text).len() == 0 <==> is_blank(text),
    decreases text.len(),
{
    if text.len() != 0 && is_space(text.last()) {
        let rest = text.drop_last();
        lemma_trim_end(rest);
        assert(text.take(trim_end(text).len() as int) =~= rest.take(trim_end(text).len() as int));
        assert forall|i: int| trim_end(text).len() <= i < text.len() implies is_space(
            #[trigger] text[i],
        ) by {
            if i < rest.len() {
                assert(text[i] == rest[i]);
            }
        }
        if is_blank(text) {
            assert forall|i: int| 0 <= i < rest.len() implies is_space(#[trigger] rest[i]) by {
                assert(rest[i] == text[i]);
            }
        }
        if is_blank(rest) {
            assert forall|i: int| 0 <= i < text.len() implies is_space(#[trigger] text[i]) by {
                if i < rest.len() {
                    assert(text[i] == rest[i]);
                }
            }
        }
    } else {
        assert(text.take(text.len() as int) =~= text);
        if text.len() != 0 {
            assert(!is_space(text[text.len() - 1]));
        }
    }
}

/// A run of whitespace after something else is what [`trim_end`] takes off.
pub proof fn lemma_trim_end_is(text: Seq<char>, n: int)
    requires
        0 <= n <= text.len(),
        forall|i: int| n <= i < text.len() ==> is_space(#[trigger] text[i]),
        n > 0 ==> !is_space(text[n - 1]),
    ensures
        trim_end(text) == text.take(n),
{
    lemma_trim_end(text);
    let m = trim_end(text).len();
    if m < n {
        assert(is_space(text[n - 1]));
    }
    if n < m {
        assert(trim_end(text).last() == text[m - 1]);
    }
}

/// How many characters of whitespace `chars` begins with.
pub fn indent(chars: &Vec<char>) -> (n: usize)
    ensures
        n == indent_len(chars@),
        n <= chars@.len(),
        trim_start(chars@) == chars@.skip(n as int),
{
    let mut n: usize = 0;
    while n < chars.len() && space(chars[n])
        invariant
            n <= chars@.len(),
            forall|i: int| 0 <= i < n ==> is_space(#[trigger] chars@[i]),
        decreases chars@.len() - n,
    {
        n += 1;
    }
    proof {
        lemma_trim_start_is(chars@, n as int);
    }
    n
}

/// `chars` without the whitespace it begins with.
pub fn without_indent(chars: &Vec<char>) -> (trimmed: Vec<char>)
    ensures
        trimmed@ == trim_start(chars@),
{
    let n = indent(chars);
    assert(chars@.subrange(n as int, chars@.len() as int) =~= chars@.skip(n as int));
    slice(chars, n, chars.len())
}

/// `chars` without the whitespace it ends with.
pub fn without_tail(chars: &Vec<char>) -> (trimmed: Vec<char>)
    ensures
        trimmed@ == trim_end(chars@),
{
    let mut n: usize = chars.len();
    while n > 0 && space(chars[n - 1])
        invariant
            n <= chars@.len(),
            forall|i: int| n <= i < chars@.len() ==> is_space(#[trigger] chars@[i]),
        decreases n,
    {
        n -= 1;
    }
    proof {
        lemma_trim_end_is(chars@, n as int);
    }
    assert(chars@.subrange(0, n as int) =~= chars@.take(n as int));
    slice(chars, 0, n)
}

/// `chars` without the whitespace at either end.
pub fn trimmed(chars: &Vec<char>) -> (trimmed: Vec<char>)
    ensures
        trimmed@ == trim(chars@),
{
    without_tail(&without_indent(chars))
}

/// Whether `chars` is nothing but whitespace.
pub fn blank(chars: &Vec<char>) -> (yes: bool)
    ensures
        yes == is_blank(chars@),
        yes == (trim_start(chars@).len() == 0),
{
    proof {
        lemma_trim_start(chars@);
    }
    indent(chars) == chars.len()
}

// ---------------------------------------------------------------------------
// Lines.
// ---------------------------------------------------------------------------

/// `line` without the carriage return it ends with, if it ends with one.
pub open spec fn strip_return(line: Seq<char>) -> Seq<char> {
    if line.len() != 0 && line.last() == '\r' {
        line.drop_last()
    } else {
        line
    }
}

/// The lines of `text`, as `str::lines` reads them: each ends at a `\n`, with a
/// `\r` right before it counted as part of the ending, and the last one may be
/// unterminated.
pub open spec fn lines(text: Seq<char>) -> Seq<Seq<char>>
    decreases text.len(),
{
    if text.len() == 0 {
        seq![]
    } else {
        let at = position(text, '\n') as int;
        if at >= text.len() {
            seq![text]
        } else {
            seq![strip_return(text.take(at))] + lines(text.skip(at + 1))
        }
    }
}

/// The text whose lines are `lines`, each ended by a `\n`.
pub open spec fn unlines(lines: Seq<Seq<char>>) -> Seq<char>
    decreases lines.len(),
{
    if lines.len() == 0 {
        seq![]
    } else {
        unlines(lines.drop_last()) + lines.last().push('\n')
    }
}

/// A line that reads back as itself: it holds no line ending.
pub open spec fn is_line(line: Seq<char>) -> bool {
    &&& forall|i: int| 0 <= i < line.len() ==> line[i] != '\n'
    &&& line.len() != 0 ==> line.last() != '\r'
}

/// [`unlines`] read from the front.
pub proof fn lemma_unlines_cons(lines: Seq<Seq<char>>)
    requires
        lines.len() != 0,
    ensures
        unlines(lines) == lines[0].push('\n') + unlines(lines.skip(1)),
    decreases lines.len(),
{
    let rest = lines.skip(1);
    if lines.len() == 1 {
        assert(lines.drop_last() =~= Seq::<Seq<char>>::empty());
        assert(rest =~= Seq::<Seq<char>>::empty());
        assert(unlines(lines) =~= lines[0].push('\n') + unlines(rest));
    } else {
        lemma_unlines_cons(lines.drop_last());
        assert(lines.drop_last().skip(1) =~= rest.drop_last());
        assert(rest.last() == lines.last());
        assert(unlines(lines) =~= lines[0].push('\n') + unlines(rest));
    }
}

/// Lines written out are read back as they were.
pub proof fn lemma_lines_unlines(all: Seq<Seq<char>>)
    requires
        forall|i: int| 0 <= i < all.len() ==> is_line(#[trigger] all[i]),
    ensures
        lines(unlines(all)) == all,
    decreases all.len(),
{
    if all.len() != 0 {
        lemma_unlines_cons(all);
        let first = all[0];
        let rest = all.skip(1);
        let text = unlines(all);
        assert(is_line(first));
        assert forall|i: int| 0 <= i < first.len() implies text[i] != '\n' by {
            assert(text[i] == first[i]);
        }
        assert(text[first.len() as int] == '\n');
        lemma_position_is(text, '\n', first.len() as int);
        assert(text.take(first.len() as int) =~= first);
        assert(text.skip(first.len() as int + 1) =~= unlines(rest));
        assert forall|i: int| 0 <= i < rest.len() implies is_line(#[trigger] rest[i]) by {
            assert(rest[i] == all[i + 1]);
        }
        lemma_lines_unlines(rest);
        assert(seq![first] + rest =~= all);
    }
}

/// No line of a text holds a `\n`.
pub proof fn lemma_lines_hold_no_newline(text: Seq<char>)
    ensures
        forall|i: int, k: int|
            0 <= i < lines(text).len() && 0 <= k < lines(text)[i].len()
                ==> #[trigger] lines(text)[i][k] != '\n',
    decreases text.len(),
{
    if text.len() != 0 {
        let at = position(text, '\n') as int;
        lemma_position(text, '\n');
        if at < text.len() {
            lemma_lines_hold_no_newline(text.skip(at + 1));
            let first = strip_return(text.take(at));
            assert forall|i: int, k: int|
                0 <= i < lines(text).len() && 0 <= k < lines(text)[i].len() implies
                #[trigger] lines(text)[i][k] != '\n' by {
                if i == 0 {
                    assert(lines(text)[0] == first);
                    assert(first[k] == text[k]);
                } else {
                    assert(lines(text)[i] == lines(text.skip(at + 1))[i - 1]);
                }
            }
        }
    }
}

/// The lines of `chars`.
pub fn lines_of(chars: &Vec<char>) -> (all: Vec<Vec<char>>)
    ensures
        views(all@) == lines(chars@),
{
    let mut all: Vec<Vec<char>> = Vec::new();
    let mut start: usize = 0;
    let mut at: usize = 0;
    proof {
        assert(chars@.skip(0) =~= chars@);
    }
    while at < chars.len()
        invariant
            start <= at <= chars@.len(),
            forall|i: int| start <= i < at ==> chars@[i] != '\n',
            lines(chars@) == views(all@) + lines(chars@.skip(start as int)),
        decreases chars@.len() - at,
    {
        if chars[at] == '\n' {
            let ghost rest = chars@.skip(start as int);
            let ghost before = views(all@);
            proof {
                lemma_position_is(rest, '\n', at - start);
                assert(rest.take(at - start) =~= chars@.subrange(start as int, at as int));
                assert(rest.skip(at - start + 1) =~= chars@.skip(at + 1));
            }
            let end: usize = if at > start && chars[at - 1] == '\r' {
                at - 1
            } else {
                at
            };
            let line = slice(chars, start, end);
            assert(line@ =~= strip_return(chars@.subrange(start as int, at as int)));
            all.push(line);
            start = at + 1;
            assert(views(all@) =~= before.push(line@));
            assert(before + (seq![line@] + lines(chars@.skip(start as int))) =~= views(all@)
                + lines(chars@.skip(start as int)));
        }
        at += 1;
    }
    if start < chars.len() {
        let ghost rest = chars@.skip(start as int);
        let ghost before = views(all@);
        proof {
            lemma_position_is(rest, '\n', rest.len() as int);
        }
        let line = slice(chars, start, chars.len());
        assert(line@ =~= rest);
        all.push(line);
        assert(views(all@) =~= before.push(line@));
    }
    assert(views(all@) =~= lines(chars@));
    all
}

/// The texts that `all` holds.
pub open spec fn views(all: Seq<Vec<char>>) -> Seq<Seq<char>> {
    all.map_values(|chars: Vec<char>| chars@)
}

/// The texts that `all` holds.
pub open spec fn strings(all: Seq<String>) -> Seq<Seq<char>> {
    all.map_values(|text: String| text@)
}

/// The texts of `all`, one after another.
pub open spec fn concat(all: Seq<Seq<char>>) -> Seq<char>
    decreases all.len(),
{
    if all.len() == 0 {
        seq![]
    } else {
        concat(all.drop_last()) + all.last()
    }
}

/// The texts of `all`, one after another.
pub fn concatenated(all: &Vec<String>) -> (text: String)
    ensures
        text@ == concat(strings(all@)),
{
    let mut text = String::new();
    for i in 0..all.len()
        invariant
            text@ == concat(strings(all@).take(i as int)),
    {
        text.append(all[i].as_str());
        assert(strings(all@).take(i + 1).drop_last() =~= strings(all@).take(i as int));
    }
    assert(strings(all@).take(all@.len() as int) =~= strings(all@));
    text
}

// ---------------------------------------------------------------------------
// Widths and numbers.
// ---------------------------------------------------------------------------

/// How many bytes `c` takes in UTF-8.
pub open spec fn char_width(c: char) -> nat {
    let n = c as u32;
    if n < 0x80 {
        1
    } else if n < 0x800 {
        2
    } else if n < 0x10000 {
        3
    } else {
        4
    }
}

/// How many bytes `text` takes in UTF-8.
pub open spec fn byte_len(text: Seq<char>) -> nat
    decreases text.len(),
{
    if text.len() == 0 {
        0
    } else {
        byte_len(text.drop_last()) + char_width(text.last())
    }
}

/// How many bytes the first `n` characters of `chars` take in UTF-8.
pub fn width_of(chars: &Vec<char>, n: usize) -> (bytes: u128)
    requires
        n <= chars@.len(),
    ensures
        bytes == byte_len(chars@.take(n as int)),
        bytes <= 4 * n,
{
    let mut bytes: u128 = 0;
    for i in 0..n
        invariant
            n <= chars@.len(),
            bytes == byte_len(chars@.take(i as int)),
            bytes <= 4 * i,
    {
        let c: u32 = chars[i] as u32;
        assert(chars@.take(i + 1).drop_last() =~= chars@.take(i as int));
        let width: u128 = if c < 0x80 {
            1
        } else if c < 0x800 {
            2
        } else if c < 0x10000 {
            3
        } else {
            4
        };
        bytes = bytes + width;
    }
    bytes
}

/// A digit.
pub open spec fn digit(n: nat) -> char {
    if n == 0 {
        '0'
    } else if n == 1 {
        '1'
    } else if n == 2 {
        '2'
    } else if n == 3 {
        '3'
    } else if n == 4 {
        '4'
    } else if n == 5 {
        '5'
    } else if n == 6 {
        '6'
    } else if n == 7 {
        '7'
    } else if n == 8 {
        '8'
    } else {
        '9'
    }
}

/// `n` in decimal.
pub open spec fn decimal(n: nat) -> Seq<char>
    decreases n,
{
    if n < 10 {
        seq![digit(n)]
    } else {
        decimal(n / 10).push(digit(n % 10))
    }
}

/// The digit for `n`.
pub fn digit_of(n: usize) -> (c: char)
    requires
        n < 10,
    ensures
        c == digit(n as nat),
{
    match n {
        0 => '0',
        1 => '1',
        2 => '2',
        3 => '3',
        4 => '4',
        5 => '5',
        6 => '6',
        7 => '7',
        8 => '8',
        _ => '9',
    }
}

/// `n` in decimal.
pub fn decimal_of(n: usize) -> (text: String)
    ensures
        text@ == decimal(n as nat),
    decreases n,
{
    if n < 10 {
        let mut text = String::new();
        text.push(digit_of(n));
        assert(text@ =~= seq![digit(n as nat)]);
        text
    } else {
        let mut text = decimal_of(n / 10);
        text.push(digit_of(n % 10));
        text
    }
}

} // verus!
