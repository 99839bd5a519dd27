//! Known paths, and what stands for them in a golden.
//!
//! A diagnostic is free to point anywhere, and a path it prints is absolute and
//! machine-specific. Wherever a known path stands, up to a component boundary, the
//! longest one that does is replaced by its placeholder.
//!
//! How far a path goes on depends on where it is printed. On a span header it is
//! everything up to the position. In quotes it may hold spaces and brackets. In
//! running text it ends where a sentence would go on.

use vstd::prelude::*;

use crate::normalize::{CARGO_REGISTRY, CRATE, RUST};
use crate::normalize::spans;
use crate::normalize::spans::drop_number;
use crate::text;
use crate::text::{
    begins_with_str, chars_of, extend, extend_str, indent, stands_at, without_indent,
};

verus! {

/// What the path of the toolchain's own source ends with.
pub const LIBRARY: &'static str = "/lib/rustlib/src/rust/library";

/// What it ended with in older toolchains.
pub const OLD_LIBRARY: &'static str = "/lib/rustlib/src/rust/src";

/// A path, as text, and what stands for it.
#[derive(Debug)]
pub struct Known {
    /// The path, with `/` separators.
    pub prefix: Vec<char>,
    /// What stands for it.
    pub shown: Vec<char>,
}

/// What a [`Known`] stands for.
pub struct Pair {
    /// The path, with `/` separators.
    pub prefix: Seq<char>,
    /// What stands for it.
    pub shown: Seq<char>,
}

impl View for Known {
    type V = Pair;

    open spec fn view(&self) -> Pair {
        Pair { prefix: self.prefix@, shown: self.shown@ }
    }
}

/// What each of `all` stands for.
pub open spec fn pairs(all: Seq<Known>) -> Seq<Pair> {
    all.map_values(|known: Known| known@)
}

/// Everything that is replaced in a line.
#[derive(Debug)]
pub struct Table {
    /// Paths that are known whole.
    pub known: Vec<Known>,
    /// Where cargo unpacks registry sources, up to the component that names the
    /// index.
    pub registry: Option<Vec<char>>,
    /// The crate name a fixture is compiled under.
    pub bin: Vec<char>,
    /// `\` separates components too.
    pub fold: bool,
}

/// What a [`Table`] stands for.
pub struct Replacements {
    /// Paths that are known whole.
    pub known: Seq<Pair>,
    /// Where cargo unpacks registry sources.
    pub registry: Option<Seq<char>>,
    /// The crate name a fixture is compiled under.
    pub bin: Seq<char>,
    /// `\` separates components too.
    pub fold: bool,
}

impl View for Table {
    type V = Replacements;

    open spec fn view(&self) -> Replacements {
        Replacements {
            known: pairs(self.known@),
            registry: match self.registry {
                Some(registry) => Some(registry@),
                None => None,
            },
            bin: self.bin@,
            fold: self.fold,
        }
    }
}

// ---------------------------------------------------------------------------
// Characters.
// ---------------------------------------------------------------------------

/// A character of an identifier.
pub open spec fn is_word_char(c: char) -> bool {
    ('a' <= c && c <= 'z') || ('A' <= c && c <= 'Z') || ('0' <= c && c <= '9') || c == '_'
        || c as u32 >= 0x80
}

/// A character of a path that a diagnostic mentions.
pub open spec fn is_path_char(c: char) -> bool {
    is_word_char(c) || c == '-' || c == '.' || c == '+' || c == '@' || c == '/' || c == '\\'
}

/// `c` with `\` read as `/` where both separate components.
pub open spec fn folded_char(c: char, fold: bool) -> char {
    if fold && c == '\\' {
        '/'
    } else {
        c
    }
}

/// `line` with `\` read as `/` where both separate components.
pub open spec fn folded(line: Seq<char>, fold: bool) -> Seq<char> {
    line.map_values(|c: char| folded_char(c, fold))
}

/// Whether `c` can stand in an identifier.
fn word_char(c: char) -> (yes: bool)
    ensures
        yes == is_word_char(c),
{
    ('a' <= c && c <= 'z') || ('A' <= c && c <= 'Z') || ('0' <= c && c <= '9') || c == '_'
        || c as u32 >= 0x80
}

/// Whether `c` can stand in a path that a diagnostic mentions.
fn path_char(c: char) -> (yes: bool)
    ensures
        yes == is_path_char(c),
{
    word_char(c) || c == '-' || c == '.' || c == '+' || c == '@' || c == '/' || c == '\\'
}

/// `line` with `\` read as `/` where both separate components.
fn fold_line(line: &Vec<char>, fold: bool) -> (read: Vec<char>)
    ensures
        read@ == folded(line@, fold),
{
    let mut read: Vec<char> = Vec::new();
    for i in 0..line.len()
        invariant
            read@ == folded(line@, fold).take(i as int),
    {
        let c = if fold && line[i] == '\\' {
            '/'
        } else {
            line[i]
        };
        assert(c == folded(line@, fold)[i as int]);
        read.push(c);
        assert(folded(line@, fold).take(i + 1) =~= folded(line@, fold).take(i as int).push(c));
    }
    assert(folded(line@, fold).take(line@.len() as int) =~= folded(line@, fold));
    read
}

// ---------------------------------------------------------------------------
// What stands where.
// ---------------------------------------------------------------------------

/// A span header: what stands behind its arrow is a path, and the position in the
/// file it leads to.
pub open spec fn is_header(line: Seq<char>) -> bool {
    spans::has_arrow(text::trim_start(line))
}

/// Where the path of a span header begins.
pub open spec fn place_start(line: Seq<char>) -> int {
    text::indent_len(line) + 4
}

/// Where the path of a span header ends: before the position, or with the line.
pub open spec fn place_end(line: Seq<char>) -> int {
    spans::without_position(line).len() as int
}

/// `at` stands in the path of a span header that has a position.
pub open spec fn in_place(line: Seq<char>, at: int) -> bool {
    is_header(line) && place_start(line) <= at < place_end(line) < line.len()
}

/// A path can begin at `at`: what is before it is not part of one.
pub open spec fn path_begins(line: Seq<char>, at: int) -> bool {
    if in_place(line, at) {
        at == place_start(line)
    } else {
        at == 0 || !is_path_char(line[at - 1])
    }
}

/// A drive, and the root of it, stand at `at`.
pub open spec fn drive_at(line: Seq<char>, at: int) -> bool {
    &&& 0 <= at
    &&& at + 2 < line.len()
    &&& ('a' <= line[at] && line[at] <= 'z') || ('A' <= line[at] && line[at] <= 'Z')
    &&& line[at + 1] == ':'
    &&& line[at + 2] == '/'
}

/// What a path can be put between.
pub open spec fn is_quote(c: char) -> bool {
    c == '`' || c == '"' || c == '\''
}

/// A character of a path in quotes, where it need not be told apart from what is
/// said around it.
pub open spec fn is_quoted_char(c: char) -> bool {
    is_path_char(c) || c == ' ' || c == '(' || c == ')' || c == '[' || c == ']' || c == '{' || c
        == '}'
}

/// The first place from `at` on where `c` stands, or the end of the line.
pub open spec fn next_of(line: Seq<char>, c: char, at: int) -> int
    decreases line.len() - at,
{
    if 0 <= at < line.len() && line[at] != c {
        next_of(line, c, at + 1)
    } else {
        at
    }
}

/// How far a path can reach.
pub enum Reach {
    /// On a span header, up to the position.
    Header(int),
    /// In quotes, up to the closing one.
    Quoted(int),
    /// Anywhere else, as long as its characters are those of a path.
    Open,
}

/// How far the path that begins at `from` can reach.
pub open spec fn reach_of(line: Seq<char>, from: int) -> Reach {
    if is_header(line) && from == place_start(line) {
        Reach::Header(place_end(line))
    } else if 0 < from < line.len() && is_quote(line[from - 1]) && (line[from] == '/' || drive_at(
        line,
        from,
    )) && next_of(line, line[from - 1], from) < line.len() {
        Reach::Quoted(next_of(line, line[from - 1], from))
    } else {
        Reach::Open
    }
}

/// A path that can reach as far as `reach` goes on at `at`.
pub open spec fn goes_on(line: Seq<char>, reach: Reach, at: int) -> bool {
    0 <= at < line.len() && match reach {
        Reach::Header(end) => at < end,
        Reach::Quoted(end) => at < end && is_quoted_char(line[at]),
        Reach::Open => is_path_char(line[at]),
    }
}

/// A component ends at `at`, of a path that can reach as far as `reach`.
pub open spec fn component_ends(line: Seq<char>, reach: Reach, at: int) -> bool {
    !goes_on(line, reach, at) || line[at] == '/'
}

/// `prefix` stands at `at`, up to the end of a component.
pub open spec fn known_at(line: Seq<char>, prefix: Seq<char>, at: int) -> bool {
    prefix.len() != 0 && text::occurs_at(line, prefix, at) && component_ends(
        line,
        reach_of(line, at),
        at + prefix.len(),
    )
}

/// Where the component at `at` ends, of a path that can reach as far as `reach`.
pub open spec fn name_end(line: Seq<char>, reach: Reach, at: int) -> int
    decreases line.len() - at,
{
    if component_ends(line, reach, at) {
        at
    } else {
        name_end(line, reach, at + 1)
    }
}

/// Where a path ends that has gone on up to `at`, and can reach as far as `reach`.
pub open spec fn path_end(line: Seq<char>, reach: Reach, at: int) -> int
    decreases line.len() - at,
{
    if goes_on(line, reach, at) {
        path_end(line, reach, at + 1)
    } else {
        at
    }
}

/// How long the unpacked registry source directory at `at` is: the directory
/// sources are unpacked in, and one more component, which names the index.
pub open spec fn registry_len(line: Seq<char>, registry: Seq<char>, at: int) -> nat {
    let start = at + registry.len();
    let end = name_end(line, reach_of(line, at), start);
    if registry.len() != 0 && text::occurs_at(line, registry, at) && end > start {
        (end - at) as nat
    } else {
        0
    }
}

/// How long the path at `at` is up to the end of the last `marker` in it that ends
/// with a component, not behind `end`.
pub open spec fn through(line: Seq<char>, at: int, end: int, marker: Seq<char>) -> nat
    decreases end - at,
{
    if end - at < marker.len() || marker.len() == 0 {
        0
    } else if text::occurs_at(line, marker, end - marker.len()) && component_ends(
        line,
        reach_of(line, at),
        end,
    ) {
        (end - at) as nat
    } else {
        through(line, at, end - 1, marker)
    }
}

/// How long a path of the form `/rustc/<commit>/library` at `at` is.
pub open spec fn commit_len(line: Seq<char>, at: int) -> nat {
    let start = at + "/rustc/"@.len();
    let commit = name_end(line, reach_of(line, at), start);
    let end = commit + "/library"@.len();
    if text::occurs_at(line, "/rustc/"@, at) && commit > start && text::occurs_at(
        line,
        "/library"@,
        commit,
    ) && component_ends(line, reach_of(line, at), end) {
        (end - at) as nat
    } else {
        0
    }
}

/// The larger of two numbers.
pub open spec fn larger(a: nat, b: nat) -> nat {
    if a < b {
        b
    } else {
        a
    }
}

/// How long the path of the toolchain's own source at `at` is, in any of the
/// shapes such a path takes.
pub open spec fn rust_len(line: Seq<char>, at: int) -> nat {
    let end = path_end(
        line,
        reach_of(line, at),
        if drive_at(line, at) {
            at + 2
        } else {
            at
        },
    );
    larger(
        commit_len(line, at),
        larger(through(line, at, end, LIBRARY@), through(line, at, end, OLD_LIBRARY@)),
    )
}

/// What is replaced, and how much of the line it takes.
pub struct Match {
    /// How many characters.
    pub len: nat,
    /// What stands for them.
    pub shown: Seq<char>,
}

/// The longest of `known` that stands at `at`, the first of those as long.
pub open spec fn longest(line: Seq<char>, known: Seq<Pair>, at: int) -> Match
    decreases known.len(),
{
    if known.len() == 0 {
        Match { len: 0, shown: seq![] }
    } else {
        let best = longest(line, known.drop_last(), at);
        let last = known.last();
        if known_at(line, last.prefix, at) && last.prefix.len() > best.len {
            Match { len: last.prefix.len(), shown: last.shown }
        } else {
            best
        }
    }
}

/// The longer of two matches, the first where they are as long.
pub open spec fn better(a: Match, b: Match) -> Match {
    if b.len > a.len {
        b
    } else {
        a
    }
}

/// The path that is replaced at `at` in `line`, whose separators are folded.
pub open spec fn path_at(line: Seq<char>, table: Replacements, at: int) -> Match {
    if !path_begins(line, at) {
        Match { len: 0, shown: seq![] }
    } else {
        let registry = match table.registry {
            Some(registry) => registry_len(line, registry, at),
            None => 0,
        };
        better(
            better(
                longest(line, table.known, at),
                Match { len: registry, shown: CARGO_REGISTRY@ },
            ),
            Match { len: rust_len(line, at), shown: RUST@ },
        )
    }
}

/// The crate name stands at `at`, whole.
pub open spec fn crate_at(line: Seq<char>, bin: Seq<char>, at: int) -> bool {
    &&& bin.len() != 0
    &&& at == 0 || !is_word_char(line[at - 1])
    &&& text::occurs_at(line, bin, at)
    &&& at + bin.len() >= line.len() || !is_word_char(line[at + bin.len()])
}

/// What is replaced at `at` in `line`, whose separators are folded.
pub open spec fn match_at(line: Seq<char>, table: Replacements, at: int) -> Match {
    let path = path_at(line, table, at);
    if path.len == 0 && crate_at(line, table.bin, at) {
        Match { len: table.bin.len(), shown: CRATE@ }
    } else {
        path
    }
}

/// The path that `at` stands in, where what is before it stands in `inside`.
pub open spec fn still_inside(
    line: Seq<char>,
    inside: Option<Reach>,
    at: int,
) -> Option<Reach> {
    match inside {
        Some(reach) => if goes_on(line, reach, at) {
            Some(reach)
        } else {
            None
        },
        None => None,
    }
}

/// `line` from `at` on, with what is known replaced. `inside` says how far the
/// path can reach that `at` stands in, where the beginning of it was.
pub open spec fn rewritten_from(
    line: Seq<char>,
    table: Replacements,
    at: int,
    inside: Option<Reach>,
) -> Seq<char>
    decreases line.len() - at,
{
    if !(0 <= at < line.len()) {
        seq![]
    } else {
        let read = folded(line, table.fold);
        let found = match_at(read, table, at);
        if 0 < found.len <= line.len() - at {
            found.shown + rewritten_from(
                line,
                table,
                at + found.len,
                Some(reach_of(read, at)),
            )
        } else {
            let path = still_inside(read, inside, at);
            seq![
                if path is Some {
                    read[at]
                } else {
                    line[at]
                },
            ] + rewritten_from(line, table, at + 1, path)
        }
    }
}

/// `line` with what is known replaced.
pub open spec fn rewritten(line: Seq<char>, table: Replacements) -> Seq<char> {
    rewritten_from(line, table, 0, None)
}

// ---------------------------------------------------------------------------
// Finding it.
// ---------------------------------------------------------------------------

/// Where the path of a span header stands.
struct Place {
    header: bool,
    start: usize,
    end: usize,
}

impl Place {
    spec fn is_of(self, line: Seq<char>) -> bool {
        &&& self.header == is_header(line)
        &&& self.header ==> self.start == place_start(line) && self.end == place_end(line)
            && self.end <= line.len()
    }
}

/// Where the path of `line` stands, if it is a span header.
fn find_place(line: &Vec<char>) -> (place: Place)
    ensures
        place.is_of(line@),
{
    let unpadded = without_indent(line);
    if !begins_with_str(&unpadded, "--> ") && !begins_with_str(&unpadded, "::: ") {
        return Place { header: false, start: 0, end: 0 };
    }
    proof {
        spans::lemma_arrow(line@);
    }
    let padded = indent(line);
    assert(padded + 4 <= line.len());
    Place { header: true, start: padded + 4, end: drop_number(&drop_number(line)).len() }
}

/// Whether a path can begin at `at`.
fn begins_path(line: &Vec<char>, place: &Place, at: usize) -> (yes: bool)
    requires
        place.is_of(line@),
        at < line@.len(),
    ensures
        yes == path_begins(line@, at as int),
{
    if place.header && place.end < line.len() && place.start <= at && at < place.end {
        at == place.start
    } else {
        at == 0 || !path_char(line[at - 1])
    }
}

/// Whether a drive, and the root of it, stand at `at`.
fn stands_drive(line: &Vec<char>, at: usize) -> (yes: bool)
    requires
        at <= line@.len(),
    ensures
        yes == drive_at(line@, at as int),
        yes ==> at + 2 < line.len(),
{
    line.len() - at > 2 && (('a' <= line[at] && line[at] <= 'z') || ('A' <= line[at] && line[at]
        <= 'Z')) && line[at + 1] == ':' && line[at + 2] == '/'
}

/// Whether a path can be put between two of `c`.
fn quote(c: char) -> (yes: bool)
    ensures
        yes == is_quote(c),
{
    c == '`' || c == '"' || c == '\''
}

/// Whether `c` can stand in a path in quotes.
fn quoted_char(c: char) -> (yes: bool)
    ensures
        yes == is_quoted_char(c),
{
    path_char(c) || c == ' ' || c == '(' || c == ')' || c == '[' || c == ']' || c == '{' || c
        == '}'
}

/// The first place from `at` on where `c` stands, or the end of the line.
fn find_next(line: &Vec<char>, c: char, at: usize) -> (found: usize)
    requires
        at <= line@.len(),
    ensures
        found == next_of(line@, c, at as int),
        at <= found <= line.len(),
{
    let mut found: usize = at;
    while found < line.len() && line[found] != c
        invariant
            at <= found <= line.len(),
            next_of(line@, c, at as int) == next_of(line@, c, found as int),
        decreases line.len() - found,
    {
        found += 1;
    }
    found
}

/// How far a path can reach.
#[derive(Clone, Copy)]
enum Bound {
    Header(usize),
    Quoted(usize),
    Open,
}

impl View for Bound {
    type V = Reach;

    closed spec fn view(&self) -> Reach {
        match *self {
            Bound::Header(end) => Reach::Header(end as int),
            Bound::Quoted(end) => Reach::Quoted(end as int),
            Bound::Open => Reach::Open,
        }
    }
}

/// How far the path that begins at `from` can reach.
fn find_reach(line: &Vec<char>, place: &Place, from: usize) -> (bound: Bound)
    requires
        place.is_of(line@),
        from < line@.len(),
    ensures
        bound@ == reach_of(line@, from as int),
{
    if place.header && from == place.start {
        return Bound::Header(place.end);
    }
    if from > 0 && quote(line[from - 1]) && (line[from] == '/' || stands_drive(line, from)) {
        let end = find_next(line, line[from - 1], from);
        if end < line.len() {
            return Bound::Quoted(end);
        }
    }
    Bound::Open
}

/// Whether a path that can reach as far as `bound` goes on at `at`.
fn carries(line: &Vec<char>, bound: Bound, at: usize) -> (yes: bool)
    ensures
        yes == goes_on(line@, bound@, at as int),
{
    at < line.len() && match bound {
        Bound::Header(end) => at < end,
        Bound::Quoted(end) => at < end && quoted_char(line[at]),
        Bound::Open => path_char(line[at]),
    }
}

/// Whether a component ends at `at`.
fn ends_component(line: &Vec<char>, bound: Bound, at: usize) -> (yes: bool)
    ensures
        yes == component_ends(line@, bound@, at as int),
{
    !carries(line, bound, at) || line[at] == '/'
}

/// Whether `prefix` stands at `at`, up to the end of a component.
fn stands_known(line: &Vec<char>, bound: Bound, prefix: &Vec<char>, at: usize) -> (yes: bool)
    requires
        bound@ == reach_of(line@, at as int),
    ensures
        yes == known_at(line@, prefix@, at as int),
        yes ==> at + prefix@.len() <= line.len(),
{
    if prefix.len() == 0 || !stands_at(line, prefix, at) {
        return false;
    }
    assert(at + prefix@.len() <= line.len());
    ends_component(line, bound, at + prefix.len())
}

/// Where the component at `at` ends.
fn find_name_end(line: &Vec<char>, bound: Bound, at: usize) -> (end: usize)
    requires
        at <= line@.len(),
    ensures
        end == name_end(line@, bound@, at as int),
        at <= end <= line.len(),
{
    let mut end: usize = at;
    while !ends_component(line, bound, end)
        invariant
            at <= end <= line.len(),
            name_end(line@, bound@, at as int) == name_end(line@, bound@, end as int),
        decreases line.len() - end,
    {
        end += 1;
    }
    end
}

/// Where a path ends that has gone on up to `at`.
fn find_path_end(line: &Vec<char>, bound: Bound, at: usize) -> (end: usize)
    requires
        at <= line@.len(),
    ensures
        end == path_end(line@, bound@, at as int),
        at <= end <= line.len(),
{
    let mut end: usize = at;
    while carries(line, bound, end)
        invariant
            at <= end <= line.len(),
            path_end(line@, bound@, at as int) == path_end(line@, bound@, end as int),
        decreases line.len() - end,
    {
        end += 1;
    }
    end
}

/// How long the unpacked registry source directory at `at` is.
fn find_registry(line: &Vec<char>, bound: Bound, registry: &Vec<char>, at: usize) -> (len: usize)
    requires
        at <= line@.len(),
        bound@ == reach_of(line@, at as int),
    ensures
        len == registry_len(line@, registry@, at as int),
        at + len <= line.len(),
{
    if registry.len() == 0 || !stands_at(line, registry, at) {
        return 0;
    }
    assert(at + registry@.len() <= line.len());
    let start = at + registry.len();
    let end = find_name_end(line, bound, start);
    if end > start {
        end - at
    } else {
        0
    }
}

/// How long the path at `at` is up to the end of the last `marker` in it, not
/// behind `end`.
fn find_through(line: &Vec<char>, bound: Bound, at: usize, end: usize, marker: &str) -> (len:
    usize)
    requires
        at <= end <= line@.len(),
        bound@ == reach_of(line@, at as int),
    ensures
        len == through(line@, at as int, end as int, marker@),
        at + len <= line.len(),
{
    let wanted = chars_of(marker);
    if wanted.len() == 0 {
        return 0;
    }
    let mut stop: usize = end;
    while stop - at >= wanted.len()
        invariant
            at <= stop <= line.len(),
            wanted@ == marker@,
            wanted.len() != 0,
            bound@ == reach_of(line@, at as int),
            through(line@, at as int, end as int, marker@) == through(
                line@,
                at as int,
                stop as int,
                marker@,
            ),
        decreases stop,
    {
        if stands_at(line, &wanted, stop - wanted.len()) && ends_component(line, bound, stop) {
            return stop - at;
        }
        stop -= 1;
    }
    0
}

/// How long a path of the form `/rustc/<commit>/library` at `at` is.
fn find_commit(line: &Vec<char>, bound: Bound, at: usize) -> (len: usize)
    requires
        at <= line@.len(),
        bound@ == reach_of(line@, at as int),
    ensures
        len == commit_len(line@, at as int),
        at + len <= line.len(),
{
    let opening = chars_of("/rustc/");
    let closing = chars_of("/library");
    if !stands_at(line, &opening, at) {
        return 0;
    }
    assert(at + opening@.len() <= line.len());
    let start = at + opening.len();
    let commit = find_name_end(line, bound, start);
    if commit > start && stands_at(line, &closing, commit) {
        assert(commit + closing@.len() <= line.len());
        let end = commit + closing.len();
        if ends_component(line, bound, end) {
            return end - at;
        }
    }
    0
}

/// The larger of two numbers.
fn most(a: usize, b: usize) -> (n: usize)
    ensures
        n == larger(a as nat, b as nat),
        n == a || n == b,
{
    if a < b {
        b
    } else {
        a
    }
}

/// How long the path of the toolchain's own source at `at` is.
fn find_rust(line: &Vec<char>, bound: Bound, at: usize) -> (len: usize)
    requires
        at <= line@.len(),
        bound@ == reach_of(line@, at as int),
    ensures
        len == rust_len(line@, at as int),
        at + len <= line.len(),
{
    let start = if stands_drive(line, at) {
        at + 2
    } else {
        at
    };
    let end = find_path_end(line, bound, start);
    most(
        find_commit(line, bound, at),
        most(
            find_through(line, bound, at, end, LIBRARY),
            find_through(line, bound, at, end, OLD_LIBRARY),
        ),
    )
}

/// The longest of `known` that stands at `at`: how long it is, and which.
fn find_longest(
    line: &Vec<char>,
    bound: Bound,
    known: &Vec<Known>,
    at: usize,
) -> (found: (usize, usize))
    requires
        at <= line@.len(),
        bound@ == reach_of(line@, at as int),
    ensures
        found.0 == longest(line@, pairs(known@), at as int).len,
        at + found.0 <= line.len(),
        found.0 > 0 ==> found.1 < known@.len() && known@[found.1 as int].shown@ == longest(
            line@,
            pairs(known@),
            at as int,
        ).shown,
{
    let ghost all = pairs(known@);
    let mut len: usize = 0;
    let mut which: usize = 0;
    for i in 0..known.len()
        invariant
            all == pairs(known@),
            len == longest(line@, all.take(i as int), at as int).len,
            at + len <= line.len(),
            len > 0 ==> which < i && known@[which as int].shown@ == longest(
                line@,
                all.take(i as int),
                at as int,
            ).shown,
            at <= line.len(),
            bound@ == reach_of(line@, at as int),
    {
        assert(all.take(i + 1).drop_last() =~= all.take(i as int));
        assert(all.take(i + 1).last() == known@[i as int]@);
        if stands_known(line, bound, &known[i].prefix, at) && known[i].prefix.len() > len {
            len = known[i].prefix.len();
            which = i;
        }
    }
    assert(all.take(all.len() as int) =~= all);
    (len, which)
}

/// Whether the crate name stands at `at`, whole.
fn stands_crate(line: &Vec<char>, bin: &Vec<char>, at: usize) -> (yes: bool)
    requires
        at <= line@.len(),
    ensures
        yes == crate_at(line@, bin@, at as int),
        yes ==> 0 < bin@.len() && at + bin@.len() <= line.len(),
{
    if bin.len() == 0 || (at > 0 && word_char(line[at - 1])) || !stands_at(line, bin, at) {
        return false;
    }
    assert(at + bin@.len() <= line.len());
    let end = at + bin.len();
    end >= line.len() || !word_char(line[end])
}

/// Append what stands for what is replaced at `at`, and say how much of the line
/// it takes. Nothing where nothing is.
fn put_match(
    out: &mut Vec<char>,
    line: &Vec<char>,
    place: &Place,
    bound: Bound,
    table: &Table,
    at: usize,
) -> (len: usize)
    requires
        at < line@.len(),
        place.is_of(line@),
        bound@ == reach_of(line@, at as int),
    ensures
        len == match_at(line@, table@, at as int).len,
        at + len <= line.len(),
        final(out)@ == (if len > 0 {
            old(out)@ + match_at(line@, table@, at as int).shown
        } else {
            old(out)@
        }),
{
    if begins_path(line, place, at) {
        let (known, which) = find_longest(line, bound, &table.known, at);
        let registry = match &table.registry {
            Some(registry) => find_registry(line, bound, registry, at),
            None => 0,
        };
        let rust = find_rust(line, bound, at);
        if rust > known && rust > registry {
            extend_str(out, RUST);
            return rust;
        }
        if registry > known {
            extend_str(out, CARGO_REGISTRY);
            return registry;
        }
        if known > 0 {
            extend(out, &table.known[which].shown);
            return known;
        }
    }
    if stands_crate(line, &table.bin, at) {
        extend_str(out, CRATE);
        return table.bin.len();
    }
    0
}

/// How far a path can reach, where there is one.
spec fn reached(bound: Option<Bound>) -> Option<Reach> {
    match bound {
        Some(bound) => Some(bound@),
        None => None,
    }
}

proof fn lemma_replaced_here(
    line: Seq<char>,
    table: Replacements,
    at: int,
    inside: Option<Reach>,
    read: Seq<char>,
    found: Match,
)
    requires
        read == folded(line, table.fold),
        found == match_at(read, table, at),
        0 <= at < line.len(),
        0 < found.len <= line.len() - at,
    ensures
        rewritten_from(line, table, at, inside) == found.shown + rewritten_from(
            line,
            table,
            at + found.len,
            Some(reach_of(read, at)),
        ),
{
}

proof fn lemma_kept_here(
    line: Seq<char>,
    table: Replacements,
    at: int,
    inside: Option<Reach>,
    read: Seq<char>,
    path: Option<Reach>,
)
    requires
        read == folded(line, table.fold),
        path == still_inside(read, inside, at),
        0 <= at < line.len(),
        match_at(read, table, at).len == 0,
    ensures
        rewritten_from(line, table, at, inside) == seq![
            if path is Some {
                read[at]
            } else {
                line[at]
            },
        ] + rewritten_from(line, table, at + 1, path),
{
}

/// How far the path can reach that `at` stands in, where what is before it stands
/// in `inside`.
fn stay_inside(read: &Vec<char>, inside: Option<Bound>, at: usize) -> (path: Option<Bound>)
    ensures
        reached(path) == still_inside(read@, reached(inside), at as int),
{
    match inside {
        Some(bound) => if carries(read, bound, at) {
            Some(bound)
        } else {
            None
        },
        None => None,
    }
}

/// `line` with what is known replaced.
#[verifier::rlimit(30)]
pub fn rewrite(line: &Vec<char>, table: &Table) -> (out: Vec<char>)
    ensures
        out@ == rewritten(line@, table@),
{
    let read = fold_line(line, table.fold);
    let place = find_place(&read);
    let mut out: Vec<char> = Vec::new();
    let mut at: usize = 0;
    let mut inside: Option<Bound> = None;
    assert(out@ + rewritten(line@, table@) =~= rewritten(line@, table@));
    while at < line.len()
        invariant
            at <= line.len(),
            read@ == folded(line@, table.fold),
            read@.len() == line@.len(),
            place.is_of(read@),
            rewritten(line@, table@) == out@ + rewritten_from(
                line@,
                table@,
                at as int,
                reached(inside),
            ),
        decreases line.len() - at,
    {
        let ghost before = out@;
        let bound = find_reach(&read, &place, at);
        let len = put_match(&mut out, &read, &place, bound, table, at);
        if len > 0 {
            proof {
                let found = match_at(read@, table@, at as int);
                let rest = rewritten_from(line@, table@, at + found.len, Some(bound@));
                lemma_replaced_here(line@, table@, at as int, reached(inside), read@, found);
                assert(before + (found.shown + rest) =~= out@ + rest);
            }
            at += len;
            inside = Some(bound);
        } else {
            let path = stay_inside(&read, inside, at);
            let c = if path.is_some() {
                read[at]
            } else {
                line[at]
            };
            out.push(c);
            proof {
                let rest = rewritten_from(line@, table@, at + 1, reached(path));
                lemma_kept_here(
                    line@,
                    table@,
                    at as int,
                    reached(inside),
                    read@,
                    reached(path),
                );
                assert(before + (seq![c] + rest) =~= out@ + rest);
            }
            inside = path;
            at += 1;
        }
    }
    assert(out@ + Seq::<char>::empty() =~= out@);
    out
}

} // verus!
