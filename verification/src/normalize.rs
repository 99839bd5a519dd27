//! Making diagnostics the same on every machine.

pub mod implementors;
pub mod paths;
pub mod spans;

use vstd::prelude::*;

use crate::normalize::implementors::show_lists;
use crate::normalize::paths::{rewrite, Known, Pair, Replacements, Table};
use crate::normalize::spans::{copy_line, is_diagnostic, realign, unplace_lines};
use crate::path;
use crate::path::{Part, PathBuf};
use crate::scratch;
use crate::scratch::{copy_dependencies, copy_optional, Declared, Dependency};
use crate::text;
use crate::text::{
    begins_with, chars_of, copy_of, extend, extend_str, lines_of, same_str, string_of,
    without_tail,
};

verus! {

/// The placeholder for the toolchain's own source.
pub const RUST: &'static str = "$RUST";

/// The placeholder for the host crate's manifest directory.
pub const DIR: &'static str = "$DIR";

/// The placeholder for the scratch project.
pub const SCRATCH: &'static str = "$SCRATCH";

/// The placeholder for an unpacked registry source directory.
pub const CARGO_REGISTRY: &'static str = "$CARGO_REGISTRY";

/// The placeholder for `CARGO_HOME`.
pub const CARGO_HOME: &'static str = "$CARGO_HOME";

/// The placeholder for the crate a fixture is compiled as.
pub const CRATE: &'static str = "$CRATE";

/// The placeholder for how many implementors rustc left out.
pub const N: &'static str = "$N";

/// The placeholder for the entries of an implementor list.
pub const IMPLEMENTORS: &'static str = "$IMPLEMENTORS";

/// A placeholder normalization uses for something other than a dependency.
pub open spec fn is_reserved(placeholder: Seq<char>) -> bool {
    ||| placeholder == DIR@
    ||| placeholder == SCRATCH@
    ||| placeholder == CARGO_REGISTRY@
    ||| placeholder == CARGO_HOME@
    ||| placeholder == RUST@
    ||| placeholder == CRATE@
    ||| placeholder == N@
    ||| placeholder == IMPLEMENTORS@
}

/// Whether normalization uses `placeholder` for something other than a
/// dependency.
pub fn reserved(placeholder: &str) -> (yes: bool)
    ensures
        yes == is_reserved(placeholder@),
{
    same_str(placeholder, DIR) || same_str(placeholder, SCRATCH) || same_str(
        placeholder,
        CARGO_REGISTRY,
    ) || same_str(placeholder, CARGO_HOME) || same_str(placeholder, RUST) || same_str(
        placeholder,
        CRATE,
    ) || same_str(placeholder, N) || same_str(placeholder, IMPLEMENTORS)
}

/// What `str::to_uppercase` makes of `text`.
pub uninterp spec fn upper_text(text: Seq<char>) -> Seq<char>;

/// An ASCII letter in upper case, and any other ASCII character as it is.
pub open spec fn upper_char(c: char) -> char {
    if 'a' <= c && c <= 'z' {
        (c as u32 - 32) as char
    } else {
        c
    }
}

/// Every character of `text` is an ASCII one.
pub open spec fn is_ascii_text(text: Seq<char>) -> bool {
    forall|i: int| 0 <= i < text.len() ==> (#[trigger] text[i]) as u32 <= 0x7f
}

/// `text` in upper case.
pub open spec fn uppercased(text: Seq<char>) -> Seq<char> {
    if is_ascii_text(text) {
        text.map_values(|c: char| upper_char(c))
    } else {
        upper_text(text)
    }
}

/// `str::to_uppercase`: `text` in upper case, as Unicode defines it. Of ASCII text,
/// the letters are put in upper case one by one and the rest stays as it is.
/// Which characters any other text comes out with is left to Unicode.
#[verifier::external_body]
fn uppercase(text: &str) -> (upper: String)
    ensures
        upper@ == upper_text(text@),
        is_ascii_text(text@) ==> upper@ == text@.map_values(|c: char| upper_char(c)),
{
    text.to_uppercase()
}

/// The placeholder whose name is `upper`: `$` and the name, with `-` becoming `_`.
pub open spec fn placeholder_called(upper: Seq<char>) -> Seq<char> {
    "$"@ + upper.map_values(
        |c: char|
            if c == '-' {
                '_'
            } else {
                c
            },
    )
}

/// The placeholder whose name is `upper`: `$` and the name, with `-` becoming `_`.
pub fn called(upper: &str) -> (placeholder: String)
    ensures
        placeholder@ == placeholder_called(upper@),
{
    let chars = chars_of(upper);
    let mut out: Vec<char> = chars_of("$");
    let ghost head = out@;
    let ghost mapped = upper@.map_values(
        |c: char|
            if c == '-' {
                '_'
            } else {
                c
            },
    );
    for i in 0..chars.len()
        invariant
            chars@ == upper@,
            mapped.len() == upper@.len(),
            forall|k: int|
                0 <= k < mapped.len() ==> #[trigger] mapped[k] == (if upper@[k] == '-' {
                    '_'
                } else {
                    upper@[k]
                }),
            out@ == head + mapped.take(i as int),
    {
        let c = if chars[i] == '-' {
            '_'
        } else {
            chars[i]
        };
        assert(c == mapped[i as int]);
        out.push(c);
        assert(mapped.take(i + 1) =~= mapped.take(i as int).push(c));
        assert(out@ =~= head + mapped.take(i + 1));
    }
    assert(mapped.take(mapped.len() as int) =~= mapped);
    string_of(&out)
}

/// The placeholder for the dependency called `name`.
pub open spec fn placeholder_of(name: Seq<char>) -> Seq<char> {
    placeholder_called(uppercased(name))
}

/// The placeholder for the dependency called `name`: `my-crate` becomes
/// `$MY_CRATE`.
pub fn placeholder(name: &str) -> (placeholder: String)
    ensures
        placeholder@ == placeholder_of(name@),
{
    called(uppercase(name).as_str())
}

/// A span header's `target` names a place in `fixture`: the fixture's path,
/// alone or followed by a `:` and the position in it.
pub open spec fn names_place_in(target: Seq<char>, fixture: Seq<char>) -> bool {
    target == fixture || text::starts_with(target, fixture.push(':'))
}

/// Whether a span header's `target` names a place in `fixture`.
pub fn points_into(target: &Vec<char>, fixture: &str) -> (yes: bool)
    ensures
        yes == names_place_in(target@, fixture@),
{
    let mut path = chars_of(fixture);
    let whole = crate::text::same(target, &path);
    path.push(':');
    whole || begins_with(target, &path)
}

// ---------------------------------------------------------------------------
// The normalizer.
// ---------------------------------------------------------------------------

/// What makes one fixture's diagnostics the same on every machine.
#[derive(Debug)]
pub struct Normalizer {
    root: PathBuf,
    bin_path: PathBuf,
    bin: String,
    manifest_dir: PathBuf,
    dependencies: Vec<Dependency>,
    cargo_home: Option<PathBuf>,
    fold: bool,
    elide: bool,
}

/// What a [`Normalizer`] stands for.
pub struct Rules {
    /// Where the scratch project is kept.
    pub root: Seq<Part>,
    /// The generated source file of the fixture.
    pub bin_path: Seq<Part>,
    /// The generated bin target of the fixture.
    pub bin: Seq<char>,
    /// The host crate's manifest directory.
    pub manifest_dir: Seq<Part>,
    /// The declared path dependencies.
    pub dependencies: Seq<Declared>,
    /// Where cargo keeps what it downloads, where that is known.
    pub cargo_home: Option<Seq<Part>>,
    /// `\` separates the components of a path too.
    pub fold: bool,
    /// The entries of implementor lists are replaced by a placeholder.
    pub elide: bool,
}

impl View for Normalizer {
    type V = Rules;

    closed spec fn view(&self) -> Rules {
        Rules {
            root: self.root@,
            bin_path: self.bin_path@,
            bin: self.bin@,
            manifest_dir: self.manifest_dir@,
            dependencies: scratch::declared(self.dependencies@),
            cargo_home: scratch::optional(self.cargo_home),
            fold: self.fold,
            elide: self.elide,
        }
    }
}

/// A path and what stands for it.
pub open spec fn stands_for(path: Seq<Part>, shown: Seq<char>) -> Pair {
    Pair { prefix: path::shown(path), shown }
}

/// The declared dependencies that live outside the host crate, each with its
/// placeholder. One inside is covered by the host crate's own.
pub open spec fn dependency_pairs(
    dependencies: Seq<Declared>,
    manifest_dir: Seq<Part>,
) -> Seq<Pair>
    decreases dependencies.len(),
{
    if dependencies.len() == 0 {
        seq![]
    } else {
        let rest = dependency_pairs(dependencies.drop_last(), manifest_dir);
        let last = dependencies.last();
        if path::is_under(last.path, manifest_dir) {
            rest
        } else {
            rest.push(stands_for(last.path, placeholder_of(last.name)))
        }
    }
}

/// What is known of where a diagnostic may point.
pub open spec fn replacements(rules: Rules, fixture: Seq<char>) -> Replacements {
    let own = seq![
        stands_for(rules.bin_path, fixture),
        Pair { prefix: "src/bin/"@ + rules.bin + ".rs"@, shown: fixture },
        stands_for(rules.root, SCRATCH@),
        stands_for(rules.manifest_dir, DIR@),
    ];
    let home = match rules.cargo_home {
        Some(home) => seq![stands_for(home, CARGO_HOME@)],
        None => seq![],
    };
    Replacements {
        known: own + home + dependency_pairs(rules.dependencies, rules.manifest_dir),
        registry: match rules.cargo_home {
            Some(home) => Some(path::shown(home) + "/registry/src/"@),
            None => None,
        },
        bin: rules.bin,
        fold: rules.fold,
    }
}

/// `lines`, each with what is known replaced.
pub open spec fn replaced(lines: Seq<Seq<char>>, table: Replacements) -> Seq<Seq<char>> {
    lines.map_values(|line: Seq<char>| paths::rewritten(line, table))
}

/// How many of the first of `lines` come before the next diagnostic.
pub open spec fn before_next(lines: Seq<Seq<char>>) -> nat
    decreases lines.len(),
{
    if lines.len() == 0 || spans::opens_diagnostic(lines[0]) {
        0
    } else {
        1 + before_next(lines.skip(1))
    }
}

/// One diagnostic, with no position outside the fixture, its gutter as narrow as
/// it can be, and what is shown of each list of implementors.
pub open spec fn tidied(lines: Seq<Seq<char>>, fixture: Seq<char>, elide: bool) -> Seq<Seq<char>> {
    implementors::with_lists(spans::realigned(spans::unplaced_lines(lines, fixture)), elide)
}

/// `lines`, each diagnostic tidied.
pub open spec fn all_tidied(lines: Seq<Seq<char>>, fixture: Seq<char>, elide: bool) -> Seq<Seq<char>>
    decreases lines.len(),
{
    if lines.len() == 0 {
        seq![]
    } else {
        proof {
            lemma_before_next(lines.skip(1));
        }
        let n = 1 + before_next(lines.skip(1)) as int;
        tidied(lines.take(n), fixture, elide) + all_tidied(lines.skip(n), fixture, elide)
    }
}

/// `lines`, each without the whitespace it ends with.
pub open spec fn stripped(lines: Seq<Seq<char>>) -> Seq<Seq<char>> {
    lines.map_values(|line: Seq<char>| text::trim_end(line))
}

/// `lines` without the empty ones they end with.
pub open spec fn settled(lines: Seq<Seq<char>>) -> Seq<Seq<char>>
    decreases lines.len(),
{
    if lines.len() != 0 && lines.last().len() == 0 {
        settled(lines.drop_last())
    } else {
        lines
    }
}

/// The lines of `text` as they are written into a golden.
pub open spec fn normalized_lines(rules: Rules, text: Seq<char>, fixture: Seq<char>) -> Seq<
    Seq<char>,
> {
    let known = replaced(text::lines(text), replacements(rules, fixture));
    settled(stripped(all_tidied(known, fixture, rules.elide)))
}

/// `text`, a fixture's rendered diagnostics, as it is written into a golden.
pub open spec fn normalized(rules: Rules, text: Seq<char>, fixture: Seq<char>) -> Seq<char> {
    text::unlines(normalized_lines(rules, text, fixture))
}

/// What comes before the next diagnostic is made of the lines that are there.
pub proof fn lemma_before_next(lines: Seq<Seq<char>>)
    ensures
        before_next(lines) <= lines.len(),
    decreases lines.len(),
{
    if lines.len() != 0 {
        lemma_before_next(lines.skip(1));
    }
}

/// `lines`, each diagnostic tidied.
fn tidy_all(lines: &Vec<Vec<char>>, fixture: &str, elide: bool) -> (out: Vec<Vec<char>>)
    ensures
        text::views(out@) == all_tidied(text::views(lines@), fixture@, elide),
{
    let ghost all = text::views(lines@);
    let ghost wanted = all_tidied(all, fixture@, elide);
    let mut out: Vec<Vec<char>> = Vec::new();
    let mut at: usize = 0;
    assert(all.skip(0) =~= all);
    assert(text::views(out@) + wanted =~= wanted);
    while at < lines.len()
        invariant
            all == text::views(lines@),
            wanted == all_tidied(all, fixture@, elide),
            at <= lines.len(),
            wanted == text::views(out@) + all_tidied(all.skip(at as int), fixture@, elide),
        decreases lines.len() - at,
    {
        let ghost rest = all.skip(at as int);
        let ghost before = text::views(out@);
        let mut chunk: Vec<Vec<char>> = Vec::new();
        chunk.push(copy_line(&lines[at]));
        let mut end: usize = at + 1;
        proof {
            assert(rest.skip(1) =~= all.skip(at + 1));
            assert(text::views(chunk@) =~= all.subrange(at as int, at + 1));
        }
        while end < lines.len() && !is_diagnostic(&lines[end])
            invariant
                all == text::views(lines@),
                at < end <= lines.len(),
                text::views(chunk@) == all.subrange(at as int, end as int),
                before_next(all.skip(at + 1)) == end - at - 1 + before_next(all.skip(end as int)),
            decreases lines.len() - end,
        {
            let ghost gathered = text::views(chunk@);
            let line = copy_line(&lines[end]);
            assert(all.skip(end as int)[0] == line@);
            assert(all.skip(end as int).skip(1) =~= all.skip(end + 1));
            chunk.push(line);
            assert(text::views(chunk@) =~= gathered.push(line@));
            assert(all.subrange(at as int, end + 1) =~= all.subrange(at as int, end as int).push(
                all[end as int],
            ));
            end += 1;
        }
        proof {
            if end < lines.len() {
                assert(all.skip(end as int)[0] == lines@[end as int]@);
            }
            assert(rest.take(end - at) =~= all.subrange(at as int, end as int));
            assert(rest.skip(end - at) =~= all.skip(end as int));
        }
        let mut shown = show_lists(&realign(&unplace_lines(&chunk, fixture)), elide);
        let ghost tidy = text::views(shown@);
        out.append(&mut shown);
        proof {
            assert(text::views(out@) =~= before + tidy);
            assert(before + (tidy + all_tidied(all.skip(end as int), fixture@, elide)) =~= (before
                + tidy) + all_tidied(all.skip(end as int), fixture@, elide));
        }
        at = end;
    }
    assert(text::views(out@) + Seq::<Seq<char>>::empty() =~= text::views(out@));
    out
}

/// The text of `lines`, without trailing whitespace on any or empty ones at the
/// end.
fn settle(lines: &Vec<Vec<char>>) -> (out: String)
    ensures
        out@ == text::unlines(settled(stripped(text::views(lines@)))),
{
    let ghost all = stripped(text::views(lines@));
    let mut kept: Vec<Vec<char>> = Vec::new();
    for i in 0..lines.len()
        invariant
            all == stripped(text::views(lines@)),
            text::views(kept@) == all.take(i as int),
    {
        let ghost before = text::views(kept@);
        let line = without_tail(&lines[i]);
        assert(all[i as int] == line@);
        kept.push(line);
        assert(text::views(kept@) =~= before.push(line@));
    }
    assert(all.take(all.len() as int) =~= all);
    let mut end: usize = kept.len();
    while end > 0 && kept[end - 1].len() == 0
        invariant
            end <= kept.len(),
            all == text::views(kept@),
            settled(all) == settled(all.take(end as int)),
        decreases end,
    {
        assert(all.take(end as int).last() == kept@[end - 1]@);
        assert(all.take(end as int).drop_last() =~= all.take(end - 1));
        end -= 1;
    }
    proof {
        if end > 0 {
            assert(all.take(end as int).last() == kept@[end - 1]@);
        }
        assert(settled(all) == all.take(end as int));
    }
    let mut out: Vec<char> = Vec::new();
    for i in 0..end
        invariant
            end <= kept.len(),
            all == text::views(kept@),
            out@ == text::unlines(all.take(i as int)),
    {
        assert(all.take(i + 1).drop_last() =~= all.take(i as int));
        assert(all.take(i + 1).last() == kept@[i as int]@);
        let ghost before = out@;
        extend(&mut out, &kept[i]);
        out.push('\n');
        assert(out@ =~= before + kept@[i as int]@.push('\n'));
    }
    string_of(&out)
}

/// A path and what stands for it.
fn known(path: &PathBuf, shown: &str) -> (known: Known)
    ensures
        known@ == stands_for(path@, shown@),
{
    Known { prefix: chars_of(path.display().as_str()), shown: chars_of(shown) }
}

impl Normalizer {
    /// The normalizer for one fixture. Implementor lists are kept.
    pub fn new(
        root: &PathBuf,
        bin_path: &PathBuf,
        bin: &str,
        manifest_dir: &PathBuf,
        dependencies: &Vec<Dependency>,
        cargo_home: &Option<PathBuf>,
        fold: bool,
    ) -> (normalizer: Normalizer)
        ensures
            normalizer@ == (Rules {
                root: root@,
                bin_path: bin_path@,
                bin: bin@,
                manifest_dir: manifest_dir@,
                dependencies: scratch::declared(dependencies@),
                cargo_home: scratch::optional(*cargo_home),
                fold,
                elide: false,
            }),
    {
        Normalizer {
            root: root.copied(),
            bin_path: bin_path.copied(),
            bin: copy_of(bin),
            manifest_dir: manifest_dir.copied(),
            dependencies: copy_dependencies(dependencies),
            cargo_home: copy_optional(cargo_home),
            fold,
            elide: false,
        }
    }

    /// The same normalizer, replacing the entries of implementor lists by a
    /// placeholder or not.
    pub fn eliding_implementors(self, elide: bool) -> (normalizer: Normalizer)
        ensures
            normalizer@ == (Rules { elide, ..self@ }),
    {
        Normalizer { elide, ..self }
    }

    /// What is known of where a diagnostic may point.
    fn table(&self, fixture: &str) -> (table: Table)
        ensures
            table@ == replacements(self@, fixture@),
    {
        let ghost rules = self@;
        let mut all: Vec<Known> = Vec::new();
        all.push(known(&self.bin_path, fixture));
        let mut generated = chars_of("src/bin/");
        extend_str(&mut generated, self.bin.as_str());
        extend_str(&mut generated, ".rs");
        all.push(Known { prefix: generated, shown: chars_of(fixture) });
        all.push(known(&self.root, SCRATCH));
        all.push(known(&self.manifest_dir, DIR));
        let registry = match &self.cargo_home {
            Some(home) => {
                all.push(known(home, CARGO_HOME));
                let mut sources = chars_of(home.display().as_str());
                extend_str(&mut sources, "/registry/src/");
                Some(sources)
            },
            None => None,
        };
        let ghost head = paths::pairs(all@);
        let ghost declared = rules.dependencies;
        assert(head + dependency_pairs(declared.take(0), rules.manifest_dir) =~= head);
        for i in 0..self.dependencies.len()
            invariant
                rules == self@,
                declared == rules.dependencies,
                declared == scratch::declared(self.dependencies@),
                paths::pairs(all@) == head + dependency_pairs(
                    declared.take(i as int),
                    rules.manifest_dir,
                ),
        {
            let ghost before = paths::pairs(all@);
            let dependency = &self.dependencies[i];
            assert(declared.take(i + 1).drop_last() =~= declared.take(i as int));
            assert(declared.take(i + 1).last() == dependency@);
            if dependency.path.strip_prefix(&self.manifest_dir).is_none() {
                let pair = known(
                    &dependency.path,
                    placeholder(dependency.name.as_str()).as_str(),
                );
                all.push(pair);
                assert(paths::pairs(all@) =~= before.push(pair@));
            }
            assert(paths::pairs(all@) =~= head + dependency_pairs(
                declared.take(i + 1),
                rules.manifest_dir,
            ));
        }
        assert(declared.take(declared.len() as int) =~= declared);
        assert(paths::pairs(all@) =~= replacements(rules, fixture@).known);
        Table { known: all, registry, bin: chars_of(self.bin.as_str()), fold: self.fold }
    }

    /// `text`, a fixture's rendered diagnostics, as it is written into a golden.
    pub fn normalize(&self, text: &str, fixture: &str) -> (normal: String)
        ensures
            normal@ == normalized(self@, text@, fixture@),
    {
        let table = self.table(fixture);
        let lines = lines_of(&chars_of(text));
        let ghost wanted = replaced(text::lines(text@), table@);
        let mut known: Vec<Vec<char>> = Vec::new();
        for i in 0..lines.len()
            invariant
                text::views(lines@) == text::lines(text@),
                wanted == replaced(text::lines(text@), table@),
                text::views(known@) == wanted.take(i as int),
        {
            let ghost before = text::views(known@);
            let line = rewrite(&lines[i], &table);
            assert(text::lines(text@)[i as int] == lines@[i as int]@);
            assert(wanted[i as int] == line@);
            known.push(line);
            assert(text::views(known@) =~= before.push(line@));
        }
        assert(wanted.take(wanted.len() as int) =~= wanted);
        settle(&tidy_all(&known, fixture, self.elide))
    }
}

} // verus!
