//! The public API: register fixtures, then run them.

use vstd::prelude::*;
use vstd::utf8::*;

use crate::compare::Mode;
use crate::normalize;
use crate::normalize::{placeholder, reserved};
use crate::outcome;
use crate::outcome::{Failure, Kind, Problem};
use crate::path;
use crate::path::{lexical_join, listed, Order, Part, PathBuf, Spelled};
use crate::scratch;
use crate::scratch::{bin_name, Declared, Dependency};
use crate::text;
use crate::text::{chars_of, copy_of, extend_str, lines_of, same_str, string_of, trimmed};

verus! {

/// The environment variable that turns a run into a blessing run.
pub const OVERWRITE_VAR: &'static str = "NOCOMPILE";

/// The edition the scratch project declares unless the caller says otherwise.
///
/// Dependencies are declared rather than inferred, so there is no host manifest
/// to read it out of. The current edition is the predictable default: it is what
/// a new crate gets from `cargo new`.
pub const DEFAULT_EDITION: &'static str = "2024";

/// A registered fixture.
#[derive(Debug, Clone)]
pub struct Case {
    /// The fixture's path relative to the host manifest directory, with `/`
    /// separators. This is what appears in goldens.
    pub relative: String,
    /// Where to actually read it from.
    pub absolute: PathBuf,
    /// The scratch project's bin target for this fixture. Derived from
    /// `relative` alone, so it cannot depend on what else was registered.
    pub bin: String,
    /// What the fixture is asserted to do.
    pub kind: Kind,
}

/// What a [`Case`] stands for.
pub struct Registered {
    /// The fixture's path relative to the host manifest directory, as text.
    pub relative: Seq<char>,
    /// Where to actually read it from.
    pub absolute: Seq<Part>,
    /// The scratch project's bin target for this fixture.
    pub bin: Seq<char>,
    /// What the fixture is asserted to do.
    pub kind: Kind,
}

impl View for Case {
    type V = Registered;

    open spec fn view(&self) -> Registered {
        Registered {
            relative: self.relative@,
            absolute: self.absolute@,
            bin: self.bin@,
            kind: self.kind,
        }
    }
}

/// What each of `all` stands for.
pub open spec fn registered(all: Seq<Case>) -> Seq<Registered> {
    all.map_values(|case: Case| case@)
}

/// A set of compile-fail and pass fixtures to run.
#[derive(Debug)]
pub struct TestCases {
    manifest_dir: PathBuf,
    host_pkg_name: String,
    edition: String,
    mode: Mode,
    elide_implementors: bool,
    overwrite: Option<bool>,
    dependencies: Vec<Dependency>,
    raw_manifest_lines: Vec<String>,
    cases: Vec<Case>,
    /// Every directory registered and read, absolute, once each. Kept so a run
    /// can check what lies under them against what was registered.
    directories: Vec<PathBuf>,
    /// Fixtures refused at registration, absolute. Each already has a failure of
    /// its own in `setup`, so the directory check must not report it again as
    /// unregistered.
    refused_fixtures: Vec<PathBuf>,
    /// Problems found while registering fixtures, reported by every run.
    setup: Vec<Failure>,
}

/// What a [`TestCases`] stands for.
pub struct Suite {
    /// The host crate's manifest directory.
    pub manifest_dir: Seq<Part>,
    /// The host crate's package name.
    pub host_pkg_name: Seq<char>,
    /// The edition fixtures are compiled under.
    pub edition: Seq<char>,
    /// How diagnostics are compared against goldens.
    pub mode: Mode,
    /// Implementor lists are replaced by a placeholder.
    pub elide_implementors: bool,
    /// Whether to bless, where the caller said so outright.
    pub overwrite: Option<bool>,
    /// The dependencies every fixture can use.
    pub dependencies: Seq<Declared>,
    /// Raw text for the end of the generated manifest.
    pub raw_manifest_lines: Seq<Seq<char>>,
    /// The registered fixtures, in the order they were registered.
    pub cases: Seq<Registered>,
    /// Every directory registered and read, once each.
    pub directories: Seq<Seq<Part>>,
    /// The fixtures refused at registration.
    pub refused_fixtures: Seq<Seq<Part>>,
    /// Problems found while registering.
    pub setup: Seq<Problem>,
}

impl View for TestCases {
    type V = Suite;

    closed spec fn view(&self) -> Suite {
        Suite {
            manifest_dir: self.manifest_dir@,
            host_pkg_name: self.host_pkg_name@,
            edition: self.edition@,
            mode: self.mode,
            elide_implementors: self.elide_implementors,
            overwrite: self.overwrite,
            dependencies: scratch::declared(self.dependencies@),
            raw_manifest_lines: text::strings(self.raw_manifest_lines@),
            cases: registered(self.cases@),
            directories: path::paths(self.directories@),
            refused_fixtures: path::paths(self.refused_fixtures@),
            setup: outcome::problems(self.setup@),
        }
    }
}

impl Suite {
    /// `case` is named after where it lies and nothing else.
    pub open spec fn names(self, case: Registered) -> bool {
        let from = path::seen_from(case.absolute, self.manifest_dir);
        &&& path::is_text(from)
        &&& case.relative == path::shown(from)
        &&& case.bin == scratch::bin_of(case.relative)
    }

    /// Every case is named after where it lies, no two cases are one fixture,
    /// no directory is kept twice, and every dependency kept is one that can be
    /// declared.
    pub open spec fn is_consistent(self) -> bool {
        &&& forall|i: int| 0 <= i < self.cases.len() ==> self.names(#[trigger] self.cases[i])
        &&& forall|i: int, k: int|
            0 <= i < k < self.cases.len() ==> (#[trigger] self.cases[i]).relative
                != (#[trigger] self.cases[k]).relative
        &&& self.directories.no_duplicates()
        &&& forall|i: int|
            0 <= i < self.dependencies.len() ==> refusals(
                (#[trigger] self.dependencies[i]).name,
                self.dependencies[i].path,
            ).len() == 0
    }
}

// ---------------------------------------------------------------------------
// Small decisions.
// ---------------------------------------------------------------------------

/// `path` as seen from `base`, with `/` separators. The full path where it is not
/// under `base`, which keeps the message useful rather than truncating it to a
/// bare file name.
pub fn relative_to(base: &PathBuf, path: &PathBuf) -> (relative: String)
    ensures
        relative@ == path::shown(path::seen_from(path@, base@)),
{
    path.from_base(base).display()
}

/// The golden beside a fixture: the same path with a `.stderr` extension.
pub open spec fn golden_of(fixture: Seq<Part>) -> Seq<Part> {
    path::with_extension(fixture, encode_utf8("stderr"@))
}

/// The golden beside a fixture: the same path with a `.stderr` extension.
pub fn golden_path(fixture: &PathBuf) -> (golden: PathBuf)
    ensures
        golden@ == golden_of(fixture@),
{
    fixture.with_extension("stderr")
}

/// A failure to read or write. The error is kept as text, so a failure can be
/// reported by more than one run.
pub open spec fn io_problem(context: Seq<char>, message: Seq<char>) -> Problem {
    Problem::Io { context, message }
}

/// Build a [`Failure::Io`].
pub fn io_failure(context: String, message: &str) -> (failure: Failure)
    ensures
        failure@ == io_problem(context@, message@),
{
    Failure::Io { context, message: copy_of(message) }
}

/// The first of `lines` that is neither blank nor a `#` comment, trimmed.
pub open spec fn first_significant(lines: Seq<Seq<char>>) -> Option<Seq<char>>
    decreases lines.len(),
{
    if lines.len() == 0 {
        None
    } else {
        let line = text::trim(lines[0]);
        if line.len() != 0 && line[0] != '#' {
            Some(line)
        } else {
            first_significant(lines.skip(1))
        }
    }
}

/// The first line of `text` that is neither blank nor a `#` comment, trimmed.
pub fn first_significant_line(text: &str) -> (line: Option<String>)
    ensures
        match line {
            Some(line) => first_significant(text::lines(text@)) == Some(line@),
            None => first_significant(text::lines(text@)) is None,
        },
{
    let lines = lines_of(&chars_of(text));
    let ghost all = text::views(lines@);
    proof {
        assert(all.skip(0) =~= all);
    }
    for i in 0..lines.len()
        invariant
            all == text::views(lines@),
            all == text::lines(text@),
            first_significant(all) == first_significant(all.skip(i as int)),
    {
        assert(all.skip(i as int)[0] == lines@[i as int]@);
        assert(all.skip(i as int).skip(1) =~= all.skip(i + 1));
        let line = trimmed(&lines[i]);
        if line.len() != 0 && line[0] != '#' {
            return Some(string_of(&line));
        }
    }
    None
}

/// `text` opens with a table header, or holds nothing but comments.
pub open spec fn opens_a_table(text: Seq<char>) -> bool {
    match first_significant(text::lines(text)) {
        Some(line) => line[0] == '[',
        None => true,
    }
}

/// An ASCII letter in lower case, and anything else as it is.
pub open spec fn lower(c: char) -> char {
    if 'A' <= c && c <= 'Z' {
        (c as u32 + 32) as char
    } else {
        c
    }
}

/// `a` is `b`, but for the case of ASCII letters.
pub open spec fn is_in_any_case(a: Seq<char>, b: Seq<char>) -> bool {
    a.len() == b.len() && forall|i: int| 0 <= i < a.len() ==> lower(#[trigger] a[i]) == lower(b[i])
}

/// A run blesses, given the caller's setting and the value of [`OVERWRITE_VAR`].
pub open spec fn blesses(explicit: Option<bool>, var: Option<Seq<char>>) -> bool {
    match explicit {
        Some(overwrite) => overwrite,
        None => match var {
            Some(value) => is_in_any_case(value, "overwrite"@),
            None => false,
        },
    }
}

/// An ASCII letter in lower case, and anything else as it is.
fn lowered(c: char) -> (shown: char)
    ensures
        shown == lower(c),
{
    if 'A' <= c && c <= 'Z' {
        ((c as u8) + 32) as char
    } else {
        c
    }
}

/// Whether `a` is `b`, but for the case of ASCII letters.
fn in_any_case(a: &Vec<char>, b: &Vec<char>) -> (yes: bool)
    ensures
        yes == is_in_any_case(a@, b@),
{
    if a.len() != b.len() {
        return false;
    }
    for i in 0..a.len()
        invariant
            a@.len() == b@.len(),
            forall|k: int| 0 <= k < i ==> lower(#[trigger] a@[k]) == lower(b@[k]),
    {
        if lowered(a[i]) != lowered(b[i]) {
            assert(lower(a@[i as int]) != lower(b@[i as int]));
            return false;
        }
    }
    true
}

/// Whether a run blesses, given the caller's [`TestCases::overwrite`] setting and
/// the value of [`OVERWRITE_VAR`] (`None` when it is unset or not UTF-8).
///
/// An explicit setting wins in both directions, so a harness testing this one is
/// not at the mercy of the shell that runs it. Otherwise only `overwrite`, in any
/// case, blesses: a variable that merely happens to be set, or is set to
/// something else, must not start rewriting a checkout's goldens.
pub fn overwrite_from(explicit: Option<bool>, var: Option<&str>) -> (yes: bool)
    ensures
        yes == blesses(
            explicit,
            match var {
                Some(value) => Some(value@),
                None => None,
            },
        ),
{
    match explicit {
        Some(overwrite) => overwrite,
        None => match var {
            Some(value) => in_any_case(&chars_of(value), &chars_of("overwrite")),
            None => false,
        },
    }
}

/// Every reason to refuse a dependency declaration.
pub open spec fn refusals(name: Seq<char>, path: Seq<Part>) -> Seq<Problem> {
    let empty = if name.len() == 0 {
        seq![Problem::EmptyDependencyName { path }]
    } else {
        seq![]
    };
    let placeholder = normalize::placeholder_of(name);
    let taken = if normalize::is_reserved(placeholder) {
        seq![Problem::ReservedDependencyName { name, placeholder }]
    } else {
        seq![]
    };
    let unnameable = if !path::is_text(path) {
        seq![Problem::NonUtf8Dependency { name, path }]
    } else {
        seq![]
    };
    empty + taken + unnameable
}

/// Every reason to refuse a dependency declaration, empty if there is none.
pub fn dependency_refusals(name: &str, path: &PathBuf) -> (refused: Vec<Failure>)
    ensures
        outcome::problems(refused@) == refusals(name@, path@),
{
    let mut refused: Vec<Failure> = Vec::new();
    if chars_of(name).len() == 0 {
        refused.push(Failure::EmptyDependencyName { path: path.copied() });
    }
    let placeholder = placeholder(name);
    if reserved(placeholder.as_str()) {
        refused.push(Failure::ReservedDependencyName { name: copy_of(name), placeholder });
    }
    if !path.is_utf8() {
        refused.push(Failure::NonUtf8Dependency { name: copy_of(name), path: path.copied() });
    }
    assert(outcome::problems(refused@) =~= refusals(name@, path@));
    refused
}

// ---------------------------------------------------------------------------
// Registering.
// ---------------------------------------------------------------------------

/// What a new suite for a host crate is.
pub open spec fn empty_suite(manifest_dir: Seq<Part>, host_pkg_name: Seq<char>) -> Suite {
    Suite {
        manifest_dir,
        host_pkg_name,
        edition: DEFAULT_EDITION@,
        mode: Mode::Exact,
        elide_implementors: false,
        overwrite: None,
        dependencies: seq![],
        raw_manifest_lines: seq![],
        cases: seq![],
        directories: seq![],
        refused_fixtures: seq![],
        setup: seq![],
    }
}

/// `suite` with the dependency at `path` declared, or with every reason not to.
pub open spec fn with_dependency(suite: Suite, name: Seq<char>, path: Seq<Part>) -> Suite {
    let resolved = path::joined(suite.manifest_dir, path);
    let reasons = refusals(name, resolved);
    if reasons.len() == 0 {
        Suite {
            dependencies: suite.dependencies.push(Declared { name, path: resolved }),
            ..suite
        }
    } else {
        Suite { setup: suite.setup + reasons, ..suite }
    }
}

/// `suite` with raw text for the end of the manifest, or with the reason not to.
pub open spec fn with_raw_lines(suite: Suite, lines: Seq<char>) -> Suite {
    if opens_a_table(lines) {
        Suite { raw_manifest_lines: suite.raw_manifest_lines.push(lines), ..suite }
    } else {
        let line = first_significant(text::lines(lines))->0;
        Suite {
            setup: suite.setup.push(Problem::RawManifestLinesWithoutHeader { line }),
            ..suite
        }
    }
}

/// Which of `cases` is the fixture at `relative`.
pub open spec fn case_at(cases: Seq<Registered>, relative: Seq<char>) -> Option<int>
    decreases cases.len(),
{
    if cases.len() == 0 {
        None
    } else {
        match case_at(cases.drop_last(), relative) {
            Some(at) => Some(at),
            None => if cases.last().relative == relative {
                Some(cases.len() - 1)
            } else {
                None
            },
        }
    }
}

/// `suite` with the fixture at `absolute` registered. A fixture that cannot be
/// named is refused; one that is registered already stays as it is, and asking
/// for the other kind is a conflict.
pub open spec fn with_case(suite: Suite, absolute: Seq<Part>, kind: Kind) -> Suite {
    let from = path::seen_from(absolute, suite.manifest_dir);
    if !path::is_text(from) {
        Suite {
            setup: suite.setup.push(
                Problem::NonUtf8Fixture {
                    fixture: from,
                    spelled: path::native_like(from, absolute),
                },
            ),
            refused_fixtures: suite.refused_fixtures.push(absolute),
            ..suite
        }
    } else {
        let relative = path::shown(from);
        match case_at(suite.cases, relative) {
            Some(at) => if suite.cases[at].kind == kind {
                suite
            } else {
                Suite {
                    setup: suite.setup.push(
                        Problem::ConflictingRegistration {
                            fixture: from,
                            registered: suite.cases[at].kind,
                            conflicting: kind,
                        },
                    ),
                    ..suite
                }
            },
            None => Suite {
                cases: suite.cases.push(
                    Registered { relative, absolute, bin: scratch::bin_of(relative), kind },
                ),
                ..suite
            },
        }
    }
}

/// `suite` with each of `files` registered, in order.
pub open spec fn with_cases(suite: Suite, files: Seq<Seq<Part>>, kind: Kind) -> Suite
    decreases files.len(),
{
    if files.len() == 0 {
        suite
    } else {
        with_case(with_cases(suite, files.drop_last(), kind), files.last(), kind)
    }
}

/// One entry of a directory.
#[derive(Debug, Clone)]
pub struct Entry {
    /// Its name.
    pub name: Vec<u8>,
    /// Whether it is a file, a link to one included.
    pub is_file: bool,
}

/// What reading a directory gave.
#[derive(Debug, Clone)]
pub enum Listing {
    /// The directory could not be read, for this reason.
    Unreadable(String),
    /// An entry of it could not be, for this reason.
    Broken(String),
    /// Everything in it.
    Entries(Vec<Entry>),
}

/// The fixtures among `entries` of `directory`: the files named `.rs`.
pub open spec fn fixtures_in(directory: Seq<Part>, entries: Seq<Entry>) -> Seq<Seq<Part>>
    decreases entries.len(),
{
    if entries.len() == 0 {
        seq![]
    } else {
        let rest = fixtures_in(directory, entries.drop_last());
        let path = directory.push(Part::Normal(entries.last().name@));
        if entries.last().is_file && path::extension(path) == Some(encode_utf8("rs"@)) {
            rest.push(path)
        } else {
            rest
        }
    }
}

/// `suite` with every fixture directly in `dir` registered, given what reading
/// it gave. A directory that could not be read is named as it was `spelled`.
pub open spec fn with_dir(
    suite: Suite,
    dir: Seq<Part>,
    spelled: Seq<char>,
    listing: Listing,
    kind: Kind,
) -> Suite {
    let absolute = path::joined(suite.manifest_dir, dir);
    match listing {
        Listing::Unreadable(message) => Suite {
            setup: suite.setup.push(
                io_problem("could not read the fixture directory "@ + spelled, message@),
            ),
            ..suite
        },
        Listing::Broken(message) => Suite {
            setup: suite.setup.push(
                io_problem("could not read an entry of "@ + spelled, message@),
            ),
            ..suite
        },
        Listing::Entries(entries) => {
            let files = fixtures_in(absolute, entries@);
            let first = !suite.directories.contains(absolute);
            let kept = if first {
                Suite { directories: suite.directories.push(absolute), ..suite }
            } else {
                suite
            };
            if files.len() != 0 {
                with_cases(kept, path::sorted(Order::Name, files), kind)
            } else if first {
                Suite {
                    setup: kept.setup.push(
                        Problem::NoFixtures {
                            directory: path::told_from(absolute, suite.manifest_dir),
                        },
                    ),
                    ..kept
                }
            } else {
                kept
            }
        },
    }
}

pub(crate) proof fn lemma_case_at_is(cases: Seq<Registered>, relative: Seq<char>, at: Option<int>)
    requires
        match at {
            Some(at) => 0 <= at < cases.len() && cases[at].relative == relative && forall|i: int|
                0 <= i < at ==> (#[trigger] cases[i]).relative != relative,
            None => forall|i: int|
                0 <= i < cases.len() ==> (#[trigger] cases[i]).relative != relative,
        },
    ensures
        case_at(cases, relative) == at,
    decreases cases.len(),
{
    if cases.len() != 0 {
        let rest = cases.drop_last();
        match at {
            Some(at) => {
                if at == cases.len() - 1 {
                    lemma_case_at_is(rest, relative, None);
                } else {
                    assert(rest[at] == cases[at]);
                    lemma_case_at_is(rest, relative, Some(at));
                }
            },
            None => {
                lemma_case_at_is(rest, relative, None);
                assert(cases[cases.len() - 1].relative != relative);
            },
        }
    }
}

/// [`case_at`] finds the first case at `relative`, if there is one.
pub proof fn lemma_case_at(cases: Seq<Registered>, relative: Seq<char>)
    ensures
        match case_at(cases, relative) {
            Some(at) => 0 <= at < cases.len() && cases[at].relative == relative,
            None => forall|i: int|
                0 <= i < cases.len() ==> (#[trigger] cases[i]).relative != relative,
        },
    decreases cases.len(),
{
    if cases.len() != 0 {
        let rest = cases.drop_last();
        lemma_case_at(rest, relative);
        if case_at(cases, relative) is None {
            assert forall|i: int| 0 <= i < cases.len() implies (#[trigger] cases[i]).relative
                != relative by {
                if i < rest.len() {
                    assert(rest[i] == cases[i]);
                }
            }
        }
    }
}

/// Registering a fixture keeps a suite consistent.
pub proof fn lemma_with_case_is_consistent(suite: Suite, absolute: Seq<Part>, kind: Kind)
    requires
        suite.is_consistent(),
    ensures
        with_case(suite, absolute, kind).is_consistent(),
{
    let from = path::seen_from(absolute, suite.manifest_dir);
    lemma_case_at(suite.cases, path::shown(from));
    let next = with_case(suite, absolute, kind);
    assert forall|i: int| 0 <= i < next.cases.len() implies next.names(
        #[trigger] next.cases[i],
    ) by {
        if i < suite.cases.len() {
            assert(suite.names(suite.cases[i]));
        }
    }
    assert forall|i: int, k: int| 0 <= i < k < next.cases.len() implies (
    #[trigger] next.cases[i]).relative != (#[trigger] next.cases[k]).relative by {
        assert(next.cases[i] == suite.cases[i]);
        if k < suite.cases.len() {
            assert(next.cases[k] == suite.cases[k]);
        }
    }
}

/// Registering fixtures keeps a suite consistent.
pub proof fn lemma_with_cases_is_consistent(suite: Suite, files: Seq<Seq<Part>>, kind: Kind)
    requires
        suite.is_consistent(),
    ensures
        with_cases(suite, files, kind).is_consistent(),
    decreases files.len(),
{
    if files.len() != 0 {
        lemma_with_cases_is_consistent(suite, files.drop_last(), kind);
        lemma_with_case_is_consistent(
            with_cases(suite, files.drop_last(), kind),
            files.last(),
            kind,
        );
    }
}

/// Registering a directory keeps a suite consistent.
pub proof fn lemma_with_dir_is_consistent(
    suite: Suite,
    dir: Seq<Part>,
    spelled: Seq<char>,
    listing: Listing,
    kind: Kind,
)
    requires
        suite.is_consistent(),
    ensures
        with_dir(suite, dir, spelled, listing, kind).is_consistent(),
{
    if let Listing::Entries(entries) = listing {
        let absolute = path::joined(suite.manifest_dir, dir);
        let files = fixtures_in(absolute, entries@);
        let kept = if !suite.directories.contains(absolute) {
            Suite { directories: suite.directories.push(absolute), ..suite }
        } else {
            suite
        };
        assert(kept.directories.no_duplicates());
        assert forall|i: int| 0 <= i < kept.cases.len() implies kept.names(
            #[trigger] kept.cases[i],
        ) by {
            assert(suite.names(suite.cases[i]));
        }
        assert(kept.is_consistent());
        lemma_with_cases_is_consistent(kept, path::sorted(Order::Name, files), kind);
        let told = with_dir(suite, dir, spelled, listing, kind);
        assert forall|i: int| 0 <= i < told.cases.len() implies told.names(
            #[trigger] told.cases[i],
        ) by {
            if files.len() == 0 {
                assert(kept.names(kept.cases[i]));
            }
        }
    } else {
        let told = with_dir(suite, dir, spelled, listing, kind);
        assert forall|i: int| 0 <= i < told.cases.len() implies told.names(
            #[trigger] told.cases[i],
        ) by {
            assert(suite.names(suite.cases[i]));
        }
    }
}

impl TestCases {
    /// Create a set of cases for a host crate.
    pub fn new(manifest_dir: PathBuf, host_pkg_name: &str) -> (cases: TestCases)
        ensures
            cases@ == empty_suite(manifest_dir@, host_pkg_name@),
            cases@.is_consistent(),
    {
        let cases = TestCases {
            manifest_dir,
            host_pkg_name: copy_of(host_pkg_name),
            edition: copy_of(DEFAULT_EDITION),
            mode: Mode::Exact,
            elide_implementors: false,
            overwrite: None,
            dependencies: Vec::new(),
            raw_manifest_lines: Vec::new(),
            cases: Vec::new(),
            directories: Vec::new(),
            refused_fixtures: Vec::new(),
            setup: Vec::new(),
        };
        assert(cases@.dependencies =~= seq![]);
        assert(cases@.raw_manifest_lines =~= seq![]);
        assert(cases@.cases =~= seq![]);
        assert(cases@.directories =~= seq![]);
        assert(cases@.refused_fixtures =~= seq![]);
        assert(cases@.setup =~= seq![]);
        cases
    }

    /// Make a crate available to every fixture, by path.
    ///
    /// `name` is the dependency's package name, verbatim: the `name` in its
    /// `Cargo.toml`. `path` is resolved against the host crate's manifest
    /// directory. A dependency outside the host crate also gets a normalization
    /// placeholder, `my-crate` becoming `$MY_CRATE`.
    ///
    /// Some declarations are refused, each as a setup failure that stops the run
    /// before anything is built: an empty `name`; a `name` whose placeholder is
    /// one normalization already uses for something else, refused whether or not
    /// this dependency would actually receive a placeholder; and a `path` that is
    /// not valid UTF-8, which a Cargo manifest cannot name.
    pub fn dependency_path(&mut self, name: &str, path: &PathBuf) -> (this: &mut Self)
        ensures
            this@ == with_dependency(old(self)@, name@, path@),
            old(self)@.is_consistent() ==> this@.is_consistent(),
            *final(self) == *final(this),
    {
        let ghost before = self@;
        let resolved = lexical_join(&self.manifest_dir, path);
        let mut refused = dependency_refusals(name, &resolved);
        let ghost reasons = outcome::problems(refused@);
        if refused.len() == 0 {
            let dependency = Dependency { name: copy_of(name), path: resolved };
            self.dependencies.push(dependency);
            assert(self@.dependencies =~= before.dependencies.push(dependency@));
        } else {
            self.setup.append(&mut refused);
            assert(self@.setup =~= before.setup + reasons);
        }
        proof {
            let next = self@;
            assert(next == with_dependency(before, name@, path@));
            if before.is_consistent() {
                assert forall|i: int| 0 <= i < next.cases.len() implies next.names(
                    #[trigger] next.cases[i],
                ) by {
                    assert(before.names(before.cases[i]));
                }
                assert forall|i: int| 0 <= i < next.dependencies.len() implies refusals(
                    (#[trigger] next.dependencies[i]).name,
                    next.dependencies[i].path,
                ).len() == 0 by {
                    if i < before.dependencies.len() {
                        assert(next.dependencies[i] == before.dependencies[i]);
                    }
                }
            }
        }
        self
    }

    /// Append raw text to the generated manifest.
    ///
    /// The escape hatch for anything the typed methods do not cover -- a
    /// `[features]` table, a `[profile.dev]` override. The text is appended after
    /// the generated `[[bin]]` tables, so it must open with a table header of its
    /// own: its first line that is not blank or a `#` comment has to begin with
    /// `[`. Text that does not is refused, as a setup failure that stops the run
    /// before anything is built.
    pub fn raw_manifest_lines(&mut self, lines: &str) -> (this: &mut Self)
        ensures
            this@ == with_raw_lines(old(self)@, lines@),
            old(self)@.is_consistent() ==> this@.is_consistent(),
            *final(self) == *final(this),
    {
        let ghost before = self@;
        proof {
            lemma_first_significant(text::lines(lines@));
        }
        match first_significant_line(lines) {
            Some(line) => {
                if chars_of(line.as_str())[0] == '[' {
                    self.raw_manifest_lines.push(copy_of(lines));
                    assert(self@.raw_manifest_lines =~= before.raw_manifest_lines.push(lines@));
                } else {
                    let failure = Failure::RawManifestLinesWithoutHeader { line };
                    self.setup.push(failure);
                    assert(self@.setup =~= before.setup.push(failure@));
                }
            },
            None => {
                self.raw_manifest_lines.push(copy_of(lines));
                assert(self@.raw_manifest_lines =~= before.raw_manifest_lines.push(lines@));
            },
        }
        proof {
            lemma_same_registrations(before, self@);
        }
        self
    }

    /// Set the edition the fixtures are compiled under. Defaults to `2024`.
    ///
    /// Worth setting explicitly if the host crate is on an older edition. A
    /// mismatch does not error -- the fixtures simply compile under different
    /// rules, and the goldens quietly record the difference.
    pub fn edition(&mut self, edition: &str) -> (this: &mut Self)
        ensures
            this@ == (Suite { edition: edition@, ..old(self)@ }),
            old(self)@.is_consistent() ==> this@.is_consistent(),
            *final(self) == *final(this),
    {
        let ghost before = self@;
        self.edition = copy_of(edition);
        proof {
            lemma_same_registrations(before, self@);
        }
        self
    }

    /// Choose how diagnostics are compared against goldens. See [`Mode`].
    pub fn mode(&mut self, mode: Mode) -> (this: &mut Self)
        ensures
            this@ == (Suite { mode, ..old(self)@ }),
            old(self)@.is_consistent() ==> this@.is_consistent(),
            *final(self) == *final(this),
    {
        let ghost before = self@;
        self.mode = mode;
        proof {
            lemma_same_registrations(before, self@);
        }
        self
    }

    /// Replace the list of types implementing a trait with a placeholder.
    /// Defaults to off.
    ///
    /// That list is the one part of a diagnostic whose *content* depends on code
    /// the fixture never mentions, which makes it the one part a golden cannot
    /// own. The tradeoff: a golden that elides the list no longer notices if a
    /// trait *stops* being implemented for a type it used to list.
    pub fn elide_implementors(&mut self, elide: bool) -> (this: &mut Self)
        ensures
            this@ == (Suite { elide_implementors: elide, ..old(self)@ }),
            old(self)@.is_consistent() ==> this@.is_consistent(),
            *final(self) == *final(this),
    {
        let ghost before = self@;
        self.elide_implementors = elide;
        proof {
            lemma_same_registrations(before, self@);
        }
        self
    }

    /// Force blessing on or off, overriding the `NOCOMPILE` environment variable.
    pub fn overwrite(&mut self, overwrite: bool) -> (this: &mut Self)
        ensures
            this@ == (Suite { overwrite: Some(overwrite), ..old(self)@ }),
            old(self)@.is_consistent() ==> this@.is_consistent(),
            *final(self) == *final(this),
    {
        let ghost before = self@;
        self.overwrite = Some(overwrite);
        proof {
            lemma_same_registrations(before, self@);
        }
        self
    }

    /// Register one fixture that must not compile.
    pub fn compile_fail(&mut self, path: &PathBuf) -> (this: &mut Self)
        ensures
            this@ == with_case(
                old(self)@,
                path::joined(old(self)@.manifest_dir, path@),
                Kind::CompileFail,
            ),
            old(self)@.is_consistent() ==> this@.is_consistent(),
            *final(self) == *final(this),
    {
        self.push_file(path, Kind::CompileFail);
        self
    }

    /// Register every `.rs` file directly in `dir` as a compile-fail fixture,
    /// ordered by file name so the report is stable. `listing` is what reading
    /// the directory at [`resolve`](TestCases::resolve) gave.
    ///
    /// Registration is not recursive, and it is checked rather than trusted:
    /// when the suite runs, every `.rs` file anywhere under `dir` must be covered
    /// by some registration, and every `.stderr` file must be the golden of a
    /// registered `compile_fail` fixture. Anything else fails the run, named.
    pub fn compile_fail_dir(&mut self, dir: &Spelled, listing: &Listing) -> (this: &mut Self)
        ensures
            this@ == with_dir(old(self)@, dir.path@, dir.text@, *listing, Kind::CompileFail),
            old(self)@.is_consistent() ==> this@.is_consistent(),
            *final(self) == *final(this),
    {
        self.push_dir(dir, listing, Kind::CompileFail);
        self
    }

    /// Register one fixture that must compile. There is no golden; the assertion
    /// is the exit status.
    pub fn pass(&mut self, path: &PathBuf) -> (this: &mut Self)
        ensures
            this@ == with_case(
                old(self)@,
                path::joined(old(self)@.manifest_dir, path@),
                Kind::Pass,
            ),
            old(self)@.is_consistent() ==> this@.is_consistent(),
            *final(self) == *final(this),
    {
        self.push_file(path, Kind::Pass);
        self
    }

    /// Register every `.rs` file directly in `dir` as a pass fixture. `listing` is
    /// what reading the directory at [`resolve`](TestCases::resolve) gave.
    ///
    /// Not recursive, and checked the same way as
    /// [`compile_fail_dir`](TestCases::compile_fail_dir).
    pub fn pass_dir(&mut self, dir: &Spelled, listing: &Listing) -> (this: &mut Self)
        ensures
            this@ == with_dir(old(self)@, dir.path@, dir.text@, *listing, Kind::Pass),
            old(self)@.is_consistent() ==> this@.is_consistent(),
            *final(self) == *final(this),
    {
        self.push_dir(dir, listing, Kind::Pass);
        self
    }

    /// `path` resolved against the host crate's manifest directory.
    pub fn resolve(&self, path: &PathBuf) -> (resolved: PathBuf)
        ensures
            resolved@ == path::joined(self@.manifest_dir, path@),
    {
        lexical_join(&self.manifest_dir, path)
    }

    /// The host crate's manifest directory.
    pub fn manifest_dir(&self) -> (dir: &PathBuf)
        ensures
            dir@ == self@.manifest_dir,
    {
        &self.manifest_dir
    }

    /// The host crate's package name.
    pub fn host_pkg_name(&self) -> (name: &str)
        ensures
            name@ == self@.host_pkg_name,
    {
        self.host_pkg_name.as_str()
    }

    /// The edition fixtures are compiled under.
    pub fn declared_edition(&self) -> (edition: &str)
        ensures
            edition@ == self@.edition,
    {
        self.edition.as_str()
    }

    /// How diagnostics are compared against goldens.
    pub fn comparison(&self) -> (mode: Mode)
        ensures
            mode == self@.mode,
    {
        self.mode
    }

    /// Whether implementor lists are replaced by a placeholder.
    pub fn elides_implementors(&self) -> (yes: bool)
        ensures
            yes == self@.elide_implementors,
    {
        self.elide_implementors
    }

    /// Whether to bless, where the caller said so outright.
    pub fn explicit_overwrite(&self) -> (overwrite: Option<bool>)
        ensures
            overwrite == self@.overwrite,
    {
        self.overwrite
    }

    /// The dependencies every fixture can use.
    pub fn declared_dependencies(&self) -> (dependencies: &Vec<Dependency>)
        ensures
            scratch::declared(dependencies@) == self@.dependencies,
    {
        &self.dependencies
    }

    /// Raw text for the end of the generated manifest.
    pub fn appended_lines(&self) -> (lines: &Vec<String>)
        ensures
            text::strings(lines@) == self@.raw_manifest_lines,
    {
        &self.raw_manifest_lines
    }

    /// The registered fixtures, in the order they were registered.
    pub fn registered_cases(&self) -> (cases: &Vec<Case>)
        ensures
            registered(cases@) == self@.cases,
    {
        &self.cases
    }

    /// Every directory registered and read, once each.
    pub fn registered_directories(&self) -> (directories: &Vec<PathBuf>)
        ensures
            path::paths(directories@) == self@.directories,
    {
        &self.directories
    }

    /// The fixtures refused at registration.
    pub fn refused_fixtures(&self) -> (refused: &Vec<PathBuf>)
        ensures
            path::paths(refused@) == self@.refused_fixtures,
    {
        &self.refused_fixtures
    }

    /// Problems found while registering.
    pub fn setup_failures(&self) -> (setup: &Vec<Failure>)
        ensures
            outcome::problems(setup@) == self@.setup,
    {
        &self.setup
    }

    fn push_file(&mut self, path: &PathBuf, kind: Kind)
        ensures
            final(self)@ == with_case(
                old(self)@,
                path::joined(old(self)@.manifest_dir, path@),
                kind,
            ),
            old(self)@.is_consistent() ==> final(self)@.is_consistent(),
    {
        let absolute = self.resolve(path);
        self.push_case(absolute, kind);
    }

    /// The one place a [`Case`] is built, so its bin name is never left to a
    /// caller to keep in step with its path, and every registration is validated
    /// the same way however it arrived.
    fn push_case(&mut self, absolute: PathBuf, kind: Kind)
        ensures
            final(self)@ == with_case(old(self)@, absolute@, kind),
            old(self)@.is_consistent() ==> final(self)@.is_consistent(),
    {
        let ghost before = self@;
        proof {
            if before.is_consistent() {
                lemma_with_case_is_consistent(before, absolute@, kind);
            }
        }
        // The relative path is the fixture's identity in its golden and the
        // input to its bin name, so it has to survive as text exactly.
        let from = absolute.from_base(&self.manifest_dir);
        if !from.is_utf8() {
            let text = from.display_like(&absolute);
            let failure = Failure::NonUtf8Fixture { fixture: Spelled { path: from, text } };
            self.setup.push(failure);
            assert(self@.setup =~= before.setup.push(failure@));
            self.refused_fixtures.push(absolute);
            assert(self@.refused_fixtures =~= before.refused_fixtures.push(absolute@));
            return;
        }
        let relative = from.display();
        // The bin name is a pure function of the relative path, so a second
        // registration of one fixture would be a second `[[bin]]` of the same
        // name. Under one kind it asks for nothing new; under two it asks for a
        // contradiction no manifest can express.
        if let Some(at) = self.find_case(relative.as_str()) {
            let registered_as = self.cases[at].kind;
            assert(before.cases[at as int] == self.cases@[at as int]@);
            if registered_as != kind {
                let failure = Failure::ConflictingRegistration {
                    fixture: from,
                    registered: registered_as,
                    conflicting: kind,
                };
                self.setup.push(failure);
                assert(self@.setup =~= before.setup.push(failure@));
            }
            return;
        }
        let case = Case { bin: bin_name(relative.as_str()), relative, absolute, kind };
        self.cases.push(case);
        assert(self@.cases =~= before.cases.push(case@));
    }

    /// Which case is the fixture at `relative`.
    fn find_case(&self, relative: &str) -> (at: Option<usize>)
        ensures
            match at {
                Some(at) => case_at(self@.cases, relative@) == Some(at as int) && at
                    < self.cases@.len(),
                None => case_at(self@.cases, relative@) is None,
            },
    {
        let ghost all = self@.cases;
        for i in 0..self.cases.len()
            invariant
                all == registered(self.cases@),
                all == self@.cases,
                forall|k: int| 0 <= k < i ==> (#[trigger] all[k]).relative != relative@,
        {
            assert(all[i as int] == self.cases@[i as int]@);
            if same_str(self.cases[i].relative.as_str(), relative) {
                proof {
                    lemma_case_at_is(all, relative@, Some(i as int));
                }
                return Some(i);
            }
        }
        proof {
            lemma_case_at_is(all, relative@, None);
        }
        None
    }

    fn push_dir(&mut self, dir: &Spelled, listing: &Listing, kind: Kind)
        ensures
            final(self)@ == with_dir(old(self)@, dir.path@, dir.text@, *listing, kind),
            old(self)@.is_consistent() ==> final(self)@.is_consistent(),
    {
        let ghost before = self@;
        proof {
            if before.is_consistent() {
                lemma_with_dir_is_consistent(before, dir.path@, dir.text@, *listing, kind);
            }
        }
        let absolute = self.resolve(&dir.path);
        let entries = match listing {
            Listing::Unreadable(message) => {
                let mut context = chars_of("could not read the fixture directory ");
                extend_str(&mut context, dir.text.as_str());
                let failure = io_failure(string_of(&context), message.as_str());
                self.setup.push(failure);
                assert(self@.setup =~= before.setup.push(failure@));
                return;
            },
            Listing::Broken(message) => {
                let mut context = chars_of("could not read an entry of ");
                extend_str(&mut context, dir.text.as_str());
                let failure = io_failure(string_of(&context), message.as_str());
                self.setup.push(failure);
                assert(self@.setup =~= before.setup.push(failure@));
                return;
            },
            Listing::Entries(entries) => entries,
        };
        let files = fixture_files(&absolute, entries);
        // Recorded only once it has been read in full: a directory that could
        // not be has its failure already.
        let first = !listed(&self.directories, &absolute);
        if first {
            self.directories.push(absolute.copied());
            assert(self@.directories =~= before.directories.push(absolute@));
        }
        let ghost kept = self@;
        assert(files@.len() == path::paths(files@).len());
        // A directory that matches nothing means the suite is not running, which
        // is worth saying out loud. Once per directory: registering it again
        // does not make it any emptier.
        if files.len() == 0 {
            if first {
                let failure = Failure::NoFixtures {
                    directory: absolute.told_from(&self.manifest_dir),
                };
                self.setup.push(failure);
                assert(self@.setup =~= kept.setup.push(failure@));
            }
            return;
        }
        // Sorted by file name so the report order does not depend on the file
        // system.
        let files = path::sort(files, Order::Name);
        let ghost all = path::paths(files@);
        for i in 0..files.len()
            invariant
                all == path::paths(files@),
                self@ == with_cases(kept, all.take(i as int), kind),
        {
            assert(all.take(i + 1).drop_last() =~= all.take(i as int));
            assert(all.take(i + 1).last() == files@[i as int]@);
            self.push_case(files[i].copied(), kind);
        }
        assert(all.take(all.len() as int) =~= all);
    }
}

/// The fixtures among `entries` of `directory`: the files named `.rs`.
fn fixture_files(directory: &PathBuf, entries: &Vec<Entry>) -> (files: Vec<PathBuf>)
    ensures
        path::paths(files@) == fixtures_in(directory@, entries@),
{
    let mut files: Vec<PathBuf> = Vec::new();
    assert(path::paths(files@) =~= fixtures_in(directory@, entries@.take(0)));
    for i in 0..entries.len()
        invariant
            path::paths(files@) == fixtures_in(directory@, entries@.take(i as int)),
    {
        let ghost before = path::paths(files@);
        assert(entries@.take(i + 1).drop_last() =~= entries@.take(i as int));
        let path = directory.child_named(&entries[i].name);
        if entries[i].is_file && path.has_extension("rs") {
            files.push(path);
            assert(path::paths(files@) =~= before.push(path@));
        }
    }
    assert(entries@.take(entries@.len() as int) =~= entries@);
    files
}

proof fn lemma_first_significant(lines: Seq<Seq<char>>)
    ensures
        first_significant(lines) matches Some(line) ==> line.len() != 0,
    decreases lines.len(),
{
    if lines.len() != 0 {
        lemma_first_significant(lines.skip(1));
    }
}

proof fn lemma_same_registrations(before: Suite, after: Suite)
    requires
        before.manifest_dir == after.manifest_dir,
        before.cases == after.cases,
        before.directories == after.directories,
        before.dependencies == after.dependencies,
    ensures
        before.is_consistent() ==> after.is_consistent(),
{
    if before.is_consistent() {
        assert forall|i: int| 0 <= i < after.cases.len() implies after.names(
            #[trigger] after.cases[i],
        ) by {
            assert(before.names(before.cases[i]));
        }
    }
}

} // verus!
