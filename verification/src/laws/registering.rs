//! What a suite holds after each thing that is asked of it.

use vstd::prelude::*;
use vstd::utf8::*;

use crate::cases;
use crate::cases::{Entry, Listing, Registered, Suite};
use crate::laws::brief::{gathered, lemma_gathered_in_two, lemma_gathered_is_kept};
use crate::laws::cases::{
    law_every_fixture_is_registered_or_refused, law_registering_only_adds,
};
use crate::laws::path::{lemma_last_dot, law_sorting_puts_the_same_paths_in_order};
use crate::laws::table::{law_what_is_reserved, lemma_gathered_has};
use crate::normalize;
use crate::outcome;
use crate::outcome::{Kind, Problem};
use crate::path;
use crate::path::{Order, Part};
use crate::scratch;
use crate::scratch::Declared;
use crate::text;

verus! {

// ---------------------------------------------------------------------------
// Dependencies and manifest lines.
// ---------------------------------------------------------------------------

/// The placeholder of a dependency called `name` stands for something else.
pub open spec fn is_taken(name: Seq<char>) -> bool {
    seq![
        "$DIR"@,
        "$SCRATCH"@,
        "$CARGO_REGISTRY"@,
        "$CARGO_HOME"@,
        "$RUST"@,
        "$CRATE"@,
        "$N"@,
        "$IMPLEMENTORS"@,
    ].contains(normalize::placeholder_of(name))
}

/// Every name in `parts` is UTF-8.
pub open spec fn can_be_named(parts: Seq<Part>) -> bool {
    forall|i: int|
        0 <= i < parts.len() ==> match #[trigger] parts[i] {
            Part::Prefix(name) => valid_utf8(name),
            Part::Normal(name) => valid_utf8(name),
            _ => true,
        }
}

pub(crate) proof fn lemma_can_be_named(parts: Seq<Part>)
    ensures
        path::is_text(parts) == can_be_named(parts),
{
    if path::is_text(parts) {
        assert forall|i: int| 0 <= i < parts.len() implies match #[trigger] parts[i] {
            Part::Prefix(name) => valid_utf8(name),
            Part::Normal(name) => valid_utf8(name),
            _ => true,
        } by {
            assert(path::part_is_text(parts[i]));
        }
    }
    if can_be_named(parts) {
        assert forall|i: int| 0 <= i < parts.len() implies path::part_is_text(
            #[trigger] parts[i],
        ) by {
            assert(parts[i] == parts[i]);
        }
    }
}

/// A dependency is declared, resolved against the host crate, behind those declared
/// before, unless its name is empty, its placeholder is taken, or its path cannot
/// be written. Each of these that holds is reported, and it is not declared then.
#[verifier::rlimit(40)]
pub proof fn law_what_declaring_a_dependency_does(
    suite: Suite,
    name: Seq<char>,
    path: Seq<Part>,
)
    ensures
        ({
            let next = cases::with_dependency(suite, name, path);
            let resolved = path::joined(suite.manifest_dir, path);
            let placeholder = normalize::placeholder_of(name);
            let reasons = if name.len() == 0 {
                seq![Problem::EmptyDependencyName { path: resolved }]
            } else {
                seq![]
            } + if is_taken(name) {
                seq![Problem::ReservedDependencyName { name, placeholder }]
            } else {
                seq![]
            } + if !can_be_named(resolved) {
                seq![Problem::NonUtf8Dependency { name, path: resolved }]
            } else {
                seq![]
            };
            &&& next.dependencies == suite.dependencies + if name.len() != 0 && !is_taken(name)
                && can_be_named(resolved) {
                seq![Declared { name, path: resolved }]
            } else {
                seq![]
            }
            &&& next.setup == suite.setup + reasons
            &&& next == (Suite { dependencies: next.dependencies, setup: next.setup, ..suite })
        }),
{
    let resolved = path::joined(suite.manifest_dir, path);
    law_what_is_reserved(normalize::placeholder_of(name));
    lemma_can_be_named(resolved);
    let next = cases::with_dependency(suite, name, path);
    assert(suite.dependencies + Seq::<Declared>::empty() =~= suite.dependencies);
    assert(suite.setup + Seq::<Problem>::empty() =~= suite.setup);
    let reasons = cases::refusals(name, resolved);
    if name.len() != 0 && !is_taken(name) && can_be_named(resolved) {
        assert(reasons =~= seq![]);
        assert(next.dependencies =~= suite.dependencies + seq![Declared { name, path: resolved }]);
    } else {
        assert(reasons.len() > 0);
    }
}

/// `line` says something: it is not blank and no comment.
pub open spec fn says_something(line: Seq<char>) -> bool {
    !text::is_blank(line) && text::trim(line)[0] != '#'
}

proof fn lemma_trimmed(line: Seq<char>)
    ensures
        text::is_blank(line) <==> text::trim(line).len() == 0,
{
    text::lemma_trim_start(line);
    let rest = text::trim_start(line);
    text::lemma_trim_end(rest);
    let n = text::indent_len(line);
    if text::is_blank(line) {
        assert forall|i: int| 0 <= i < rest.len() implies text::is_space(#[trigger] rest[i]) by {
            assert(rest[i] == line[n + i]);
        }
    } else {
        assert(n < line.len());
        assert(rest[0] == line[n]);
        assert(!text::is_space(rest[0]));
    }
}

proof fn lemma_first_significant(lines: Seq<Seq<char>>)
    ensures
        match cases::first_significant(lines) {
            Some(line) => exists|at: int|
                0 <= at < lines.len() && #[trigger] says_something(lines[at]) && line
                    == text::trim(lines[at]) && forall|i: int|
                    0 <= i < at ==> !#[trigger] says_something(lines[i]),
            None => forall|i: int| 0 <= i < lines.len() ==> !#[trigger] says_something(lines[i]),
        },
    decreases lines.len(),
{
    if lines.len() != 0 {
        lemma_trimmed(lines[0]);
        if !says_something(lines[0]) {
            let rest = lines.skip(1);
            lemma_first_significant(rest);
            assert forall|i: int| 0 <= i < rest.len() implies #[trigger] rest[i] == lines[i
                + 1] by {}
            match cases::first_significant(lines) {
                Some(line) => {
                    let at = choose|at: int|
                        0 <= at < rest.len() && #[trigger] says_something(rest[at]) && line
                            == text::trim(rest[at]) && forall|i: int|
                            0 <= i < at ==> !#[trigger] says_something(rest[i]);
                    assert(says_something(lines[at + 1]));
                    assert forall|i: int| 0 <= i < at + 1 implies !#[trigger] says_something(
                        lines[i],
                    ) by {
                        if i > 0 {
                            assert(!says_something(rest[i - 1]));
                        }
                    }
                },
                None => {
                    assert forall|i: int| 0 <= i < lines.len() implies !#[trigger] says_something(
                        lines[i],
                    ) by {
                        if i > 0 {
                            assert(!says_something(rest[i - 1]));
                        }
                    }
                },
            }
        }
    }
}

/// Text for the end of the manifest is taken, behind what was taken before, where
/// the first line of it that says something opens a table, or where none says
/// anything. Where that line opens none it is reported, and the text is not taken.
pub proof fn law_what_adding_manifest_lines_does(suite: Suite, raw: Seq<char>, at: int)
    ensures
        ({
            let lines = text::lines(raw);
            let next = cases::with_raw_lines(suite, raw);
            let taken = Suite {
                raw_manifest_lines: suite.raw_manifest_lines.push(raw),
                ..suite
            };
            &&& (forall|i: int| 0 <= i < lines.len() ==> !#[trigger] says_something(lines[i]))
                ==> next == taken
            &&& 0 <= at < lines.len() && says_something(lines[at]) && (forall|i: int|
                0 <= i < at ==> !#[trigger] says_something(lines[i])) ==> next == if text::trim(
                lines[at],
            )[0] == '[' {
                taken
            } else {
                Suite {
                    setup: suite.setup.push(
                        Problem::RawManifestLinesWithoutHeader { line: text::trim(lines[at]) },
                    ),
                    ..suite
                }
            }
        }),
{
    let lines = text::lines(raw);
    lemma_first_significant(lines);
    if let Some(line) = cases::first_significant(lines) {
        let found = choose|found: int|
            0 <= found < lines.len() && #[trigger] says_something(lines[found]) && line
                == text::trim(lines[found]) && forall|i: int|
                0 <= i < found ==> !#[trigger] says_something(lines[i]);
        if 0 <= at < lines.len() && says_something(lines[at]) && (forall|i: int|
            0 <= i < at ==> !#[trigger] says_something(lines[i])) {
            if found < at {
                assert(!says_something(lines[found]));
            } else if at < found {
                assert(!says_something(lines[at]));
            }
        }
    }
}

// ---------------------------------------------------------------------------
// Fixtures.
// ---------------------------------------------------------------------------

/// The fixture shown as `relative` is registered.
pub open spec fn is_there(suite: Suite, relative: Seq<char>) -> bool {
    exists|i: int| 0 <= i < suite.cases.len() && (#[trigger] suite.cases[i]).relative == relative
}

/// A fixture that can be named and is not registered yet is, behind those that are:
/// under where it lies, as the kind asked for. One that cannot be named is refused,
/// and nothing else changes.
#[verifier::rlimit(40)]
pub proof fn law_what_registering_a_fixture_does(
    suite: Suite,
    absolute: Seq<Part>,
    kind: Kind,
)
    ensures
        ({
            let from = path::seen_from(absolute, suite.manifest_dir);
            let next = cases::with_case(suite, absolute, kind);
            &&& can_be_named(from) && !is_there(suite, path::shown(from)) ==> next == (Suite {
                cases: suite.cases.push(
                    Registered {
                        relative: path::shown(from),
                        absolute,
                        bin: scratch::bin_of(path::shown(from)),
                        kind,
                    },
                ),
                ..suite
            })
            &&& can_be_named(from) && is_there(suite, path::shown(from)) ==> next.cases
                == suite.cases && next.refused_fixtures == suite.refused_fixtures
            &&& !can_be_named(from) ==> next == (Suite {
                setup: suite.setup.push(
                    Problem::NonUtf8Fixture {
                        fixture: from,
                        spelled: path::native_like(from, absolute),
                    },
                ),
                refused_fixtures: suite.refused_fixtures.push(absolute),
                ..suite
            })
        }),
{
    let from = path::seen_from(absolute, suite.manifest_dir);
    lemma_can_be_named(from);
    cases::lemma_case_at(suite.cases, path::shown(from));
}

/// A fixture that is registered already stays as it is. Asking for the kind it is
/// registered as is asking for nothing, and asking for the other is reported.
pub proof fn law_what_registering_a_fixture_again_does(
    suite: Suite,
    absolute: Seq<Part>,
    kind: Kind,
    at: int,
)
    requires
        0 <= at < suite.cases.len(),
        can_be_named(path::seen_from(absolute, suite.manifest_dir)),
        suite.cases[at].relative == path::shown(path::seen_from(absolute, suite.manifest_dir)),
        forall|i: int|
            0 <= i < at ==> (#[trigger] suite.cases[i]).relative != suite.cases[at].relative,
    ensures
        cases::with_case(suite, absolute, kind) == if suite.cases[at].kind == kind {
            suite
        } else {
            Suite {
                setup: suite.setup.push(
                    Problem::ConflictingRegistration {
                        fixture: path::seen_from(absolute, suite.manifest_dir),
                        registered: suite.cases[at].kind,
                        conflicting: kind,
                    },
                ),
                ..suite
            }
        },
{
    let from = path::seen_from(absolute, suite.manifest_dir);
    lemma_can_be_named(from);
    cases::lemma_case_at_is(suite.cases, path::shown(from), Some(at));
}

// ---------------------------------------------------------------------------
// Directories.
// ---------------------------------------------------------------------------

/// `name` ends in `.rs`, and something stands before that.
pub open spec fn is_named_rs(name: Seq<u8>) -> bool {
    let n = name.len() as int;
    n > 3 && name[n - 3] == 0x2e && name[n - 2] == 0x72 && name[n - 1] == 0x73
}

pub(crate) proof fn lemma_named_rs(directory: Seq<Part>, name: Seq<u8>)
    ensures
        (path::extension(directory.push(Part::Normal(name))) == Some(encode_utf8("rs"@)))
            == is_named_rs(name),
{
    let path = directory.push(Part::Normal(name));
    assert(path.last() == Part::Normal(name));
    lemma_last_dot(name);
    reveal_strlit("rs");
    is_ascii_chars_encode_utf8("rs"@);
    let rs = encode_utf8("rs"@);
    assert(rs.len() == 2 && rs[0] == 0x72 && rs[1] == 0x73);
    let n = name.len() as int;
    if is_named_rs(name) {
        let at = path::last_dot(name)->0;
        assert(at == n - 3) by {
            if at < n - 3 {
                assert(name[n - 3] != path::DOT);
            }
        }
        assert(name.skip(at + 1) =~= rs);
    }
    if path::extension(path) == Some(rs) {
        let at = path::extension_at(name)->0;
        assert(name.skip(at + 1)[0] == name[at + 1]);
        assert(name.skip(at + 1)[1] == name[at + 2]);
        assert(name.skip(at + 1).len() == n - at - 1);
    }
}

/// The fixtures in a directory are the files in it whose names end in `.rs`, every
/// one of them.
pub proof fn law_every_rs_file_is_a_fixture(directory: Seq<Part>, entries: Seq<Entry>)
    ensures
        cases::fixtures_in(directory, entries) == gathered(
            0,
            entries.len() as int,
            |i: int| entries[i].is_file && is_named_rs(entries[i].name@),
            |i: int| directory.push(Part::Normal(entries[i].name@)),
        ),
{
    lemma_fixtures(directory, entries, entries.len() as int);
    assert(entries.take(entries.len() as int) =~= entries);
}

proof fn lemma_fixtures(directory: Seq<Part>, entries: Seq<Entry>, to: int)
    requires
        0 <= to <= entries.len(),
    ensures
        cases::fixtures_in(directory, entries.take(to)) == gathered(
            0,
            to,
            |i: int| entries[i].is_file && is_named_rs(entries[i].name@),
            |i: int| directory.push(Part::Normal(entries[i].name@)),
        ),
    decreases to,
{
    let keeps = |i: int| entries[i].is_file && is_named_rs(entries[i].name@);
    let shows = |i: int| directory.push(Part::Normal(entries[i].name@));
    if to > 0 {
        lemma_fixtures(directory, entries, to - 1);
        lemma_named_rs(directory, entries[to - 1].name@);
        lemma_gathered_in_two(0, to - 1, to, keeps, shows);
        let some = entries.take(to);
        assert(some.drop_last() =~= entries.take(to - 1));
        assert(some.last() == entries[to - 1]);
        assert(gathered(to, to, keeps, shows) =~= seq![]);
        assert(gathered(to - 1, to, keeps, shows) =~= if keeps(to - 1) {
            seq![shows(to - 1)]
        } else {
            seq![]
        });
        assert(cases::fixtures_in(directory, some) =~= gathered(0, to, keeps, shows));
    }
}

/// The fixture at `absolute` is registered in `suite`, or refused.
pub open spec fn is_accounted_for(suite: Suite, absolute: Seq<Part>) -> bool {
    if can_be_named(path::seen_from(absolute, suite.manifest_dir)) {
        is_there(suite, path::shown(path::seen_from(absolute, suite.manifest_dir)))
    } else {
        suite.refused_fixtures.contains(absolute)
    }
}

proof fn lemma_still_accounted_for(
    suite: Suite,
    absolute: Seq<Part>,
    kind: Kind,
    other: Seq<Part>,
)
    requires
        is_accounted_for(suite, other),
    ensures
        is_accounted_for(cases::with_case(suite, absolute, kind), other),
{
    law_registering_only_adds(suite, absolute, kind);
    let next = cases::with_case(suite, absolute, kind);
    assert(next.manifest_dir == suite.manifest_dir);
    let relative = path::shown(path::seen_from(other, suite.manifest_dir));
    if is_there(suite, relative) {
        let i = choose|i: int|
            0 <= i < suite.cases.len() && (#[trigger] suite.cases[i]).relative == relative;
        assert(next.cases[i].relative == relative);
    }
}

/// Registering fixtures takes no registration back, and adds only those fixtures, as
/// the kind asked for.
#[verifier::rlimit(40)]
proof fn lemma_only_these_added(suite: Suite, files: Seq<Seq<Part>>, kind: Kind)
    ensures
        ({
            let next = cases::with_cases(suite, files, kind);
            &&& next.manifest_dir == suite.manifest_dir
            &&& next.directories == suite.directories
            &&& suite.cases.is_prefix_of(next.cases)
            &&& are_new_ones(next, suite.cases.len() as int, files, kind)
        }),
    decreases files.len(),
{
    if files.len() != 0 {
        let rest = files.drop_last();
        let last = files.last();
        let before = cases::with_cases(suite, rest, kind);
        lemma_only_these_added(suite, rest, kind);
        let next = cases::with_cases(suite, files, kind);
        law_what_registering_a_fixture_does(before, last, kind);
        assert(before.cases.is_prefix_of(next.cases));
        assert(suite.cases.is_prefix_of(next.cases)) by {
            assert(suite.cases =~= before.cases.subrange(0, suite.cases.len() as int));
            assert(before.cases =~= next.cases.subrange(0, before.cases.len() as int));
            assert(suite.cases =~= next.cases.subrange(0, suite.cases.len() as int));
        }
        assert forall|i: int| suite.cases.len() <= i < next.cases.len() implies is_new_one(
            #[trigger] next.cases[i],
            files,
            kind,
        ) by {
            if i < before.cases.len() {
                assert(next.cases[i] == before.cases[i]);
                assert(is_new_one(before.cases[i], rest, kind));
                let k = rest.index_of(before.cases[i].absolute);
                assert(files[k] == before.cases[i].absolute);
            } else {
                assert(next.cases[i].absolute == last);
                assert(files[files.len() - 1] == last);
            }
        }
    }
}

/// `case` is one of `files`, registered as `kind`.
pub open spec fn is_new_one(case: Registered, files: Seq<Seq<Part>>, kind: Kind) -> bool {
    case.kind == kind && files.contains(case.absolute)
}

/// The cases of `suite` from `from` on are some of `files`, registered as `kind`.
pub open spec fn are_new_ones(
    suite: Suite,
    from: int,
    files: Seq<Seq<Part>>,
    kind: Kind,
) -> bool {
    forall|i: int|
        from <= i < suite.cases.len() ==> is_new_one(#[trigger] suite.cases[i], files, kind)
}

/// Of fixtures that are registered together, all are accounted for.
proof fn lemma_all_accounted_for(suite: Suite, files: Seq<Seq<Part>>, kind: Kind, at: int)
    requires
        0 <= at < files.len(),
    ensures
        is_accounted_for(cases::with_cases(suite, files, kind), files[at]),
    decreases files.len(),
{
    let rest = files.drop_last();
    let last = files.last();
    let before = cases::with_cases(suite, rest, kind);
    if at < rest.len() {
        lemma_all_accounted_for(suite, rest, kind, at);
        lemma_still_accounted_for(before, last, kind, files[at]);
    } else {
        law_what_registering_a_fixture_does(before, last, kind);
        law_every_fixture_is_registered_or_refused(before, last, kind);
        lemma_can_be_named(path::seen_from(last, before.manifest_dir));
    }
}

/// Fixtures are registered one behind another.
pub proof fn law_fixtures_are_registered_one_after_another(
    suite: Suite,
    files: Seq<Seq<Part>>,
    file: Seq<Part>,
    kind: Kind,
)
    ensures
        cases::with_cases(suite, files.push(file), kind) == cases::with_case(
            cases::with_cases(suite, files, kind),
            file,
            kind,
        ),
        cases::with_cases(suite, seq![], kind) == suite,
{
    assert(files.push(file).drop_last() =~= files);
}

/// Every file directly in a registered directory whose name ends in `.rs` is
/// registered or refused, however many there are. What was registered before
/// stays, what is new is one of these files, as the kind asked for, and the
/// directory is kept.
#[verifier::rlimit(40)]
pub proof fn law_every_fixture_of_a_directory_is_registered(
    suite: Suite,
    dir: Seq<Part>,
    spelled: Seq<char>,
    entries: Vec<Entry>,
    kind: Kind,
    at: int,
)
    ensures
        ({
            let next = cases::with_dir(suite, dir, spelled, Listing::Entries(entries), kind);
            let absolute = path::joined(suite.manifest_dir, dir);
            &&& next.directories.contains(absolute)
            &&& 0 <= at < entries@.len() && entries@[at].is_file && is_named_rs(
                entries@[at].name@,
            ) ==> is_accounted_for(next, absolute.push(Part::Normal(entries@[at].name@)))
            &&& suite.cases.is_prefix_of(next.cases)
            &&& are_new_ones(
                next,
                suite.cases.len() as int,
                gathered(
                    0,
                    entries@.len() as int,
                    |i: int| entries@[i].is_file && is_named_rs(entries@[i].name@),
                    |i: int| absolute.push(Part::Normal(entries@[i].name@)),
                ),
                kind,
            )
        }),
{
    broadcast use vstd::seq_lib::group_to_multiset_ensures;

    let absolute = path::joined(suite.manifest_dir, dir);
    let all = entries@;
    let keeps = |i: int| all[i].is_file && is_named_rs(all[i].name@);
    let shows = |i: int| absolute.push(Part::Normal(all[i].name@));
    law_every_rs_file_is_a_fixture(absolute, all);
    let files = cases::fixtures_in(absolute, all);
    let sorted = path::sorted(Order::Name, files);
    law_sorting_puts_the_same_paths_in_order(Order::Name, files);
    let kept = if suite.directories.contains(absolute) {
        suite
    } else {
        Suite { directories: suite.directories.push(absolute), ..suite }
    };
    lemma_only_these_added(kept, sorted, kind);
    let next = cases::with_dir(suite, dir, spelled, Listing::Entries(entries), kind);
    if !suite.directories.contains(absolute) {
        assert(kept.directories[suite.directories.len() as int] == absolute);
    }
    if 0 <= at < all.len() && keeps(at) {
        lemma_gathered_has(0, all.len() as int, keeps, shows, at);
        assert(files.contains(shows(at)));
        assert(sorted.to_multiset().count(shows(at)) > 0);
        assert(sorted.contains(shows(at)));
        lemma_all_accounted_for(kept, sorted, kind, sorted.index_of(shows(at)));
    }
    assert forall|i: int| suite.cases.len() <= i < next.cases.len() implies is_new_one(
        #[trigger] next.cases[i],
        files,
        kind,
    ) by {
        assert(is_new_one(next.cases[i], sorted, kind));
        assert(files.to_multiset().count(next.cases[i].absolute) > 0);
    }
}

/// Where a directory holds fixtures, they are registered in the order of their
/// names, and that is all that is done but for keeping the directory, once.
#[verifier::rlimit(40)]
pub proof fn law_what_registering_a_directory_does(
    suite: Suite,
    dir: Seq<Part>,
    spelled: Seq<char>,
    entries: Vec<Entry>,
    kind: Kind,
    at: int,
)
    requires
        0 <= at < entries@.len(),
        entries@[at].is_file,
        is_named_rs(entries@[at].name@),
    ensures
        ({
            let absolute = path::joined(suite.manifest_dir, dir);
            let files = gathered(
                0,
                entries@.len() as int,
                |i: int| entries@[i].is_file && is_named_rs(entries@[i].name@),
                |i: int| absolute.push(Part::Normal(entries@[i].name@)),
            );
            cases::with_dir(suite, dir, spelled, Listing::Entries(entries), kind)
                == cases::with_cases(
                Suite {
                    directories: suite.directories + if suite.directories.contains(absolute) {
                        seq![]
                    } else {
                        seq![absolute]
                    },
                    ..suite
                },
                path::sorted(Order::Name, files),
                kind,
            )
        }),
{
    let absolute = path::joined(suite.manifest_dir, dir);
    let all = entries@;
    let keeps = |i: int| all[i].is_file && is_named_rs(all[i].name@);
    let shows = |i: int| absolute.push(Part::Normal(all[i].name@));
    law_every_rs_file_is_a_fixture(absolute, all);
    lemma_gathered_has(0, all.len() as int, keeps, shows, at);
    assert(suite.directories + Seq::<Seq<Part>>::empty() =~= suite.directories);
    assert(suite.directories + seq![absolute] =~= suite.directories.push(absolute));
}

/// A directory that cannot be read, or in which no fixture is, is reported: the
/// first as it is spelled, with what went wrong, and the second the first time it
/// is registered.
#[verifier::rlimit(40)]
pub proof fn law_a_directory_that_gives_nothing_is_reported(
    suite: Suite,
    dir: Seq<Part>,
    spelled: Seq<char>,
    message: String,
    entries: Vec<Entry>,
    kind: Kind,
)
    ensures
        cases::with_dir(suite, dir, spelled, Listing::Unreadable(message), kind) == (Suite {
            setup: suite.setup.push(
                Problem::Io {
                    context: "could not read the fixture directory "@ + spelled,
                    message: message@,
                },
            ),
            ..suite
        }),
        cases::with_dir(suite, dir, spelled, Listing::Broken(message), kind) == (Suite {
            setup: suite.setup.push(
                Problem::Io {
                    context: "could not read an entry of "@ + spelled,
                    message: message@,
                },
            ),
            ..suite
        }),
        ({
            let absolute = path::joined(suite.manifest_dir, dir);
            (forall|i: int|
                0 <= i < entries@.len() ==> !((#[trigger] entries@[i]).is_file && is_named_rs(
                    entries@[i].name@,
                ))) ==> cases::with_dir(
                suite,
                dir,
                spelled,
                Listing::Entries(entries),
                kind,
            ) == if suite.directories.contains(absolute) {
                suite
            } else {
                Suite {
                    directories: suite.directories.push(absolute),
                    setup: suite.setup.push(
                        Problem::NoFixtures {
                            directory: path::told_from(absolute, suite.manifest_dir),
                        },
                    ),
                    ..suite
                }
            }
        }),
{
    let absolute = path::joined(suite.manifest_dir, dir);
    let all = entries@;
    let keeps = |i: int| all[i].is_file && is_named_rs(all[i].name@);
    let shows = |i: int| absolute.push(Part::Normal(all[i].name@));
    law_every_rs_file_is_a_fixture(absolute, all);
    if (forall|i: int|
        0 <= i < all.len() ==> !((#[trigger] all[i]).is_file && is_named_rs(all[i].name@))) {
        if cases::fixtures_in(absolute, all).len() != 0 {
            let k = lemma_gathered_is_kept(0, all.len() as int, keeps, shows, 0);
            assert(!(all[k].is_file && is_named_rs(all[k].name@)));
        }
    }
}

/// A run blesses where it is told to outright. If nothing is said outright, it does
/// where the variable reads `overwrite`, in upper or lower case.
pub proof fn law_when_a_run_blesses(explicit: Option<bool>, value: Seq<char>)
    ensures
        cases::blesses(Some(true), Some(value)),
        !cases::blesses(Some(false), Some(value)),
        cases::blesses(Some(true), None),
        !cases::blesses(Some(false), None),
        !cases::blesses(None, None),
        cases::blesses(None, Some(value)) <==> value.len() == 9 && forall|i: int|
            0 <= i < 9 ==> {
                ||| #[trigger] value[i] == "overwrite"@[i]
                ||| value[i] == "OVERWRITE"@[i]
            },
{
    reveal_strlit("overwrite");
    reveal_strlit("OVERWRITE");
    let lower = "overwrite"@;
    assert forall|i: int| 0 <= i < 9 implies (cases::lower(#[trigger] value[i]) == cases::lower(
        lower[i],
    ) <==> value[i] == lower[i] || value[i] == "OVERWRITE"@[i]) by {
        let c = value[i];
        if 'A' <= c && c <= 'Z' {
            let n = c as u32 + 32;
            assert(97 <= n <= 122);
        }
    }
}

/// A new suite asks for nothing: the latest edition, whole diagnostics, and no
/// fixture, dependency or manifest line of any kind.
pub proof fn law_what_a_new_suite_is(manifest_dir: Seq<Part>, name: Seq<char>)
    ensures
        ({
            let suite = cases::empty_suite(manifest_dir, name);
            &&& suite.manifest_dir == manifest_dir
            &&& suite.host_pkg_name == name
            &&& suite.edition == "2024"@
            &&& suite.mode is Exact
            &&& !suite.elide_implementors
            &&& suite.overwrite is None
            &&& suite.dependencies.len() == 0 && suite.raw_manifest_lines.len() == 0
            &&& suite.cases.len() == 0 && suite.directories.len() == 0
            &&& suite.refused_fixtures.len() == 0 && suite.setup.len() == 0
        }),
{
}

/// What refuses part of the manifest: text for it that opens no table, and a
/// dependency that is refused, for any reason. Nothing else does.
pub proof fn law_what_refuses_part_of_the_manifest(problem: Problem)
    ensures
        outcome::refuses(problem) <==> {
            ||| problem is RawManifestLinesWithoutHeader
            ||| problem is EmptyDependencyName
            ||| problem is ReservedDependencyName
            ||| problem is NonUtf8Dependency
        },
{
}

/// The first line that says something is the first, without the white space around
/// it, and text opens a table where that line begins with a bracket or there is
/// none.
pub proof fn law_which_line_says_something_first(raw: Seq<char>, at: int)
    ensures
        ({
            let lines = text::lines(raw);
            let first = 0 <= at < lines.len() && says_something(lines[at]) && (forall|i: int|
                0 <= i < at ==> !#[trigger] says_something(lines[i]));
            let none = forall|i: int|
                0 <= i < lines.len() ==> !#[trigger] says_something(lines[i]);
            &&& first ==> cases::first_significant(lines) == Some(text::trim(lines[at]))
            &&& first ==> cases::opens_a_table(raw) == (text::trim(lines[at])[0] == '[')
            &&& none ==> cases::first_significant(lines) is None && cases::opens_a_table(raw)
        }),
{
    let lines = text::lines(raw);
    lemma_first_significant(lines);
    if let Some(line) = cases::first_significant(lines) {
        let found = choose|found: int|
            0 <= found < lines.len() && #[trigger] says_something(lines[found]) && line
                == text::trim(lines[found]) && forall|i: int|
                0 <= i < found ==> !#[trigger] says_something(lines[i]);
        if 0 <= at < lines.len() && says_something(lines[at]) && (forall|i: int|
            0 <= i < at ==> !#[trigger] says_something(lines[i])) {
            if found < at {
                assert(!says_something(lines[found]));
            } else if at < found {
                assert(!says_something(lines[at]));
            }
        }
    }
}

} // verus!
