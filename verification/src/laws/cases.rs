//! What holds of registering fixtures and dependencies.

use vstd::prelude::*;
use vstd::utf8::*;

use crate::cases;
use crate::cases::{Entry, Listing, Suite};
use crate::laws::path::{law_the_order_paths_come_in_does_not_matter, tells_apart};
use crate::normalize;
use crate::outcome;
use crate::outcome::{Kind, Problem};
use crate::path;
use crate::path::{Order, Part};
use crate::run;

verus! {

// ---------------------------------------------------------------------------
// Fixtures.
// ---------------------------------------------------------------------------

/// Registering a fixture again as the same kind asks for nothing new.
///
/// A fixture that cannot be named is refused each time, and one that was
/// registered as the other kind is a conflict each time.
pub proof fn law_registering_twice_is_registering_once(
    suite: Suite,
    absolute: Seq<Part>,
    kind: Kind,
)
    requires
        path::is_text(path::seen_from(absolute, suite.manifest_dir)),
        match cases::case_at(
            suite.cases,
            path::shown(path::seen_from(absolute, suite.manifest_dir)),
        ) {
            Some(at) => suite.cases[at].kind == kind,
            None => true,
        },
    ensures
        cases::with_case(cases::with_case(suite, absolute, kind), absolute, kind)
            == cases::with_case(suite, absolute, kind),
{
    let relative = path::shown(path::seen_from(absolute, suite.manifest_dir));
    let next = cases::with_case(suite, absolute, kind);
    if cases::case_at(suite.cases, relative) is None {
        assert(next.cases.drop_last() =~= suite.cases);
        assert(cases::case_at(next.cases, relative) == Some(suite.cases.len() as int));
    }
}

/// Registering a fixture that is registered already changes no registration: the
/// first one stands. As the same kind it is asked for nothing new; as the other
/// kind it is reported, and that is all.
pub proof fn law_the_first_registration_stands(
    suite: Suite,
    absolute: Seq<Part>,
    kind: Kind,
    at: int,
)
    requires
        path::is_text(path::seen_from(absolute, suite.manifest_dir)),
        cases::case_at(
            suite.cases,
            path::shown(path::seen_from(absolute, suite.manifest_dir)),
        ) == Some(at),
    ensures
        suite.cases[at].kind == kind ==> cases::with_case(suite, absolute, kind) == suite,
        suite.cases[at].kind != kind ==> cases::with_case(suite, absolute, kind) == (Suite {
            setup: suite.setup.push(
                Problem::ConflictingRegistration {
                    fixture: path::seen_from(absolute, suite.manifest_dir),
                    registered: suite.cases[at].kind,
                    conflicting: kind,
                },
            ),
            ..suite
        }),
{
}

/// No registration is undone by a later one, no problem is forgotten, and nothing
/// that was refused is taken back.
pub proof fn law_registering_only_adds(suite: Suite, absolute: Seq<Part>, kind: Kind)
    ensures
        forall|i: int|
            0 <= i < suite.cases.len() ==> i < cases::with_case(suite, absolute, kind).cases.len()
                && (#[trigger] cases::with_case(suite, absolute, kind).cases[i])
                == suite.cases[i],
        forall|i: int|
            0 <= i < suite.setup.len() ==> i < cases::with_case(suite, absolute, kind).setup.len()
                && (#[trigger] cases::with_case(suite, absolute, kind).setup[i])
                == suite.setup[i],
        forall|path: Seq<Part>| #[trigger]
            suite.refused_fixtures.contains(path) ==> cases::with_case(
                suite,
                absolute,
                kind,
            ).refused_fixtures.contains(path),
{
    let next = cases::with_case(suite, absolute, kind);
    assert forall|path: Seq<Part>| #[trigger] suite.refused_fixtures.contains(path) implies
        next.refused_fixtures.contains(path) by {
        let i = suite.refused_fixtures.index_of(path);
        assert(next.refused_fixtures[i] == path);
    }
}

/// What is done about a fixture, in one sentence: it is refused, or it is
/// registered, now or before. None is passed over.
pub proof fn law_every_fixture_is_registered_or_refused(
    suite: Suite,
    absolute: Seq<Part>,
    kind: Kind,
)
    ensures
        ({
            let next = cases::with_case(suite, absolute, kind);
            let from = path::seen_from(absolute, suite.manifest_dir);
            if path::is_text(from) {
                exists|i: int|
                    0 <= i < next.cases.len() && (#[trigger] next.cases[i]).relative
                        == path::shown(from)
            } else {
                &&& next.refused_fixtures.contains(absolute)
                &&& next.setup.contains(
                    Problem::NonUtf8Fixture {
                        fixture: from,
                        spelled: path::native_like(from, absolute),
                    },
                )
                &&& next.cases == suite.cases
            }
        }),
{
    let next = cases::with_case(suite, absolute, kind);
    let from = path::seen_from(absolute, suite.manifest_dir);
    if path::is_text(from) {
        cases::lemma_case_at(suite.cases, path::shown(from));
        match cases::case_at(suite.cases, path::shown(from)) {
            Some(at) => {
                assert(next.cases[at].relative == path::shown(from));
            },
            None => {
                assert(next.cases[suite.cases.len() as int].relative == path::shown(from));
            },
        }
    } else {
        assert(next.refused_fixtures[suite.refused_fixtures.len() as int] == absolute);
        assert(next.setup[suite.setup.len() as int] == Problem::NonUtf8Fixture {
            fixture: from,
            spelled: path::native_like(from, absolute),
        });
    }
}

// ---------------------------------------------------------------------------
// Directories.
// ---------------------------------------------------------------------------

/// `entries` holds an entry called `name`, which is a file or is not.
pub open spec fn lists(entries: Seq<Entry>, name: Seq<u8>, is_file: bool) -> bool {
    exists|i: int|
        0 <= i < entries.len() && (#[trigger] entries[i]).name@ == name && entries[i].is_file
            == is_file
}

/// No two of `entries` are called the same.
pub open spec fn are_distinct(entries: Seq<Entry>) -> bool {
    forall|i: int, k: int|
        0 <= i < k < entries.len() ==> (#[trigger] entries[i]).name@ != (
        #[trigger] entries[k]).name@
}

proof fn lemma_fixtures_in(directory: Seq<Part>, entries: Seq<Entry>)
    requires
        are_distinct(entries),
    ensures
        forall|path: Seq<Part>| #[trigger]
            cases::fixtures_in(directory, entries).contains(path) <==> is_fixture_of(
                directory,
                entries,
                path,
            ),
        cases::fixtures_in(directory, entries).no_duplicates(),
        forall|i: int|
            0 <= i < cases::fixtures_in(directory, entries).len() ==> (#[trigger]
            cases::fixtures_in(directory, entries)[i]).len() == directory.len() + 1
                && cases::fixtures_in(directory, entries)[i].drop_last() == directory
                && cases::fixtures_in(directory, entries)[i].last() is Normal,
    decreases entries.len(),
{
    let all = cases::fixtures_in(directory, entries);
    if entries.len() != 0 {
        let rest = entries.drop_last();
        let last = entries.last();
        let before = cases::fixtures_in(directory, rest);
        let path = directory.push(Part::Normal(last.name@));
        assert forall|i: int, k: int| 0 <= i < k < rest.len() implies (#[trigger] rest[i]).name@
            != (#[trigger] rest[k]).name@ by {
            assert(entries[i].name@ != entries[k].name@);
        }
        lemma_fixtures_in(directory, rest);
        assert(path.drop_last() =~= directory);
        if before.contains(path) {
            assert(is_fixture_of(directory, rest, path));
            let i = choose|i: int|
                0 <= i < rest.len() && #[trigger] names(directory, rest[i], path);
            assert(path.last() == Part::Normal(rest[i].name@));
            assert(entries[i].name@ != entries[entries.len() - 1].name@);
        }
        assert forall|other: Seq<Part>| #[trigger] all.contains(other) <==> is_fixture_of(
            directory,
            entries,
            other,
        ) by {
            if all.contains(other) {
                let i = all.index_of(other);
                if i < before.len() {
                    assert(before[i] == other);
                    assert(before.contains(other));
                    let k = choose|k: int|
                        0 <= k < rest.len() && #[trigger] names(directory, rest[k], other);
                    assert(names(directory, entries[k], other));
                } else {
                    assert(names(directory, entries[entries.len() - 1], other));
                }
            }
            if is_fixture_of(directory, entries, other) {
                let k = choose|k: int|
                    0 <= k < entries.len() && #[trigger] names(directory, entries[k], other);
                if k < rest.len() {
                    assert(names(directory, rest[k], other));
                    assert(before.contains(other));
                    let i = before.index_of(other);
                    assert(all[i] == other);
                } else {
                    assert(all[all.len() - 1] == other);
                }
            }
        }
    } else {
        assert(all =~= Seq::<Seq<Part>>::empty());
    }
}

/// `path` is the fixture that `entry` of `directory` is.
spec fn names(directory: Seq<Part>, entry: Entry, path: Seq<Part>) -> bool {
    entry.is_file && path == directory.push(Part::Normal(entry.name@)) && path::extension(path)
        == Some(encode_utf8("rs"@))
}

/// `path` is one of the fixtures among `entries` of `directory`.
spec fn is_fixture_of(directory: Seq<Part>, entries: Seq<Entry>, path: Seq<Part>) -> bool {
    exists|i: int| 0 <= i < entries.len() && #[trigger] names(directory, entries[i], path)
}

/// A directory is registered the same whatever order the file system lists it
/// in.
pub proof fn law_the_order_of_a_listing_does_not_matter(
    suite: Suite,
    dir: Seq<Part>,
    spelled: Seq<char>,
    a: Vec<Entry>,
    b: Vec<Entry>,
    kind: Kind,
)
    requires
        are_distinct(a@),
        are_distinct(b@),
        forall|name: Seq<u8>, is_file: bool| lists(a@, name, is_file) <==> lists(b@, name, is_file),
    ensures
        cases::with_dir(suite, dir, spelled, Listing::Entries(a), kind) == cases::with_dir(
            suite,
            dir,
            spelled,
            Listing::Entries(b),
            kind,
        ),
{
    broadcast use vstd::seq_lib::group_to_multiset_ensures;

    let absolute = path::joined(suite.manifest_dir, dir);
    let (c, d) = (cases::fixtures_in(absolute, a@), cases::fixtures_in(absolute, b@));
    lemma_fixtures_in(absolute, a@);
    lemma_fixtures_in(absolute, b@);
    assert forall|path: Seq<Part>| c.contains(path) <==> d.contains(path) by {
        lemma_listed_alike(absolute, a@, b@, path);
        lemma_listed_alike(absolute, b@, a@, path);
    }
    c.lemma_multiset_has_no_duplicates();
    d.lemma_multiset_has_no_duplicates();
    assert forall|path: Seq<Part>| c.to_multiset().count(path) == d.to_multiset().count(path) by {
        assert(c.contains(path) <==> c.to_multiset().count(path) > 0);
        assert(d.contains(path) <==> d.to_multiset().count(path) > 0);
    }
    assert(c.to_multiset() =~= d.to_multiset());
    assert(c.len() == c.to_multiset().len());
    assert(d.len() == d.to_multiset().len());
    lemma_names_tell_apart(absolute, c);
    law_the_order_paths_come_in_does_not_matter(Order::Name, c, d);
}

proof fn lemma_listed_alike(
    directory: Seq<Part>,
    a: Seq<Entry>,
    b: Seq<Entry>,
    path: Seq<Part>,
)
    requires
        forall|name: Seq<u8>, is_file: bool| lists(a, name, is_file) <==> lists(b, name, is_file),
    ensures
        is_fixture_of(directory, a, path) ==> is_fixture_of(directory, b, path),
{
    if is_fixture_of(directory, a, path) {
        let i = choose|i: int| 0 <= i < a.len() && #[trigger] names(directory, a[i], path);
        assert(lists(a, a[i].name@, true));
        assert(lists(b, a[i].name@, true));
        let k = choose|k: int|
            0 <= k < b.len() && (#[trigger] b[k]).name@ == a[i].name@ && b[k].is_file == true;
        assert(names(directory, b[k], path));
    }
}

proof fn lemma_names_tell_apart(directory: Seq<Part>, all: Seq<Seq<Part>>)
    requires
        all.no_duplicates(),
        forall|i: int|
            0 <= i < all.len() ==> (#[trigger] all[i]).len() == directory.len() + 1
                && all[i].drop_last() == directory && all[i].last() is Normal,
    ensures
        tells_apart(Order::Name, all),
{
    assert forall|i: int, k: int|
        0 <= i < all.len() && 0 <= k < all.len() && i != k implies path::goes_before(
        Order::Name,
        #[trigger] all[i],
        #[trigger] all[k],
    ) || path::goes_before(Order::Name, all[k], all[i]) by {
        let x = all[i].last()->Normal_0;
        let y = all[k].last()->Normal_0;
        assert(all[i] =~= directory.push(all[i].last()));
        assert(all[k] =~= directory.push(all[k].last()));
        crate::laws::path::lemma_bytes_total(x, y);
    }
}

// ---------------------------------------------------------------------------
// Dependencies.
// ---------------------------------------------------------------------------

/// A dependency that is refused is not declared, and while it stands refused
/// nothing is built. One that is not is declared, and nothing is said of it.
pub proof fn law_a_dependency_is_declared_or_refused(
    suite: Suite,
    name: Seq<char>,
    path: Seq<Part>,
)
    ensures
        ({
            let next = cases::with_dependency(suite, name, path);
            let resolved = path::joined(suite.manifest_dir, path);
            if cases::refusals(name, resolved).len() == 0 {
                next.setup == suite.setup && next.dependencies.len() == suite.dependencies.len()
                    + 1
            } else {
                next.dependencies == suite.dependencies && run::is_refused(next.setup)
            }
        }),
{
    let next = cases::with_dependency(suite, name, path);
    let reasons = cases::refusals(name, path::joined(suite.manifest_dir, path));
    if reasons.len() != 0 {
        assert(outcome::refuses(reasons[0]));
        assert(next.setup[suite.setup.len() as int] == reasons[0]);
        assert(outcome::refuses(next.setup[suite.setup.len() as int]));
    }
}

/// Whether a name is refused does not depend on where the dependency lives, nor
/// on the case of its letters or on `-` and `_`.
pub proof fn law_a_reserved_name_is_refused_wherever_it_lives(
    a: Seq<char>,
    b: Seq<char>,
    path: Seq<Part>,
)
    requires
        normalize::is_reserved(normalize::placeholder_of(a)),
        normalize::placeholder_of(a) == normalize::placeholder_of(b),
    ensures
        cases::refusals(b, path).contains(
            Problem::ReservedDependencyName {
                name: b,
                placeholder: normalize::placeholder_of(b),
            },
        ),
{
    let all = cases::refusals(b, path);
    let at: int = if b.len() == 0 {
        1
    } else {
        0
    };
    assert(all[at] == Problem::ReservedDependencyName {
        name: b,
        placeholder: normalize::placeholder_of(b),
    });
}

/// Raw text for the manifest is taken exactly where it opens with a table header,
/// or holds nothing but comments. Text that is refused is not kept, and while it
/// stands refused nothing is built.
pub proof fn law_raw_lines_are_taken_or_refused(suite: Suite, lines: Seq<char>)
    ensures
        cases::opens_a_table(lines) ==> cases::with_raw_lines(suite, lines) == (Suite {
            raw_manifest_lines: suite.raw_manifest_lines.push(lines),
            ..suite
        }),
        !cases::opens_a_table(lines) ==> cases::with_raw_lines(suite, lines).raw_manifest_lines
            == suite.raw_manifest_lines && run::is_refused(
            cases::with_raw_lines(suite, lines).setup,
        ),
{
    if !cases::opens_a_table(lines) {
        let next = cases::with_raw_lines(suite, lines);
        assert(outcome::refuses(next.setup[suite.setup.len() as int]));
    }
}

} // verus!
