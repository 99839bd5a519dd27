//! What a run makes of everything it finds in a registered directory.

use vstd::prelude::*;
use vstd::utf8::*;

use crate::cases;
use crate::cases::Suite;
use crate::laws::brief::{gathered, lemma_gathered_in_two};
use crate::laws::path::lemma_last_dot;
use crate::laws::registering::{is_named_rs, lemma_named_rs};
use crate::outcome::{Kind, Problem};
use crate::path;
use crate::path::{Order, Part};
use crate::run;
use crate::run::{Found, Progress, Scan, Stage, Walk, What};

verus! {

/// `name` ends in `.stderr`, and something stands before that.
pub open spec fn is_named_stderr(name: Seq<u8>) -> bool {
    name.len() > 7 && name.skip(name.len() - 7) == seq![
        0x2eu8,
        0x73u8,
        0x74u8,
        0x64u8,
        0x65u8,
        0x72u8,
        0x72u8,
    ]
}

proof fn lemma_named_stderr(directory: Seq<Part>, name: Seq<u8>)
    ensures
        (path::extension(directory.push(Part::Normal(name))) == Some(encode_utf8("stderr"@)))
            == is_named_stderr(name),
{
    let path = directory.push(Part::Normal(name));
    assert(path.last() == Part::Normal(name));
    lemma_last_dot(name);
    reveal_strlit("stderr");
    is_ascii_chars_encode_utf8("stderr"@);
    let stderr = encode_utf8("stderr"@);
    assert(stderr =~= seq![0x73u8, 0x74u8, 0x64u8, 0x65u8, 0x72u8, 0x72u8]);
    let n = name.len() as int;
    if is_named_stderr(name) {
        let end = name.skip(n - 7);
        assert(forall|i: int| 0 <= i < 7 ==> #[trigger] end[i] == name[n - 7 + i]);
        assert(end[0] == 0x2e && end[1] != 0x2e && end[2] != 0x2e && end[3] != 0x2e);
        assert(end[4] != 0x2e && end[5] != 0x2e && end[6] != 0x2e);
        let at = path::last_dot(name)->0;
        assert(name[n - 7] == path::DOT);
        assert(at == n - 7) by {
            if at < n - 7 {
                assert(name[n - 7] != path::DOT);
            } else if at > n - 7 {
                assert(end[at - (n - 7)] == name[at]);
            }
        }
        assert(name.skip(at + 1) =~= stderr) by {
            assert forall|i: int| 0 <= i < 6 implies name.skip(at + 1)[i] == stderr[i] by {
                assert(end[i + 1] == name[n - 6 + i]);
            }
        }
    }
    if path::extension(path) == Some(stderr) {
        let at = path::extension_at(name)->0;
        let rest = name.skip(at + 1);
        assert(rest.len() == n - at - 1);
        assert(name.skip(n - 7) =~= seq![0x2eu8] + rest);
        assert(seq![0x2eu8] + stderr =~= seq![
            0x2eu8,
            0x73u8,
            0x74u8,
            0x64u8,
            0x65u8,
            0x72u8,
            0x72u8,
        ]);
    }
}

proof fn lemma_extensions_differ(name: Seq<u8>)
    ensures
        !(is_named_rs(name) && is_named_stderr(name)),
{
    if is_named_stderr(name) {
        let n = name.len() as int;
        assert(name.skip(n - 7)[6] == name[n - 1]);
    }
}

/// A fixture is registered at `path`.
pub open spec fn has_fixture(suite: Suite, path: Seq<Part>) -> bool {
    exists|i: int| 0 <= i < suite.cases.len() && (#[trigger] suite.cases[i]).absolute == path
}

/// The golden at `path` is that of a fixture that must not compile.
pub open spec fn has_golden(suite: Suite, path: Seq<Part>) -> bool {
    exists|i: int|
        0 <= i < suite.cases.len() && (#[trigger] suite.cases[i]).kind == Kind::CompileFail
            && cases::golden_of(suite.cases[i].absolute) == path
}

/// Where the entry at `at` is.
pub open spec fn entry_path(walk: Walk, all: Seq<Found>, at: int) -> Seq<Part> {
    walk.current.push(Part::Normal(all[at].name@))
}

/// The entry at `at` is a file that looks like a fixture and that nothing was said
/// of when fixtures were registered.
pub open spec fn is_missed(walk: Walk, all: Seq<Found>, at: int) -> bool {
    &&& all[at].what is File
    &&& is_named_rs(all[at].name@)
    &&& !has_fixture(walk.run.suite, entry_path(walk, all, at))
    &&& !walk.run.suite.refused_fixtures.contains(entry_path(walk, all, at))
}

/// The entry at `at` is a file that looks like a golden and that no fixture has.
pub open spec fn is_unclaimed(walk: Walk, all: Seq<Found>, at: int) -> bool {
    &&& all[at].what is File
    &&& is_named_stderr(all[at].name@)
    &&& !has_golden(walk.run.suite, entry_path(walk, all, at))
}

/// The entry at `at` is a directory that is not registered in its own right.
pub open spec fn is_below(walk: Walk, all: Seq<Found>, at: int) -> bool {
    all[at].what is Directory && !walk.run.suite.directories.contains(entry_path(walk, all, at))
}

/// What is reported of the entry at `at`, of which it could not be told what it is.
pub open spec fn doubt(walk: Walk, all: Seq<Found>, at: int) -> Problem {
    let from = path::seen_from(entry_path(walk, all, at), walk.run.suite.manifest_dir);
    Problem::Io {
        context: "could not tell what "@ + path::shown(from) + " is"@,
        message: match all[at].what {
            What::Unknown(message) => message@,
            _ => seq![],
        },
    }
}

/// Every entry of a directory is taken note of. A fixture that is not registered, a
/// golden that is not claimed, and a directory that is not registered are kept, and
/// what an entry is that cannot be told is reported, each in order. Nothing else of
/// the walk changes.
#[verifier::rlimit(40)]
pub proof fn law_every_entry_is_taken_note_of(walk: Walk, all: Seq<Found>)
    ensures
        ({
            let n = all.len() as int;
            let path = |i: int| entry_path(walk, all, i);
            run::all_noted(walk, all) == (Walk {
                unregistered: walk.unregistered + gathered(
                    0,
                    n,
                    |i: int| is_missed(walk, all, i),
                    path,
                ),
                orphans: walk.orphans + gathered(0, n, |i: int| is_unclaimed(walk, all, i), path),
                pending: walk.pending + gathered(0, n, |i: int| is_below(walk, all, i), path),
                run: Progress {
                    setup: walk.run.setup + gathered(
                        0,
                        n,
                        |i: int| all[i].what is Unknown,
                        |i: int| doubt(walk, all, i),
                    ),
                    ..walk.run
                },
                ..walk
            })
        }),
{
    lemma_noted(walk, all, all.len() as int);
    assert(all.take(all.len() as int) =~= all);
}

proof fn lemma_one_more<T>(
    before: Seq<T>,
    to: int,
    keeps: spec_fn(int) -> bool,
    shows: spec_fn(int) -> T,
)
    requires
        0 < to,
    ensures
        before + gathered(0, to, keeps, shows) == if keeps(to - 1) {
            (before + gathered(0, to - 1, keeps, shows)).push(shows(to - 1))
        } else {
            before + gathered(0, to - 1, keeps, shows)
        },
{
    lemma_gathered_in_two(0, to - 1, to, keeps, shows);
    assert(gathered(to, to, keeps, shows) =~= seq![]);
    assert(gathered(to - 1, to, keeps, shows) =~= if keeps(to - 1) {
        seq![shows(to - 1)]
    } else {
        seq![]
    });
    assert(before + gathered(0, to, keeps, shows) =~= if keeps(to - 1) {
        (before + gathered(0, to - 1, keeps, shows)).push(shows(to - 1))
    } else {
        before + gathered(0, to - 1, keeps, shows)
    });
}

#[verifier::rlimit(40)]
proof fn lemma_noted(walk: Walk, all: Seq<Found>, to: int)
    requires
        0 <= to <= all.len(),
    ensures
        ({
            let path = |i: int| entry_path(walk, all, i);
            run::all_noted(walk, all.take(to)) == (Walk {
                unregistered: walk.unregistered + gathered(
                    0,
                    to,
                    |i: int| is_missed(walk, all, i),
                    path,
                ),
                orphans: walk.orphans + gathered(
                    0,
                    to,
                    |i: int| is_unclaimed(walk, all, i),
                    path,
                ),
                pending: walk.pending + gathered(0, to, |i: int| is_below(walk, all, i), path),
                run: Progress {
                    setup: walk.run.setup + gathered(
                        0,
                        to,
                        |i: int| all[i].what is Unknown,
                        |i: int| doubt(walk, all, i),
                    ),
                    ..walk.run
                },
                ..walk
            })
        }),
    decreases to,
{
    let path = |i: int| entry_path(walk, all, i);
    let missed = |i: int| is_missed(walk, all, i);
    let unclaimed = |i: int| is_unclaimed(walk, all, i);
    let below = |i: int| is_below(walk, all, i);
    let unknown = |i: int| all[i].what is Unknown;
    let doubts = |i: int| doubt(walk, all, i);
    if to == 0 {
        assert(walk.unregistered + gathered(0, 0, missed, path) =~= walk.unregistered);
        assert(walk.orphans + gathered(0, 0, unclaimed, path) =~= walk.orphans);
        assert(walk.pending + gathered(0, 0, below, path) =~= walk.pending);
        assert(walk.run.setup + gathered(0, 0, unknown, doubts) =~= walk.run.setup);
    } else {
        lemma_noted(walk, all, to - 1);
        assert(all.take(to).drop_last() =~= all.take(to - 1));
        assert(all.take(to).last() == all[to - 1]);
        lemma_one_more(walk.unregistered, to, missed, path);
        lemma_one_more(walk.orphans, to, unclaimed, path);
        lemma_one_more(walk.pending, to, below, path);
        lemma_one_more(walk.run.setup, to, unknown, doubts);
        let name = all[to - 1].name@;
        lemma_named_rs(walk.current, name);
        lemma_named_stderr(walk.current, name);
        lemma_extensions_differ(name);
    }
}

proof fn lemma_true_orphans(
    orphans: Seq<Seq<Part>>,
    unregistered: Seq<Seq<Part>>,
    refused: Seq<Seq<Part>>,
    to: int,
)
    requires
        0 <= to <= orphans.len(),
    ensures
        run::true_orphans(orphans.take(to), unregistered, refused) == gathered(
            0,
            to,
            |i: int|
                !unregistered.contains(path::with_extension(orphans[i], encode_utf8("rs"@)))
                    && !refused.contains(path::with_extension(orphans[i], encode_utf8("rs"@))),
            |i: int| orphans[i],
        ),
    decreases to,
{
    let keeps = |i: int|
        !unregistered.contains(path::with_extension(orphans[i], encode_utf8("rs"@)))
            && !refused.contains(path::with_extension(orphans[i], encode_utf8("rs"@)));
    let shows = |i: int| orphans[i];
    if to > 0 {
        lemma_true_orphans(orphans, unregistered, refused, to - 1);
        assert(orphans.take(to).drop_last() =~= orphans.take(to - 1));
        assert(orphans.take(to).last() == orphans[to - 1]);
        let none = Seq::<Seq<Part>>::empty();
        lemma_one_more(none, to, keeps, shows);
        assert(none + gathered(0, to, keeps, shows) =~= gathered(0, to, keeps, shows));
        assert(none + gathered(0, to - 1, keeps, shows) =~= gathered(0, to - 1, keeps, shows));
    }
}

/// What a walk found is reported: all fixtures that are not registered, in one, and
/// every golden whose fixture is not reported already, each by itself. They are put
/// in order and named as they are seen from the host crate.
#[verifier::rlimit(40)]
pub proof fn law_everything_found_is_reported(walk: Walk)
    ensures
        ({
            let suite = walk.run.suite;
            let base = suite.manifest_dir;
            let strays = gathered(
                0,
                walk.orphans.len() as int,
                |i: int|
                    !walk.unregistered.contains(
                        path::with_extension(walk.orphans[i], encode_utf8("rs"@)),
                    ) && !suite.refused_fixtures.contains(
                        path::with_extension(walk.orphans[i], encode_utf8("rs"@)),
                    ),
                |i: int| walk.orphans[i],
            );
            run::findings(walk) == if walk.unregistered.len() == 0 {
                seq![]
            } else {
                seq![
                    Problem::UnregisteredFixtures {
                        directory: path::told_from(suite.directories[walk.at as int], base),
                        fixtures: path::sorted(Order::Path, walk.unregistered).map_values(
                            |path: Seq<Part>| path::told_from(path, base),
                        ),
                    },
                ]
            } + path::sorted(Order::Path, strays).map_values(
                |path: Seq<Part>| Problem::OrphanGolden { golden: path::told_from(path, base) },
            )
        }),
{
    let suite = walk.run.suite;
    let base = suite.manifest_dir;
    lemma_true_orphans(
        walk.orphans,
        walk.unregistered,
        suite.refused_fixtures,
        walk.orphans.len() as int,
    );
    assert(walk.orphans.take(walk.orphans.len() as int) =~= walk.orphans);
    let goldens = run::true_orphans(walk.orphans, walk.unregistered, suite.refused_fixtures);
    let sorted = path::sorted(Order::Path, goldens);
    assert(run::orphaned(run::all_told_from(sorted, base)) =~= sorted.map_values(
        |path: Seq<Part>| Problem::OrphanGolden { golden: path::told_from(path, base) },
    ));
    assert(run::all_told_from(path::sorted(Order::Path, walk.unregistered), base) =~= path::sorted(
        Order::Path,
        walk.unregistered,
    ).map_values(|path: Seq<Part>| path::told_from(path, base)));
}

/// After a directory a walk goes on to the directory below that was found last. Once
/// none is left, what was found is reported, and the run goes on to the next
/// registered directory.
pub proof fn law_where_a_walk_goes_next(walk: Walk, scan: Scan)
    ensures
        ({
            let next = run::scanned(walk, scan);
            run::after_list(walk, scan) == if next.pending.len() != 0 {
                Stage::List(
                    Walk {
                        current: next.pending[next.pending.len() - 1],
                        pending: next.pending.take(next.pending.len() - 1),
                        ..next
                    },
                )
            } else {
                run::looking(
                    Progress { setup: next.run.setup + run::findings(next), ..next.run },
                    next.at + 1,
                )
            }
        }),
{
    let next = run::scanned(walk, scan);
    if next.pending.len() != 0 {
        assert(next.pending.drop_last() =~= next.pending.take(next.pending.len() - 1));
    }
}

/// What of a directory could not be read is reported, behind what was found in the
/// rest of it.
#[verifier::rlimit(40)]
pub proof fn law_what_could_not_be_read_is_reported(walk: Walk, scan: Scan)
    ensures
        ({
            let suite = walk.run.suite;
            let base = suite.manifest_dir;
            let here = path::shown(path::seen_from(walk.current, base));
            let why = " to check "@ + path::shown(
                path::seen_from(suite.directories[walk.at as int], base),
            ) + " for unregistered fixtures"@;
            match scan {
                Scan::Unreadable(message) => run::scanned(walk, scan) == (Walk {
                    run: Progress {
                        setup: walk.run.setup.push(
                            Problem::Io {
                                context: "could not read "@ + here + why,
                                message: message@,
                            },
                        ),
                        ..walk.run
                    },
                    ..walk
                }),
                Scan::Entries(entries, Some(message)) => {
                    let noted = run::all_noted(walk, entries@);
                    run::scanned(walk, scan) == (Walk {
                        run: Progress {
                            setup: noted.run.setup.push(
                                Problem::Io {
                                    context: "could not read an entry of "@ + here + why,
                                    message: message@,
                                },
                            ),
                            ..noted.run
                        },
                        ..noted
                    })
                },
                Scan::Entries(entries, None) => run::scanned(walk, scan) == run::all_noted(
                    walk,
                    entries@,
                ),
            }
        }),
{
    let suite = walk.run.suite;
    let base = suite.manifest_dir;
    let here = path::shown(path::seen_from(walk.current, base));
    let there = path::shown(path::seen_from(suite.directories[walk.at as int], base));
    let why = " to check "@ + there + " for unregistered fixtures"@;
    reveal_strlit("could not read ");
    reveal_strlit("an entry of ");
    reveal_strlit("could not read an entry of ");
    reveal_strlit("");
    assert("could not read "@ + ""@ + here + " to check "@ + there + " for unregistered fixtures"@
        =~= "could not read "@ + here + why);
    assert("could not read "@ + "an entry of "@ =~= "could not read an entry of "@);
    assert("could not read "@ + "an entry of "@ + here + " to check "@ + there
        + " for unregistered fixtures"@ =~= "could not read an entry of "@ + here + why);
}

} // verus!
