//! What holds of how a run looks through the registered directories.

use vstd::prelude::*;
use vstd::utf8::*;

use crate::cases;
use crate::cases::Suite;
use crate::laws::path::law_sorting_puts_the_same_paths_in_order;
use crate::laws::run;
use crate::outcome;
use crate::outcome::Problem;
use crate::path;
use crate::path::{Order, Part};
use crate::run as steps;
use crate::run::{Found, Progress, Scan, Stage, Surroundings, Walk};

verus! {

// ---------------------------------------------------------------------------
// What a run has gone wrong with so far.
// ---------------------------------------------------------------------------

/// What has gone wrong with the run as a whole, as of `stage`.
pub open spec fn setup_of(stage: Stage) -> Seq<Problem> {
    match stage {
        Stage::List(walk) => walk.run.setup,
        Stage::Do(run, _) => run.setup,
        Stage::Read(run, _) => run.setup,
        Stage::Find(run) => run.setup,
        Stage::Build(run) => run.setup,
        Stage::Resolve(run, _) => run.setup,
        Stage::Done(summary) => summary.setup,
    }
}

spec fn run_of(stage: Stage) -> Progress {
    match stage {
        Stage::List(walk) => walk.run,
        Stage::Do(run, _) => run,
        Stage::Read(run, _) => run,
        Stage::Find(run) => run,
        Stage::Build(run) => run,
        Stage::Resolve(run, _) => run,
        Stage::Done(_) => arbitrary(),
    }
}

proof fn lemma_setup_grows(start: Progress, before: Stage, after: Stage)
    requires
        run::is_sound(start, before),
        run::follows(before, after),
    ensures
        run::grown(setup_of(before), setup_of(after)),
{
    let now = run_of(before);
    assert(now.setup.take(now.setup.len() as int) =~= now.setup);
    assert(run::continues(now, now));
    assert(run::is_sound(now, before));
    run::lemma_step(now, before, after);
}

/// Nothing that has gone wrong with a run is forgotten by a later stage of it.
pub proof fn law_nothing_that_went_wrong_is_forgotten(
    suite: Suite,
    around: Surroundings,
    stages: Seq<Stage>,
    at: int,
    later: int,
)
    requires
        run::is_run(suite, around, stages),
        0 <= at <= later < stages.len(),
    ensures
        run::grown(setup_of(stages[at]), setup_of(stages[later])),
    decreases later,
{
    if at == later {
        let all = setup_of(stages[at]);
        assert(all.take(all.len() as int) =~= all);
    } else {
        law_nothing_that_went_wrong_is_forgotten(suite, around, stages, at, later - 1);
        run::law_every_stage_is_sound(suite, around, stages, later - 1);
        assert(run::follows(stages[later - 1], stages[later]));
        lemma_setup_grows(steps::begun(suite, around), stages[later - 1], stages[later]);
        let (a, b, c) = (
            setup_of(stages[at]),
            setup_of(stages[later - 1]),
            setup_of(stages[later]),
        );
        assert(c.take(a.len() as int) =~= b.take(a.len() as int));
    }
}

// ---------------------------------------------------------------------------
// Where a run looks.
// ---------------------------------------------------------------------------

/// `stage` is about to list the directory at `path`.
pub open spec fn lists(stage: Stage, path: Seq<Part>) -> bool {
    stage is List && stage->List_0.current == path
}

/// The registered directories a run has come to by `stage`.
spec fn reached(suite: Suite, stage: Stage) -> nat {
    match stage {
        Stage::List(walk) => walk.at + 1,
        _ => suite.directories.len(),
    }
}

proof fn lemma_walk_keeps_its_place(walk: Walk, all: Seq<Found>)
    ensures
        steps::all_noted(walk, all).at == walk.at,
        steps::all_noted(walk, all).current == walk.current,
        steps::all_noted(walk, all).run.suite == walk.run.suite,
        run::grown(walk.pending, steps::all_noted(walk, all).pending),
        run::grown(walk.unregistered, steps::all_noted(walk, all).unregistered),
        run::grown(walk.orphans, steps::all_noted(walk, all).orphans),
    decreases all.len(),
{
    if all.len() == 0 {
        assert(walk.pending.take(walk.pending.len() as int) =~= walk.pending);
        assert(walk.unregistered.take(walk.unregistered.len() as int) =~= walk.unregistered);
        assert(walk.orphans.take(walk.orphans.len() as int) =~= walk.orphans);
    } else {
        let before = steps::all_noted(walk, all.drop_last());
        let after = steps::all_noted(walk, all);
        lemma_walk_keeps_its_place(walk, all.drop_last());
        assert(after.pending.take(walk.pending.len() as int) =~= before.pending.take(
            walk.pending.len() as int,
        ));
        assert(after.unregistered.take(walk.unregistered.len() as int)
            =~= before.unregistered.take(walk.unregistered.len() as int));
        assert(after.orphans.take(walk.orphans.len() as int) =~= before.orphans.take(
            walk.orphans.len() as int,
        ));
    }
}

proof fn lemma_scan_keeps_its_place(walk: Walk, scan: Scan)
    ensures
        steps::scanned(walk, scan).at == walk.at,
        steps::scanned(walk, scan).run.suite == walk.run.suite,
        run::grown(walk.pending, steps::scanned(walk, scan).pending),
        run::grown(walk.unregistered, steps::scanned(walk, scan).unregistered),
        run::grown(walk.orphans, steps::scanned(walk, scan).orphans),
{
    lemma_walk_keeps_its_place(walk, seq![]);
    if let Scan::Entries(entries, _) = scan {
        lemma_walk_keeps_its_place(walk, entries@);
    }
}

proof fn lemma_grown_holds<T>(earlier: Seq<T>, later: Seq<T>, item: T)
    requires
        run::grown(earlier, later),
        earlier.contains(item),
    ensures
        later.contains(item),
{
    let i = earlier.index_of(item);
    assert(later[i] == later.take(earlier.len() as int)[i]);
}

proof fn lemma_reached(
    suite: Suite,
    around: Surroundings,
    stages: Seq<Stage>,
    at: int,
    which: int,
)
    requires
        run::is_run(suite, around, stages),
        0 <= at < stages.len(),
        0 <= which < reached(suite, stages[at]),
        which < suite.directories.len(),
    ensures
        exists|i: int| 0 <= i <= at && lists(#[trigger] stages[i], suite.directories[which]),
    decreases at,
{
    if at == 0 {
        assert(lists(stages[0], suite.directories[which]));
    } else {
        run::law_every_stage_is_sound(suite, around, stages, at - 1);
        assert(run::follows(stages[at - 1], stages[at]));
        if which < reached(suite, stages[at - 1]) {
            lemma_reached(suite, around, stages, at - 1, which);
            let i = choose|i: int|
                0 <= i <= at - 1 && lists(#[trigger] stages[i], suite.directories[which]);
            assert(lists(stages[i], suite.directories[which]));
        } else {
            let walk = stages[at - 1]->List_0;
            let scan = choose|scan: Scan| stages[at] == #[trigger] steps::after_list(walk, scan);
            lemma_next_directory(suite, walk, scan, which);
            assert(lists(stages[at], suite.directories[which]));
        }
    }
}

proof fn lemma_next_directory(suite: Suite, walk: Walk, scan: Scan, which: int)
    requires
        walk.run.suite == suite,
        walk.at < which < suite.directories.len(),
        which < reached(suite, steps::after_list(walk, scan)),
    ensures
        lists(steps::after_list(walk, scan), suite.directories[which]),
{
    lemma_scan_keeps_its_place(walk, scan);
}

/// Before a run does anything else, or ends, it has listed every registered
/// directory.
pub proof fn law_every_registered_directory_is_looked_through(
    suite: Suite,
    around: Surroundings,
    stages: Seq<Stage>,
    at: int,
    which: int,
)
    requires
        run::is_run(suite, around, stages),
        0 <= at < stages.len(),
        stages[at] !is List,
        0 <= which < suite.directories.len(),
    ensures
        exists|i: int| 0 <= i < at && lists(#[trigger] stages[i], suite.directories[which]),
{
    lemma_reached(suite, around, stages, at, which);
    let i = choose|i: int|
        0 <= i <= at && lists(#[trigger] stages[i], suite.directories[which]);
    assert(i != at);
}

/// `scan` of the directory `walk` has come to holds `found`.
pub open spec fn holds(scan: Scan, found: Found) -> bool {
    scan is Entries && scan->Entries_0@.contains(found)
}

/// Where `found` is, in the directory `walk` has come to.
pub open spec fn place(walk: Walk, found: Found) -> Seq<Part> {
    walk.current.push(Part::Normal(found.name@))
}

proof fn lemma_directory_is_pending(walk: Walk, all: Seq<Found>, found: Found)
    requires
        all.contains(found),
        found.what is Directory,
        !walk.run.suite.directories.contains(place(walk, found)),
    ensures
        steps::all_noted(walk, all).pending.contains(place(walk, found)),
    decreases all.len(),
{
    let rest = all.drop_last();
    let before = steps::all_noted(walk, rest);
    let after = steps::all_noted(walk, all);
    lemma_walk_keeps_its_place(walk, rest);
    if all.last() == found {
        assert(after.pending.last() == place(walk, found));
        assert(after.pending[after.pending.len() - 1] == place(walk, found));
    } else {
        let i = all.index_of(found);
        assert(rest[i] == found);
        lemma_directory_is_pending(walk, rest, found);
        let k = before.pending.index_of(place(walk, found));
        assert(after.pending[k] == place(walk, found));
    }
}

/// A directory a run finds under a registered one is listed too before the run
/// goes on to the next registered directory or to anything else, unless it is
/// registered in its own right. So every file under a registered directory is
/// seen, however deep.
pub proof fn law_every_directory_below_is_looked_through(
    suite: Suite,
    around: Surroundings,
    stages: Seq<Stage>,
    at: int,
    scan: Scan,
    found: Found,
    later: int,
)
    requires
        run::is_run(suite, around, stages),
        0 <= at < later < stages.len(),
        stages[at] is List,
        stages[at + 1] == steps::after_list(stages[at]->List_0, scan),
        holds(scan, found),
        found.what is Directory,
        !suite.directories.contains(place(stages[at]->List_0, found)),
        stages[later] is List ==> stages[later]->List_0.at != stages[at]->List_0.at,
    ensures
        exists|i: int|
            at < i < later && lists(#[trigger] stages[i], place(stages[at]->List_0, found)),
{
    let walk = stages[at]->List_0;
    let path = place(walk, found);
    lemma_pending(suite, around, stages, at, scan, found, later);
    let i = choose|i: int| at < i <= later && lists(#[trigger] stages[i], path);
    assert(lists(stages[i], path));
    if i == later {
        lemma_listed_in_turn(suite, around, stages, at, scan, found, later);
    }
}

spec fn is_pending_at(stage: Stage, at: nat, path: Seq<Part>) -> bool {
    stage is List && stage->List_0.at == at && stage->List_0.pending.contains(path)
}

proof fn lemma_pending(
    suite: Suite,
    around: Surroundings,
    stages: Seq<Stage>,
    at: int,
    scan: Scan,
    found: Found,
    later: int,
)
    requires
        run::is_run(suite, around, stages),
        0 <= at < later < stages.len(),
        stages[at] is List,
        stages[at + 1] == steps::after_list(stages[at]->List_0, scan),
        holds(scan, found),
        found.what is Directory,
        !suite.directories.contains(place(stages[at]->List_0, found)),
    ensures
        is_pending_at(
            stages[later],
            stages[at]->List_0.at,
            place(stages[at]->List_0, found),
        ) || exists|i: int|
            at < i <= later && lists(#[trigger] stages[i], place(stages[at]->List_0, found)),
    decreases later,
{
    let walk = stages[at]->List_0;
    let path = place(walk, found);
    run::law_every_stage_is_sound(suite, around, stages, later - 1);
    assert(run::follows(stages[later - 1], stages[later]));
    if later == at + 1 {
        lemma_scan_keeps_its_place(walk, scan);
        lemma_directory_is_pending(walk, scan->Entries_0@, found);
        lemma_popped(walk, scan, path);
        if lists(stages[later], path) {
            assert(at < later <= later);
        }
    } else {
        lemma_pending(suite, around, stages, at, scan, found, later - 1);
        if is_pending_at(stages[later - 1], walk.at, path) {
            let now = stages[later - 1]->List_0;
            let next = choose|next: Scan| stages[later] == #[trigger] steps::after_list(now, next);
            lemma_scan_keeps_its_place(now, next);
            lemma_grown_holds(now.pending, steps::scanned(now, next).pending, path);
            lemma_popped(now, next, path);
            if lists(stages[later], path) {
                assert(at < later <= later);
            }
        } else {
            let i = choose|i: int| at < i <= later - 1 && lists(#[trigger] stages[i], path);
            assert(lists(stages[i], path));
        }
    }
}

proof fn lemma_popped(walk: Walk, scan: Scan, path: Seq<Part>)
    requires
        steps::scanned(walk, scan).pending.contains(path),
    ensures
        is_pending_at(steps::after_list(walk, scan), walk.at, path) || lists(
            steps::after_list(walk, scan),
            path,
        ),
        steps::after_list(walk, scan) is List,
        steps::after_list(walk, scan)->List_0.at == walk.at,
{
    lemma_scan_keeps_its_place(walk, scan);
    let pending = steps::scanned(walk, scan).pending;
    let i = pending.index_of(path);
    if i < pending.len() - 1 {
        assert(pending.drop_last()[i] == path);
    }
}

/// The stage that lists a directory found under a registered one is still about
/// that registered one.
proof fn lemma_listed_in_turn(
    suite: Suite,
    around: Surroundings,
    stages: Seq<Stage>,
    at: int,
    scan: Scan,
    found: Found,
    later: int,
)
    requires
        run::is_run(suite, around, stages),
        0 <= at < later < stages.len(),
        stages[at] is List,
        stages[at + 1] == steps::after_list(stages[at]->List_0, scan),
        holds(scan, found),
        found.what is Directory,
        !suite.directories.contains(place(stages[at]->List_0, found)),
        stages[later] is List ==> stages[later]->List_0.at != stages[at]->List_0.at,
    ensures
        exists|i: int|
            at < i < later && lists(#[trigger] stages[i], place(stages[at]->List_0, found)),
{
    let walk = stages[at]->List_0;
    let path = place(walk, found);
    run::law_every_stage_is_sound(suite, around, stages, at);
    run::law_every_stage_is_sound(suite, around, stages, later - 1);
    assert(run::follows(stages[later - 1], stages[later]));
    if later == at + 1 {
        lemma_scan_keeps_its_place(walk, scan);
        lemma_directory_is_pending(walk, scan->Entries_0@, found);
        lemma_popped(walk, scan, path);
    } else {
        lemma_pending(suite, around, stages, at, scan, found, later - 1);
        if is_pending_at(stages[later - 1], walk.at, path) {
            let now = stages[later - 1]->List_0;
            let next = choose|next: Scan| stages[later] == #[trigger] steps::after_list(now, next);
            lemma_scan_keeps_its_place(now, next);
            lemma_grown_holds(now.pending, steps::scanned(now, next).pending, path);
            lemma_popped(now, next, path);
        } else {
            let i = choose|i: int| at < i <= later - 1 && lists(#[trigger] stages[i], path);
            assert(lists(stages[i], path));
        }
    }
}

// ---------------------------------------------------------------------------
// What a run finds unaccounted for.
// ---------------------------------------------------------------------------

/// `problem` says that the fixture shown as `fixture` is not registered.
pub open spec fn misses(problem: Problem, fixture: Seq<Part>) -> bool {
    problem is UnregisteredFixtures && problem->UnregisteredFixtures_fixtures.contains(fixture)
}

/// Something in `setup` says that the fixture shown as `fixture` is not
/// registered.
pub open spec fn says_unregistered(setup: Seq<Problem>, fixture: Seq<Part>) -> bool {
    exists|i: int| 0 <= i < setup.len() && misses(#[trigger] setup[i], fixture)
}

/// A file with the extension `extension`.
pub open spec fn is_named(path: Seq<Part>, extension: Seq<char>) -> bool {
    path::extension(path) == Some(encode_utf8(extension))
}

/// The fixture at `path` is neither registered nor refused.
pub open spec fn is_forgotten(suite: Suite, path: Seq<Part>) -> bool {
    is_named(path, "rs"@) && !steps::is_registered(suite, path)
        && !suite.refused_fixtures.contains(path)
}

/// No registered `compile_fail` fixture claims the golden at `path`.
pub open spec fn is_stray(suite: Suite, path: Seq<Part>) -> bool {
    is_named(path, "stderr"@) && !steps::is_claimed(suite, path)
}

proof fn lemma_extensions_differ(path: Seq<Part>)
    ensures
        !(is_named(path, "rs"@) && is_named(path, "stderr"@)),
{
    reveal_strlit("rs");
    reveal_strlit("stderr");
    is_ascii_chars_encode_utf8("rs"@);
    is_ascii_chars_encode_utf8("stderr"@);
}

proof fn lemma_file_is_noted(walk: Walk, all: Seq<Found>, found: Found)
    requires
        all.contains(found),
        found.what is File,
    ensures
        is_forgotten(walk.run.suite, place(walk, found)) ==> steps::all_noted(
            walk,
            all,
        ).unregistered.contains(place(walk, found)),
        is_stray(walk.run.suite, place(walk, found)) ==> steps::all_noted(
            walk,
            all,
        ).orphans.contains(place(walk, found)),
    decreases all.len(),
{
    let rest = all.drop_last();
    let path = place(walk, found);
    let before = steps::all_noted(walk, rest);
    let after = steps::all_noted(walk, all);
    lemma_walk_keeps_its_place(walk, rest);
    lemma_extensions_differ(path);
    if all.last() == found {
        if is_forgotten(walk.run.suite, path) {
            assert(after.unregistered[after.unregistered.len() - 1] == path);
        }
        if is_stray(walk.run.suite, path) {
            assert(after.orphans[after.orphans.len() - 1] == path);
        }
    } else {
        let i = all.index_of(found);
        assert(rest[i] == found);
        lemma_file_is_noted(walk, rest, found);
        if is_forgotten(walk.run.suite, path) {
            let k = before.unregistered.index_of(path);
            assert(after.unregistered[k] == path);
        }
        if is_stray(walk.run.suite, path) {
            let k = before.orphans.index_of(path);
            assert(after.orphans[k] == path);
        }
    }
}

proof fn lemma_sorted_holds(order: Order, all: Seq<Seq<Part>>, path: Seq<Part>)
    ensures
        path::sorted(order, all).contains(path) <==> all.contains(path),
{
    broadcast use vstd::seq_lib::group_to_multiset_ensures;

    law_sorting_puts_the_same_paths_in_order(order, all);
    assert(all.to_multiset().count(path) > 0 <==> all.contains(path));
    assert(path::sorted(order, all).to_multiset().count(path) > 0 <==> path::sorted(
        order,
        all,
    ).contains(path));
}

proof fn lemma_seen_holds(all: Seq<Seq<Part>>, base: Seq<Part>, path: Seq<Part>)
    requires
        all.contains(path),
    ensures
        steps::all_told_from(all, base).contains(path::told_from(path, base)),
{
    let i = all.index_of(path);
    assert(steps::all_told_from(all, base)[i] == path::told_from(path, base));
}

/// A walk that has found a forgotten fixture says so when it is done.
proof fn lemma_forgotten_is_reported(walk: Walk, path: Seq<Part>)
    requires
        walk.unregistered.contains(path),
    ensures
        says_unregistered(
            steps::findings(walk),
            path::told_from(path, walk.run.suite.manifest_dir),
        ),
{
    let base = walk.run.suite.manifest_dir;
    let all = path::sorted(Order::Path, walk.unregistered);
    lemma_sorted_holds(Order::Path, walk.unregistered, path);
    lemma_seen_holds(all, base, path);
    assert(misses(steps::findings(walk)[0], path::told_from(path, base)));
}

proof fn lemma_still_says(earlier: Seq<Problem>, later: Seq<Problem>, fixture: Seq<Part>)
    requires
        run::grown(earlier, later),
        says_unregistered(earlier, fixture),
    ensures
        says_unregistered(later, fixture),
{
    let i = choose|i: int| 0 <= i < earlier.len() && misses(#[trigger] earlier[i], fixture);
    assert(later[i] == later.take(earlier.len() as int)[i]);
    assert(misses(later[i], fixture));
}

/// The fixture at `path` will be reported, or has been.
spec fn is_owed(suite: Suite, stage: Stage, path: Seq<Part>) -> bool {
    ||| stage is List && stage->List_0.unregistered.contains(path)
    ||| says_unregistered(setup_of(stage), path::told_from(path, suite.manifest_dir))
}

proof fn lemma_owed(suite: Suite, walk: Walk, scan: Scan, path: Seq<Part>)
    requires
        walk.run.suite == suite,
        steps::scanned(walk, scan).unregistered.contains(path),
    ensures
        is_owed(suite, steps::after_list(walk, scan), path),
{
    let next = steps::scanned(walk, scan);
    lemma_scan_keeps_its_place(walk, scan);
    if next.pending.len() == 0 {
        lemma_forgotten_is_reported(next, path);
        let fixture = path::told_from(path, suite.manifest_dir);
        let told = next.run.setup + steps::findings(next);
        let i = choose|i: int|
            0 <= i < steps::findings(next).len() && misses(
                #[trigger] steps::findings(next)[i],
                fixture,
            );
        assert(told[next.run.setup.len() + i] == steps::findings(next)[i]);
        assert(says_unregistered(told, fixture));
    }
}

proof fn lemma_still_owed(
    suite: Suite,
    around: Surroundings,
    stages: Seq<Stage>,
    at: int,
    later: int,
    path: Seq<Part>,
)
    requires
        run::is_run(suite, around, stages),
        0 <= at <= later < stages.len(),
        is_owed(suite, stages[at], path),
    ensures
        is_owed(suite, stages[later], path),
    decreases later,
{
    if at < later {
        lemma_still_owed(suite, around, stages, at, later - 1, path);
        run::law_every_stage_is_sound(suite, around, stages, later - 1);
        let before = stages[later - 1];
        assert(run::follows(before, stages[later]));
        lemma_setup_grows(steps::begun(suite, around), before, stages[later]);
        let fixture = path::told_from(path, suite.manifest_dir);
        if says_unregistered(setup_of(before), fixture) {
            lemma_still_says(setup_of(before), setup_of(stages[later]), fixture);
        } else {
            let walk = before->List_0;
            let scan = choose|scan: Scan| stages[later] == #[trigger] steps::after_list(walk, scan);
            lemma_scan_keeps_its_place(walk, scan);
            lemma_grown_holds(
                walk.unregistered,
                steps::scanned(walk, scan).unregistered,
                path,
            );
            lemma_owed(suite, walk, scan, path);
        }
    }
}

/// A `.rs` file found under a registered directory that no registration covers is
/// named in what the run reports, and the run is no success.
pub proof fn law_a_forgotten_fixture_fails_the_run(
    suite: Suite,
    around: Surroundings,
    stages: Seq<Stage>,
    at: int,
    scan: Scan,
    found: Found,
    end: int,
)
    requires
        run::is_run(suite, around, stages),
        0 <= at < end < stages.len(),
        stages[at] is List,
        stages[at + 1] == steps::after_list(stages[at]->List_0, scan),
        holds(scan, found),
        found.what is File,
        is_forgotten(suite, place(stages[at]->List_0, found)),
        stages[end] is Done,
    ensures
        says_unregistered(
            stages[end]->Done_0.setup,
            path::told_from(place(stages[at]->List_0, found), suite.manifest_dir),
        ),
        !outcome::succeeded(stages[end]->Done_0),
{
    let walk = stages[at]->List_0;
    let path = place(walk, found);
    run::law_every_stage_is_sound(suite, around, stages, at);
    lemma_file_is_noted(walk, scan->Entries_0@, found);
    lemma_owed(suite, walk, scan, path);
    lemma_still_owed(suite, around, stages, at + 1, end, path);
}

/// `setup` reports the golden at `path`, or the unregistered fixture it belongs
/// to.
pub open spec fn accounts_for(suite: Suite, setup: Seq<Problem>, path: Seq<Part>) -> bool {
    let base = suite.manifest_dir;
    let fixture = path::with_extension(path, encode_utf8("rs"@));
    ||| setup.contains(Problem::OrphanGolden { golden: path::told_from(path, base) })
    ||| says_unregistered(setup, path::told_from(fixture, base))
}

proof fn lemma_true_orphans(
    orphans: Seq<Seq<Part>>,
    unregistered: Seq<Seq<Part>>,
    refused: Seq<Seq<Part>>,
    path: Seq<Part>,
)
    requires
        orphans.contains(path),
        !unregistered.contains(path::with_extension(path, encode_utf8("rs"@))),
        !refused.contains(path::with_extension(path, encode_utf8("rs"@))),
    ensures
        steps::true_orphans(orphans, unregistered, refused).contains(path),
    decreases orphans.len(),
{
    let rest = orphans.drop_last();
    let kept = steps::true_orphans(orphans, unregistered, refused);
    if orphans.last() == path {
        assert(kept[kept.len() - 1] == path);
    } else {
        let i = orphans.index_of(path);
        assert(rest[i] == path);
        lemma_true_orphans(rest, unregistered, refused, path);
        let before = steps::true_orphans(rest, unregistered, refused);
        let k = before.index_of(path);
        assert(kept[k] == path);
    }
}

proof fn lemma_stray_is_reported(walk: Walk, path: Seq<Part>)
    requires
        walk.orphans.contains(path),
        !walk.run.suite.refused_fixtures.contains(
            path::with_extension(path, encode_utf8("rs"@)),
        ),
    ensures
        accounts_for(walk.run.suite, steps::findings(walk), path),
{
    let suite = walk.run.suite;
    let base = suite.manifest_dir;
    let fixture = path::with_extension(path, encode_utf8("rs"@));
    let all = steps::findings(walk);
    if walk.unregistered.contains(fixture) {
        lemma_forgotten_is_reported(walk, fixture);
    } else {
        let goldens = steps::true_orphans(walk.orphans, walk.unregistered, suite.refused_fixtures);
        lemma_true_orphans(walk.orphans, walk.unregistered, suite.refused_fixtures, path);
        lemma_sorted_holds(Order::Path, goldens, path);
        let shown = steps::all_told_from(path::sorted(Order::Path, goldens), base);
        lemma_seen_holds(path::sorted(Order::Path, goldens), base, path);
        let i = shown.index_of(path::told_from(path, base));
        let told = steps::orphaned(shown);
        assert(told[i] == Problem::OrphanGolden { golden: path::told_from(path, base) });
        let before = all.len() - told.len();
        assert(all[before + i] == told[i]);
    }
}

proof fn lemma_still_accounts(
    suite: Suite,
    earlier: Seq<Problem>,
    later: Seq<Problem>,
    path: Seq<Part>,
)
    requires
        run::grown(earlier, later),
        accounts_for(suite, earlier, path),
    ensures
        accounts_for(suite, later, path),
{
    let base = suite.manifest_dir;
    let orphan = Problem::OrphanGolden { golden: path::told_from(path, base) };
    if earlier.contains(orphan) {
        lemma_grown_holds(earlier, later, orphan);
    } else {
        lemma_still_says(
            earlier,
            later,
            path::told_from(path::with_extension(path, encode_utf8("rs"@)), base),
        );
    }
}

/// The golden at `path` will be reported, or has been.
spec fn is_golden_owed(suite: Suite, stage: Stage, path: Seq<Part>) -> bool {
    ||| stage is List && stage->List_0.orphans.contains(path)
    ||| accounts_for(suite, setup_of(stage), path)
}

proof fn lemma_golden_owed(suite: Suite, walk: Walk, scan: Scan, path: Seq<Part>)
    requires
        walk.run.suite == suite,
        steps::scanned(walk, scan).orphans.contains(path),
        !suite.refused_fixtures.contains(path::with_extension(path, encode_utf8("rs"@))),
    ensures
        is_golden_owed(suite, steps::after_list(walk, scan), path),
{
    let next = steps::scanned(walk, scan);
    lemma_scan_keeps_its_place(walk, scan);
    if next.pending.len() == 0 {
        lemma_stray_is_reported(next, path);
        let base = suite.manifest_dir;
        let fixture = path::told_from(path::with_extension(path, encode_utf8("rs"@)), base);
        let orphan = Problem::OrphanGolden { golden: path::told_from(path, base) };
        let found = steps::findings(next);
        let told = next.run.setup + found;
        if found.contains(orphan) {
            let i = found.index_of(orphan);
            assert(told[next.run.setup.len() + i] == orphan);
        } else {
            let i = choose|i: int| 0 <= i < found.len() && misses(#[trigger] found[i], fixture);
            assert(told[next.run.setup.len() + i] == found[i]);
        }
        assert(accounts_for(suite, told, path));
    }
}

proof fn lemma_golden_still_owed(
    suite: Suite,
    around: Surroundings,
    stages: Seq<Stage>,
    at: int,
    later: int,
    path: Seq<Part>,
)
    requires
        run::is_run(suite, around, stages),
        0 <= at <= later < stages.len(),
        is_golden_owed(suite, stages[at], path),
        !suite.refused_fixtures.contains(path::with_extension(path, encode_utf8("rs"@))),
    ensures
        is_golden_owed(suite, stages[later], path),
    decreases later,
{
    if at < later {
        lemma_golden_still_owed(suite, around, stages, at, later - 1, path);
        run::law_every_stage_is_sound(suite, around, stages, later - 1);
        let before = stages[later - 1];
        assert(run::follows(before, stages[later]));
        lemma_setup_grows(steps::begun(suite, around), before, stages[later]);
        if accounts_for(suite, setup_of(before), path) {
            lemma_still_accounts(suite, setup_of(before), setup_of(stages[later]), path);
        } else {
            let walk = before->List_0;
            let scan = choose|scan: Scan| stages[later] == #[trigger] steps::after_list(walk, scan);
            lemma_scan_keeps_its_place(walk, scan);
            lemma_grown_holds(walk.orphans, steps::scanned(walk, scan).orphans, path);
            lemma_golden_owed(suite, walk, scan, path);
        }
    }
}

/// A golden found under a registered directory that no registered `compile_fail`
/// fixture claims is reported, by its own name or by that of the unregistered
/// fixture it belongs to, and the run is no success, whether or not it blesses.
///
/// A golden whose fixture was refused at registration is left out: the refusal
/// is the report.
pub proof fn law_a_stray_golden_fails_the_run(
    suite: Suite,
    around: Surroundings,
    stages: Seq<Stage>,
    at: int,
    scan: Scan,
    found: Found,
    end: int,
)
    requires
        run::is_run(suite, around, stages),
        0 <= at < end < stages.len(),
        stages[at] is List,
        stages[at + 1] == steps::after_list(stages[at]->List_0, scan),
        holds(scan, found),
        found.what is File,
        is_stray(suite, place(stages[at]->List_0, found)),
        !suite.refused_fixtures.contains(
            path::with_extension(place(stages[at]->List_0, found), encode_utf8("rs"@)),
        ),
        stages[end] is Done,
    ensures
        accounts_for(suite, stages[end]->Done_0.setup, place(stages[at]->List_0, found)),
        !outcome::succeeded(stages[end]->Done_0),
{
    let walk = stages[at]->List_0;
    let path = place(walk, found);
    run::law_every_stage_is_sound(suite, around, stages, at);
    lemma_file_is_noted(walk, scan->Entries_0@, found);
    lemma_golden_owed(suite, walk, scan, path);
    lemma_golden_still_owed(suite, around, stages, at + 1, end, path);
}

/// A registered directory that cannot be looked through, or not to its end, is no
/// reason to pass over it: the run is no success.
pub proof fn law_a_directory_that_cannot_be_read_fails_the_run(
    suite: Suite,
    around: Surroundings,
    stages: Seq<Stage>,
    at: int,
    scan: Scan,
    end: int,
)
    requires
        run::is_run(suite, around, stages),
        0 <= at < end < stages.len(),
        stages[at] is List,
        stages[at + 1] == steps::after_list(stages[at]->List_0, scan),
        scan is Unreadable || scan->Entries_1 is Some,
        stages[end] is Done,
    ensures
        !outcome::succeeded(stages[end]->Done_0),
{
    let walk = stages[at]->List_0;
    law_nothing_that_went_wrong_is_forgotten(suite, around, stages, at + 1, end);
    let next = steps::scanned(walk, scan);
    assert(next.run.setup.len() != 0);
    if next.pending.len() == 0 && stages[at + 1] !is List {
        assert(setup_of(stages[at + 1]).len() != 0);
    }
}

proof fn lemma_unknown_is_reported(walk: Walk, all: Seq<Found>, found: Found)
    requires
        all.contains(found),
        found.what is Unknown,
    ensures
        steps::all_noted(walk, all).run.setup.len() != 0,
    decreases all.len(),
{
    let rest = all.drop_last();
    if all.last() != found {
        let i = all.index_of(found);
        assert(rest[i] == found);
        lemma_unknown_is_reported(walk, rest, found);
    }
}

/// An entry of which it cannot be told whether it is a fixture is no reason to
/// pass over it either: the run is no success.
pub proof fn law_an_entry_that_cannot_be_told_fails_the_run(
    suite: Suite,
    around: Surroundings,
    stages: Seq<Stage>,
    at: int,
    scan: Scan,
    found: Found,
    end: int,
)
    requires
        run::is_run(suite, around, stages),
        0 <= at < end < stages.len(),
        stages[at] is List,
        stages[at + 1] == steps::after_list(stages[at]->List_0, scan),
        holds(scan, found),
        found.what is Unknown,
        stages[end] is Done,
    ensures
        !outcome::succeeded(stages[end]->Done_0),
{
    let walk = stages[at]->List_0;
    law_nothing_that_went_wrong_is_forgotten(suite, around, stages, at + 1, end);
    lemma_unknown_is_reported(walk, scan->Entries_0@, found);
    let next = steps::scanned(walk, scan);
    assert(next.run.setup.len() != 0);
    if next.pending.len() == 0 && stages[at + 1] !is List {
        assert(setup_of(stages[at + 1]).len() != 0);
    }
}

} // verus!
