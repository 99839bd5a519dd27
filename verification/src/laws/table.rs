//! What a diagnostic may point into, and what stands for it.

use vstd::prelude::*;

use crate::laws::brief::{gathered, lemma_gathered_in_two};
use crate::laws::normalize::{
    is_header_up_to, is_replaced_alone, law_a_known_path_is_matched_whole, lemma_replaced_alone,
    lemma_written_behind_a_header,
};
use crate::laws::text::{begins, law_a_text_begins_with_its_start};
use crate::normalize;
use crate::normalize::paths;
use crate::normalize::paths::{Match, Pair, Replacements};
use crate::normalize::Rules;
use crate::path;
use crate::text;

verus! {

proof fn lemma_outside_pairs(rules: Rules, to: int)
    requires
        0 <= to <= rules.dependencies.len(),
    ensures
        normalize::dependency_pairs(rules.dependencies.take(to), rules.manifest_dir) == gathered(
            0,
            to,
            |i: int| !rules.manifest_dir.is_prefix_of(rules.dependencies[i].path),
            |i: int|
                Pair {
                    prefix: path::shown(rules.dependencies[i].path),
                    shown: normalize::placeholder_of(rules.dependencies[i].name),
                },
        ),
    decreases to,
{
    let all = rules.dependencies;
    let keeps = |i: int| !rules.manifest_dir.is_prefix_of(all[i].path);
    let shows = |i: int|
        Pair {
            prefix: path::shown(all[i].path),
            shown: normalize::placeholder_of(all[i].name),
        };
    if to > 0 {
        lemma_outside_pairs(rules, to - 1);
        lemma_gathered_in_two(0, to - 1, to, keeps, shows);
        let some = all.take(to);
        assert(some.drop_last() =~= all.take(to - 1));
        assert(some.last() == all[to - 1]);
        let place = all[to - 1].path;
        if rules.manifest_dir.len() <= place.len() {
            assert(place.take(rules.manifest_dir.len() as int) =~= place.subrange(
                0,
                rules.manifest_dir.len() as int,
            ));
        }
        assert(gathered(to, to, keeps, shows) =~= seq![]);
        assert(gathered(to - 1, to, keeps, shows) =~= if keeps(to - 1) {
            seq![shows(to - 1)]
        } else {
            seq![]
        });
        assert(normalize::dependency_pairs(some, rules.manifest_dir) =~= gathered(
            0,
            to,
            keeps,
            shows,
        ));
    }
}

/// What a diagnostic may point into is this and nothing else: the fixture, as the
/// build names it and as cargo does; where the scratch project is kept; the host
/// crate; what cargo keeps; and every declared dependency that is not kept in the
/// host crate.
pub proof fn law_what_a_diagnostic_may_point_into(rules: Rules, fixture: Seq<char>)
    ensures
        ({
            let table = normalize::replacements(rules, fixture);
            &&& table.known == seq![
                Pair { prefix: path::shown(rules.bin_path), shown: fixture },
                Pair { prefix: "src/bin/"@ + rules.bin + ".rs"@, shown: fixture },
                Pair { prefix: path::shown(rules.root), shown: "$SCRATCH"@ },
                Pair { prefix: path::shown(rules.manifest_dir), shown: "$DIR"@ },
            ] + match rules.cargo_home {
                Some(home) => seq![Pair { prefix: path::shown(home), shown: "$CARGO_HOME"@ }],
                None => seq![],
            } + gathered(
                0,
                rules.dependencies.len() as int,
                |i: int| !rules.manifest_dir.is_prefix_of(rules.dependencies[i].path),
                |i: int|
                    Pair {
                        prefix: path::shown(rules.dependencies[i].path),
                        shown: normalize::placeholder_of(rules.dependencies[i].name),
                    },
            )
            &&& table.registry == match rules.cargo_home {
                Some(home) => Some(path::shown(home) + "/registry/src/"@),
                None => None,
            }
            &&& table.bin == rules.bin
            &&& table.fold == rules.fold
        }),
{
    lemma_outside_pairs(rules, rules.dependencies.len() as int);
    assert(rules.dependencies.take(rules.dependencies.len() as int) =~= rules.dependencies);
}

pub(crate) proof fn lemma_gathered_has<T>(
    from: int,
    to: int,
    keeps: spec_fn(int) -> bool,
    shows: spec_fn(int) -> T,
    at: int,
)
    requires
        from <= at < to,
        keeps(at),
    ensures
        gathered(from, to, keeps, shows).contains(shows(at)),
{
    lemma_gathered_in_two(from, at, to, keeps, shows);
    let before = gathered(from, at, keeps, shows);
    assert(gathered(from, to, keeps, shows)[before.len() as int] == shows(at));
}

/// Every declared dependency that is not kept in the host crate is known by its
/// placeholder, whatever else is declared before or behind it.
pub proof fn law_every_outside_dependency_is_known(rules: Rules, fixture: Seq<char>, at: int)
    requires
        0 <= at < rules.dependencies.len(),
        !rules.manifest_dir.is_prefix_of(rules.dependencies[at].path),
    ensures
        normalize::replacements(rules, fixture).known.contains(
            Pair {
                prefix: path::shown(rules.dependencies[at].path),
                shown: normalize::placeholder_of(rules.dependencies[at].name),
            },
        ),
{
    law_what_a_diagnostic_may_point_into(rules, fixture);
    let keeps = |i: int| !rules.manifest_dir.is_prefix_of(rules.dependencies[i].path);
    let shows = |i: int|
        Pair {
            prefix: path::shown(rules.dependencies[i].path),
            shown: normalize::placeholder_of(rules.dependencies[i].name),
        };
    lemma_gathered_has(0, rules.dependencies.len() as int, keeps, shows, at);
    let outside = gathered(0, rules.dependencies.len() as int, keeps, shows);
    let known = normalize::replacements(rules, fixture).known;
    let i = outside.index_of(shows(at));
    assert(known[known.len() - outside.len() + i] == shows(at));
}

/// Of what may stand at `at` of a line, nothing is longer than `len`, and no other
/// known path is as long.
pub open spec fn nothing_longer_stands_at(
    read: Seq<char>,
    table: Replacements,
    at: int,
    pair: Pair,
) -> bool {
    &&& forall|i: int|
        0 <= i < table.known.len() && text::occurs_at(read, (#[trigger] table.known[i]).prefix, at)
            && table.known[i] != pair ==> table.known[i].prefix.len() < pair.prefix.len()
    &&& table.registry matches Some(registry) ==> paths::registry_len(read, registry, at)
        <= pair.prefix.len()
    &&& paths::rust_len(read, at) <= pair.prefix.len()
}

/// A span header that points into a place that is known is written from what stands
/// for that place on: `before` is its padding and arrow, and behind the place
/// stands a separator, or the position, or nothing.
#[verifier::rlimit(40)]
pub proof fn law_a_span_header_is_written_from_the_placeholder_on(
    before: Seq<char>,
    pair: Pair,
    place: Seq<char>,
    after: Seq<char>,
    table: Replacements,
)
    requires
        table.known.contains(pair),
        pair.prefix.len() != 0,
        is_header_up_to(before, place + after, table.fold),
        paths::folded(place, table.fold) == pair.prefix,
        ({
            let read = paths::folded(before + place + after, table.fold);
            let end = (before.len() + place.len()) as int;
            &&& nothing_longer_stands_at(read, table, before.len() as int, pair)
            &&& end == read.len() || read[end] == '/' || end >= paths::place_end(read)
            &&& forall|at: int|
                0 <= at < before.len() || end <= at < read.len() ==> (#[trigger] paths::match_at(
                    read,
                    table,
                    at,
                )).len == 0
        }),
    ensures
        paths::rewritten(before + place + after, table) == before + pair.shown + paths::folded(
            after,
            table.fold,
        ),
{
    let line = before + place + after;
    let read = paths::folded(line, table.fold);
    let at = before.len() as int;
    let end = (before.len() + place.len()) as int;
    assert(line =~= before + (place + after));
    assert(place.len() == pair.prefix.len());
    assert(read.subrange(at, at + pair.prefix.len()) =~= pair.prefix) by {
        assert forall|i: int| 0 <= i < place.len() implies read[at + i] == pair.prefix[i] by {
            assert(line[at + i] == place[i]);
            assert(paths::folded(place, table.fold)[i] == pair.prefix[i]);
        }
    }
    let reach = paths::reach_of(read, at);
    assert(paths::component_ends(read, reach, end));
    assert(paths::known_at(read, pair.prefix, at));
    let found = paths::longest(read, table.known, at);
    law_a_known_path_is_matched_whole(read, table.known, at);
    let k = table.known.index_of(pair);
    assert(table.known[k] == pair);
    let i = choose|i: int|
        0 <= i < table.known.len() && (#[trigger] table.known[i]).prefix.len() == found.len
            && table.known[i].shown == found.shown && paths::known_at(
            read,
            table.known[i].prefix,
            at,
        );
    assert(table.known[i] == pair);
    lemma_header_begins(read);
    assert(paths::path_begins(read, at));
    assert(paths::match_at(read, table, at) == (Match { len: place.len(), shown: pair.shown }));
    assert(is_replaced_alone(before, place, after, table, pair.shown));
    lemma_replaced_alone(before, place, after, table, pair.shown, 0);
    lemma_written_behind_a_header(before, place, after, table.fold);
    assert(before.skip(0) =~= before);
    assert(before + (pair.shown + paths::folded(after, table.fold)) =~= before + pair.shown
        + paths::folded(after, table.fold));
}

/// A path can begin behind the arrow of a span header.
proof fn lemma_header_begins(line: Seq<char>)
    requires
        paths::is_header(line),
    ensures
        paths::path_begins(line, paths::place_start(line)),
{
    text::lemma_trim_start(line);
    let at = paths::place_start(line);
    let rest = text::trim_start(line);
    reveal_strlit("--> ");
    reveal_strlit("::: ");
    assert(rest.take(4)[3] == ' ');
    assert(rest[3] == line[at - 1]);
}

/// A span header into a declared dependency that is not kept in the host crate is
/// written from the placeholder of that dependency on, however many are declared.
pub proof fn law_a_span_header_into_a_dependency(
    rules: Rules,
    fixture: Seq<char>,
    at: int,
    before: Seq<char>,
    place: Seq<char>,
    after: Seq<char>,
)
    requires
        0 <= at < rules.dependencies.len(),
        !rules.manifest_dir.is_prefix_of(rules.dependencies[at].path),
        ({
            let table = normalize::replacements(rules, fixture);
            let shown = path::shown(rules.dependencies[at].path);
            let read = paths::folded(before + place + after, rules.fold);
            let end = (before.len() + place.len()) as int;
            &&& shown.len() != 0
            &&& paths::folded(place, rules.fold) == shown
            &&& is_header_up_to(before, place + after, rules.fold)
            &&& nothing_longer_stands_at(
                read,
                table,
                before.len() as int,
                Pair {
                    prefix: shown,
                    shown: normalize::placeholder_of(rules.dependencies[at].name),
                },
            )
            &&& end == read.len() || read[end] == '/' || end >= paths::place_end(read)
            &&& forall|i: int|
                0 <= i < before.len() || end <= i < read.len() ==> (#[trigger] paths::match_at(
                    read,
                    table,
                    i,
                )).len == 0
        }),
    ensures
        paths::rewritten(before + place + after, normalize::replacements(rules, fixture)) == before
            + normalize::placeholder_of(rules.dependencies[at].name) + paths::folded(
            after,
            rules.fold,
        ),
{
    law_every_outside_dependency_is_known(rules, fixture, at);
    law_what_a_diagnostic_may_point_into(rules, fixture);
    law_a_span_header_is_written_from_the_placeholder_on(
        before,
        Pair {
            prefix: path::shown(rules.dependencies[at].path),
            shown: normalize::placeholder_of(rules.dependencies[at].name),
        },
        place,
        after,
        normalize::replacements(rules, fixture),
    );
}

/// The placeholder of a dependency is a dollar sign and its name, letter by letter:
/// a lower case letter as the upper case one, a hyphen as an underscore, and
/// anything else as it is.
pub proof fn law_a_placeholder_is_the_name_in_upper_case(name: Seq<char>, at: int)
    requires
        forall|i: int| 0 <= i < name.len() ==> (#[trigger] name[i]) as u32 <= 0x7f,
        0 <= at < name.len(),
    ensures
        ({
            let shown = normalize::placeholder_of(name);
            let c = name[at];
            &&& shown.len() == name.len() + 1
            &&& shown[0] == '$'
            &&& 'a' <= c && c <= 'z' ==> 'A' <= shown[at + 1] && shown[at + 1] <= 'Z'
                && shown[at + 1] as int - 'A' as int == c as int - 'a' as int
            &&& c == '-' ==> shown[at + 1] == '_'
            &&& !('a' <= c && c <= 'z') && c != '-' ==> shown[at + 1] == c
        }),
{
    reveal_strlit("$");
    let upper = normalize::uppercased(name);
    assert(upper[at] == normalize::upper_char(name[at]));
    let n = name[at] as u32 - 32;
    if 'a' <= name[at] && name[at] <= 'z' {
        assert(65 <= n <= 90);
    }
}

/// The placeholders that stand for something other than a dependency are these.
pub proof fn law_what_is_reserved(placeholder: Seq<char>)
    ensures
        normalize::is_reserved(placeholder) <==> seq![
            "$DIR"@,
            "$SCRATCH"@,
            "$CARGO_REGISTRY"@,
            "$CARGO_HOME"@,
            "$RUST"@,
            "$CRATE"@,
            "$N"@,
            "$IMPLEMENTORS"@,
        ].contains(placeholder),
{
    let all = seq![
        "$DIR"@,
        "$SCRATCH"@,
        "$CARGO_REGISTRY"@,
        "$CARGO_HOME"@,
        "$RUST"@,
        "$CRATE"@,
        "$N"@,
        "$IMPLEMENTORS"@,
    ];
    assert(all[0] == "$DIR"@ && all[1] == "$SCRATCH"@ && all[2] == "$CARGO_REGISTRY"@);
    assert(all[3] == "$CARGO_HOME"@ && all[4] == "$RUST"@ && all[5] == "$CRATE"@);
    assert(all[6] == "$N"@ && all[7] == "$IMPLEMENTORS"@);
}

/// A location names a place in the fixture where it is the path of the fixture, or
/// that path and a colon, whatever follows.
pub proof fn law_what_names_a_place_in_the_fixture(target: Seq<char>, fixture: Seq<char>)
    ensures
        normalize::names_place_in(target, fixture) <==> target == fixture || begins(
            target,
            fixture + ":"@,
        ),
{
    reveal_strlit(":");
    assert(fixture + ":"@ =~= fixture.push(':'));
    law_a_text_begins_with_its_start(target, fixture.push(':'));
}

/// A placeholder is a dollar sign and what it is called, with an underscore in place
/// of every hyphen. A dependency's is called by its name in upper case, which of a
/// name outside of ASCII is what Unicode makes of it.
pub proof fn law_what_a_placeholder_is_called(upper: Seq<char>, name: Seq<char>)
    ensures
        normalize::placeholder_called(upper) == "$"@ + Seq::new(
            upper.len(),
            |i: int|
                if upper[i] == '-' {
                    '_'
                } else {
                    upper[i]
                },
        ),
        (exists|i: int| 0 <= i < name.len() && (#[trigger] name[i]) as u32 > 0x7f)
            ==> normalize::placeholder_of(name) == normalize::placeholder_called(
            normalize::upper_text(name),
        ),
{
    assert(normalize::placeholder_called(upper) =~= "$"@ + Seq::new(
        upper.len(),
        |i: int|
            if upper[i] == '-' {
                '_'
            } else {
                upper[i]
            },
    ));
}

} // verus!
