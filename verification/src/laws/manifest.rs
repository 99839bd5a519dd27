//! What the scratch project's manifest says.

use vstd::arithmetic::power::pow;
use vstd::prelude::*;

use crate::path;
use crate::path::Part;
use crate::scratch;
use crate::scratch::Declared;

verus! {

// ---------------------------------------------------------------------------
// Hexadecimal numbers.
// ---------------------------------------------------------------------------

/// The value of a hexadecimal digit.
pub open spec fn digit_value(c: char) -> Option<int> {
    if '0' <= c && c <= '9' {
        Some(c as int - '0' as int)
    } else if 'a' <= c && c <= 'f' {
        Some(c as int - 'a' as int + 10)
    } else if 'A' <= c && c <= 'F' {
        Some(c as int - 'A' as int + 10)
    } else {
        None
    }
}

/// The number that hexadecimal digits stand for.
pub open spec fn number_of(digits: Seq<char>) -> Option<int>
    decreases digits.len(),
{
    if digits.len() == 0 {
        Some(0)
    } else {
        match (number_of(digits.drop_last()), digit_value(digits.last())) {
            (Some(high), Some(low)) => Some(16 * high + low),
            _ => None,
        }
    }
}

/// A number is written in as many hexadecimal digits as are asked for, and where
/// they are enough they stand for it.
pub proof fn law_hexadecimal_digits_stand_for_their_number(n: u64, count: nat)
    ensures
        scratch::hex(n, count).len() == count,
        n < pow(16, count) ==> number_of(scratch::hex(n, count)) == Some(n as int),
        forall|i: int|
            0 <= i < count ==> {
                let c = #[trigger] scratch::hex(n, count)[i];
                '0' <= c && c <= '9' || 'a' <= c && c <= 'f'
            },
    decreases count,
{
    reveal(pow);
    if count > 0 {
        let rest = (count - 1) as nat;
        law_hexadecimal_digits_stand_for_their_number(n / 16, rest);
        let digits = scratch::hex(n, count);
        assert(digits.drop_last() =~= scratch::hex(n / 16, rest));
        assert(pow(16, count) == 16 * pow(16, rest));
        assert(n < 16 * pow(16, rest) ==> n / 16 < pow(16, rest));
        lemma_hex_char((n % 16) as u64);
        assert forall|i: int| 0 <= i < count implies {
            let c = #[trigger] digits[i];
            '0' <= c && c <= '9' || 'a' <= c && c <= 'f'
        } by {
            if i < count - 1 {
                assert(digits[i] == scratch::hex(n / 16, rest)[i]);
            }
        }
    }
}

proof fn lemma_hex_char(n: u64)
    requires
        n < 16,
    ensures
        digit_value(scratch::hex_char(n)) == Some(n as int),
        '0' <= scratch::hex_char(n) && scratch::hex_char(n) <= '9' || 'a' <= scratch::hex_char(n)
            && scratch::hex_char(n) <= 'f',
{
}

// ---------------------------------------------------------------------------
// TOML strings.
// ---------------------------------------------------------------------------

/// What a TOML parser makes of `text`, which stands behind the opening quote of a
/// basic string: the string, and what is left behind the closing quote.
///
/// A control character cannot stand in one as it is. Of the escapes these are read:
/// a backslash, a quote, and a character given by four digits.
pub open spec fn toml_read(text: Seq<char>) -> Option<(Seq<char>, Seq<char>)>
    decreases text.len(),
{
    if text.len() == 0 || (text[0] as u32) < 0x20 || text[0] as u32 == 0x7f {
        None
    } else if text[0] == '"' {
        Some((seq![], text.skip(1)))
    } else if text[0] != '\\' {
        match toml_read(text.skip(1)) {
            Some((rest, after)) => Some((seq![text[0]] + rest, after)),
            None => None,
        }
    } else if text.len() >= 2 && (text[1] == '\\' || text[1] == '"') {
        match toml_read(text.skip(2)) {
            Some((rest, after)) => Some((seq![text[1]] + rest, after)),
            None => None,
        }
    } else if text.len() >= 6 && text[1] == 'u' {
        match (number_of(text.subrange(2, 6)), toml_read(text.skip(6))) {
            (Some(n), Some((rest, after))) => Some((seq![n as char] + rest, after)),
            _ => None,
        }
    } else {
        None
    }
}

proof fn lemma_escape_is_read(c: char, rest: Seq<char>)
    ensures
        toml_read(scratch::toml_char(c) + rest) == match toml_read(rest) {
            Some((text, after)) => Some((seq![c] + text, after)),
            None => None,
        },
{
    let whole = scratch::toml_char(c) + rest;
    reveal_strlit("\\\\");
    reveal_strlit("\\\"");
    reveal_strlit("\\u");
    if c == '\\' || c == '"' {
        assert(whole.skip(2) =~= rest);
    } else if (c as u32) < 0x20 || c as u32 == 0x7f {
        law_hexadecimal_digits_stand_for_their_number(c as u64, 4);
        reveal(pow);
        reveal_with_fuel(pow, 5);
        assert(pow(16, 4) == 65536);
        let digits = scratch::hex(c as u64, 4);
        assert(whole.subrange(2, 6) =~= digits);
        assert(whole.skip(6) =~= rest);
        assert(c as u64 as int as char == c);
    } else {
        assert(whole.skip(1) =~= rest);
    }
}

proof fn lemma_escapes_are_read(text: Seq<char>, rest: Seq<char>)
    ensures
        toml_read(scratch::toml_escaped(text) + rest) == match toml_read(rest) {
            Some((more, after)) => Some((text + more, after)),
            None => None,
        },
    decreases text.len(),
{
    if text.len() == 0 {
        assert(scratch::toml_escaped(text) + rest =~= rest);
        if let Some((more, after)) = toml_read(rest) {
            assert(text + more =~= more);
        }
    } else {
        let before = text.drop_last();
        let c = text.last();
        lemma_escape_is_read(c, rest);
        lemma_escapes_are_read(before, scratch::toml_char(c) + rest);
        assert(scratch::toml_escaped(text) + rest =~= scratch::toml_escaped(before) + (
        scratch::toml_char(c) + rest));
        if let Some((more, after)) = toml_read(rest) {
            assert(before + (seq![c] + more) =~= text + more);
        }
    }
}

/// Whatever a text holds, a TOML parser reads it back from the string it is
/// written as, and is then right behind that string.
pub proof fn law_a_toml_string_reads_back(text: Seq<char>, after: Seq<char>)
    ensures
        scratch::toml_string(text)[0] == '"',
        toml_read((scratch::toml_string(text) + after).skip(1)) == Some((text, after)),
{
    reveal_strlit("\"");
    lemma_escapes_are_read(text, "\""@ + after);
    assert((scratch::toml_string(text) + after).skip(1) =~= scratch::toml_escaped(text) + ("\""@
        + after));
    assert(("\""@ + after).skip(1) =~= after);
    assert(text + Seq::<char>::empty() =~= text);
}

// ---------------------------------------------------------------------------
// The manifest.
// ---------------------------------------------------------------------------

/// The entry for one dependency.
pub open spec fn dependency_entry(dependency: Declared) -> Seq<char> {
    scratch::toml_string(dependency.name) + " = { path = "@ + scratch::toml_string(
        path::shown(dependency.path),
    ) + " }\n"@
}

/// The table for one bin target.
pub open spec fn bin_table(bin: Seq<char>) -> Seq<char> {
    "\n[[bin]]\nname = "@ + scratch::toml_string(bin) + "\npath = "@ + scratch::toml_string(
        "src/bin/"@ + bin + ".rs"@,
    ) + "\n"@
}

/// A package of its own, in no workspace, of the given edition.
pub open spec fn package_head(edition: Seq<char>) -> Seq<char> {
    "[package]\nname = \"nocompile-scratch\"\nversion = \"0.0.0\"\npublish = false\nautobins = false\nedition = "@
        + scratch::toml_string(edition) + "\n\n[workspace]\n\n[dependencies]\n"@
}

pub(crate) proof fn lemma_joined<T>(all: Seq<T>, written: spec_fn(T) -> Seq<char>)
    requires
        all.len() > 0,
    ensures
        all.map_values(written).flatten() == all.drop_last().map_values(written).flatten()
            + written(all.last()),
{
    let parts = all.map_values(written);
    parts.lemma_flatten_and_flatten_alt_are_equivalent();
    parts.drop_last().lemma_flatten_and_flatten_alt_are_equivalent();
    assert(parts.drop_last() =~= all.drop_last().map_values(written));
}

proof fn lemma_dependency_entries(all: Seq<Declared>)
    ensures
        scratch::dependency_lines(all) == all.map_values(
            |dependency: Declared| dependency_entry(dependency),
        ).flatten(),
    decreases all.len(),
{
    let written = |dependency: Declared| dependency_entry(dependency);
    if all.len() == 0 {
        assert(all.map_values(written).flatten() =~= seq![]);
    } else {
        lemma_dependency_entries(all.drop_last());
        lemma_joined(all, written);
        assert(scratch::dependency_lines(all) =~= scratch::dependency_lines(all.drop_last())
            + dependency_entry(all.last()));
    }
}

proof fn lemma_bin_tables(all: Seq<Seq<char>>)
    ensures
        scratch::bin_tables(all) == all.map_values(|bin: Seq<char>| bin_table(bin)).flatten(),
    decreases all.len(),
{
    let written = |bin: Seq<char>| bin_table(bin);
    if all.len() == 0 {
        assert(all.map_values(written).flatten() =~= seq![]);
    } else {
        lemma_bin_tables(all.drop_last());
        lemma_joined(all, written);
        assert(scratch::bin_tables(all) =~= scratch::bin_tables(all.drop_last()) + bin_table(
            all.last(),
        ));
    }
}

proof fn lemma_raw_entries(all: Seq<Seq<char>>)
    ensures
        scratch::raw_lines(all) == all.map_values(
            |entry: Seq<char>| "\n"@ + entry + "\n"@,
        ).flatten(),
    decreases all.len(),
{
    let written = |entry: Seq<char>| "\n"@ + entry + "\n"@;
    if all.len() == 0 {
        assert(all.map_values(written).flatten() =~= seq![]);
    } else {
        lemma_raw_entries(all.drop_last());
        lemma_joined(all, written);
        assert(scratch::raw_lines(all) =~= scratch::raw_lines(all.drop_last()) + ("\n"@
            + all.last() + "\n"@));
    }
}

/// The manifest is a package of its own with an entry for every dependency, a table
/// for every bin target and every entry the caller added, each once, in order, and
/// nothing else.
pub proof fn law_the_manifest_declares_everything_once(
    edition: Seq<char>,
    dependencies: Seq<Declared>,
    raw: Seq<Seq<char>>,
    bins: Seq<Seq<char>>,
)
    ensures
        scratch::manifest_text(edition, dependencies, raw, bins) == package_head(edition)
            + dependencies.map_values(
            |dependency: Declared| dependency_entry(dependency),
        ).flatten() + bins.map_values(|bin: Seq<char>| bin_table(bin)).flatten() + raw.map_values(
            |entry: Seq<char>| "\n"@ + entry + "\n"@,
        ).flatten(),
{
    lemma_dependency_entries(dependencies);
    lemma_bin_tables(bins);
    lemma_raw_entries(raw);
}

proof fn lemma_part_of_all(all: Seq<Seq<char>>, at: int)
    requires
        0 <= at < all.len(),
    ensures
        all.flatten() == all.take(at).flatten() + all[at] + all.skip(at + 1).flatten(),
    decreases at,
{
    if at == 0 {
        assert(all.take(0).flatten() =~= Seq::<char>::empty());
        assert(all.skip(1) =~= all.drop_first());
        assert(all.flatten() =~= all.take(at).flatten() + all[at] + all.skip(at + 1).flatten());
    } else {
        let rest = all.drop_first();
        lemma_part_of_all(rest, at - 1);
        assert(rest.skip(at) =~= all.skip(at + 1));
        assert(all.take(at).drop_first() =~= rest.take(at - 1));
        assert(all.take(at).first() == all.first());
        assert(all.flatten() =~= all.take(at).flatten() + all[at] + all.skip(at + 1).flatten());
    }
}

/// However many dependencies are declared, the entry of each stands in the
/// `[dependencies]` table: before it are the head of the manifest and the entries
/// of those declared before, and behind it are those of the rest.
#[verifier::rlimit(40)]
pub proof fn law_every_dependency_is_in_the_manifest(
    edition: Seq<char>,
    dependencies: Seq<Declared>,
    raw: Seq<Seq<char>>,
    bins: Seq<Seq<char>>,
    at: int,
)
    requires
        0 <= at < dependencies.len(),
    ensures
        ({
            let d = dependencies[at];
            let before = scratch::manifest_text(edition, dependencies.take(at), seq![], seq![]);
            let line = scratch::toml_string(d.name) + " = { path = "@ + scratch::toml_string(
                path::shown(d.path),
            ) + " }\n"@;
            let whole = scratch::manifest_text(edition, dependencies, raw, bins);
            &&& before.len() + line.len() <= whole.len()
            &&& whole.take((before.len() + line.len()) as int) == before + line
            &&& whole.skip((before.len() + line.len()) as int) == dependencies.skip(
                at + 1,
            ).map_values(|dependency: Declared| dependency_entry(dependency)).flatten()
                + bins.map_values(|bin: Seq<char>| bin_table(bin)).flatten() + raw.map_values(
                |entry: Seq<char>| "\n"@ + entry + "\n"@,
            ).flatten()
        }),
{
    let written = |dependency: Declared| dependency_entry(dependency);
    let entries = dependencies.map_values(written);
    let tables = bins.map_values(|bin: Seq<char>| bin_table(bin)).flatten();
    let added = raw.map_values(|entry: Seq<char>| "\n"@ + entry + "\n"@).flatten();
    law_the_manifest_declares_everything_once(edition, dependencies, raw, bins);
    law_the_manifest_declares_everything_once(edition, dependencies.take(at), seq![], seq![]);
    lemma_part_of_all(entries, at);
    assert(entries.take(at) =~= dependencies.take(at).map_values(written));
    assert(entries.skip(at + 1) =~= dependencies.skip(at + 1).map_values(written));
    let none = Seq::<Seq<char>>::empty();
    assert(none.map_values(|bin: Seq<char>| bin_table(bin)) =~= none);
    assert(none.map_values(|entry: Seq<char>| "\n"@ + entry + "\n"@) =~= none);
    assert(none.flatten() =~= Seq::<char>::empty());
    let before = scratch::manifest_text(edition, dependencies.take(at), seq![], seq![]);
    let line = dependency_entry(dependencies[at]);
    let whole = scratch::manifest_text(edition, dependencies, raw, bins);
    assert(before =~= package_head(edition) + entries.take(at).flatten());
    let rest = entries.skip(at + 1).flatten() + tables + added;
    assert(whole =~= before + line + rest);
    assert(whole.take((before.len() + line.len()) as int) =~= before + line);
    assert(whole.skip((before.len() + line.len()) as int) =~= rest);
}

// ---------------------------------------------------------------------------
// Names and places.
// ---------------------------------------------------------------------------

/// The bin target of a fixture is called by the letters and digits of its path, in
/// their places, and by a hash of that path in sixteen digits.
pub proof fn law_a_bin_is_called_by_its_path(relative: Seq<char>)
    ensures
        ({
            let bin = scratch::bin_of(relative);
            let n = relative.len() as int;
            &&& bin.len() == n + 19
            &&& bin[0] == 'f' && bin[1] == '_' && bin[n + 2] == '_'
            &&& forall|i: int|
                0 <= i < n ==> {
                    let c = relative[i];
                    (#[trigger] bin[i + 2]) == if 'a' <= c && c <= 'z' || 'A' <= c && c <= 'Z'
                        || '0' <= c && c <= '9' {
                        c
                    } else {
                        '_'
                    }
                }
            &&& number_of(bin.skip(n + 3)) == Some(
                scratch::hash(vstd::utf8::encode_utf8(relative)) as int,
            )
        }),
{
    let bin = scratch::bin_of(relative);
    let n = relative.len() as int;
    let value = scratch::hash(vstd::utf8::encode_utf8(relative));
    reveal_strlit("f_");
    reveal_strlit("_");
    law_hexadecimal_digits_stand_for_their_number(value, 16);
    assert(bin.skip(n + 3) =~= scratch::hex(value, 16));
    reveal(pow);
    reveal_with_fuel(pow, 17);
    assert(pow(16, 16) == 0x1_0000_0000_0000_0000);
    assert forall|i: int| 0 <= i < n implies {
        let c = relative[i];
        (#[trigger] bin[i + 2]) == if 'a' <= c && c <= 'z' || 'A' <= c && c <= 'Z' || '0' <= c && c
            <= '9' {
            c
        } else {
            '_'
        }
    } by {
        assert(bin[i + 2] == scratch::sanitized(relative)[i]);
    }
}

/// The hash is the 64-bit FNV-1a: it starts from the offset basis and takes in
/// every byte in turn.
pub proof fn law_the_hash_takes_in_every_byte(bytes: Seq<u8>, byte: u8)
    ensures
        scratch::hash(seq![]) == 0xcbf29ce484222325u64,
        scratch::hash(bytes.push(byte)) == (scratch::hash(bytes) ^ (byte as u64)).wrapping_mul(
            0x100000001b3u64,
        ),
{
    assert(bytes.push(byte).drop_last() =~= bytes);
}

/// The component called `name`.
pub open spec fn component(name: Seq<char>) -> Part {
    Part::Normal(vstd::utf8::encode_utf8(name))
}

/// The scratch project of a host crate is kept in the target directory, under the
/// name of that crate, the project beside what it is built into. The source of a
/// bin target is where cargo looks for one.
pub proof fn law_the_scratch_project_is_kept_in_the_target_directory(
    target: Seq<Part>,
    name: Seq<char>,
    bin: Seq<char>,
)
    ensures
        ({
            let place = scratch::place_in(target, name);
            let root = target + seq![component("nocompile-scratch"@), component(name)];
            &&& place.root == root
            &&& place.project == root.push(component("project"@))
            &&& place.target == root.push(component("target"@))
            &&& scratch::bin_parts(place.project, bin) == place.project + seq![
                component("src"@),
                component("bin"@),
                component(bin + ".rs"@),
            ]
        }),
{
    let place = scratch::place_in(target, name);
    assert(place.root =~= target + seq![component("nocompile-scratch"@), component(name)]);
    assert(scratch::bin_parts(place.project, bin) =~= place.project + seq![
        component("src"@),
        component("bin"@),
        component(bin + ".rs"@),
    ]);
}

proof fn lemma_nearest(parts: Seq<Part>, name: Seq<char>)
    ensures
        match scratch::nearest(parts, name) {
            Some(at) => 0 <= at < parts.len() && parts[at] == component(name) && forall|i: int|
                at < i < parts.len() ==> #[trigger] parts[i] != component(name),
            None => forall|i: int| 0 <= i < parts.len() ==> #[trigger] parts[i] != component(name),
        },
    decreases parts.len(),
{
    if parts.len() != 0 && parts.last() != component(name) {
        let rest = parts.drop_last();
        lemma_nearest(rest, name);
        assert forall|i: int| 0 <= i < rest.len() implies #[trigger] parts[i] == rest[i] by {}
    }
}

/// The target directory of a build is the one that was configured, resolved against
/// the host crate. If none was, it is the directory called `target` above the
/// executable that is nearest to it, and the host crate's own if there is none.
pub proof fn law_where_the_target_directory_is(
    manifest_dir: Seq<Part>,
    configured: Option<Seq<Part>>,
    executable: Option<Seq<Part>>,
    at: int,
)
    ensures
        configured is Some ==> scratch::target_parts(manifest_dir, configured, executable)
            == path::joined(manifest_dir, configured->0),
        configured is None && executable is Some && 0 <= at < executable->0.len()
            && executable->0[at] == component("target"@) && (forall|i: int|
            at < i < executable->0.len() ==> #[trigger] executable->0[i] != component("target"@))
            ==> scratch::target_parts(manifest_dir, configured, executable) == executable->0.take(
            at + 1,
        ),
        configured is None && (executable is Some ==> forall|i: int|
            0 <= i < executable->0.len() ==> #[trigger] executable->0[i] != component("target"@))
            ==> scratch::target_parts(manifest_dir, configured, executable) == manifest_dir.push(
            component("target"@),
        ),
{
    if let Some(parts) = executable {
        lemma_nearest(parts, "target"@);
        if let Some(found) = scratch::nearest(parts, "target"@) {
            if 0 <= at < parts.len() && parts[at] == component("target"@) && found != at {
                assert(parts[found] == component("target"@));
            }
        }
    }
}

} // verus!
