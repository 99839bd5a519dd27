//! What holds of what cargo is asked and of what is made of its answer.

use vstd::prelude::*;
use vstd::utf8::*;

use crate::compile;
use crate::compile::{Built, Change, Reading};
use crate::json;
use crate::json::Json;
use crate::path::{Part, PathBuf};
use crate::text;

verus! {

// ---------------------------------------------------------------------------
// Attribution.
// ---------------------------------------------------------------------------

/// The manifest `message` names, where it names one.
pub open spec fn manifest_of(message: Json) -> Option<Seq<char>> {
    json::text_at(message, seq!["manifest_path"@])
}

/// The target `message` names, where it names one.
pub open spec fn target_of(message: Json) -> Option<Seq<char>> {
    json::text_at(message, seq!["target"@, "name"@])
}

/// Why cargo sent `message`, where it says.
pub open spec fn reason_of(message: Json) -> Option<Seq<char>> {
    json::text_at(message, seq!["reason"@])
}

/// A message of another package, or of none, says nothing about a fixture: it is
/// no diagnostic of one and no evidence that one compiled, whatever target it
/// names.
pub proof fn law_only_our_own_messages_are_about_fixtures(
    built: Built,
    message: Json,
    manifest: Seq<Part>,
)
    requires
        !compile::is_ours(manifest_of(message), manifest),
    ensures
        compile::absorbed(built, message, manifest).messages == built.messages,
        compile::absorbed(built, message, manifest).compiled == built.compiled,
{
}

/// A fixture is recorded as compiled by an artifact of the scratch project that
/// names its target, and by nothing else. Once recorded it stays.
pub proof fn law_an_artifact_is_the_only_evidence(
    built: Built,
    message: Json,
    manifest: Seq<Part>,
    bin: Seq<char>,
)
    ensures
        compile::absorbed(built, message, manifest).compiled.contains(bin)
            <==> built.compiled.contains(bin) || (reason_of(message) == Some("compiler-artifact"@)
            && compile::is_ours(manifest_of(message), manifest) && target_of(message) == Some(bin)),
{
    reveal_strlit("compiler-artifact");
    reveal_strlit("compiler-message");
    reveal_strlit("build-finished");
    assert("compiler-artifact"@.len() != "compiler-message"@.len());
    if let Some(target) = target_of(message) {
        let names = compile::with_name(built.compiled, target);
        if !built.compiled.contains(target) {
            assert(names[built.compiled.len() as int] == target);
            assert forall|other: Seq<char>| built.compiled.contains(other) implies names.contains(
                other,
            ) by {
                let i = built.compiled.index_of(other);
                assert(names[i] == other);
            }
        }
    }
}

/// A diagnostic of the scratch project is filed under its own target and no
/// other, behind what was filed there before.
pub proof fn law_a_diagnostic_is_filed_under_its_own_target(
    built: Built,
    message: Json,
    manifest: Seq<Part>,
    bin: Seq<char>,
)
    ensures
        compile::said_about(compile::absorbed(built, message, manifest), bin)
            == compile::said_about(built, bin) + said_by(message, manifest, bin),
{
    let next = compile::absorbed(built, message, manifest);
    if next.messages != built.messages {
        assert(next.messages.drop_last() =~= built.messages);
        let all = compile::about(built.messages, bin);
        let more = compile::about(next.messages, bin);
        if next.messages.last().0 == bin {
            assert(more.drop_last() =~= all);
        }
    }
    assert(compile::said_about(built, bin) + Seq::<char>::empty() =~= compile::said_about(
        built,
        bin,
    ));
}

/// What `message` says about `bin`.
pub open spec fn said_by(message: Json, manifest: Seq<Part>, bin: Seq<char>) -> Seq<char> {
    if reason_of(message) == Some("compiler-message"@) && compile::is_ours(
        manifest_of(message),
        manifest,
    ) && target_of(message) == Some(bin) && json::text_at(
        message,
        seq!["message"@, "level"@],
    ) != Some("failure-note"@) {
        match json::text_at(message, seq!["message"@, "rendered"@]) {
            Some(rendered) => rendered,
            None => seq![],
        }
    } else {
        seq![]
    }
}

/// Cargo compiles fixtures in parallel and its messages interleave. The order in
/// which the messages of two targets arrive makes no difference to what is said
/// about either, or about any other.
pub proof fn law_interleaving_does_not_matter(
    built: Built,
    a: Json,
    b: Json,
    manifest: Seq<Part>,
    bin: Seq<char>,
)
    requires
        target_of(a) != target_of(b),
    ensures
        compile::said_about(
            compile::absorbed(compile::absorbed(built, a, manifest), b, manifest),
            bin,
        ) == compile::said_about(
            compile::absorbed(compile::absorbed(built, b, manifest), a, manifest),
            bin,
        ),
{
    law_a_diagnostic_is_filed_under_its_own_target(built, a, manifest, bin);
    law_a_diagnostic_is_filed_under_its_own_target(built, b, manifest, bin);
    law_a_diagnostic_is_filed_under_its_own_target(
        compile::absorbed(built, a, manifest),
        b,
        manifest,
        bin,
    );
    law_a_diagnostic_is_filed_under_its_own_target(
        compile::absorbed(built, b, manifest),
        a,
        manifest,
        bin,
    );
    let said = compile::said_about(built, bin);
    let (x, y) = (said_by(a, manifest, bin), said_by(b, manifest, bin));
    assert(x.len() == 0 || y.len() == 0);
    assert((said + x) + y =~= (said + y) + x);
}

/// Only cargo's word that the build is finished says that it got that far.
pub proof fn law_only_a_finished_build_has_started(
    built: Built,
    message: Json,
    manifest: Seq<Part>,
)
    ensures
        compile::absorbed(built, message, manifest).started <==> built.started || reason_of(message)
            == Some("build-finished"@),
{
    reveal_strlit("compiler-artifact");
    reveal_strlit("compiler-message");
    reveal_strlit("build-finished");
    assert("build-finished"@.len() == 14);
    assert("compiler-artifact"@.len() == 17);
    assert("compiler-message"@.len() == 16);
}

/// Output that is not cargo's own, wherever it comes, changes nothing that is made
/// of what cargo printed.
pub proof fn law_forwarded_output_changes_nothing(
    built: Built,
    before: Seq<Seq<char>>,
    line: Seq<char>,
    after: Seq<Seq<char>>,
    manifest: Seq<Part>,
)
    requires
        compile::reading(line) is Output,
    ensures
        compile::ingested(built, before + seq![line] + after, manifest) == compile::ingested(
            built,
            before + after,
            manifest,
        ),
    decreases before.len(),
{
    let with = before + seq![line] + after;
    let without = before + after;
    if before.len() == 0 {
        assert(with[0] == line);
        assert(with.skip(1) =~= without);
    } else {
        let rest = before.skip(1);
        assert(with[0] == before[0]);
        assert(without[0] == before[0]);
        assert(with.skip(1) =~= rest + seq![line] + after);
        assert(without.skip(1) =~= rest + after);
        match compile::reading(before[0]) {
            Reading::Message(message) => law_forwarded_output_changes_nothing(
                compile::absorbed(built, message, manifest),
                rest,
                line,
                after,
                manifest,
            ),
            Reading::Output => law_forwarded_output_changes_nothing(
                built,
                rest,
                line,
                after,
                manifest,
            ),
            Reading::Broken => {},
        }
    }
}

/// A line that does not hold the opening of a cargo message is not cargo's.
pub proof fn law_a_line_without_a_message_opening_is_output(line: Seq<char>)
    requires
        !text::contains(line, compile::MESSAGE_OPENING@),
    ensures
        compile::reading(line) is Output,
{
    text::lemma_found_is(line, compile::MESSAGE_OPENING@, 0, None);
}

/// Anything attributed to a fixture at all rules out that cargo names the scratch
/// project differently, and that another package is to blame.
pub proof fn law_anything_attributed_speaks_for_the_build(
    built: Built,
    ours: Option<Seq<Part>>,
    theirs: Seq<Option<PathBuf>>,
)
    requires
        built.messages.len() != 0 || built.compiled.len() != 0,
    ensures
        compile::misspelled(built, ours, theirs) is None,
        compile::explanation(built) is None,
{
}

// ---------------------------------------------------------------------------
// The environment.
// ---------------------------------------------------------------------------

/// What `changes` leave a variable as: set to something, removed, or as it was.
pub enum Effect {
    /// Set to this.
    Becomes(Seq<char>),
    /// Removed.
    Removed,
    /// Whatever it was inherited as.
    Inherited,
}

/// What `changes`, made in order, leave the variable `key` as.
pub open spec fn effect(changes: Seq<Change>, key: Seq<u8>) -> Effect
    decreases changes.len(),
{
    if changes.len() == 0 {
        Effect::Inherited
    } else if changes.last().key == key {
        match changes.last().value {
            Some(value) => Effect::Becomes(value),
            None => Effect::Removed,
        }
    } else {
        effect(changes.drop_last(), key)
    }
}

/// A variable that the fixture build sets or removes whatever it inherits.
pub open spec fn is_fixed(key: Seq<u8>) -> bool {
    ||| key == encode_utf8("CARGO_ENCODED_RUSTFLAGS"@)
    ||| key == encode_utf8("RUSTFLAGS"@)
    ||| key == encode_utf8("CARGO_BUILD_RUSTFLAGS"@)
    ||| key == encode_utf8("CARGO_TARGET_DIR"@)
    ||| key == encode_utf8("CARGO_PROFILE_DEV_DEBUG"@)
    ||| key == encode_utf8("CARGO_INCREMENTAL"@)
}

proof fn lemma_effect_of_both(a: Seq<Change>, b: Seq<Change>, key: Seq<u8>)
    ensures
        effect(a + b, key) == (if effect(b, key) is Inherited {
            effect(a, key)
        } else {
            effect(b, key)
        }),
    decreases b.len(),
{
    if b.len() == 0 {
        assert(a + b =~= a);
    } else {
        assert((a + b).drop_last() =~= a + b.drop_last());
        lemma_effect_of_both(a, b.drop_last(), key);
    }
}

proof fn lemma_sweep(keys: Seq<Seq<u8>>, key: Seq<u8>)
    ensures
        effect(
            compile::profile_keys_of(keys).map_values(|key: Seq<u8>| compile::removal(key)),
            key,
        ) == (if keys.contains(key) && compile::is_profile_key(key) {
            Effect::Removed
        } else {
            Effect::Inherited
        }),
    decreases keys.len(),
{
    let swept = compile::profile_keys_of(keys);
    let changes = swept.map_values(|key: Seq<u8>| compile::removal(key));
    if keys.len() != 0 {
        let rest = keys.drop_last();
        lemma_sweep(rest, key);
        let before = compile::profile_keys_of(rest).map_values(
            |key: Seq<u8>| compile::removal(key),
        );
        if compile::is_profile_key(keys.last()) {
            assert(changes.drop_last() =~= before);
            assert(changes.last() == compile::removal(keys.last()));
        }
        if keys.contains(key) && key != keys.last() {
            let i = keys.index_of(key);
            assert(rest[i] == key);
        }
        if rest.contains(key) {
            let i = rest.index_of(key);
            assert(keys[i] == key);
        }
        if key == keys.last() {
            assert(keys[keys.len() - 1] == key);
        }
    }
}

proof fn lemma_distinct_names()
    ensures
        encode_utf8("CARGO_ENCODED_RUSTFLAGS"@).len() == 23,
        encode_utf8("RUSTFLAGS"@).len() == 9,
        encode_utf8("CARGO_BUILD_RUSTFLAGS"@).len() == 21,
        encode_utf8("CARGO_TARGET_DIR"@).len() == 16,
        encode_utf8("CARGO_PROFILE_DEV_DEBUG"@).len() == 23,
        encode_utf8("CARGO_INCREMENTAL"@).len() == 17,
        encode_utf8("CARGO_PROFILE_DEV_DEBUG"@) != encode_utf8("CARGO_ENCODED_RUSTFLAGS"@),
{
    reveal_strlit("CARGO_ENCODED_RUSTFLAGS");
    reveal_strlit("RUSTFLAGS");
    reveal_strlit("CARGO_BUILD_RUSTFLAGS");
    reveal_strlit("CARGO_TARGET_DIR");
    reveal_strlit("CARGO_PROFILE_DEV_DEBUG");
    reveal_strlit("CARGO_INCREMENTAL");
    is_ascii_chars_encode_utf8("CARGO_ENCODED_RUSTFLAGS"@);
    is_ascii_chars_encode_utf8("RUSTFLAGS"@);
    is_ascii_chars_encode_utf8("CARGO_BUILD_RUSTFLAGS"@);
    is_ascii_chars_encode_utf8("CARGO_TARGET_DIR"@);
    is_ascii_chars_encode_utf8("CARGO_PROFILE_DEV_DEBUG"@);
    is_ascii_chars_encode_utf8("CARGO_INCREMENTAL"@);
    assert(encode_utf8("CARGO_PROFILE_DEV_DEBUG"@)[6] == 'P' as u8);
    assert(encode_utf8("CARGO_ENCODED_RUSTFLAGS"@)[6] == 'E' as u8);
}

proof fn lemma_fixed(key: Seq<u8>)
    ensures
        effect(compile::fixed_changes(), key) == (if key == encode_utf8(
            "CARGO_ENCODED_RUSTFLAGS"@,
        ) {
            Effect::Becomes(""@)
        } else if key == encode_utf8("CARGO_PROFILE_DEV_DEBUG"@) {
            Effect::Becomes("none"@)
        } else if key == encode_utf8("CARGO_INCREMENTAL"@) {
            Effect::Becomes("0"@)
        } else if is_fixed(key) {
            Effect::Removed
        } else {
            Effect::Inherited
        }),
{
    lemma_distinct_names();
    reveal_with_fuel(effect, 7);
    let all = compile::fixed_changes();
    let five = all.drop_last();
    let four = five.drop_last();
    let three = four.drop_last();
    let two = three.drop_last();
    let one = two.drop_last();
    assert(one.drop_last() =~= Seq::<Change>::empty());
    assert(all.last() == compile::setting("CARGO_INCREMENTAL"@, "0"@));
    assert(five.last() == compile::setting("CARGO_PROFILE_DEV_DEBUG"@, "none"@));
    assert(four.last() == compile::removal(encode_utf8("CARGO_TARGET_DIR"@)));
    assert(three.last() == compile::removal(encode_utf8("CARGO_BUILD_RUSTFLAGS"@)));
    assert(two.last() == compile::removal(encode_utf8("RUSTFLAGS"@)));
    assert(one.last() == compile::setting("CARGO_ENCODED_RUSTFLAGS"@, ""@));
}

/// What the fixture build leaves each variable as, whatever it inherits: the flags
/// of the build are cleared, the profile is the harness's own, every other
/// inherited profile key is gone, and everything else passes through untouched.
pub proof fn law_the_build_environment_is_controlled(inherited: Seq<Seq<u8>>, key: Seq<u8>)
    ensures
        effect(compile::build_changes(inherited), key) == (if key == encode_utf8(
            "CARGO_ENCODED_RUSTFLAGS"@,
        ) {
            Effect::Becomes(""@)
        } else if key == encode_utf8("CARGO_PROFILE_DEV_DEBUG"@) {
            Effect::Becomes("none"@)
        } else if key == encode_utf8("CARGO_INCREMENTAL"@) {
            Effect::Becomes("0"@)
        } else if is_fixed(key) || (inherited.contains(key) && compile::is_profile_key(key)) {
            Effect::Removed
        } else {
            Effect::Inherited
        }),
{
    lemma_sweep(inherited, key);
    lemma_fixed(key);
    lemma_effect_of_both(
        compile::profile_keys_of(inherited).map_values(|key: Seq<u8>| compile::removal(key)),
        compile::fixed_changes(),
        key,
    );
}

/// A suite's goldens do not depend on the flags or the profile of the shell it is
/// run from: whatever the shell sets of those, the build finds the same.
pub proof fn law_the_shell_does_not_reach_the_build(
    a: Seq<Seq<u8>>,
    b: Seq<Seq<u8>>,
    key: Seq<u8>,
)
    requires
        is_fixed(key),
    ensures
        effect(compile::build_changes(a), key) == effect(compile::build_changes(b), key),
        !(effect(compile::build_changes(a), key) is Inherited),
{
    law_the_build_environment_is_controlled(a, key);
    law_the_build_environment_is_controlled(b, key);
}

} // verus!
