//! What is made of every line that cargo prints.

use vstd::prelude::*;
use vstd::utf8::*;

use crate::compile;
use crate::compile::{Built, Reading, Word};
use crate::json;
use crate::json::Json;
use crate::laws::brief::gathered;
use crate::laws::text::{begins, law_a_text_begins_with_its_start};
use crate::path;
use crate::path::{Part, PathBuf};
use crate::text;

verus! {

// ---------------------------------------------------------------------------
// Lines.
// ---------------------------------------------------------------------------

/// `part` stands in `line` at `at`.
pub open spec fn stands_at(line: Seq<char>, part: Seq<char>, at: int) -> bool {
    0 <= at && begins(line.skip(at), part) && at + part.len() <= line.len()
}

/// `part` stands in `line` at `at`, and nowhere before.
pub open spec fn first_stands_at(line: Seq<char>, part: Seq<char>, at: int) -> bool {
    stands_at(line, part, at) && forall|i: int| 0 <= i < at ==> !#[trigger] stands_at(line, part, i)
}

pub(crate) proof fn lemma_occurs(line: Seq<char>, part: Seq<char>, at: int)
    ensures
        0 <= at ==> (text::occurs_at(line, part, at) <==> stands_at(line, part, at)),
{
    if 0 <= at && at + part.len() <= line.len() {
        law_a_text_begins_with_its_start(line.skip(at), part);
        assert(line.skip(at).take(part.len() as int) =~= line.subrange(at, at + part.len()));
    }
}

proof fn lemma_found_first(line: Seq<char>, part: Seq<char>, at: int)
    requires
        first_stands_at(line, part, at),
    ensures
        text::found_from(line, part, 0) == Some(at),
{
    lemma_occurs(line, part, at);
    assert forall|k: int| 0 <= k < at implies !text::occurs_at(line, part, k) by {
        lemma_occurs(line, part, k);
        assert(!stands_at(line, part, k));
    }
    text::lemma_found_is(line, part, 0, Some(at));
}

/// A line of cargo's that begins like a message and is one is taken in, whatever it
/// says, before anything behind it.
pub proof fn law_every_message_is_taken_in(
    built: Built,
    line: Seq<char>,
    message: Json,
    rest: Seq<Seq<char>>,
    manifest: Seq<Part>,
)
    requires
        begins(line, "{\"reason\":"@),
        json::parsed(line) == Some(message),
    ensures
        compile::ingested(built, seq![line] + rest, manifest) == compile::ingested(
            compile::absorbed(built, message, manifest),
            rest,
            manifest,
        ),
{
    assert(line.skip(0) =~= line);
    law_a_message_is_read_from_where_it_begins(built, line, 0, rest, manifest);
}

/// A line is read from where the opening of a message first stands in it. If what
/// stands from there on is a message, it is taken in. If it is not, the line is
/// skipped where something stands before the opening, and nothing more is read
/// where nothing does.
pub proof fn law_a_message_is_read_from_where_it_begins(
    built: Built,
    line: Seq<char>,
    at: int,
    rest: Seq<Seq<char>>,
    manifest: Seq<Part>,
)
    requires
        first_stands_at(line, "{\"reason\":"@, at),
    ensures
        compile::ingested(built, seq![line] + rest, manifest) == match json::parsed(
            line.skip(at),
        ) {
            Some(message) => compile::ingested(
                compile::absorbed(built, message, manifest),
                rest,
                manifest,
            ),
            None => if at == 0 {
                (built, false)
            } else {
                compile::ingested(built, rest, manifest)
            },
        },
{
    lemma_found_first(line, "{\"reason\":"@, at);
    let lines = seq![line] + rest;
    assert(lines[0] == line);
    assert(lines.skip(1) =~= rest);
}

/// A line in which no message opens is skipped, and no lines at all change nothing.
pub proof fn law_a_line_in_which_no_message_opens_is_skipped(
    built: Built,
    line: Seq<char>,
    rest: Seq<Seq<char>>,
    manifest: Seq<Part>,
)
    requires
        forall|at: int| !#[trigger] stands_at(line, "{\"reason\":"@, at),
    ensures
        compile::ingested(built, seq![line] + rest, manifest) == compile::ingested(
            built,
            rest,
            manifest,
        ),
        compile::ingested(built, seq![], manifest) == (built, true),
{
    assert forall|k: int| 0 <= k implies !text::occurs_at(line, "{\"reason\":"@, k) by {
        lemma_occurs(line, "{\"reason\":"@, k);
        assert(!stands_at(line, "{\"reason\":"@, k));
    }
    text::lemma_found_is(line, "{\"reason\":"@, 0, None);
    let lines = seq![line] + rest;
    assert(lines[0] == line);
    assert(lines.skip(1) =~= rest);
}

/// Lines are taken in one after another: what is made of more of them is made of
/// what was made of those before, unless one of those broke off.
pub proof fn law_lines_are_taken_in_one_after_another(
    built: Built,
    before: Seq<Seq<char>>,
    after: Seq<Seq<char>>,
    manifest: Seq<Part>,
)
    ensures
        compile::ingested(built, before + after, manifest) == if compile::ingested(
            built,
            before,
            manifest,
        ).1 {
            compile::ingested(compile::ingested(built, before, manifest).0, after, manifest)
        } else {
            compile::ingested(built, before, manifest)
        },
    decreases before.len(),
{
    if before.len() == 0 {
        assert(before + after =~= after);
    } else {
        let lines = before + after;
        assert(lines[0] == before[0]);
        assert(lines.skip(1) =~= before.skip(1) + after);
        match compile::reading(before[0]) {
            Reading::Message(message) => law_lines_are_taken_in_one_after_another(
                compile::absorbed(built, message, manifest),
                before.skip(1),
                after,
                manifest,
            ),
            Reading::Output => law_lines_are_taken_in_one_after_another(
                built,
                before.skip(1),
                after,
                manifest,
            ),
            Reading::Broken => {},
        }
    }
}

// ---------------------------------------------------------------------------
// Messages.
// ---------------------------------------------------------------------------

/// The manifest a message names is the scratch project's own.
pub open spec fn is_from(message: Json, manifest: Seq<Part>) -> bool {
    match json::text_at(message, seq!["manifest_path"@]) {
        Some(declared) => path::spelled_like(encode_utf8(declared), manifest) == manifest,
        None => false,
    }
}

proof fn lemma_reasons()
    ensures
        "compiler-message"@.len() == 16,
        "compiler-artifact"@.len() == 17,
        "build-finished"@.len() == 14,
{
    reveal_strlit("compiler-artifact");
    reveal_strlit("compiler-message");
    reveal_strlit("build-finished");
}

/// What a message adds. A diagnostic of the scratch project that says what its
/// target is and how it reads is kept under that target, unless it is a failure
/// note, whatever its level is. An artifact of the scratch project is kept as
/// evidence for its target. An error of another package is kept as such. That the
/// build finished is kept. Nothing else is, and nothing kept is lost.
#[verifier::rlimit(40)]
pub proof fn law_what_a_message_adds(built: Built, message: Json, manifest: Seq<Part>)
    ensures
        ({
            let next = compile::absorbed(built, message, manifest);
            let reason = json::text_at(message, seq!["reason"@]);
            let target = json::text_at(message, seq!["target"@, "name"@]);
            let rendered = json::text_at(message, seq!["message"@, "rendered"@]);
            let level = json::text_at(message, seq!["message"@, "level"@]);
            let says = reason == Some("compiler-message"@) && rendered is Some;
            let ours = is_from(message, manifest);
            &&& next.messages == built.messages + if says && ours && target is Some && level
                != Some("failure-note"@) {
                seq![(target->0, rendered->0)]
            } else {
                seq![]
            }
            &&& next.foreign == built.foreign + if says && !ours && level == Some("error"@) {
                seq![rendered->0]
            } else {
                seq![]
            }
            &&& next.compiled == built.compiled + if reason == Some("compiler-artifact"@) && ours
                && target is Some && !built.compiled.contains(target->0) {
                seq![target->0]
            } else {
                seq![]
            }
            &&& next.started == (built.started || reason == Some("build-finished"@))
            &&& next.stderr == built.stderr
        }),
{
    lemma_reasons();
    let next = compile::absorbed(built, message, manifest);
    assert(built.messages + Seq::<(Seq<char>, Seq<char>)>::empty() =~= built.messages);
    assert(built.foreign + Seq::<Seq<char>>::empty() =~= built.foreign);
    assert(built.compiled + Seq::<Seq<char>>::empty() =~= built.compiled);
}

/// Every manifest of another package that a message of cargo's names is kept, once
/// and in order, and no other is.
pub proof fn law_every_other_manifest_is_kept(
    built: Built,
    message: Json,
    manifest: Seq<Part>,
    other: Seq<char>,
)
    requires
        compile::is_ordered(built.other_manifests),
    ensures
        compile::is_ordered(compile::absorbed(built, message, manifest).other_manifests),
        compile::absorbed(built, message, manifest).other_manifests.contains(other)
            <==> built.other_manifests.contains(other) || (json::text_at(
            message,
            seq!["reason"@],
        ) is Some && json::text_at(message, seq!["manifest_path"@]) == Some(other) && !is_from(
            message,
            manifest,
        )),
{
    if let Some(declared) = json::text_at(message, seq!["manifest_path"@]) {
        compile::lemma_with_manifest(built.other_manifests, declared);
    }
}

/// What cargo said on stderr stays as it is, whatever it prints besides.
pub proof fn law_what_cargo_said_on_stderr_stays(
    built: Built,
    lines: Seq<Seq<char>>,
    manifest: Seq<Part>,
)
    ensures
        compile::ingested(built, lines, manifest).0.stderr == built.stderr,
    decreases lines.len(),
{
    if lines.len() != 0 {
        match compile::reading(lines[0]) {
            Reading::Message(message) => {
                law_what_a_message_adds(built, message, manifest);
                law_what_cargo_said_on_stderr_stays(
                    compile::absorbed(built, message, manifest),
                    lines.skip(1),
                    manifest,
                );
            },
            Reading::Output => law_what_cargo_said_on_stderr_stays(
                built,
                lines.skip(1),
                manifest,
            ),
            Reading::Broken => {},
        }
    }
}

proof fn lemma_concatenated(all: Seq<Seq<char>>)
    ensures
        text::concat(all) == all.flatten(),
    decreases all.len(),
{
    all.lemma_flatten_and_flatten_alt_are_equivalent();
    if all.len() != 0 {
        lemma_concatenated(all.drop_last());
        all.drop_last().lemma_flatten_and_flatten_alt_are_equivalent();
    }
}

proof fn lemma_about(messages: Seq<(Seq<char>, Seq<char>)>, bin: Seq<char>, to: int)
    requires
        0 <= to <= messages.len(),
    ensures
        compile::about(messages.take(to), bin) == gathered(
            0,
            to,
            |i: int| messages[i].0 == bin,
            |i: int| messages[i].1,
        ),
    decreases to,
{
    let keeps = |i: int| messages[i].0 == bin;
    let shows = |i: int| messages[i].1;
    if to > 0 {
        lemma_about(messages, bin, to - 1);
        crate::laws::brief::lemma_gathered_in_two(0, to - 1, to, keeps, shows);
        let all = messages.take(to);
        assert(all.drop_last() =~= messages.take(to - 1));
        assert(all.last() == messages[to - 1]);
        assert(gathered(to, to, keeps, shows) =~= seq![]);
        assert(gathered(to - 1, to, keeps, shows) =~= if keeps(to - 1) {
            seq![shows(to - 1)]
        } else {
            seq![]
        });
        assert(compile::about(all, bin) =~= gathered(0, to, keeps, shows));
    }
}

/// What is said about a bin target is every diagnostic that is kept under it, one
/// behind another in the order they came.
pub proof fn law_everything_about_a_bin_is_said(built: Built, bin: Seq<char>)
    ensures
        compile::said_about(built, bin) == gathered(
            0,
            built.messages.len() as int,
            |i: int| built.messages[i].0 == bin,
            |i: int| built.messages[i].1,
        ).flatten(),
{
    lemma_about(built.messages, bin, built.messages.len() as int);
    assert(built.messages.take(built.messages.len() as int) =~= built.messages);
    lemma_concatenated(compile::about(built.messages, bin));
}

/// Every error of another package explains a build of which nothing came, and
/// nothing explains one of which something did.
pub proof fn law_what_explains_a_build_that_gave_nothing(built: Built)
    ensures
        compile::explanation(built) == if built.messages.len() == 0 && built.compiled.len() == 0
            && !text::is_blank(built.foreign.flatten()) {
            Some(text::trim_end(built.foreign.flatten()))
        } else {
            None
        },
{
    lemma_concatenated(built.foreign);
    let all = built.foreign.flatten();
    text::lemma_trim_end(all);
    if text::trim_end(all).len() == 0 {
        assert(text::is_blank(all));
    } else {
        let n = text::trim_end(all).len() as int;
        assert(text::trim_end(all)[n - 1] == all[n - 1]);
    }
}

// ---------------------------------------------------------------------------
// One manifest under two spellings.
// ---------------------------------------------------------------------------

/// The manifest at `at` and the scratch project's own are both known to be the file
/// at one path.
pub open spec fn is_one_file(
    ours: Option<Seq<Part>>,
    theirs: Seq<Option<PathBuf>>,
    at: int,
) -> bool {
    0 <= at < theirs.len() && match theirs[at] {
        Some(path) => ours == Some(path@),
        None => false,
    }
}

/// Two paths that were made canonical name one file where they are the same. A path
/// that could not be is no file's.
pub proof fn law_what_names_one_file(a: Seq<Part>, b: Seq<Part>, c: Option<Seq<Part>>)
    ensures
        compile::is_same_file(Some(a), Some(b)) <==> a == b,
        !compile::is_same_file(None, c),
        !compile::is_same_file(c, None),
{
}

proof fn lemma_first_same(
    count: nat,
    theirs: Seq<Option<PathBuf>>,
    ours: Option<Seq<Part>>,
    from: nat,
)
    ensures
        match compile::first_same(count, theirs, ours, from) {
            Some(at) => from <= at < count && is_one_file(ours, theirs, at as int) && forall|i: int|
                from <= i < at ==> !#[trigger] is_one_file(ours, theirs, i),
            None => forall|i: int| from <= i < count ==> !#[trigger] is_one_file(ours, theirs, i),
        },
    decreases count - from,
{
    if from < count {
        lemma_first_same(count, theirs, ours, from + 1);
        assert(is_one_file(ours, theirs, from as int) <==> compile::is_same_file(
            compile::answer_at(theirs, from as int),
            ours,
        ));
    }
}

/// Where nothing came of a build, the manifest cargo named the scratch project by
/// is the first of those it named that is the scratch project's own file.
pub proof fn law_another_spelling_of_the_manifest_is_found(
    built: Built,
    ours: Option<Seq<Part>>,
    theirs: Seq<Option<PathBuf>>,
)
    ensures
        ({
            let nothing = built.messages.len() == 0 && built.compiled.len() == 0;
            match compile::misspelled(built, ours, theirs) {
                Some(name) => nothing && exists|at: int|
                    0 <= at < built.other_manifests.len() && name == built.other_manifests[at]
                        && #[trigger] is_one_file(ours, theirs, at) && forall|i: int|
                        0 <= i < at ==> !#[trigger] is_one_file(ours, theirs, i),
                None => nothing ==> forall|at: int|
                    0 <= at < built.other_manifests.len() ==> !#[trigger] is_one_file(
                        ours,
                        theirs,
                        at,
                    ),
            }
        }),
{
    lemma_first_same(built.other_manifests.len(), theirs, ours, 0);
}

// ---------------------------------------------------------------------------
// What cargo is asked.
// ---------------------------------------------------------------------------

/// The build is asked for every bin target, for all that can be built of them, for
/// messages that say what they are about, and for nothing that needs a network. It
/// is told where to build and what. Another target than the host's is named.
pub proof fn law_what_the_build_is_asked_for(
    target_dir: Seq<Part>,
    manifest: Seq<Part>,
    target: Seq<char>,
    host: Seq<char>,
)
    ensures
        ({
            let words = compile::build_words(target_dir, manifest, target, host);
            &&& words[0] == Word::Text("build"@)
            &&& words.contains(Word::Text("--bins"@))
            &&& words.contains(Word::Text("--keep-going"@))
            &&& words.contains(Word::Text("--message-format=json"@))
            &&& words.contains(Word::Text("--quiet"@))
            &&& words.contains(Word::Text("--color=never"@))
            &&& words.contains(Word::Text("--offline"@))
            &&& words.subrange(7, 11) == seq![
                Word::Text("--target-dir"@),
                Word::Path(target_dir),
                Word::Text("--manifest-path"@),
                Word::Path(manifest),
            ]
            &&& words.skip(11) == if target == host {
                seq![]
            } else {
                seq![Word::Text("--target"@), Word::Text(target)]
            }
        }),
{
    let words = compile::build_words(target_dir, manifest, target, host);
    assert(words[1] == Word::Text("--bins"@));
    assert(words[2] == Word::Text("--keep-going"@));
    assert(words[3] == Word::Text("--message-format=json"@));
    assert(words[4] == Word::Text("--quiet"@));
    assert(words[5] == Word::Text("--color=never"@));
    assert(words[6] == Word::Text("--offline"@));
    assert(words.subrange(7, 11) =~= seq![
        Word::Text("--target-dir"@),
        Word::Path(target_dir),
        Word::Text("--manifest-path"@),
        Word::Path(manifest),
    ]);
    assert(words.skip(11) =~= if target == host {
        seq![]
    } else {
        seq![Word::Text("--target"@), Word::Text(target)]
    });
}

/// Cargo is asked for the manifest of the whole workspace, as nothing but a path.
pub proof fn law_how_cargo_is_asked_for_the_workspace()
    ensures
        compile::locate_words() == seq![
            Word::Text("locate-project"@),
            Word::Text("--workspace"@),
            Word::Text("--message-format"@),
            Word::Text("plain"@),
        ],
{
}

/// The lockfile of a workspace lies beside the manifest that cargo printed, whatever
/// white space is printed behind that.
pub proof fn law_the_lockfile_lies_beside_the_manifest(
    stdout: Seq<char>,
    manifest_dir: Seq<Part>,
    directory: Seq<Part>,
    name: Seq<u8>,
)
    requires
        path::spelled_like(encode_utf8(text::trim_end(stdout)), manifest_dir) == directory.push(
            Part::Normal(name),
        ),
    ensures
        compile::lockfile_parts(stdout, manifest_dir) == directory.push(
            Part::Normal(encode_utf8("Cargo.lock"@)),
        ),
{
    let whole = directory.push(Part::Normal(name));
    assert(whole.last() == Part::Normal(name));
    assert(whole.drop_last() =~= directory);
}

/// A run that has to wait says what it waits for.
pub proof fn law_what_a_waiting_run_says(lock: Seq<Part>)
    ensures
        compile::wait_notice(lock)
            == "nocompile: waiting for another nocompile run to finish (lock file: "@
            + path::native(lock) + ")\n"@,
{
}

/// A key sets part of a profile exactly where it is text that begins with
/// `CARGO_PROFILE_`, and every such key that is inherited is swept, in order.
pub proof fn law_every_profile_key_is_swept(inherited: Seq<Seq<u8>>)
    ensures
        compile::profile_keys_of(inherited) == gathered(
            0,
            inherited.len() as int,
            |i: int|
                valid_utf8(inherited[i]) && encode_utf8("CARGO_PROFILE_"@).is_prefix_of(
                    inherited[i],
                ),
            |i: int| inherited[i],
        ),
{
    lemma_swept(inherited, inherited.len() as int);
    assert(inherited.take(inherited.len() as int) =~= inherited);
}

/// A key sets part of a profile exactly where it is text that begins with
/// `CARGO_PROFILE_`.
pub proof fn law_what_sets_part_of_a_profile(key: Seq<u8>)
    ensures
        compile::is_profile_key(key) <==> valid_utf8(key) && encode_utf8(
            "CARGO_PROFILE_"@,
        ).is_prefix_of(key),
{
    let prefix = encode_utf8("CARGO_PROFILE_"@);
    if prefix.len() <= key.len() {
        assert(key.take(prefix.len() as int) =~= key.subrange(0, prefix.len() as int));
    }
}

proof fn lemma_swept(keys: Seq<Seq<u8>>, to: int)
    requires
        0 <= to <= keys.len(),
    ensures
        compile::profile_keys_of(keys.take(to)) == gathered(
            0,
            to,
            |i: int| valid_utf8(keys[i]) && encode_utf8("CARGO_PROFILE_"@).is_prefix_of(keys[i]),
            |i: int| keys[i],
        ),
    decreases to,
{
    let keeps = |i: int|
        valid_utf8(keys[i]) && encode_utf8("CARGO_PROFILE_"@).is_prefix_of(keys[i]);
    let shows = |i: int| keys[i];
    if to > 0 {
        lemma_swept(keys, to - 1);
        law_what_sets_part_of_a_profile(keys[to - 1]);
        crate::laws::brief::lemma_gathered_in_two(0, to - 1, to, keeps, shows);
        let all = keys.take(to);
        assert(all.drop_last() =~= keys.take(to - 1));
        assert(all.last() == keys[to - 1]);
        assert(gathered(to, to, keeps, shows) =~= seq![]);
        assert(gathered(to - 1, to, keeps, shows) =~= if keeps(to - 1) {
            seq![shows(to - 1)]
        } else {
            seq![]
        });
        assert(compile::profile_keys_of(all) =~= gathered(0, to, keeps, shows));
    }
}

} // verus!
