//! What cargo is asked, and sorting what comes back.
//!
//! Every fixture is a bin target of one scratch project, and one invocation
//! builds them all. Parallel compilation interleaves diagnostics, so the output
//! has to say which target each one came from. `--message-format=json` does;
//! plain stderr does not. That is the whole reason this crate parses JSON, and
//! it pays for itself twice: the attribution is exact rather than inferred, and
//! cargo's own status and summary lines never enter the stream that becomes a
//! golden.

use vstd::prelude::*;
use vstd::utf8::*;

use crate::json;
use crate::json::{Json, Value};
use crate::path;
use crate::path::{bytes_of, copy_bytes, is_utf8, Part, PathBuf};
use crate::scratch;
use crate::scratch::Layout;
use crate::text;
use crate::text::{
    chars_of, concatenated, copy_of, extend_str, find, holds_text, lines_of, precedes, same_str,
    slice, string_of, without_tail,
};

verus! {

// ---------------------------------------------------------------------------
// What one build produced.
// ---------------------------------------------------------------------------

/// A rendered diagnostic, and the bin target it is about.
#[derive(Debug, Clone)]
pub struct Diagnostic {
    /// The bin target.
    pub bin: String,
    /// What rustc said.
    pub rendered: String,
}

/// What one `cargo build` produced.
#[derive(Debug)]
pub struct Build {
    /// Rendered diagnostics of the scratch project, in the order cargo emitted
    /// them.
    messages: Vec<Diagnostic>,
    /// Bin names cargo produced an artifact for, each once, which is the only
    /// positive evidence that a target compiled. Absence of errors is not: a
    /// target that was never built also has none.
    compiled: Vec<String>,
    /// Rendered errors from packages that are *not* the scratch project. Not
    /// attributable to any fixture, but the only description of why every
    /// fixture produced nothing.
    foreign: Vec<String>,
    /// Every manifest path cargo attributed a message to that was not the
    /// scratch project's, each once, in order.
    other_manifests: Vec<String>,
    /// Cargo's own stderr.
    stderr: String,
    /// Whether cargo got as far as building anything.
    started: bool,
}

/// What a [`Build`] stands for.
pub struct Built {
    /// Each bin target a diagnostic is about, with the diagnostic, as they came.
    pub messages: Seq<(Seq<char>, Seq<char>)>,
    /// The bin targets that compiled.
    pub compiled: Seq<Seq<char>>,
    /// The errors of other packages, as they came.
    pub foreign: Seq<Seq<char>>,
    /// The manifests of other packages, in order.
    pub other_manifests: Seq<Seq<char>>,
    /// Cargo's own stderr.
    pub stderr: Seq<char>,
    /// Cargo got as far as building anything.
    pub started: bool,
}

/// What each of `all` stands for.
pub open spec fn diagnostics_of(all: Seq<Diagnostic>) -> Seq<(Seq<char>, Seq<char>)> {
    all.map_values(|message: Diagnostic| (message.bin@, message.rendered@))
}

impl View for Build {
    type V = Built;

    closed spec fn view(&self) -> Built {
        Built {
            messages: diagnostics_of(self.messages@),
            compiled: text::strings(self.compiled@),
            foreign: text::strings(self.foreign@),
            other_manifests: text::strings(self.other_manifests@),
            stderr: self.stderr@,
            started: self.started,
        }
    }
}

/// No text comes twice, and each comes before every one after it.
pub open spec fn is_ordered(all: Seq<Seq<char>>) -> bool {
    forall|i: int, k: int| 0 <= i < k < all.len() ==> text::text_before(all[i], all[k])
}

impl Built {
    /// No bin is recorded as compiled twice, and the manifests of other packages
    /// are in order, each once.
    pub open spec fn is_sorted_out(self) -> bool {
        self.compiled.no_duplicates() && is_ordered(self.other_manifests)
    }

    /// Nothing was attributed to the scratch project.
    pub open spec fn is_detached(self) -> bool {
        self.messages.len() == 0 && self.compiled.len() == 0
    }
}

/// What a build is before cargo has said anything on stdout.
pub open spec fn unread(stderr: Seq<char>) -> Built {
    Built {
        messages: seq![],
        compiled: seq![],
        foreign: seq![],
        other_manifests: seq![],
        stderr,
        started: false,
    }
}

/// The diagnostics among `messages` that are about `bin`.
pub open spec fn about(messages: Seq<(Seq<char>, Seq<char>)>, bin: Seq<char>) -> Seq<Seq<char>>
    decreases messages.len(),
{
    if messages.len() == 0 {
        seq![]
    } else if messages.last().0 == bin {
        about(messages.drop_last(), bin).push(messages.last().1)
    } else {
        about(messages.drop_last(), bin)
    }
}

/// The diagnostics of `built` about `bin`, joined as they would have been
/// rendered.
pub open spec fn said_about(built: Built, bin: Seq<char>) -> Seq<char> {
    text::concat(about(built.messages, bin))
}

/// Why nothing was built, where nothing was and another package said why.
pub open spec fn explanation(built: Built) -> Option<Seq<char>> {
    let report = text::trim_end(text::concat(built.foreign));
    if built.is_detached() && report.len() != 0 {
        Some(report)
    } else {
        None
    }
}

// ---------------------------------------------------------------------------
// Filing cargo's messages.
// ---------------------------------------------------------------------------

/// `all` with `text` among them, once.
pub open spec fn with_name(all: Seq<Seq<char>>, text: Seq<char>) -> Seq<Seq<char>> {
    if all.contains(text) {
        all
    } else {
        all.push(text)
    }
}

/// `all`, which is in order, with `text` among them, once, in order.
pub open spec fn with_manifest(all: Seq<Seq<char>>, text: Seq<char>) -> Seq<Seq<char>>
    decreases all.len(),
{
    if all.len() == 0 {
        seq![text]
    } else if text::text_before(all.last(), text) {
        all.push(text)
    } else if text == all.last() {
        all
    } else {
        with_manifest(all.drop_last(), text).push(all.last())
    }
}

/// The manifest path a message names is the scratch project's.
pub open spec fn is_ours(declared: Option<Seq<char>>, manifest: Seq<Part>) -> bool {
    match declared {
        Some(declared) => path::spelled_like(encode_utf8(declared), manifest) == manifest,
        None => false,
    }
}

/// `built` after a message that named the manifest `declared`.
pub open spec fn heard_from(
    built: Built,
    declared: Option<Seq<char>>,
    manifest: Seq<Part>,
) -> Built {
    match declared {
        Some(declared) => if is_ours(Some(declared), manifest) {
            built
        } else {
            Built { other_manifests: with_manifest(built.other_manifests, declared), ..built }
        },
        None => built,
    }
}

/// `built` after a diagnostic of the package that `ours` tells the scratch
/// project from.
pub open spec fn filed(
    built: Built,
    ours: bool,
    target: Option<Seq<char>>,
    level: Option<Seq<char>>,
    rendered: Seq<char>,
) -> Built {
    if !ours {
        if level == Some("error"@) {
            Built { foreign: built.foreign.push(rendered), ..built }
        } else {
            built
        }
    } else if target is Some && level != Some("failure-note"@) {
        Built { messages: built.messages.push((target->0, rendered)), ..built }
    } else {
        built
    }
}

/// `built` after one cargo message, where the scratch project's manifest is at
/// `manifest`.
pub open spec fn absorbed(built: Built, message: Json, manifest: Seq<Part>) -> Built {
    match json::text_at(message, seq!["reason"@]) {
        None => built,
        Some(reason) => {
            let declared = json::text_at(message, seq!["manifest_path"@]);
            let ours = is_ours(declared, manifest);
            let target = json::text_at(message, seq!["target"@, "name"@]);
            let heard = heard_from(built, declared, manifest);
            if reason == "compiler-message"@ {
                match json::text_at(message, seq!["message"@, "rendered"@]) {
                    Some(rendered) => filed(
                        heard,
                        ours,
                        target,
                        json::text_at(message, seq!["message"@, "level"@]),
                        rendered,
                    ),
                    None => heard,
                }
            } else if reason == "compiler-artifact"@ {
                if ours && target is Some {
                    Built { compiled: with_name(heard.compiled, target->0), ..heard }
                } else {
                    heard
                }
            } else if reason == "build-finished"@ {
                Built { started: true, ..heard }
            } else {
                heard
            }
        },
    }
}

/// How a cargo message opens. Cargo puts `reason` first in every one it emits.
///
/// This, rather than a leading brace, is what marks a line as cargo's own.
/// Anything else a line can start with -- a proc macro's `{1: "a"}` included --
/// is forwarded output. A false negative is also loud rather than quiet: if cargo
/// ever stopped putting `reason` first, no message would be read,
/// `build-finished` among them, and the run would fail as one cargo never
/// started.
pub const MESSAGE_OPENING: &'static str = "{\"reason\":";

/// What a line of cargo's stdout is.
pub enum Reading {
    /// A cargo message.
    Message(Json),
    /// Forwarded output, which is skipped.
    Output,
    /// A line that opens like a cargo message and is not one.
    Broken,
}

/// What `line` is. A message further along a line is read from where it begins,
/// as long as the rest of the line is a whole one.
pub open spec fn reading(line: Seq<char>) -> Reading {
    match text::found_from(line, MESSAGE_OPENING@, 0) {
        Some(at) => match json::parsed(line.skip(at)) {
            Some(message) => Reading::Message(message),
            None => if at == 0 {
                Reading::Broken
            } else {
                Reading::Output
            },
        },
        None => Reading::Output,
    }
}

/// `built` after the first lines of `lines` up to one that is broken, and
/// whether there is none.
pub open spec fn ingested(built: Built, lines: Seq<Seq<char>>, manifest: Seq<Part>) -> (Built, bool)
    decreases lines.len(),
{
    if lines.len() == 0 {
        (built, true)
    } else {
        match reading(lines[0]) {
            Reading::Message(message) => ingested(
                absorbed(built, message, manifest),
                lines.skip(1),
                manifest,
            ),
            Reading::Output => ingested(built, lines.skip(1), manifest),
            Reading::Broken => (built, false),
        }
    }
}

/// What is said of a line that opens like a cargo message and is not one.
pub const BROKEN_MESSAGE: &'static str = "could not parse cargo's JSON output: not a JSON value";

pub(crate) proof fn lemma_with_manifest(all: Seq<Seq<char>>, text: Seq<char>)
    requires
        is_ordered(all),
    ensures
        is_ordered(with_manifest(all, text)),
        forall|other: Seq<char>| #[trigger]
            with_manifest(all, text).contains(other) <==> all.contains(other) || other == text,
    decreases all.len(),
{
    lemma_text_before_is_an_order();
    let result = with_manifest(all, text);
    if all.len() == 0 {
        assert(seq![text][0] == text);
    } else if text::text_before(all.last(), text) {
        assert forall|i: int, k: int| 0 <= i < k < result.len() implies text::text_before(
            result[i],
            result[k],
        ) by {
            if k == all.len() && i < all.len() - 1 {
                assert(text::text_before(all[i], all.last()));
            }
        }
        assert(result[all.len() as int] == text);
        assert forall|other: Seq<char>| all.contains(other) implies #[trigger] result.contains(
            other,
        ) by {
            let i = all.index_of(other);
            assert(result[i] == other);
        }
    } else if text == all.last() {
        assert(all[all.len() - 1] == text);
    } else {
        let rest = all.drop_last();
        lemma_with_manifest(rest, text);
        let inner = with_manifest(rest, text);
        assert(text::text_before(text, all.last()));
        assert forall|i: int, k: int| 0 <= i < k < result.len() implies text::text_before(
            result[i],
            result[k],
        ) by {
            if k == result.len() - 1 {
                assert(inner.contains(inner[i]));
                if inner[i] != text {
                    let j = rest.index_of(inner[i]);
                    assert(text::text_before(all[j], all[all.len() - 1]));
                }
            }
        }
        assert forall|other: Seq<char>| #[trigger] result.contains(other) <==> all.contains(other)
            || other == text by {
            if result.contains(other) {
                let i = result.index_of(other);
                if i < inner.len() {
                    assert(inner.contains(inner[i]));
                    if other != text {
                        let j = rest.index_of(other);
                        assert(all[j] == other);
                    }
                } else {
                    assert(all[all.len() - 1] == other);
                }
            }
            if all.contains(other) || other == text {
                if other == all.last() {
                    assert(result[result.len() - 1] == other);
                } else {
                    if all.contains(other) {
                        let i = all.index_of(other);
                        assert(rest[i] == other);
                    }
                    assert(inner.contains(other));
                    let j = inner.index_of(other);
                    assert(result[j] == other);
                }
            }
        }
    }
}

/// [`text::text_before`] is a strict total order.
pub proof fn lemma_text_before_is_an_order()
    ensures
        forall|a: Seq<char>| !#[trigger] text::text_before(a, a),
        forall|a: Seq<char>, b: Seq<char>, c: Seq<char>|
            #[trigger] text::text_before(a, b) && #[trigger] text::text_before(b, c)
                ==> text::text_before(a, c),
        forall|a: Seq<char>, b: Seq<char>|
            a == b || #[trigger] text::text_before(a, b) || text::text_before(b, a),
{
    assert forall|a: Seq<char>| !#[trigger] text::text_before(a, a) by {
        lemma_irreflexive(a);
    }
    assert forall|a: Seq<char>, b: Seq<char>, c: Seq<char>|
        #[trigger] text::text_before(a, b) && #[trigger] text::text_before(
            b,
            c,
        ) implies text::text_before(a, c) by {
        lemma_transitive(a, b, c);
    }
    assert forall|a: Seq<char>, b: Seq<char>|
        a == b || #[trigger] text::text_before(a, b) || text::text_before(b, a) by {
        lemma_total(a, b);
    }
}

proof fn lemma_irreflexive(a: Seq<char>)
    ensures
        !text::text_before(a, a),
    decreases a.len(),
{
    if a.len() != 0 {
        lemma_irreflexive(a.skip(1));
    }
}

proof fn lemma_transitive(a: Seq<char>, b: Seq<char>, c: Seq<char>)
    requires
        text::text_before(a, b),
        text::text_before(b, c),
    ensures
        text::text_before(a, c),
    decreases a.len(),
{
    if a.len() != 0 && a[0] == b[0] && b[0] == c[0] {
        lemma_transitive(a.skip(1), b.skip(1), c.skip(1));
    }
}

proof fn lemma_total(a: Seq<char>, b: Seq<char>)
    ensures
        a == b || text::text_before(a, b) || text::text_before(b, a),
    decreases a.len(),
{
    if a.len() != 0 && b.len() != 0 && a[0] == b[0] {
        lemma_total(a.skip(1), b.skip(1));
        if a.skip(1) == b.skip(1) {
            assert(a =~= seq![a[0]] + a.skip(1));
            assert(b =~= seq![b[0]] + b.skip(1));
        }
    } else if a.len() == 0 && b.len() == 0 {
        assert(a =~= b);
    }
}

impl Build {
    /// A build that cargo has said nothing of on stdout.
    pub fn new(stderr: String) -> (build: Build)
        ensures
            build@ == unread(stderr@),
            build@.is_sorted_out(),
    {
        let build = Build {
            messages: Vec::new(),
            compiled: Vec::new(),
            foreign: Vec::new(),
            other_manifests: Vec::new(),
            stderr,
            started: false,
        };
        assert(build@.messages =~= seq![]);
        assert(build@.compiled =~= seq![]);
        assert(build@.foreign =~= seq![]);
        assert(build@.other_manifests =~= seq![]);
        build
    }

    /// The diagnostics for one bin, joined as they would have been rendered.
    pub fn diagnostics(&self, bin: &str) -> (text: String)
        ensures
            text@ == said_about(self@, bin@),
    {
        let ghost all = self@.messages;
        let mut said: Vec<String> = Vec::new();
        assert(text::strings(said@) =~= about(all.take(0), bin@));
        for i in 0..self.messages.len()
            invariant
                all == diagnostics_of(self.messages@),
                text::strings(said@) == about(all.take(i as int), bin@),
        {
            let ghost before = text::strings(said@);
            let message = &self.messages[i];
            assert(all.take(i + 1).drop_last() =~= all.take(i as int));
            assert(all.take(i + 1).last() == (message.bin@, message.rendered@));
            if same_str(message.bin.as_str(), bin) {
                said.push(copy_of(message.rendered.as_str()));
                assert(text::strings(said@) =~= before.push(message.rendered@));
            }
        }
        assert(all.take(all.len() as int) =~= all);
        concatenated(&said)
    }

    /// Whether cargo produced an artifact for `bin`.
    pub fn compiled(&self, bin: &str) -> (yes: bool)
        ensures
            yes == self@.compiled.contains(bin@),
    {
        holds_text(&self.compiled, bin)
    }

    /// Cargo's own stderr. Read when the build never started, and when a fixture
    /// failed with no diagnostics at all.
    pub fn stderr(&self) -> (text: &str)
        ensures
            text@ == self@.stderr,
    {
        self.stderr.as_str()
    }

    /// Whether cargo got as far as building anything. False means cargo failed on
    /// its own terms -- an unparseable manifest, an unresolvable dependency.
    pub fn started(&self) -> (yes: bool)
        ensures
            yes == self@.started,
    {
        self.started
    }

    /// Whether nothing was attributed to the scratch project.
    pub fn is_detached(&self) -> (yes: bool)
        ensures
            yes == self@.is_detached(),
    {
        self.messages.len() == 0 && self.compiled.len() == 0
    }

    /// Why nothing was built, when nothing was built *and another package said
    /// why*.
    ///
    /// A dependency that fails to compile leaves every fixture with no
    /// diagnostics and no artifact, which on its own reads as a harness bug. The
    /// dependency's own errors say what actually happened. Another package's
    /// errors are the only thing that answers this: every fixture failing with
    /// diagnostics cargo suppressed is a property of each fixture, and is
    /// reported per fixture.
    pub fn nothing_built(&self) -> (report: Option<String>)
        ensures
            match report {
                Some(report) => explanation(self@) == Some(report@),
                None => explanation(self@) is None,
            },
    {
        if !self.is_detached() {
            return None;
        }
        let report = without_tail(&chars_of(concatenated(&self.foreign).as_str()));
        if report.len() == 0 {
            None
        } else {
            Some(string_of(&report))
        }
    }

    /// Record that cargo produced an artifact for `bin`.
    fn add_compiled(&mut self, bin: &str)
        ensures
            final(self)@ == (Built { compiled: with_name(old(self)@.compiled, bin@), ..old(self)@ }),
    {
        let ghost before = self@;
        if !holds_text(&self.compiled, bin) {
            self.compiled.push(copy_of(bin));
            assert(self@.compiled =~= before.compiled.push(bin@));
        }
    }

    /// Record that a message named another package's manifest.
    fn add_manifest(&mut self, declared: &str)
        ensures
            final(self)@ == (Built {
                other_manifests: with_manifest(old(self)@.other_manifests, declared@),
                ..old(self)@
            }),
    {
        let ghost all = self@.other_manifests;
        let wanted = chars_of(declared);
        let mut at: usize = self.other_manifests.len();
        proof {
            assert(all.take(all.len() as int) =~= all);
            assert(with_manifest(all, declared@) + all.skip(all.len() as int) =~= with_manifest(
                all,
                declared@,
            ));
        }
        while at > 0
            invariant
                all == text::strings(self.other_manifests@),
                self@ == old(self)@,
                wanted@ == declared@,
                at <= all.len(),
                with_manifest(all, declared@) == with_manifest(all.take(at as int), declared@)
                    + all.skip(at as int),
            decreases at,
        {
            let ghost start = all.take(at as int);
            let known = chars_of(self.other_manifests[at - 1].as_str());
            assert(start.last() == known@);
            if precedes(&known, &wanted) {
                proof {
                    assert(start.push(declared@) + all.skip(at as int) =~= all.insert(
                        at as int,
                        declared@,
                    ));
                }
                self.other_manifests.insert(at, copy_of(declared));
                assert(self@.other_manifests =~= all.insert(at as int, declared@));
                return;
            }
            if crate::text::same(&known, &wanted) {
                assert(start + all.skip(at as int) =~= all);
                return;
            }
            proof {
                assert(start.drop_last() =~= all.take(at - 1));
                assert(with_manifest(all.take(at - 1), declared@).push(start.last()) + all.skip(
                    at as int,
                ) =~= with_manifest(all.take(at - 1), declared@) + all.skip(at - 1));
            }
            at -= 1;
        }
        proof {
            assert(seq![declared@] + all.skip(0) =~= all.insert(0, declared@));
        }
        self.other_manifests.insert(0, copy_of(declared));
        assert(self@.other_manifests =~= all.insert(0, declared@));
    }
}

/// Whether the manifest path a message names is the scratch project's.
fn ours(declared: Option<&str>, manifest: &PathBuf) -> (yes: bool)
    ensures
        yes == is_ours(
            match declared {
                Some(declared) => Some(declared@),
                None => None,
            },
            manifest@,
        ),
{
    match declared {
        Some(declared) => PathBuf::like(declared, manifest).same(manifest),
        None => false,
    }
}

/// Whether `found` is `wanted`.
fn is_text(found: Option<&str>, wanted: &str) -> (yes: bool)
    ensures
        yes == match found {
            Some(found) => found@ == wanted@,
            None => false,
        },
{
    match found {
        Some(found) => same_str(found, wanted),
        None => false,
    }
}

/// File one cargo message under the target it belongs to.
///
/// `manifest` is the scratch project's own manifest path, and every record is
/// checked against it. Target names are not a namespace: a declared dependency is
/// free to be called the same thing as a generated bin, and without this a
/// dependency's `compiler-artifact` would stand as proof that a fixture compiled.
/// Anything a proc macro prints to stdout would forge the same evidence.
pub fn absorb(build: &mut Build, message: &Value, manifest: &PathBuf)
    ensures
        final(build)@ == absorbed(old(build)@, message@, manifest@),
        old(build)@.is_sorted_out() ==> final(build)@.is_sorted_out(),
{
    proof {
        lemma_absorbed_is_sorted_out(build@, message@, manifest@);
        assert(json::keys(["reason"]@) =~= seq!["reason"@]);
        assert(json::keys(["manifest_path"]@) =~= seq!["manifest_path"@]);
        assert(json::keys(["target", "name"]@) =~= seq!["target"@, "name"@]);
        assert(json::keys(["message", "rendered"]@) =~= seq!["message"@, "rendered"@]);
        assert(json::keys(["message", "level"]@) =~= seq!["message"@, "level"@]);
    }
    let reason = match message.path_str(&["reason"]) {
        Some(reason) => reason,
        None => {
            return;
        },
    };
    let declared = message.path_str(&["manifest_path"]);
    let ours = ours(declared, manifest);
    if let Some(declared) = declared {
        if !ours {
            build.add_manifest(declared);
        }
    }
    let target = message.path_str(&["target", "name"]);
    if same_str(reason, "compiler-message") {
        if let Some(rendered) = message.path_str(&["message", "rendered"]) {
            let level = message.path_str(&["message", "level"]);
            if !ours {
                // Another package's diagnostic. Kept only to explain a run in
                // which no fixture built at all.
                if is_text(level, "error") {
                    let ghost before = build@;
                    build.foreign.push(copy_of(rendered));
                    assert(build@.foreign =~= before.foreign.push(rendered@));
                }
            } else if let Some(target) = target {
                // `failure-note` is the "For more information about this error"
                // footer, which is about the *run* rather than the code. Every
                // other level is the compiler talking about the fixture.
                if !is_text(level, "failure-note") {
                    let ghost before = build@;
                    build.messages.push(
                        Diagnostic { bin: copy_of(target), rendered: copy_of(rendered) },
                    );
                    assert(build@.messages =~= before.messages.push((target@, rendered@)));
                }
            }
        }
    } else if same_str(reason, "compiler-artifact") {
        if let Some(target) = target {
            if ours {
                build.add_compiled(target);
            }
        }
    } else if same_str(reason, "build-finished") {
        // Emitted once the build machinery has run, whether or not compilation
        // succeeded. Its absence is how a cargo-level failure is recognized.
        build.started = true;
    }
}

proof fn lemma_absorbed_is_sorted_out(built: Built, message: Json, manifest: Seq<Part>)
    ensures
        built.is_sorted_out() ==> absorbed(built, message, manifest).is_sorted_out(),
{
    if built.is_sorted_out() {
        if let Some(declared) = json::text_at(message, seq!["manifest_path"@]) {
            lemma_with_manifest(built.other_manifests, declared);
        }
    }
}

/// Sort one invocation's stdout into `build`.
///
/// Cargo forwards anything the compiler or a proc macro writes to stdout into
/// this stream verbatim, and a line that is not cargo's own is skipped rather
/// than failing the run. A message found further along a line is read from where
/// it begins. A line that opens like a cargo message but will not parse is a
/// different matter: the alternative to failing is a silently short golden.
pub fn ingest(build: &mut Build, stdout: &str, manifest: &PathBuf) -> (read: Result<(), String>)
    ensures
        final(build)@ == ingested(old(build)@, text::lines(stdout@), manifest@).0,
        read is Ok == ingested(old(build)@, text::lines(stdout@), manifest@).1,
        read matches Err(message) ==> message@ == BROKEN_MESSAGE@,
        old(build)@.is_sorted_out() ==> final(build)@.is_sorted_out(),
{
    let lines = lines_of(&chars_of(stdout));
    let opening = chars_of(MESSAGE_OPENING);
    let ghost all = text::views(lines@);
    let ghost start = build@;
    proof {
        assert(all.skip(0) =~= all);
    }
    for i in 0..lines.len()
        invariant
            all == text::views(lines@),
            opening@ == MESSAGE_OPENING@,
            start == old(build)@,
            ingested(start, all, manifest@) == ingested(build@, all.skip(i as int), manifest@),
            start.is_sorted_out() ==> build@.is_sorted_out(),
            all == text::lines(stdout@),
    {
        let line = &lines[i];
        assert(all.skip(i as int)[0] == line@);
        assert(all.skip(i as int).skip(1) =~= all.skip(i + 1));
        if let Some(at) = find(line, &opening, 0) {
            proof {
                text::lemma_found_is(line@, opening@, 0, Some(at as int));
                assert(line@.subrange(at as int, line@.len() as int) =~= line@.skip(at as int));
            }
            let message = string_of(&slice(line, at, line.len()));
            match crate::json::parse(message.as_str()) {
                Some(message) => {
                    absorb(build, &message, manifest);
                },
                None => {
                    if at == 0 {
                        return Err(copy_of(BROKEN_MESSAGE));
                    }
                },
            }
        } else {
            proof {
                text::lemma_found_is(line@, opening@, 0, None);
            }
        }
    }
    Ok(())
}

/// What cargo's output amounts to.
pub fn read_build(stdout: &str, stderr: String, manifest: &PathBuf) -> (read: Result<
    Build,
    String,
>)
    ensures
        match read {
            Ok(build) => {
                &&& ingested(unread(stderr@), text::lines(stdout@), manifest@) == (build@, true)
                &&& build@.is_sorted_out()
            },
            Err(message) => {
                &&& !ingested(unread(stderr@), text::lines(stdout@), manifest@).1
                &&& message@ == BROKEN_MESSAGE@
            },
        },
{
    let mut build = Build::new(stderr);
    match ingest(&mut build, stdout, manifest) {
        Ok(_) => Ok(build),
        Err(message) => Err(message),
    }
}

// ---------------------------------------------------------------------------
// One manifest under two spellings.
// ---------------------------------------------------------------------------

/// What `all` holds at `i`, where it reaches that far.
pub open spec fn answer_at(all: Seq<Option<PathBuf>>, i: int) -> Option<Seq<Part>> {
    if 0 <= i < all.len() {
        scratch::optional(all[i])
    } else {
        None
    }
}

/// Two canonical paths name one file. A path that could not be canonicalized has
/// none.
pub open spec fn is_same_file(a: Option<Seq<Part>>, b: Option<Seq<Part>>) -> bool {
    a is Some && b is Some && a->0 == b->0
}

/// The first of `count` manifests whose canonical path is `ours`.
pub open spec fn first_same(
    count: nat,
    theirs: Seq<Option<PathBuf>>,
    ours: Option<Seq<Part>>,
    from: nat,
) -> Option<nat>
    decreases count - from,
{
    if from >= count {
        None
    } else if is_same_file(answer_at(theirs, from as int), ours) {
        Some(from)
    } else {
        first_same(count, theirs, ours, from + 1)
    }
}

/// The path cargo reported the scratch project's own messages under, where it is
/// not the one the harness handed it. Anything attributed at all rules that out.
pub open spec fn misspelled(
    built: Built,
    ours: Option<Seq<Part>>,
    theirs: Seq<Option<PathBuf>>,
) -> Option<Seq<char>> {
    if !built.is_detached() {
        None
    } else {
        match first_same(built.other_manifests.len(), theirs, ours, 0) {
            Some(at) => Some(built.other_manifests[at as int]),
            None => None,
        }
    }
}

/// Whether two paths name one file, spelled differently, given what each
/// canonicalizes to.
///
/// A path that cannot be canonicalized is not a match: the question is whether
/// these are the same file, and an error is not a yes.
pub fn same_file(a: &Option<PathBuf>, b: &Option<PathBuf>) -> (yes: bool)
    ensures
        yes == is_same_file(scratch::optional(*a), scratch::optional(*b)),
{
    match (a, b) {
        (Some(a), Some(b)) => a.same(b),
        _ => false,
    }
}

impl Build {
    /// The manifests whose canonical paths [`manifest_mismatch`] needs. None
    /// where something was attributed: a run that is going fine asks the file
    /// system nothing.
    ///
    /// [`manifest_mismatch`]: Build::manifest_mismatch
    pub fn manifests_to_check(&self) -> (manifests: Vec<String>)
        ensures
            text::strings(manifests@) == (if self@.is_detached() {
                self@.other_manifests
            } else {
                seq![]
            }),
    {
        if self.is_detached() {
            crate::text::copy_texts(&self.other_manifests)
        } else {
            let none: Vec<String> = Vec::new();
            assert(text::strings(none@) =~= seq![]);
            none
        }
    }

    /// The scratch project's own messages arriving under a path that does not
    /// compare equal to the one the harness handed cargo.
    ///
    /// Attribution is by manifest path, and it has to be: target names are not a
    /// namespace. A path that names the same file by a different spelling
    /// detaches *every* message from *every* fixture at once, and nothing else
    /// the reader is told points anywhere near the cause.
    ///
    /// `ours` is what the harness's path canonicalizes to, and `theirs` what each
    /// of [`manifests_to_check`] does. Returns the path handed to cargo and the
    /// one cargo reported back.
    ///
    /// [`manifests_to_check`]: Build::manifests_to_check
    pub fn manifest_mismatch(
        &self,
        handed: &PathBuf,
        ours: &Option<PathBuf>,
        theirs: &Vec<Option<PathBuf>>,
    ) -> (found: Option<(PathBuf, PathBuf)>)
        ensures
            match found {
                Some((given, reported)) => {
                    let spelling = misspelled(self@, scratch::optional(*ours), theirs@);
                    &&& spelling is Some
                    &&& given@ == handed@
                    &&& reported@ == path::spelled_like(encode_utf8(spelling->0), handed@)
                },
                None => misspelled(self@, scratch::optional(*ours), theirs@) is None,
            },
    {
        if !self.is_detached() {
            return None;
        }
        let ghost count = self@.other_manifests.len();
        let ghost wanted = scratch::optional(*ours);
        for i in 0..self.other_manifests.len()
            invariant
                count == self.other_manifests@.len(),
                wanted == scratch::optional(*ours),
                self@.is_detached(),
                count == self@.other_manifests.len(),
                first_same(count, theirs@, wanted, 0) == first_same(
                    count,
                    theirs@,
                    wanted,
                    i as nat,
                ),
        {
            if i < theirs.len() && same_file(&theirs[i], ours) {
                return Some(
                    (handed.copied(), PathBuf::like(self.other_manifests[i].as_str(), handed)),
                );
            }
        }
        None
    }
}

// ---------------------------------------------------------------------------
// What cargo is asked.
// ---------------------------------------------------------------------------

/// One argument of a command.
#[derive(Debug, Clone)]
pub enum Argument {
    /// Text.
    Text(String),
    /// A path, which need not be text.
    Path(PathBuf),
}

/// What an [`Argument`] stands for.
pub enum Word {
    /// Text.
    Text(Seq<char>),
    /// A path.
    Path(Seq<Part>),
}

impl View for Argument {
    type V = Word;

    open spec fn view(&self) -> Word {
        match *self {
            Argument::Text(text) => Word::Text(text@),
            Argument::Path(path) => Word::Path(path@),
        }
    }
}

/// One change to the environment a command inherits.
#[derive(Debug, Clone)]
pub struct Edit {
    /// The variable.
    pub key: Vec<u8>,
    /// What it is set to, or nothing where it is removed.
    pub value: Option<String>,
}

/// What an [`Edit`] stands for.
pub struct Change {
    /// The variable.
    pub key: Seq<u8>,
    /// What it is set to, or nothing where it is removed.
    pub value: Option<Seq<char>>,
}

impl View for Edit {
    type V = Change;

    open spec fn view(&self) -> Change {
        Change {
            key: self.key@,
            value: match self.value {
                Some(value) => Some(value@),
                None => None,
            },
        }
    }
}

/// A command, ready to run.
#[derive(Debug, Clone)]
pub struct Command {
    /// The program, as the operating system names it.
    pub program: Vec<u8>,
    /// Its arguments.
    pub arguments: Vec<Argument>,
    /// The directory it runs in.
    pub current_dir: PathBuf,
    /// Changes to the environment it inherits, in the order they are made. A
    /// variable that none of them names passes through as it is.
    pub environment: Vec<Edit>,
}

/// What each of `all` stands for.
pub open spec fn words(all: Seq<Argument>) -> Seq<Word> {
    all.map_values(|argument: Argument| argument@)
}

/// What each of `all` stands for.
pub open spec fn changes(all: Seq<Edit>) -> Seq<Change> {
    all.map_values(|edit: Edit| edit@)
}

/// The names that `all` holds.
pub open spec fn names(all: Seq<Vec<u8>>) -> Seq<Seq<u8>> {
    all.map_values(|name: Vec<u8>| name@)
}

/// What every profile key begins with.
pub const PROFILE_PREFIX: &'static str = "CARGO_PROFILE_";

/// A key that sets part of a cargo profile. Told by its prefix rather than by
/// name: which keys exist is cargo's to grow.
pub open spec fn is_profile_key(key: Seq<u8>) -> bool {
    let prefix = encode_utf8(PROFILE_PREFIX@);
    valid_utf8(key) && prefix.len() <= key.len() && key.take(prefix.len() as int) == prefix
}

/// The profile keys among `keys`.
pub open spec fn profile_keys_of(keys: Seq<Seq<u8>>) -> Seq<Seq<u8>>
    decreases keys.len(),
{
    if keys.len() == 0 {
        seq![]
    } else if is_profile_key(keys.last()) {
        profile_keys_of(keys.drop_last()).push(keys.last())
    } else {
        profile_keys_of(keys.drop_last())
    }
}

/// A variable that is removed.
pub open spec fn removal(key: Seq<u8>) -> Change {
    Change { key, value: None }
}

/// A variable that is set.
pub open spec fn setting(key: Seq<char>, value: Seq<char>) -> Change {
    Change { key: encode_utf8(key), value: Some(value) }
}

/// The changes the fixture build makes whatever it inherits.
pub open spec fn fixed_changes() -> Seq<Change> {
    seq![
        setting("CARGO_ENCODED_RUSTFLAGS"@, ""@),
        removal(encode_utf8("RUSTFLAGS"@)),
        removal(encode_utf8("CARGO_BUILD_RUSTFLAGS"@)),
        removal(encode_utf8("CARGO_TARGET_DIR"@)),
        setting("CARGO_PROFILE_DEV_DEBUG"@, "none"@),
        setting("CARGO_INCREMENTAL"@, "0"@),
    ]
}

/// The changes the fixture build makes to an environment that holds `inherited`.
/// The sweep comes first, so it cannot take what the harness sets with it.
pub open spec fn build_changes(inherited: Seq<Seq<u8>>) -> Seq<Change> {
    profile_keys_of(inherited).map_values(|key: Seq<u8>| removal(key)) + fixed_changes()
}

/// The arguments of the fixture build, for fixtures built for `target` on
/// `host`.
pub open spec fn build_words(
    target_dir: Seq<Part>,
    manifest: Seq<Part>,
    target: Seq<char>,
    host: Seq<char>,
) -> Seq<Word> {
    let always = seq![
        Word::Text("build"@),
        Word::Text("--bins"@),
        Word::Text("--keep-going"@),
        Word::Text("--message-format=json"@),
        Word::Text("--quiet"@),
        Word::Text("--color=never"@),
        Word::Text("--offline"@),
        Word::Text("--target-dir"@),
        Word::Path(target_dir),
        Word::Text("--manifest-path"@),
        Word::Path(manifest),
    ];
    if target == host {
        always
    } else {
        always + seq![Word::Text("--target"@), Word::Text(target)]
    }
}

/// Whether `key` sets part of a cargo profile.
fn sets_profile(key: &Vec<u8>) -> (yes: bool)
    ensures
        yes == is_profile_key(key@),
{
    let prefix = bytes_of(PROFILE_PREFIX);
    if !is_utf8(key) || key.len() < prefix.len() {
        return false;
    }
    for i in 0..prefix.len()
        invariant
            prefix@ == encode_utf8(PROFILE_PREFIX@),
            prefix@.len() <= key@.len(),
            forall|k: int| 0 <= k < i ==> key@[k] == prefix@[k],
    {
        if key[i] != prefix[i] {
            assert(key@.take(prefix@.len() as int)[i as int] != prefix@[i as int]);
            return false;
        }
    }
    assert(key@.take(prefix@.len() as int) =~= prefix@);
    true
}

/// The profile keys in an environment, which a fixture build must not inherit.
pub fn profile_keys(keys: &Vec<Vec<u8>>) -> (swept: Vec<Vec<u8>>)
    ensures
        names(swept@) == profile_keys_of(names(keys@)),
{
    let ghost all = names(keys@);
    let mut swept: Vec<Vec<u8>> = Vec::new();
    assert(names(swept@) =~= profile_keys_of(all.take(0)));
    for i in 0..keys.len()
        invariant
            all == names(keys@),
            names(swept@) == profile_keys_of(all.take(i as int)),
    {
        let ghost before = names(swept@);
        assert(all.take(i + 1).drop_last() =~= all.take(i as int));
        assert(all.take(i + 1).last() == keys@[i as int]@);
        if sets_profile(&keys[i]) {
            let key = copy_bytes(&keys[i]);
            swept.push(key);
            assert(names(swept@) =~= before.push(key@));
        }
    }
    assert(all.take(all.len() as int) =~= all);
    swept
}

/// A variable that is removed.
fn remove(key: &str) -> (edit: Edit)
    ensures
        edit@ == removal(encode_utf8(key@)),
{
    Edit { key: bytes_of(key), value: None }
}

/// A variable that is set.
fn set_to(key: &str, value: &str) -> (edit: Edit)
    ensures
        edit@ == setting(key@, value@),
{
    Edit { key: bytes_of(key), value: Some(copy_of(value)) }
}

/// A textual argument.
fn word(text: &str) -> (argument: Argument)
    ensures
        argument@ == Word::Text(text@),
{
    Argument::Text(copy_of(text))
}

/// The `cargo build` that compiles every fixture, ready to run.
///
/// `inherited` names the variables the child would otherwise inherit. `target`
/// and `host` are the triples the suite was compiled for and on. The fixtures are
/// built for the target the suite was, which is what lets a crate test invariants
/// about its own target; it is named only where it is not the host, because
/// naming any target moves cargo's output under a component for it that a
/// diagnostic can quote.
///
/// `--keep-going` matters: without it cargo stops scheduling work after the first
/// target fails, and a target that was never built is indistinguishable from one
/// that compiled cleanly. `--offline` keeps a compile-fail suite off the network.
///
/// An inherited `-D warnings` would turn every fixture's warnings into errors.
/// Removing the variables is not enough, since cargo also reads `[build]
/// rustflags` from configuration files: an empty `CARGO_ENCODED_RUSTFLAGS` is what
/// overrides those. Every `CARGO_PROFILE_*` variable is swept for the same reason.
/// What identifies the toolchain and the target is left to inherit.
pub fn fixture_build(
    program: Vec<u8>,
    layout: &Layout,
    inherited: &Vec<Vec<u8>>,
    target: &str,
    host: &str,
) -> (command: Command)
    ensures
        command.program@ == program@,
        words(command.arguments@) == build_words(
            layout.target@,
            scratch::child(layout.project@, "Cargo.toml"@),
            target@,
            host@,
        ),
        command.current_dir@ == layout.project@,
        changes(command.environment@) == build_changes(names(inherited@)),
{
    let mut arguments: Vec<Argument> = Vec::new();
    arguments.push(word("build"));
    arguments.push(word("--bins"));
    arguments.push(word("--keep-going"));
    arguments.push(word("--message-format=json"));
    arguments.push(word("--quiet"));
    arguments.push(word("--color=never"));
    arguments.push(word("--offline"));
    arguments.push(word("--target-dir"));
    arguments.push(Argument::Path(layout.target.copied()));
    arguments.push(word("--manifest-path"));
    arguments.push(Argument::Path(layout.manifest()));
    if !same_str(target, host) {
        arguments.push(word("--target"));
        arguments.push(word(target));
    }
    assert(words(arguments@) =~= build_words(
        layout.target@,
        scratch::child(layout.project@, "Cargo.toml"@),
        target@,
        host@,
    ));
    let mut environment: Vec<Edit> = Vec::new();
    let swept = profile_keys(inherited);
    let ghost sweep = names(swept@).map_values(|key: Seq<u8>| removal(key));
    for i in 0..swept.len()
        invariant
            sweep == names(swept@).map_values(|key: Seq<u8>| removal(key)),
            changes(environment@) == sweep.take(i as int),
    {
        let ghost before = changes(environment@);
        let edit = Edit { key: copy_bytes(&swept[i]), value: None };
        assert(edit@ == sweep[i as int]);
        environment.push(edit);
        assert(changes(environment@) =~= before.push(edit@));
    }
    assert(sweep.take(sweep.len() as int) =~= sweep);
    environment.push(set_to("CARGO_ENCODED_RUSTFLAGS", ""));
    environment.push(remove("RUSTFLAGS"));
    environment.push(remove("CARGO_BUILD_RUSTFLAGS"));
    environment.push(remove("CARGO_TARGET_DIR"));
    // Debug info is what makes the scratch directory large, and no golden can
    // see any of it. Incremental compilation replays cached diagnostics. Both
    // are set here because an environment key outranks a manifest profile.
    environment.push(set_to("CARGO_PROFILE_DEV_DEBUG", "none"));
    environment.push(set_to("CARGO_INCREMENTAL", "0"));
    assert(changes(environment@) =~= sweep + fixed_changes());
    Command { program, arguments, current_dir: layout.project.copied(), environment }
}

/// The cargo that is running the test, so the fixtures build on the same
/// toolchain as the test that asked for it. Cargo sets `CARGO` in a test binary's
/// environment; the bare name is only a fallback.
pub fn cargo(configured: Option<Vec<u8>>) -> (program: Vec<u8>)
    ensures
        program@ == match configured {
            Some(configured) => configured@,
            None => encode_utf8("cargo"@),
        },
{
    match configured {
        Some(configured) => configured,
        None => bytes_of("cargo"),
    }
}

/// What cargo is asked to say where the host crate's workspace is.
pub open spec fn locate_words() -> Seq<Word> {
    seq![
        Word::Text("locate-project"@),
        Word::Text("--workspace"@),
        Word::Text("--message-format"@),
        Word::Text("plain"@),
    ]
}

/// The command that asks cargo where the host crate's workspace is.
///
/// Cargo is asked rather than the directory tree walked for a `Cargo.lock`: a
/// member can be nested under another project's directory, and a stray lockfile
/// in a member is one cargo ignores.
pub fn locate_workspace(program: Vec<u8>, manifest_dir: &PathBuf) -> (command: Command)
    ensures
        command.program@ == program@,
        words(command.arguments@) == locate_words(),
        command.current_dir@ == manifest_dir@,
        command.environment@.len() == 0,
{
    let mut arguments: Vec<Argument> = Vec::new();
    arguments.push(word("locate-project"));
    arguments.push(word("--workspace"));
    arguments.push(word("--message-format"));
    arguments.push(word("plain"));
    assert(words(arguments@) =~= locate_words());
    Command { program, arguments, current_dir: manifest_dir.copied(), environment: Vec::new() }
}

/// Where the lockfile of the workspace whose manifest cargo printed would be, for
/// a host crate at `manifest_dir`.
pub open spec fn lockfile_parts(stdout: Seq<char>, manifest_dir: Seq<Part>) -> Seq<Part> {
    path::with_file_name(
        path::spelled_like(encode_utf8(text::trim_end(stdout)), manifest_dir),
        encode_utf8("Cargo.lock"@),
    )
}

/// Where the host workspace's lockfile would be, given whether cargo found a
/// workspace and what it printed. Whether there is a file is the caller's to ask.
///
/// The scratch project is a workspace of its own, so left alone cargo resolves
/// every registry dependency afresh. Seeding it with the host's lockfile makes it
/// resolve exactly what the host does, and move exactly when that does.
pub fn host_lockfile(
    found: bool,
    stdout: &str,
    manifest_dir: &PathBuf,
) -> (lockfile: Option<PathBuf>)
    ensures
        match lockfile {
            Some(lockfile) => found && lockfile@ == lockfile_parts(stdout@, manifest_dir@),
            None => !found,
        },
{
    if !found {
        return None;
    }
    let manifest = string_of(&without_tail(&chars_of(stdout)));
    Some(PathBuf::like(manifest.as_str(), manifest_dir).with_file_name("Cargo.lock"))
}

/// What a run that has to wait for the lock says, once.
pub open spec fn wait_notice(lock: Seq<Part>) -> Seq<char> {
    "nocompile: waiting for another nocompile run to finish (lock file: "@ + path::native(lock)
        + ")\n"@
}

/// What a run that has to wait for the lock says, once.
///
/// The wait is deliberately unbounded: a run behind a slow one is not failing.
/// But a silent wait is indistinguishable from a hang.
pub fn lock_notice(layout: &Layout) -> (notice: String)
    ensures
        notice@ == wait_notice(scratch::child(layout.root@, ".lock"@)),
{
    let mut out = chars_of("nocompile: waiting for another nocompile run to finish (lock file: ");
    extend_str(&mut out, layout.lock_path().display_native().as_str());
    extend_str(&mut out, ")\n");
    string_of(&out)
}

/// Whether a file that holds `existing`, if it can be read at all, has to be
/// written to hold `contents`. An unchanged fixture must not churn cargo's
/// mtime-based fingerprint.
pub fn has_changed(existing: &Option<String>, contents: &str) -> (yes: bool)
    ensures
        yes == match *existing {
            Some(existing) => existing@ != contents@,
            None => true,
        },
{
    match existing {
        Some(existing) => !same_str(existing.as_str(), contents),
        None => true,
    }
}

} // verus!
