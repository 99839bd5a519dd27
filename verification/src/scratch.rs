//! The scratch project: the one cargo package every fixture is built in.
//!
//! Three hazards shape it. It builds into a target directory of its own, because
//! the outer one is locked by the `cargo test` that is running. It declares a
//! workspace of its own, because it lives inside the host crate's target
//! directory and cargo would otherwise take it for a stray member of the host's.
//! And it names every bin itself, with `autobins = false`, so a fixture removed
//! since the last run is not compiled because its source is still there.

use vstd::prelude::*;
use vstd::utf8::*;

use crate::path;
use crate::path::{bytes_of, lexical_join, Component, Part, PathBuf};
use crate::text;
use crate::text::{chars_of, copy_of, extend_str, string_of};

verus! {

/// The directory every scratch project lives in, under the target directory.
pub const SCRATCH_DIR: &'static str = "nocompile-scratch";

/// Where a scratch project and what it builds are kept.
#[derive(Debug, Clone)]
pub struct Layout {
    /// The directory everything below is in.
    pub root: PathBuf,
    /// The package itself.
    pub project: PathBuf,
    /// What cargo builds it into. Not the outer target directory.
    pub target: PathBuf,
}

/// What a [`Layout`] stands for.
pub struct Place {
    /// The directory everything below is in.
    pub root: Seq<Part>,
    /// The package itself.
    pub project: Seq<Part>,
    /// What cargo builds it into.
    pub target: Seq<Part>,
}

impl View for Layout {
    type V = Place;

    open spec fn view(&self) -> Place {
        Place { root: self.root@, project: self.project@, target: self.target@ }
    }
}

/// Where the scratch project of the host crate called `name` is kept, in the
/// target directory `target`.
pub open spec fn place_in(target: Seq<Part>, name: Seq<char>) -> Place {
    let root = child(child(target, SCRATCH_DIR@), name);
    Place { root, project: child(root, "project"@), target: child(root, "target"@) }
}

/// The path of `name` inside `directory`.
pub open spec fn child(directory: Seq<Part>, name: Seq<char>) -> Seq<Part> {
    directory.push(named(name))
}

/// A component called `name`.
pub open spec fn named(name: Seq<char>) -> Part {
    Part::Normal(encode_utf8(name))
}

/// Where the component of `parts` called `name` that is nearest its end stands.
pub open spec fn nearest(parts: Seq<Part>, name: Seq<char>) -> Option<int>
    decreases parts.len(),
{
    if parts.len() == 0 {
        None
    } else if parts.last() == named(name) {
        Some(parts.len() - 1)
    } else {
        nearest(parts.drop_last(), name)
    }
}

/// The target directory of the build a test belongs to: what was configured,
/// resolved against the host crate; otherwise the nearest directory called
/// `target` above the test's executable; otherwise the host crate's own.
pub open spec fn target_parts(
    manifest_dir: Seq<Part>,
    configured: Option<Seq<Part>>,
    executable: Option<Seq<Part>>,
) -> Seq<Part> {
    match configured {
        Some(configured) => path::joined(manifest_dir, configured),
        None => match executable {
            Some(executable) => match nearest(executable, "target"@) {
                Some(at) => executable.take(at + 1),
                None => child(manifest_dir, "target"@),
            },
            None => child(manifest_dir, "target"@),
        },
    }
}

/// What an optional path stands for.
pub open spec fn optional(path: Option<PathBuf>) -> Option<Seq<Part>> {
    match path {
        Some(path) => Some(path@),
        None => None,
    }
}

/// A copy of an optional path.
pub fn copy_optional(path: &Option<PathBuf>) -> (copy: Option<PathBuf>)
    ensures
        optional(copy) == optional(*path),
{
    match path {
        Some(path) => Some(path.copied()),
        None => None,
    }
}

proof fn lemma_nearest_is(parts: Seq<Part>, name: Seq<char>, at: Option<int>)
    requires
        match at {
            Some(at) => 0 <= at < parts.len() && parts[at] == named(name) && forall|i: int|
                at < i < parts.len() ==> parts[i] != named(name),
            None => forall|i: int| 0 <= i < parts.len() ==> parts[i] != named(name),
        },
    ensures
        nearest(parts, name) == at,
    decreases parts.len(),
{
    if parts.len() != 0 && parts.last() != named(name) {
        lemma_nearest_is(parts.drop_last(), name, at);
    }
}

/// The nearest directory called `target` above `executable`.
fn nearest_target(executable: &PathBuf) -> (target: Option<PathBuf>)
    ensures
        match target {
            Some(target) => nearest(executable@, "target"@) is Some && target@ == executable@.take(
                nearest(executable@, "target"@)->0 + 1,
            ),
            None => nearest(executable@, "target"@) is None,
        },
{
    let wanted = Component::Normal(bytes_of("target"));
    let mut at: usize = executable.components.len();
    while at > 0
        invariant
            at <= executable.components.len(),
            wanted@ == named("target"@),
            forall|i: int| at <= i < executable@.len() ==> executable@[i] != named("target"@),
        decreases at,
    {
        at -= 1;
        assert(executable@[at as int] == executable.components@[at as int]@);
        if executable.components[at].same(&wanted) {
            proof {
                lemma_nearest_is(executable@, "target"@, Some(at as int));
            }
            return Some(executable.up_to(at + 1));
        }
    }
    proof {
        lemma_nearest_is(executable@, "target"@, None);
    }
    None
}

/// The target directory of the build a test belongs to.
///
/// `configured` is `CARGO_TARGET_DIR` and `executable` the test binary, each
/// where there is one.
pub fn target_dir(
    manifest_dir: &PathBuf,
    configured: &Option<PathBuf>,
    executable: &Option<PathBuf>,
) -> (target: PathBuf)
    ensures
        target@ == target_parts(manifest_dir@, optional(*configured), optional(*executable)),
{
    if let Some(configured) = configured {
        return lexical_join(manifest_dir, configured);
    }
    if let Some(executable) = executable {
        if let Some(target) = nearest_target(executable) {
            return target;
        }
    }
    manifest_dir.child("target")
}

/// Where the source of `bin` is kept in the project at `project`.
pub open spec fn bin_parts(project: Seq<Part>, bin: Seq<char>) -> Seq<Part> {
    child(child(child(project, "src"@), "bin"@), bin + ".rs"@)
}

impl Layout {
    /// The layout of the scratch project for the host crate called `name`.
    ///
    /// Named by the host package rather than by where the host lives, so the
    /// test binaries of one crate share one scratch project.
    pub fn new(target: &PathBuf, name: &str) -> (layout: Layout)
        ensures
            layout@ == place_in(target@, name@),
    {
        let root = target.child(SCRATCH_DIR).child(name);
        Layout { project: root.child("project"), target: root.child("target"), root }
    }

    /// The project's manifest.
    pub fn manifest(&self) -> (path: PathBuf)
        ensures
            path@ == child(self.project@, "Cargo.toml"@),
    {
        self.project.child("Cargo.toml")
    }

    /// The project's lockfile.
    pub fn lockfile(&self) -> (path: PathBuf)
        ensures
            path@ == child(self.project@, "Cargo.lock"@),
    {
        self.project.child("Cargo.lock")
    }

    /// The file a run locks for as long as it lasts.
    pub fn lock_path(&self) -> (path: PathBuf)
        ensures
            path@ == child(self.root@, ".lock"@),
    {
        self.root.child(".lock")
    }

    /// The source file of a bin target.
    pub fn bin_path(&self, bin: &str) -> (path: PathBuf)
        ensures
            path@ == bin_parts(self.project@, bin@),
    {
        let mut name: Vec<char> = chars_of(bin);
        extend_str(&mut name, ".rs");
        let name = string_of(&name);
        self.project.child("src").child("bin").child(name.as_str())
    }

    /// A copy of the layout.
    pub fn copied(&self) -> (copy: Layout)
        ensures
            copy@ == self@,
    {
        Layout {
            root: self.root.copied(),
            project: self.project.copied(),
            target: self.target.copied(),
        }
    }
}

// ---------------------------------------------------------------------------
// Bin names.
// ---------------------------------------------------------------------------

/// A character that can stand in a target name as it is.
pub open spec fn is_name_char(c: char) -> bool {
    ('a' <= c && c <= 'z') || ('A' <= c && c <= 'Z') || ('0' <= c && c <= '9')
}

/// `text` with everything that cannot stand in a target name made a `_`.
pub open spec fn sanitized(text: Seq<char>) -> Seq<char> {
    text.map_values(
        |c: char|
            if is_name_char(c) {
                c
            } else {
                '_'
            },
    )
}

/// Where the hash below begins.
pub const HASH_START: u64 = 0xcbf29ce484222325;

/// What the hash below multiplies by.
pub const HASH_STEP: u64 = 0x100000001b3;

/// The 64-bit FNV-1a hash of `bytes`.
pub open spec fn hash(bytes: Seq<u8>) -> u64
    decreases bytes.len(),
{
    if bytes.len() == 0 {
        HASH_START
    } else {
        (hash(bytes.drop_last()) ^ (bytes.last() as u64)).wrapping_mul(HASH_STEP)
    }
}

/// A hexadecimal digit.
pub open spec fn hex_char(n: u64) -> char {
    if n < 10 {
        text::digit(n as nat)
    } else if n == 10 {
        'a'
    } else if n == 11 {
        'b'
    } else if n == 12 {
        'c'
    } else if n == 13 {
        'd'
    } else if n == 14 {
        'e'
    } else {
        'f'
    }
}

/// The last `count` hexadecimal digits of `n`.
pub open spec fn hex(n: u64, count: nat) -> Seq<char>
    decreases count,
{
    if count == 0 {
        seq![]
    } else {
        hex(n / 16, (count - 1) as nat).push(hex_char(n % 16))
    }
}

/// The bin target of the fixture at `relative`.
pub open spec fn bin_of(relative: Seq<char>) -> Seq<char> {
    "f_"@ + sanitized(relative) + "_"@ + hex(hash(encode_utf8(relative)), 16)
}

/// The 64-bit FNV-1a hash of `bytes`.
fn hash_of(bytes: &Vec<u8>) -> (value: u64)
    ensures
        value == hash(bytes@),
{
    let mut value: u64 = HASH_START;
    for i in 0..bytes.len()
        invariant
            value == hash(bytes@.take(i as int)),
    {
        assert(bytes@.take(i + 1).drop_last() =~= bytes@.take(i as int));
        value = (value ^ (bytes[i] as u64)).wrapping_mul(HASH_STEP);
    }
    assert(bytes@.take(bytes@.len() as int) =~= bytes@);
    value
}

/// Append the last `count` hexadecimal digits of `n`.
fn put_hex(out: &mut Vec<char>, n: u64, count: u8)
    ensures
        final(out)@ == old(out)@ + hex(n, count as nat),
    decreases count,
{
    let ghost before = out@;
    if count > 0 {
        put_hex(out, n / 16, count - 1);
        let last: u64 = n % 16;
        let c = match last {
            10 => 'a',
            11 => 'b',
            12 => 'c',
            13 => 'd',
            14 => 'e',
            15 => 'f',
            _ => crate::text::digit_of(last as usize),
        };
        out.push(c);
    }
    assert(out@ =~= before + hex(n, count as nat));
}

/// The bin target of the fixture at `relative`.
///
/// A function of that path alone: the bin name is the crate name, and rustc
/// prints it, so a name that depended on what else was registered would rewrite
/// unrelated goldens. The readable part can be the same for two paths; the hash
/// behind it tells them apart.
pub fn bin_name(relative: &str) -> (bin: String)
    ensures
        bin@ == bin_of(relative@),
{
    let chars = chars_of(relative);
    let mut out: Vec<char> = chars_of("f_");
    let ghost head = out@;
    for i in 0..chars.len()
        invariant
            out@ == head + sanitized(chars@).take(i as int),
    {
        let c = chars[i];
        let kept = ('a' <= c && c <= 'z') || ('A' <= c && c <= 'Z') || ('0' <= c && c <= '9');
        out.push(
            if kept {
                c
            } else {
                '_'
            },
        );
        assert(sanitized(chars@).take(i + 1) =~= sanitized(chars@).take(i as int).push(
            sanitized(chars@)[i as int],
        ));
        assert(out@ =~= head + sanitized(chars@).take(i + 1));
    }
    assert(sanitized(chars@).take(chars@.len() as int) =~= sanitized(chars@));
    extend_str(&mut out, "_");
    put_hex(&mut out, hash_of(&bytes_of(relative)), 16);
    string_of(&out)
}

// ---------------------------------------------------------------------------
// The manifest.
// ---------------------------------------------------------------------------

/// A path dependency every fixture can use.
#[derive(Debug, Clone)]
pub struct Dependency {
    /// The dependency's package name.
    pub name: String,
    /// Where it lives.
    pub path: PathBuf,
}

/// What a [`Dependency`] stands for.
pub struct Declared {
    /// The dependency's package name.
    pub name: Seq<char>,
    /// Where it lives.
    pub path: Seq<Part>,
}

impl View for Dependency {
    type V = Declared;

    open spec fn view(&self) -> Declared {
        Declared { name: self.name@, path: self.path@ }
    }
}

/// What each of `all` stands for.
pub open spec fn declared(all: Seq<Dependency>) -> Seq<Declared> {
    all.map_values(|dependency: Dependency| dependency@)
}

/// A copy of `all`.
pub fn copy_dependencies(all: &Vec<Dependency>) -> (copy: Vec<Dependency>)
    ensures
        declared(copy@) == declared(all@),
{
    let mut copy: Vec<Dependency> = Vec::new();
    for i in 0..all.len()
        invariant
            declared(copy@) == declared(all@).take(i as int),
    {
        let ghost before = declared(copy@);
        let dependency = Dependency {
            name: copy_of(all[i].name.as_str()),
            path: all[i].path.copied(),
        };
        copy.push(dependency);
        assert(declared(copy@) =~= before.push(dependency@));
    }
    assert(declared(all@).take(all@.len() as int) =~= declared(all@));
    copy
}

/// `c` inside a TOML string.
pub open spec fn toml_char(c: char) -> Seq<char> {
    if c == '\\' {
        "\\\\"@
    } else if c == '"' {
        "\\\""@
    } else if (c as u32) < 0x20 || c as u32 == 0x7f {
        "\\u"@ + hex(c as u64, 4)
    } else {
        seq![c]
    }
}

/// `text` inside a TOML string.
pub open spec fn toml_escaped(text: Seq<char>) -> Seq<char>
    decreases text.len(),
{
    if text.len() == 0 {
        seq![]
    } else {
        toml_escaped(text.drop_last()) + toml_char(text.last())
    }
}

/// `text` as a TOML string.
pub open spec fn toml_string(text: Seq<char>) -> Seq<char> {
    "\""@ + toml_escaped(text) + "\""@
}

/// The `[dependencies]` entries for `dependencies`.
pub open spec fn dependency_lines(dependencies: Seq<Declared>) -> Seq<char>
    decreases dependencies.len(),
{
    if dependencies.len() == 0 {
        seq![]
    } else {
        let last = dependencies.last();
        dependency_lines(dependencies.drop_last()) + toml_string(last.name) + " = { path = "@
            + toml_string(path::shown(last.path)) + " }\n"@
    }
}

/// The `[[bin]]` tables for `bins`.
pub open spec fn bin_tables(bins: Seq<Seq<char>>) -> Seq<char>
    decreases bins.len(),
{
    if bins.len() == 0 {
        seq![]
    } else {
        let last = bins.last();
        bin_tables(bins.drop_last()) + "\n[[bin]]\nname = "@ + toml_string(last) + "\npath = "@
            + toml_string("src/bin/"@ + last + ".rs"@) + "\n"@
    }
}

/// The caller's own text, each entry on lines of its own.
pub open spec fn raw_lines(raw: Seq<Seq<char>>) -> Seq<char>
    decreases raw.len(),
{
    if raw.len() == 0 {
        seq![]
    } else {
        raw_lines(raw.drop_last()) + "\n"@ + raw.last() + "\n"@
    }
}

/// The scratch project's manifest.
pub open spec fn manifest_text(
    edition: Seq<char>,
    dependencies: Seq<Declared>,
    raw: Seq<Seq<char>>,
    bins: Seq<Seq<char>>,
) -> Seq<char> {
    "[package]\nname = \"nocompile-scratch\"\nversion = \"0.0.0\"\npublish = false\nautobins = false\nedition = "@
        + toml_string(edition) + "\n\n[workspace]\n\n[dependencies]\n"@ + dependency_lines(
        dependencies,
    ) + bin_tables(bins) + raw_lines(raw)
}

/// Append `text` as a TOML string.
fn put_toml_string(out: &mut Vec<char>, text: &str)
    ensures
        final(out)@ == old(out)@ + toml_string(text@),
{
    let chars = chars_of(text);
    let ghost start = out@;
    extend_str(out, "\"");
    let ghost head = out@;
    assert(head + toml_escaped(chars@.take(0)) =~= head);
    for i in 0..chars.len()
        invariant
            out@ == head + toml_escaped(chars@.take(i as int)),
    {
        let ghost before = out@;
        let c = chars[i];
        assert(chars@.take(i + 1).drop_last() =~= chars@.take(i as int));
        if c == '\\' {
            extend_str(out, "\\\\");
        } else if c == '"' {
            extend_str(out, "\\\"");
        } else if (c as u32) < 0x20 || c as u32 == 0x7f {
            extend_str(out, "\\u");
            put_hex(out, c as u64, 4);
        } else {
            out.push(c);
        }
        assert(out@ =~= before + toml_char(c));
        assert(out@ =~= head + toml_escaped(chars@.take(i + 1)));
    }
    assert(chars@.take(chars@.len() as int) =~= chars@);
    extend_str(out, "\"");
    assert(out@ =~= start + toml_string(text@));
}

/// The scratch project's manifest.
///
/// `raw` comes last, so an entry of it opens a table of its own and cannot change
/// what stands before it.
pub fn manifest(
    edition: &str,
    dependencies: &Vec<Dependency>,
    raw: &Vec<String>,
    bins: &Vec<String>,
) -> (written: String)
    ensures
        written@ == manifest_text(
            edition@,
            declared(dependencies@),
            text::strings(raw@),
            text::strings(bins@),
        ),
{
    let ghost all_dependencies = declared(dependencies@);
    let ghost all_raw = text::strings(raw@);
    let ghost all_bins = text::strings(bins@);
    let mut out: Vec<char> = chars_of(
        "[package]\nname = \"nocompile-scratch\"\nversion = \"0.0.0\"\npublish = false\nautobins = false\nedition = ",
    );
    put_toml_string(&mut out, edition);
    extend_str(&mut out, "\n\n[workspace]\n\n[dependencies]\n");
    let ghost head = out@;
    assert(head + dependency_lines(all_dependencies.take(0)) =~= head);
    for i in 0..dependencies.len()
        invariant
            all_dependencies == declared(dependencies@),
            out@ == head + dependency_lines(all_dependencies.take(i as int)),
    {
        assert(all_dependencies.take(i + 1).drop_last() =~= all_dependencies.take(i as int));
        assert(all_dependencies.take(i + 1).last() == dependencies@[i as int]@);
        put_toml_string(&mut out, dependencies[i].name.as_str());
        extend_str(&mut out, " = { path = ");
        put_toml_string(&mut out, dependencies[i].path.display().as_str());
        extend_str(&mut out, " }\n");
        assert(out@ =~= head + dependency_lines(all_dependencies.take(i + 1)));
    }
    assert(all_dependencies.take(all_dependencies.len() as int) =~= all_dependencies);
    let ghost head = out@;
    assert(head + bin_tables(all_bins.take(0)) =~= head);
    for i in 0..bins.len()
        invariant
            all_bins == text::strings(bins@),
            out@ == head + bin_tables(all_bins.take(i as int)),
    {
        assert(all_bins.take(i + 1).drop_last() =~= all_bins.take(i as int));
        assert(all_bins.take(i + 1).last() == bins@[i as int]@);
        extend_str(&mut out, "\n[[bin]]\nname = ");
        put_toml_string(&mut out, bins[i].as_str());
        extend_str(&mut out, "\npath = ");
        let mut source = chars_of("src/bin/");
        extend_str(&mut source, bins[i].as_str());
        extend_str(&mut source, ".rs");
        put_toml_string(&mut out, string_of(&source).as_str());
        extend_str(&mut out, "\n");
        assert(out@ =~= head + bin_tables(all_bins.take(i + 1)));
    }
    assert(all_bins.take(all_bins.len() as int) =~= all_bins);
    let ghost head = out@;
    assert(head + raw_lines(all_raw.take(0)) =~= head);
    for i in 0..raw.len()
        invariant
            all_raw == text::strings(raw@),
            out@ == head + raw_lines(all_raw.take(i as int)),
    {
        assert(all_raw.take(i + 1).drop_last() =~= all_raw.take(i as int));
        assert(all_raw.take(i + 1).last() == raw@[i as int]@);
        extend_str(&mut out, "\n");
        extend_str(&mut out, raw[i].as_str());
        extend_str(&mut out, "\n");
        assert(out@ =~= head + raw_lines(all_raw.take(i + 1)));
    }
    assert(all_raw.take(all_raw.len() as int) =~= all_raw);
    string_of(&out)
}

} // verus!
