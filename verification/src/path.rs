//! Paths, as the sequence of their components.
//!
//! Everything the harness asks of a path -- whether one lies under another, what
//! golden sits beside a fixture, in which order two are reported -- is a question
//! about its components, so a path here is those components and nothing else.
//! A name is the bytes the operating system holds it as, which need not be UTF-8.

use vstd::prelude::*;
use vstd::utf8::*;

use crate::text::copy_of;

verus! {

/// One component of a path.
#[derive(Debug, Clone, PartialEq, Eq, Hash)]
pub enum Component {
    /// A drive or share, on the systems that have one.
    Prefix(Vec<u8>),
    /// The root directory.
    RootDir,
    /// A `.` at the beginning of a relative path.
    CurDir,
    /// A `..`.
    ParentDir,
    /// A name.
    Normal(Vec<u8>),
}

/// What a [`Component`] stands for.
pub enum Part {
    /// A drive or share.
    Prefix(Seq<u8>),
    /// The root directory.
    RootDir,
    /// A `.`.
    CurDir,
    /// A `..`.
    ParentDir,
    /// A name.
    Normal(Seq<u8>),
}

impl View for Component {
    type V = Part;

    open spec fn view(&self) -> Part {
        match self {
            Component::Prefix(name) => Part::Prefix(name@),
            Component::RootDir => Part::RootDir,
            Component::CurDir => Part::CurDir,
            Component::ParentDir => Part::ParentDir,
            Component::Normal(name) => Part::Normal(name@),
        }
    }
}

/// A path.
#[derive(Debug, Clone, PartialEq, Eq, Hash)]
pub struct PathBuf {
    /// The components, outermost first.
    pub components: Vec<Component>,
}

impl View for PathBuf {
    type V = Seq<Part>;

    open spec fn view(&self) -> Seq<Part> {
        self.components@.map_values(|component: Component| component@)
    }
}

/// A path as a caller spelled it, which need not be how [`PathBuf::display`]
/// spells it: `ui/` leads where `ui` does.
#[derive(Debug, Clone, PartialEq, Eq, Hash)]
pub struct Spelled {
    /// Where it leads.
    pub path: PathBuf,
    /// How it is spelled.
    pub text: String,
}

/// The paths that `all` holds.
pub open spec fn paths(all: Seq<PathBuf>) -> Seq<Seq<Part>> {
    all.map_values(|path: PathBuf| path@)
}

// ---------------------------------------------------------------------------
// Names.
// ---------------------------------------------------------------------------

/// What `String::from_utf8_lossy` makes of `bytes`.
pub uninterp spec fn lossy_text(bytes: Seq<u8>) -> Seq<char>;

/// A name as text: what it encodes where it is UTF-8, and otherwise with what is
/// not UTF-8 in it replaced.
pub open spec fn name_text(name: Seq<u8>) -> Seq<char> {
    if valid_utf8(name) {
        decode_utf8(name)
    } else {
        lossy_text(name)
    }
}

/// `String::from_utf8_lossy`: `bytes` as text, with what is not UTF-8 replaced.
/// Bytes that are UTF-8 come out as the text they encode.
#[verifier::external_body]
fn lossy(bytes: &Vec<u8>) -> (shown: String)
    ensures
        shown@ == lossy_text(bytes@),
        valid_utf8(bytes@) ==> shown@ == decode_utf8(bytes@),
{
    String::from_utf8_lossy(bytes).into_owned()
}

/// `std::str::from_utf8`: whether `bytes` are UTF-8.
#[verifier::external_body]
pub(crate) fn is_utf8(bytes: &Vec<u8>) -> (yes: bool)
    ensures
        yes == valid_utf8(bytes@),
{
    std::str::from_utf8(bytes).is_ok()
}

/// The bytes of `text`.
pub fn bytes_of(text: &str) -> (bytes: Vec<u8>)
    ensures
        bytes@ == encode_utf8(text@),
{
    vstd::slice::slice_to_vec(text.as_bytes())
}

/// A copy of `bytes`.
pub fn copy_bytes(bytes: &Vec<u8>) -> (copy: Vec<u8>)
    ensures
        copy@ == bytes@,
{
    slice_bytes(bytes, 0, bytes.len())
}

/// The bytes from `from` up to, not including, `to`.
fn slice_bytes(bytes: &Vec<u8>, from: usize, to: usize) -> (part: Vec<u8>)
    requires
        from <= to <= bytes@.len(),
    ensures
        part@ == bytes@.subrange(from as int, to as int),
        from == 0 && to == bytes@.len() ==> part@ == bytes@,
{
    let mut part: Vec<u8> = Vec::new();
    for i in from..to
        invariant
            to <= bytes@.len(),
            part@ == bytes@.subrange(from as int, i as int),
    {
        part.push(bytes[i]);
    }
    assert(from == 0 && to == bytes@.len() ==> part@ =~= bytes@);
    part
}

/// Whether two names are the same.
pub fn same_bytes(a: &Vec<u8>, b: &Vec<u8>) -> (equal: bool)
    ensures
        equal == (a@ == b@),
{
    if a.len() != b.len() {
        return false;
    }
    for i in 0..a.len()
        invariant
            a@.len() == b@.len(),
            forall|k: int| 0 <= k < i ==> a@[k] == b@[k],
    {
        if a[i] != b[i] {
            return false;
        }
    }
    assert(a@ =~= b@);
    true
}

/// `a` comes before `b`, byte by byte.
pub open spec fn bytes_before(a: Seq<u8>, b: Seq<u8>) -> bool
    decreases a.len(),
{
    if b.len() == 0 {
        false
    } else if a.len() == 0 {
        true
    } else if a[0] != b[0] {
        a[0] < b[0]
    } else {
        bytes_before(a.skip(1), b.skip(1))
    }
}

/// Whether `a` comes before `b`, byte by byte.
pub fn bytes_precede(a: &Vec<u8>, b: &Vec<u8>) -> (yes: bool)
    ensures
        yes == bytes_before(a@, b@),
{
    let mut i: usize = 0;
    proof {
        assert(a@.skip(0) =~= a@);
        assert(b@.skip(0) =~= b@);
    }
    while i < a.len() && i < b.len()
        invariant
            i <= a@.len(),
            i <= b@.len(),
            bytes_before(a@, b@) == bytes_before(a@.skip(i as int), b@.skip(i as int)),
        decreases a@.len() - i,
    {
        assert(a@.skip(i as int).skip(1) =~= a@.skip(i + 1));
        assert(b@.skip(i as int).skip(1) =~= b@.skip(i + 1));
        if a[i] != b[i] {
            return a[i] < b[i];
        }
        i += 1;
    }
    i < b.len()
}

// ---------------------------------------------------------------------------
// Reading a path.
// ---------------------------------------------------------------------------

/// What separates one component from the next.
pub const SEPARATOR: u8 = 0x2f;

/// What separates components too, in a path that begins with a prefix.
pub const BACKSLASH: u8 = 0x5c;

/// What a file name's extension begins with.
pub const DOT: u8 = 0x2e;

/// Where the first segment of `bytes` ends.
pub open spec fn segment_end(bytes: Seq<u8>) -> nat
    decreases bytes.len(),
{
    if bytes.len() == 0 || bytes[0] == SEPARATOR {
        0
    } else {
        1 + segment_end(bytes.skip(1))
    }
}

proof fn lemma_segment_end_is(bytes: Seq<u8>, at: int)
    requires
        0 <= at <= bytes.len(),
        at < bytes.len() ==> bytes[at] == SEPARATOR,
        forall|i: int| 0 <= i < at ==> bytes[i] != SEPARATOR,
    ensures
        segment_end(bytes) == at,
    decreases bytes.len(),
{
    if at > 0 {
        lemma_segment_end_is(bytes.skip(1), at - 1);
    }
}

/// The component a segment names: none for an empty one or a `.`, which only
/// repeat what is there.
pub open spec fn segment_parts(segment: Seq<u8>) -> Seq<Part> {
    if segment.len() == 0 || segment == seq![DOT] {
        seq![]
    } else if segment == seq![DOT, DOT] {
        seq![Part::ParentDir]
    } else {
        seq![Part::Normal(segment)]
    }
}

/// The components of the segments of `bytes`.
pub open spec fn segments(bytes: Seq<u8>) -> Seq<Part>
    decreases bytes.len(),
{
    let end = segment_end(bytes) as int;
    if end >= bytes.len() {
        segment_parts(bytes)
    } else {
        segment_parts(bytes.take(end)) + segments(bytes.skip(end + 1))
    }
}

/// The components of the path spelled `bytes`: names and `..` separated by `/`,
/// after a root where the first byte is a `/`. A `.` is kept only where a
/// relative path begins with it.
pub open spec fn spelled(bytes: Seq<u8>) -> Seq<Part> {
    let end = segment_end(bytes) as int;
    if bytes.len() != 0 && bytes[0] == SEPARATOR {
        seq![Part::RootDir] + segments(bytes)
    } else if end <= bytes.len() && bytes.take(end) == seq![DOT] {
        seq![Part::CurDir] + segments(bytes)
    } else {
        segments(bytes)
    }
}

/// `bytes` with every `\` read as a `/`.
pub open spec fn slashed(bytes: Seq<u8>) -> Seq<u8> {
    bytes.map_values(
        |byte: u8|
            if byte == BACKSLASH {
                SEPARATOR
            } else {
                byte
            },
    )
}

/// The components of the path spelled `bytes` where paths are spelled as `like`
/// is: where that begins with a prefix and `bytes` does too, `\` separates what
/// follows it as `/` does.
pub open spec fn spelled_like(bytes: Seq<u8>, like: Seq<Part>) -> Seq<Part> {
    if like.len() != 0 && like[0] is Prefix {
        let prefix = like[0]->Prefix_0;
        let n = prefix.len() as int;
        if n <= bytes.len() && bytes.take(n) == prefix {
            seq![like[0]] + spelled(slashed(bytes.skip(n)))
        } else {
            spelled(bytes)
        }
    } else {
        spelled(bytes)
    }
}

/// `bytes` from `from` on, with every `\` read as a `/`.
fn slashes(bytes: &Vec<u8>, from: usize) -> (read: Vec<u8>)
    requires
        from <= bytes@.len(),
    ensures
        read@ == slashed(bytes@.skip(from as int)),
{
    let mut read: Vec<u8> = Vec::new();
    for i in from..bytes.len()
        invariant
            from <= bytes@.len(),
            read@ == slashed(bytes@.skip(from as int)).take(i - from),
    {
        let byte = if bytes[i] == BACKSLASH {
            SEPARATOR
        } else {
            bytes[i]
        };
        assert(byte == slashed(bytes@.skip(from as int))[i - from]);
        read.push(byte);
        assert(read@ =~= slashed(bytes@.skip(from as int)).take(i + 1 - from));
    }
    assert(read@ =~= slashed(bytes@.skip(from as int)));
    read
}

/// Add the component `segment` names, if it names one, to `components`.
fn push_segment(components: &mut Vec<Component>, segment: Vec<u8>)
    ensures
        final(components)@.map_values(|c: Component| c@) == old(components)@.map_values(
            |c: Component| c@,
        ) + segment_parts(segment@),
{
    let ghost before = components@.map_values(|c: Component| c@);
    if segment.len() == 0 {
        assert(before + segment_parts(segment@) =~= before);
        return;
    }
    if segment.len() == 1 && segment[0] == DOT {
        assert(segment@ =~= seq![DOT]);
        assert(before + segment_parts(segment@) =~= before);
        return;
    }
    assert(segment@ != seq![DOT]) by {
        if segment@ == seq![DOT] {
            assert(segment@[0] == DOT && segment@.len() == 1);
        }
    }
    if segment.len() == 2 && segment[0] == DOT && segment[1] == DOT {
        assert(segment@ =~= seq![DOT, DOT]);
        components.push(Component::ParentDir);
    } else {
        assert(segment@ != seq![DOT, DOT]) by {
            if segment@ == seq![DOT, DOT] {
                assert(segment@[0] == DOT && segment@[1] == DOT && segment@.len() == 2);
            }
        }
        components.push(Component::Normal(segment));
    }
    assert(components@.map_values(|c: Component| c@) =~= before + segment_parts(segment@));
}

impl PathBuf {
    /// The path spelled `bytes`.
    pub fn from_bytes(bytes: &Vec<u8>) -> (path: PathBuf)
        ensures
            path@ == spelled(bytes@),
    {
        let mut components: Vec<Component> = Vec::new();
        let mut end: usize = 0;
        while end < bytes.len() && bytes[end] != SEPARATOR
            invariant
                end <= bytes@.len(),
                forall|i: int| 0 <= i < end ==> bytes@[i] != SEPARATOR,
            decreases bytes@.len() - end,
        {
            end += 1;
        }
        proof {
            lemma_segment_end_is(bytes@, end as int);
        }
        if bytes.len() > 0 && bytes[0] == SEPARATOR {
            components.push(Component::RootDir);
        } else if end == 1 && bytes[0] == DOT {
            assert(bytes@.take(1) =~= seq![DOT]);
            components.push(Component::CurDir);
        } else {
            assert(bytes@.take(end as int) != seq![DOT]) by {
                if bytes@.take(end as int) == seq![DOT] {
                    assert(bytes@.take(end as int)[0] == DOT);
                    assert(bytes@.take(end as int).len() == 1);
                }
            }
        }
        let ghost head = components@.map_values(|c: Component| c@);
        assert(spelled(bytes@) =~= head + segments(bytes@));
        let mut start: usize = 0;
        let mut at: usize = 0;
        proof {
            assert(bytes@.skip(0) =~= bytes@);
        }
        while at < bytes.len()
            invariant
                start <= at <= bytes@.len(),
                forall|i: int| start <= i < at ==> bytes@[i] != SEPARATOR,
                head + segments(bytes@) == components@.map_values(|c: Component| c@) + segments(
                    bytes@.skip(start as int),
                ),
            decreases bytes@.len() - at,
        {
            if bytes[at] == SEPARATOR {
                let ghost rest = bytes@.skip(start as int);
                let ghost before = components@.map_values(|c: Component| c@);
                proof {
                    lemma_segment_end_is(rest, at - start);
                    assert(rest.take(at - start) =~= bytes@.subrange(start as int, at as int));
                    assert(rest.skip(at - start + 1) =~= bytes@.skip(at + 1));
                }
                let segment = slice_bytes(bytes, start, at);
                let ghost named = segment_parts(segment@);
                push_segment(&mut components, segment);
                start = at + 1;
                assert(before + (named + segments(bytes@.skip(start as int))) =~= (before + named)
                    + segments(bytes@.skip(start as int)));
            }
            at += 1;
        }
        proof {
            let rest = bytes@.skip(start as int);
            lemma_segment_end_is(rest, rest.len() as int);
            assert(rest =~= bytes@.subrange(start as int, bytes@.len() as int));
        }
        let segment = slice_bytes(bytes, start, bytes.len());
        push_segment(&mut components, segment);
        let path = PathBuf { components };
        assert(path@ =~= spelled(bytes@));
        path
    }

    /// The path spelled `text`.
    pub fn new(text: &str) -> (path: PathBuf)
        ensures
            path@ == spelled(encode_utf8(text@)),
    {
        PathBuf::from_bytes(&bytes_of(text))
    }

    /// The path spelled `text`, where paths are spelled as `other` is.
    pub fn like(text: &str, other: &PathBuf) -> (path: PathBuf)
        ensures
            path@ == spelled_like(encode_utf8(text@), other@),
    {
        if other.components.len() > 0 {
            assert(other@[0] == other.components@[0]@);
            if let Component::Prefix(prefix) = &other.components[0] {
                let bytes = bytes_of(text);
                let n = prefix.len();
                if n <= bytes.len() && same_bytes(&slice_bytes(&bytes, 0, n), prefix) {
                    assert(bytes@.subrange(0, n as int) =~= bytes@.take(n as int));
                    let mut path = PathBuf::from_bytes(&slashes(&bytes, n));
                    let ghost rest = path@;
                    path.components.insert(0, Component::Prefix(copy_bytes(prefix)));
                    assert(path@ =~= seq![other@[0]] + rest);
                    return path;
                }
                assert(n <= bytes@.len() ==> bytes@.subrange(0, n as int) =~= bytes@.take(
                    n as int,
                ));
            }
        }
        PathBuf::new(text)
    }

    /// A copy of the path.
    pub fn copied(&self) -> (copy: PathBuf)
        ensures
            copy@ == self@,
    {
        self.from_component(0)
    }

    /// The components from `from` on.
    fn from_component(&self, from: usize) -> (rest: PathBuf)
        requires
            from <= self@.len(),
        ensures
            rest@ == self@.skip(from as int),
            from == 0 ==> rest@ == self@,
    {
        let mut components: Vec<Component> = Vec::new();
        for i in from..self.components.len()
            invariant
                components@.map_values(|c: Component| c@) == self@.subrange(from as int, i as int),
        {
            let ghost before = components@.map_values(|c: Component| c@);
            let component = self.components[i].copied();
            components.push(component);
            assert(components@.map_values(|c: Component| c@) =~= before.push(component@));
            assert(self@.subrange(from as int, i + 1) =~= self@.subrange(from as int, i as int).push(
                self@[i as int],
            ));
        }
        let rest = PathBuf { components };
        assert(rest@ =~= self@.skip(from as int));
        assert(from == 0 ==> rest@ =~= self@);
        rest
    }
}

impl Spelled {
    /// The path spelled `text`.
    pub fn new(text: &str) -> (spelled: Spelled)
        ensures
            spelled.path@ == self::spelled(encode_utf8(text@)),
            spelled.text@ == text@,
    {
        Spelled { path: PathBuf::new(text), text: copy_of(text) }
    }
}

impl PathBuf {
    /// The first `n` components.
    pub fn up_to(&self, n: usize) -> (start: PathBuf)
        requires
            n <= self@.len(),
        ensures
            start@ == self@.take(n as int),
    {
        let mut components: Vec<Component> = Vec::new();
        for i in 0..n
            invariant
                n <= self@.len(),
                components@.map_values(|c: Component| c@) == self@.take(i as int),
        {
            let ghost before = components@.map_values(|c: Component| c@);
            let component = self.components[i].copied();
            components.push(component);
            assert(components@.map_values(|c: Component| c@) =~= before.push(component@));
        }
        let start = PathBuf { components };
        assert(start@ =~= self@.take(n as int));
        start
    }
}

impl Component {
    /// A copy of the component.
    pub fn copied(&self) -> (copy: Component)
        ensures
            copy@ == self@,
    {
        match self {
            Component::Prefix(name) => Component::Prefix(copy_bytes(name)),
            Component::RootDir => Component::RootDir,
            Component::CurDir => Component::CurDir,
            Component::ParentDir => Component::ParentDir,
            Component::Normal(name) => Component::Normal(copy_bytes(name)),
        }
    }

    /// Whether two components are the same.
    pub fn same(&self, other: &Component) -> (equal: bool)
        ensures
            equal == (self@ == other@),
    {
        match (self, other) {
            (Component::Prefix(a), Component::Prefix(b)) => same_bytes(a, b),
            (Component::RootDir, Component::RootDir) => true,
            (Component::CurDir, Component::CurDir) => true,
            (Component::ParentDir, Component::ParentDir) => true,
            (Component::Normal(a), Component::Normal(b)) => same_bytes(a, b),
            _ => false,
        }
    }
}

// ---------------------------------------------------------------------------
// Showing a path.
// ---------------------------------------------------------------------------

/// A component as text.
pub open spec fn part_text(part: Part) -> Seq<char> {
    match part {
        Part::Prefix(name) => name_text(name),
        Part::RootDir => "/"@,
        Part::CurDir => "."@,
        Part::ParentDir => ".."@,
        Part::Normal(name) => name_text(name),
    }
}

/// A path as text, its components separated by `/`.
pub open spec fn shown(parts: Seq<Part>) -> Seq<char>
    decreases parts.len(),
{
    if parts.len() == 0 {
        seq![]
    } else {
        let before = shown(parts.drop_last());
        let text = part_text(parts.last());
        if parts.last() is RootDir || before.len() == 0 || before.last() == '/' {
            before + text
        } else {
            before.push('/') + text
        }
    }
}

/// `text` with `\` in place of every `/`.
pub open spec fn backslashed(text: Seq<char>) -> Seq<char> {
    text.map_values(
        |c: char|
            if c == '/' {
                '\\'
            } else {
                c
            },
    )
}

/// The path is one of a platform whose own separator is `\`: it begins with a drive
/// or share.
pub open spec fn is_windows(parts: Seq<Part>) -> bool {
    parts.len() != 0 && parts[0] is Prefix
}

/// A path as text, its components separated as `like`, which it is a part of,
/// separates them on its own platform.
pub open spec fn native_like(parts: Seq<Part>, like: Seq<Part>) -> Seq<char> {
    if is_windows(like) {
        backslashed(shown(parts))
    } else {
        shown(parts)
    }
}

/// A path as text, its components separated as its own platform separates them.
pub open spec fn native(parts: Seq<Part>) -> Seq<char> {
    native_like(parts, parts)
}

/// Every name in the path is UTF-8, so the path can be carried as text.
pub open spec fn is_text(parts: Seq<Part>) -> bool {
    forall|i: int| 0 <= i < parts.len() ==> part_is_text(#[trigger] parts[i])
}

/// The component's name, if it has one, is UTF-8.
pub open spec fn part_is_text(part: Part) -> bool {
    match part {
        Part::Prefix(name) => valid_utf8(name),
        Part::Normal(name) => valid_utf8(name),
        _ => true,
    }
}

impl Component {
    /// The component as text.
    fn text(&self) -> (text: String)
        ensures
            text@ == part_text(self@),
    {
        match self {
            Component::Prefix(name) => lossy(name),
            Component::RootDir => "/".to_owned(),
            Component::CurDir => ".".to_owned(),
            Component::ParentDir => "..".to_owned(),
            Component::Normal(name) => lossy(name),
        }
    }

    /// Whether the component's name, if it has one, is UTF-8.
    fn is_utf8(&self) -> (yes: bool)
        ensures
            yes == part_is_text(self@),
    {
        match self {
            Component::Prefix(name) => is_utf8(name),
            Component::Normal(name) => is_utf8(name),
            _ => true,
        }
    }
}

impl PathBuf {
    /// The path as text, its components separated by `/`. Lossy where a name is
    /// not UTF-8.
    pub fn display(&self) -> (text: String)
        ensures
            text@ == shown(self@),
    {
        let mut text: Vec<char> = Vec::new();
        for i in 0..self.components.len()
            invariant
                text@ == shown(self@.take(i as int)),
        {
            let component = &self.components[i];
            assert(self@.take(i + 1).drop_last() =~= self@.take(i as int));
            assert(self@.take(i + 1).last() == component@);
            let root = match component {
                Component::RootDir => true,
                _ => false,
            };
            if !root && text.len() > 0 && text[text.len() - 1] != '/' {
                text.push('/');
            }
            crate::text::extend_str(&mut text, component.text().as_str());
        }
        assert(self@.take(self@.len() as int) =~= self@);
        crate::text::string_of(&text)
    }

    /// The path as text, its components separated as `like`, which it is a part
    /// of, separates them on its own platform: by `\` where that begins with a
    /// drive or share, and by `/` otherwise. Lossy where a name is not UTF-8.
    pub fn display_like(&self, like: &PathBuf) -> (text: String)
        ensures
            text@ == native_like(self@, like@),
    {
        let shown = self.display();
        let windows = like.components.len() > 0 && match like.components[0] {
            Component::Prefix(_) => true,
            _ => false,
        };
        assert(like@.len() != 0 ==> like@[0] == like.components@[0]@);
        if !windows {
            return shown;
        }
        let chars = crate::text::chars_of(shown.as_str());
        let ghost wanted = backslashed(shown@);
        let mut text: Vec<char> = Vec::new();
        for i in 0..chars.len()
            invariant
                chars@ == shown@,
                wanted == backslashed(shown@),
                text@ == wanted.take(i as int),
        {
            let c = if chars[i] == '/' {
                '\\'
            } else {
                chars[i]
            };
            assert(c == wanted[i as int]);
            text.push(c);
            assert(wanted.take(i + 1) =~= wanted.take(i as int).push(c));
        }
        assert(wanted.take(wanted.len() as int) =~= wanted);
        crate::text::string_of(&text)
    }

    /// The path as text, its components separated as its own platform separates
    /// them. Lossy where a name is not UTF-8.
    pub fn display_native(&self) -> (text: String)
        ensures
            text@ == native(self@),
    {
        self.display_like(self)
    }

    /// Whether every name in the path is UTF-8.
    pub fn is_utf8(&self) -> (yes: bool)
        ensures
            yes == is_text(self@),
    {
        for i in 0..self.components.len()
            invariant
                forall|k: int| 0 <= k < i ==> part_is_text(#[trigger] self@[k]),
        {
            assert(self@[i as int] == self.components@[i as int]@);
            if !self.components[i].is_utf8() {
                return false;
            }
        }
        true
    }
}

// ---------------------------------------------------------------------------
// Relating paths.
// ---------------------------------------------------------------------------

/// `path` lies at or under `base`.
pub open spec fn is_under(path: Seq<Part>, base: Seq<Part>) -> bool {
    base.len() <= path.len() && path.take(base.len() as int) == base
}

/// `path` as seen from `base`, or whole where it does not lie under `base`.
pub open spec fn seen_from(path: Seq<Part>, base: Seq<Part>) -> Seq<Part> {
    if is_under(path, base) {
        path.skip(base.len() as int)
    } else {
        path
    }
}

/// `path` as a report names it: as it is shown when seen from `base`, read back.
/// Lossy where a name is not UTF-8.
pub open spec fn told_from(path: Seq<Part>, base: Seq<Part>) -> Seq<Part> {
    let seen = seen_from(path, base);
    spelled_like(encode_utf8(shown(seen)), seen)
}

/// The path begins at a root rather than where it is read from.
pub open spec fn is_absolute(parts: Seq<Part>) -> bool {
    parts.len() != 0 && (parts[0] is RootDir || parts[0] is Prefix)
}

/// What following `part` from `parts` leads to, by the names alone.
pub open spec fn followed(parts: Seq<Part>, part: Part) -> Seq<Part> {
    match part {
        Part::CurDir => parts,
        Part::ParentDir => if parts.len() == 0 || parts.last() is ParentDir || parts.last() is CurDir {
            parts.push(Part::ParentDir)
        } else if parts.last() is Normal {
            parts.drop_last()
        } else {
            parts
        },
        _ => parts.push(part),
    }
}

/// `parts` with every `.` dropped and every `..` taken together with the name
/// before it. A `..` at a root stays at the root.
pub open spec fn folded(parts: Seq<Part>) -> Seq<Part>
    decreases parts.len(),
{
    if parts.len() == 0 {
        seq![]
    } else {
        followed(folded(parts.drop_last()), parts.last())
    }
}

/// `path` resolved against `base`, by the names alone.
pub open spec fn joined(base: Seq<Part>, path: Seq<Part>) -> Seq<Part> {
    if is_absolute(path) {
        folded(path)
    } else {
        folded(base + path)
    }
}

/// Follow `component` from `components`.
fn follow(components: &mut Vec<Component>, component: &Component)
    ensures
        final(components)@.map_values(|c: Component| c@) == followed(
            old(components)@.map_values(|c: Component| c@),
            component@,
        ),
{
    let ghost before = components@.map_values(|c: Component| c@);
    match component {
        Component::CurDir => {},
        Component::ParentDir => {
            let n = components.len();
            if n == 0 {
                components.push(Component::ParentDir);
                assert(components@.map_values(|c: Component| c@) =~= before.push(Part::ParentDir));
            } else {
                assert(before.last() == components@[n - 1]@);
                let (up, stay) = match &components[n - 1] {
                    Component::Normal(_) => (true, false),
                    Component::ParentDir => (false, false),
                    Component::CurDir => (false, false),
                    _ => (false, true),
                };
                if up {
                    let _ = components.pop();
                    assert(components@.map_values(|c: Component| c@) =~= before.drop_last());
                } else if !stay {
                    components.push(Component::ParentDir);
                    assert(components@.map_values(|c: Component| c@) =~= before.push(
                        Part::ParentDir,
                    ));
                }
            }
        },
        _ => {
            components.push(component.copied());
            assert(components@.map_values(|c: Component| c@) =~= before.push(component@));
        },
    }
}

/// `path` resolved against `base`, with every `.` and `..` folded away.
///
/// By the names alone: no symlink is followed, and nothing needs to exist.
pub fn lexical_join(base: &PathBuf, path: &PathBuf) -> (resolved: PathBuf)
    ensures
        resolved@ == joined(base@, path@),
{
    let absolute = path.components.len() > 0 && match &path.components[0] {
        Component::RootDir => true,
        Component::Prefix(_) => true,
        _ => false,
    };
    assert(path@.len() != 0 ==> path@[0] == path.components@[0]@);
    let ghost whole = if absolute {
        path@
    } else {
        base@ + path@
    };
    let mut components: Vec<Component> = Vec::new();
    let ghost start: int = if absolute {
        0
    } else {
        base@.len() as int
    };
    assert(components@.map_values(|c: Component| c@) =~= folded(whole.take(0)));
    if !absolute {
        for i in 0..base.components.len()
            invariant
                whole == base@ + path@,
                components@.map_values(|c: Component| c@) == folded(whole.take(i as int)),
        {
            assert(whole.take(i + 1).drop_last() =~= whole.take(i as int));
            assert(whole.take(i + 1).last() == base.components@[i as int]@);
            follow(&mut components, &base.components[i]);
        }
    }
    for i in 0..path.components.len()
        invariant
            start == 0 || start == base@.len(),
            whole == (if absolute {
                path@
            } else {
                base@ + path@
            }),
            start == (if absolute {
                0
            } else {
                base@.len() as int
            }),
            components@.map_values(|c: Component| c@) == folded(whole.take(start + i)),
    {
        assert(whole.take(start + i + 1).drop_last() =~= whole.take(start + i));
        assert(whole.take(start + i + 1).last() == path.components@[i as int]@);
        follow(&mut components, &path.components[i]);
    }
    assert(whole.take(start + path@.len()) =~= whole);
    let resolved = PathBuf { components };
    assert(resolved@ =~= joined(base@, path@));
    resolved
}

impl PathBuf {
    /// Whether two paths are the same.
    pub fn same(&self, other: &PathBuf) -> (equal: bool)
        ensures
            equal == (self@ == other@),
    {
        assert(self@ == other@ ==> self@.len() == other@.len());
        if self.components.len() != other.components.len() {
            return false;
        }
        for i in 0..self.components.len()
            invariant
                self@.len() == other@.len(),
                forall|k: int| 0 <= k < i ==> self@[k] == other@[k],
        {
            assert(self@[i as int] == self.components@[i as int]@);
            assert(other@[i as int] == other.components@[i as int]@);
            if !self.components[i].same(&other.components[i]) {
                return false;
            }
        }
        assert(self@ =~= other@);
        true
    }

    /// What is left of the path after `base`, if it lies under `base`.
    pub fn strip_prefix(&self, base: &PathBuf) -> (rest: Option<PathBuf>)
        ensures
            match rest {
                Some(rest) => is_under(self@, base@) && rest@ == self@.skip(base@.len() as int),
                None => !is_under(self@, base@),
            },
    {
        let n = base.components.len();
        if self.components.len() < n {
            return None;
        }
        for i in 0..n
            invariant
                n == base@.len(),
                n <= self@.len(),
                forall|k: int| 0 <= k < i ==> self@[k] == base@[k],
        {
            assert(self@[i as int] == self.components@[i as int]@);
            assert(base@[i as int] == base.components@[i as int]@);
            if !self.components[i].same(&base.components[i]) {
                assert(self@.take(n as int)[i as int] != base@[i as int]);
                return None;
            }
        }
        assert(self@.take(n as int) =~= base@);
        Some(self.from_component(n))
    }

    /// The path as seen from `base`, or whole where it does not lie under it.
    pub fn from_base(&self, base: &PathBuf) -> (rest: PathBuf)
        ensures
            rest@ == seen_from(self@, base@),
    {
        match self.strip_prefix(base) {
            Some(rest) => rest,
            None => self.copied(),
        }
    }

    /// The path as a report names it: as it is shown when seen from `base`, read
    /// back.
    pub fn told_from(&self, base: &PathBuf) -> (told: PathBuf)
        ensures
            told@ == told_from(self@, base@),
    {
        let seen = self.from_base(base);
        PathBuf::like(seen.display().as_str(), &seen)
    }

    /// The path of what the operating system calls `name` inside the directory
    /// this path names.
    pub fn child_named(&self, name: &Vec<u8>) -> (path: PathBuf)
        ensures
            path@ == self@.push(Part::Normal(name@)),
    {
        let mut path = self.copied();
        path.components.push(Component::Normal(copy_bytes(name)));
        assert(path@ =~= self@.push(Part::Normal(name@)));
        path
    }

    /// The path of `name` inside the directory this path names.
    pub fn child(&self, name: &str) -> (path: PathBuf)
        ensures
            path@ == self@.push(Part::Normal(encode_utf8(name@))),
    {
        let mut path = self.copied();
        path.components.push(Component::Normal(bytes_of(name)));
        assert(path@ =~= self@.push(Part::Normal(encode_utf8(name@))));
        path
    }
}

// ---------------------------------------------------------------------------
// File names.
// ---------------------------------------------------------------------------

/// The name of the file a path leads to.
pub open spec fn file_name(parts: Seq<Part>) -> Option<Seq<u8>> {
    if parts.len() != 0 && parts.last() is Normal {
        Some(parts.last()->Normal_0)
    } else {
        None
    }
}

/// Where the last `.` of `name` stands, or nothing where there is none.
pub open spec fn last_dot(name: Seq<u8>) -> Option<int>
    decreases name.len(),
{
    if name.len() == 0 {
        None
    } else if name.last() == DOT {
        Some(name.len() - 1)
    } else {
        last_dot(name.drop_last())
    }
}

/// Where the extension of `name` begins, dot included, if it has one. A name
/// that only begins with a dot has none.
pub open spec fn extension_at(name: Seq<u8>) -> Option<int> {
    match last_dot(name) {
        Some(at) => if at > 0 {
            Some(at)
        } else {
            None
        },
        None => None,
    }
}

/// The extension of the file a path leads to.
pub open spec fn extension(parts: Seq<Part>) -> Option<Seq<u8>> {
    match file_name(parts) {
        Some(name) => match extension_at(name) {
            Some(at) => Some(name.skip(at + 1)),
            None => None,
        },
        None => None,
    }
}

/// `name` with `extension` in place of the one it has.
pub open spec fn renamed(name: Seq<u8>, extension: Seq<u8>) -> Seq<u8> {
    let stem = match extension_at(name) {
        Some(at) => name.take(at),
        None => name,
    };
    stem + seq![DOT] + extension
}

/// `parts` with `extension` in place of the one its file name has. A path with
/// no file name is left as it is.
pub open spec fn with_extension(parts: Seq<Part>, extension: Seq<u8>) -> Seq<Part> {
    match file_name(parts) {
        Some(name) => parts.drop_last().push(Part::Normal(renamed(name, extension))),
        None => parts,
    }
}

/// `parts` with its file name replaced by `name`, or added where it has none.
pub open spec fn with_file_name(parts: Seq<Part>, name: Seq<u8>) -> Seq<Part> {
    match file_name(parts) {
        Some(_) => parts.drop_last().push(Part::Normal(name)),
        None => parts.push(Part::Normal(name)),
    }
}

proof fn lemma_last_dot_is(name: Seq<u8>, at: Option<int>)
    requires
        match at {
            Some(at) => 0 <= at < name.len() && name[at] == DOT && forall|i: int|
                at < i < name.len() ==> name[i] != DOT,
            None => forall|i: int| 0 <= i < name.len() ==> name[i] != DOT,
        },
    ensures
        last_dot(name) == at,
    decreases name.len(),
{
    if name.len() != 0 && name.last() != DOT {
        lemma_last_dot_is(name.drop_last(), at);
    }
}

/// Where the extension of `name` begins, dot included, if it has one.
fn find_extension(name: &Vec<u8>) -> (at: Option<usize>)
    ensures
        match at {
            Some(at) => extension_at(name@) == Some(at as int) && 0 < at < name.len(),
            None => extension_at(name@) is None,
        },
{
    let mut at: usize = name.len();
    while at > 0
        invariant
            at <= name.len(),
            forall|i: int| at <= i < name@.len() ==> name@[i] != DOT,
        decreases at,
    {
        at -= 1;
        if name[at] == DOT {
            proof {
                lemma_last_dot_is(name@, Some(at as int));
            }
            if at > 0 {
                return Some(at);
            } else {
                return None;
            }
        }
    }
    proof {
        lemma_last_dot_is(name@, None);
    }
    None
}

impl PathBuf {
    /// The name of the file the path leads to.
    pub fn file_name(&self) -> (name: Option<&Vec<u8>>)
        ensures
            match name {
                Some(name) => file_name(self@) == Some(name@),
                None => file_name(self@) is None,
            },
    {
        let n = self.components.len();
        if n == 0 {
            return None;
        }
        assert(self@.last() == self.components@[n - 1]@);
        match &self.components[n - 1] {
            Component::Normal(name) => Some(name),
            _ => None,
        }
    }

    /// Whether the file the path leads to has exactly this extension.
    pub fn has_extension(&self, wanted: &str) -> (yes: bool)
        ensures
            yes == (extension(self@) == Some(encode_utf8(wanted@))),
    {
        match self.file_name() {
            Some(name) => match find_extension(name) {
                Some(at) => {
                    let found = slice_bytes(name, at + 1, name.len());
                    assert(found@ =~= name@.skip(at + 1));
                    same_bytes(&found, &bytes_of(wanted))
                },
                None => false,
            },
            None => false,
        }
    }

    /// The path with `extension` in place of the one its file name has.
    pub fn with_extension(&self, extension: &str) -> (path: PathBuf)
        ensures
            path@ == with_extension(self@, encode_utf8(extension@)),
    {
        match self.file_name() {
            Some(name) => {
                let end = match find_extension(name) {
                    Some(at) => at,
                    None => name.len(),
                };
                let mut renamed_to = slice_bytes(name, 0, end);
                assert(renamed_to@ =~= name@.take(end as int));
                assert(name@.take(name@.len() as int) =~= name@);
                renamed_to.push(DOT);
                let mut ending = bytes_of(extension);
                renamed_to.append(&mut ending);
                assert(renamed_to@ =~= renamed(name@, encode_utf8(extension@)));
                let mut path = self.copied();
                let _ = path.components.pop();
                path.components.push(Component::Normal(renamed_to));
                assert(path@ =~= with_extension(self@, encode_utf8(extension@)));
                path
            },
            None => self.copied(),
        }
    }

    /// The path with its file name replaced by `name`, or added where it has
    /// none.
    pub fn with_file_name(&self, name: &str) -> (path: PathBuf)
        ensures
            path@ == with_file_name(self@, encode_utf8(name@)),
    {
        let mut path = self.copied();
        if self.file_name().is_some() {
            let _ = path.components.pop();
        }
        path.components.push(Component::Normal(bytes_of(name)));
        assert(path@ =~= with_file_name(self@, encode_utf8(name@)));
        path
    }
}

// ---------------------------------------------------------------------------
// Order.
// ---------------------------------------------------------------------------

/// The kinds of component, in the order paths are sorted by.
pub open spec fn rank(part: Part) -> nat {
    match part {
        Part::Prefix(_) => 0,
        Part::RootDir => 1,
        Part::CurDir => 2,
        Part::ParentDir => 3,
        Part::Normal(_) => 4,
    }
}

/// `a` comes before `b`.
pub open spec fn part_before(a: Part, b: Part) -> bool {
    match (a, b) {
        (Part::Prefix(a), Part::Prefix(b)) => bytes_before(a, b),
        (Part::Normal(a), Part::Normal(b)) => bytes_before(a, b),
        _ => rank(a) < rank(b),
    }
}

/// `a` comes before `b`, component by component.
pub open spec fn path_before(a: Seq<Part>, b: Seq<Part>) -> bool
    decreases a.len(),
{
    if b.len() == 0 {
        false
    } else if a.len() == 0 {
        true
    } else if a[0] != b[0] {
        part_before(a[0], b[0])
    } else {
        path_before(a.skip(1), b.skip(1))
    }
}

impl Component {
    /// Whether this component comes before `other`.
    fn precedes(&self, other: &Component) -> (yes: bool)
        ensures
            yes == part_before(self@, other@),
    {
        match (self, other) {
            (Component::Prefix(a), Component::Prefix(b)) => bytes_precede(a, b),
            (Component::Normal(a), Component::Normal(b)) => bytes_precede(a, b),
            _ => self.rank() < other.rank(),
        }
    }

    /// Where this kind of component stands in the order.
    fn rank(&self) -> (n: u8)
        ensures
            n == rank(self@),
    {
        match self {
            Component::Prefix(_) => 0,
            Component::RootDir => 1,
            Component::CurDir => 2,
            Component::ParentDir => 3,
            Component::Normal(_) => 4,
        }
    }
}

impl PathBuf {
    /// Whether this path comes before `other`, component by component.
    pub fn precedes(&self, other: &PathBuf) -> (yes: bool)
        ensures
            yes == path_before(self@, other@),
    {
        let mut i: usize = 0;
        proof {
            assert(self@.skip(0) =~= self@);
            assert(other@.skip(0) =~= other@);
        }
        while i < self.components.len() && i < other.components.len()
            invariant
                i <= self@.len(),
                i <= other@.len(),
                path_before(self@, other@) == path_before(
                    self@.skip(i as int),
                    other@.skip(i as int),
                ),
            decreases self@.len() - i,
        {
            assert(self@.skip(i as int).skip(1) =~= self@.skip(i + 1));
            assert(other@.skip(i as int).skip(1) =~= other@.skip(i + 1));
            assert(self@.skip(i as int)[0] == self.components@[i as int]@);
            assert(other@.skip(i as int)[0] == other.components@[i as int]@);
            if !self.components[i].same(&other.components[i]) {
                return self.components[i].precedes(&other.components[i]);
            }
            i += 1;
        }
        i < other.components.len()
    }
}

/// `a` comes before `b` by file name. A path without one comes first.
pub open spec fn name_before(a: Seq<Part>, b: Seq<Part>) -> bool {
    match (file_name(a), file_name(b)) {
        (None, Some(_)) => true,
        (Some(a), Some(b)) => bytes_before(a, b),
        _ => false,
    }
}

/// What paths are put in order by.
#[derive(Debug, Clone, Copy, PartialEq, Eq, Structural)]
pub enum Order {
    /// The whole path, component by component.
    Path,
    /// The file name alone.
    Name,
}

/// `a` comes before `b` in `order`.
pub open spec fn goes_before(order: Order, a: Seq<Part>, b: Seq<Part>) -> bool {
    match order {
        Order::Path => path_before(a, b),
        Order::Name => name_before(a, b),
    }
}

/// `all` with `path` put after every path it does not come before.
pub open spec fn placed(order: Order, all: Seq<Seq<Part>>, path: Seq<Part>) -> Seq<Seq<Part>>
    decreases all.len(),
{
    if all.len() != 0 && goes_before(order, path, all.last()) {
        placed(order, all.drop_last(), path).push(all.last())
    } else {
        all.push(path)
    }
}

/// `all` put in order. Paths that neither come before the other stay as they
/// were.
pub open spec fn sorted(order: Order, all: Seq<Seq<Part>>) -> Seq<Seq<Part>>
    decreases all.len(),
{
    if all.len() == 0 {
        seq![]
    } else {
        placed(order, sorted(order, all.drop_last()), all.last())
    }
}

proof fn lemma_placed_is(order: Order, all: Seq<Seq<Part>>, path: Seq<Part>, at: int)
    requires
        0 <= at <= all.len(),
        forall|k: int| at <= k < all.len() ==> goes_before(order, path, #[trigger] all[k]),
        at > 0 ==> !goes_before(order, path, all[at - 1]),
    ensures
        placed(order, all, path) == all.insert(at, path),
    decreases all.len(),
{
    if at < all.len() {
        let rest = all.drop_last();
        assert(goes_before(order, path, all[all.len() - 1]));
        lemma_placed_is(order, rest, path, at);
        assert(rest.insert(at, path).push(all.last()) =~= all.insert(at, path));
    } else {
        if all.len() != 0 {
            assert(!goes_before(order, path, all.last()));
        }
        assert(all.push(path) =~= all.insert(at, path));
    }
}

impl PathBuf {
    /// Whether this path comes before `other` in `order`.
    fn comes_before(&self, other: &PathBuf, order: Order) -> (yes: bool)
        ensures
            yes == goes_before(order, self@, other@),
    {
        match order {
            Order::Path => self.precedes(other),
            Order::Name => match (self.file_name(), other.file_name()) {
                (None, Some(_)) => true,
                (Some(a), Some(b)) => bytes_precede(a, b),
                _ => false,
            },
        }
    }
}

/// Put `all` in order.
pub fn sort(all: Vec<PathBuf>, order: Order) -> (ordered: Vec<PathBuf>)
    ensures
        paths(ordered@) == sorted(order, paths(all@)),
{
    let mut ordered: Vec<PathBuf> = Vec::new();
    assert(paths(ordered@) =~= sorted(order, paths(all@).take(0)));
    for i in 0..all.len()
        invariant
            paths(ordered@) == sorted(order, paths(all@).take(i as int)),
    {
        let ghost before = paths(ordered@);
        let path = all[i].copied();
        let mut at: usize = ordered.len();
        while at > 0 && path.comes_before(&ordered[at - 1], order)
            invariant
                at <= ordered@.len(),
                before == paths(ordered@),
                forall|k: int|
                    at <= k < before.len() ==> goes_before(order, path@, #[trigger] before[k]),
            decreases at,
        {
            at -= 1;
        }
        proof {
            lemma_placed_is(order, before, path@, at as int);
            assert(paths(all@).take(i + 1).drop_last() =~= paths(all@).take(i as int));
            assert(paths(all@).take(i + 1).last() == path@);
        }
        ordered.insert(at, path);
        assert(paths(ordered@) =~= before.insert(at as int, path@));
    }
    assert(paths(all@).take(all@.len() as int) =~= paths(all@));
    ordered
}

/// Whether `all` holds `path`.
pub fn listed(all: &Vec<PathBuf>, path: &PathBuf) -> (yes: bool)
    ensures
        yes == paths(all@).contains(path@),
{
    for i in 0..all.len()
        invariant
            forall|k: int| 0 <= k < i ==> paths(all@)[k] != path@,
    {
        if all[i].same(path) {
            assert(paths(all@)[i as int] == path@);
            return true;
        }
    }
    false
}

/// A copy of `all`.
pub fn copy_paths(all: &Vec<PathBuf>) -> (copy: Vec<PathBuf>)
    ensures
        paths(copy@) == paths(all@),
{
    let mut copy: Vec<PathBuf> = Vec::new();
    for i in 0..all.len()
        invariant
            paths(copy@) == paths(all@).take(i as int),
    {
        let ghost before = paths(copy@);
        let path = all[i].copied();
        copy.push(path);
        assert(paths(copy@) =~= before.push(path@));
    }
    assert(paths(all@).take(all@.len() as int) =~= paths(all@));
    copy
}

} // verus!
