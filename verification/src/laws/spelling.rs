//! How paths are read, written, resolved and put in order.

use vstd::prelude::*;
use vstd::utf8::*;

use crate::laws::path::lemma_last_dot;
use crate::path;
use crate::path::{Order, Part};

verus! {

// ---------------------------------------------------------------------------
// Reading.
// ---------------------------------------------------------------------------

/// `bytes` holds no separator.
pub open spec fn is_one_name(bytes: Seq<u8>) -> bool {
    forall|i: int| 0 <= i < bytes.len() ==> #[trigger] bytes[i] != 0x2f
}

/// What stands between two separators: nothing for no name or a single dot, the
/// parent for two, and otherwise a name.
pub open spec fn named_by(bytes: Seq<u8>) -> Seq<Part> {
    if bytes.len() == 0 || bytes == seq![0x2eu8] {
        seq![]
    } else if bytes == seq![0x2eu8, 0x2eu8] {
        seq![Part::ParentDir]
    } else {
        seq![Part::Normal(bytes)]
    }
}

proof fn lemma_first_segment(name: Seq<u8>, rest: Seq<u8>)
    requires
        is_one_name(name),
        rest.len() != 0 ==> rest[0] == 0x2f,
    ensures
        path::segment_end(name + rest) == name.len(),
    decreases name.len(),
{
    let whole = name + rest;
    if name.len() == 0 {
        if rest.len() != 0 {
            assert(whole[0] == rest[0]);
        }
    } else {
        assert(whole[0] == name[0]);
        let fewer = name.skip(1);
        assert forall|i: int| 0 <= i < fewer.len() implies #[trigger] fewer[i] != 0x2f by {
            assert(fewer[i] == name[i + 1]);
        }
        lemma_first_segment(fewer, rest);
        assert(whole.skip(1) =~= fewer + rest);
    }
}

/// A path is read name by name, from separator to separator.
pub proof fn law_a_path_is_read_name_by_name(name: Seq<u8>, rest: Seq<u8>)
    requires
        is_one_name(name),
    ensures
        path::segments(name) == named_by(name),
        path::segments(name + seq![0x2fu8] + rest) == named_by(name) + path::segments(rest),
{
    lemma_first_segment(name, seq![]);
    assert(name + Seq::<u8>::empty() =~= name);
    let tail = seq![0x2fu8] + rest;
    lemma_first_segment(name, tail);
    let whole = name + seq![0x2fu8] + rest;
    assert(whole =~= name + tail);
    let end = name.len() as int;
    assert(whole.take(end) =~= name);
    assert(whole.skip(end + 1) =~= rest);
}

/// A path that begins with a separator is absolute. One that begins with a single
/// dot keeps it. Any other is made of its names alone.
pub proof fn law_how_a_path_begins(name: Seq<u8>, rest: Seq<u8>)
    requires
        is_one_name(name),
        name.len() != 0,
        rest.len() != 0 ==> rest[0] == 0x2f,
    ensures
        path::spelled(seq![0x2fu8] + rest) == seq![Part::RootDir] + path::segments(
            seq![0x2fu8] + rest,
        ),
        path::spelled(seq![]) == Seq::<Part>::empty(),
        path::spelled(name + rest) == if name == seq![0x2eu8] {
            seq![Part::CurDir] + path::segments(name + rest)
        } else {
            path::segments(name + rest)
        },
{
    let none = Seq::<u8>::empty();
    lemma_first_segment(none, none);
    assert(none + none =~= none);
    assert(none.take(0) =~= none);
    assert(none.len() != seq![0x2eu8].len());
    lemma_first_segment(name, rest);
    let whole = name + rest;
    assert(whole.take(name.len() as int) =~= name);
    assert(whole[0] == name[0]);
    assert((seq![0x2fu8] + rest)[0] == 0x2f);
}

/// Where a path begins with the drive or share of the path it is read like, both
/// separators are read as one behind that. Anywhere else it is read as it is.
pub proof fn law_how_a_path_is_read_like_another(
    bytes: Seq<u8>,
    prefix: Seq<u8>,
    like: Seq<Part>,
)
    ensures
        like.len() == 0 || like[0] !is Prefix ==> path::spelled_like(bytes, like) == path::spelled(
            bytes,
        ),
        path::spelled_like(prefix + bytes, seq![Part::Prefix(prefix)] + like) == seq![
            Part::Prefix(prefix),
        ] + path::spelled(
            Seq::new(
                bytes.len(),
                |i: int|
                    if bytes[i] == 0x5c {
                        0x2fu8
                    } else {
                        bytes[i]
                    },
            ),
        ),
        !prefix.is_prefix_of(bytes) ==> path::spelled_like(
            bytes,
            seq![Part::Prefix(prefix)] + like,
        ) == path::spelled(bytes),
{
    let on = seq![Part::Prefix(prefix)] + like;
    assert(on[0] == Part::Prefix(prefix));
    let whole = prefix + bytes;
    let n = prefix.len() as int;
    assert(whole.take(n) =~= prefix);
    assert(whole.skip(n) =~= bytes);
    assert(path::slashed(bytes) =~= Seq::new(
        bytes.len(),
        |i: int|
            if bytes[i] == 0x5c {
                0x2fu8
            } else {
                bytes[i]
            },
    ));
    if n <= bytes.len() {
        assert(bytes.take(n) =~= bytes.subrange(0, n));
    }
}

// ---------------------------------------------------------------------------
// Writing.
// ---------------------------------------------------------------------------

/// How a component is written.
pub open spec fn written(part: Part) -> Seq<char> {
    match part {
        Part::RootDir => "/"@,
        Part::CurDir => "."@,
        Part::ParentDir => ".."@,
        Part::Normal(name) => if valid_utf8(name) {
            decode_utf8(name)
        } else {
            path::lossy_text(name)
        },
        Part::Prefix(name) => if valid_utf8(name) {
            decode_utf8(name)
        } else {
            path::lossy_text(name)
        },
    }
}

/// A path is written component by component, with one separator between two. None
/// is put at the beginning, behind one that is there, or before a root.
pub proof fn law_a_path_is_written_component_by_component(parts: Seq<Part>, part: Part)
    ensures
        path::shown(seq![]) == Seq::<char>::empty(),
        ({
            let before = path::shown(parts);
            path::shown(parts.push(part)) == if before.len() == 0 || before[before.len() - 1]
                == '/' || part is RootDir {
                before + written(part)
            } else {
                before + "/"@ + written(part)
            }
        }),
{
    reveal_strlit("/");
    let before = path::shown(parts);
    assert(parts.push(part).drop_last() =~= parts);
    assert(before.push('/') + written(part) =~= before + "/"@ + written(part));
}

/// Where a path is one of a platform that separates names by a backslash, it is
/// written with that in place of every separator, and otherwise as it is.
pub proof fn law_how_a_path_is_written_on_its_platform(
    parts: Seq<Part>,
    like: Seq<Part>,
    at: int,
)
    ensures
        like.len() == 0 || like[0] !is Prefix ==> path::native_like(parts, like) == path::shown(
            parts,
        ),
        like.len() != 0 && like[0] is Prefix ==> path::native_like(parts, like).len()
            == path::shown(parts).len() && (0 <= at < path::shown(parts).len()
            ==> path::native_like(parts, like)[at] == if path::shown(parts)[at] == '/' {
            '\\'
        } else {
            path::shown(parts)[at]
        }),
        path::native(parts) == path::native_like(parts, parts),
{
}

/// A path can be carried as text where every name in it is UTF-8.
pub proof fn law_what_can_be_carried_as_text(parts: Seq<Part>)
    ensures
        path::is_text(parts) <==> forall|i: int|
            0 <= i < parts.len() ==> match #[trigger] parts[i] {
                Part::Prefix(name) => valid_utf8(name),
                Part::Normal(name) => valid_utf8(name),
                _ => true,
            },
{
    crate::laws::registering::lemma_can_be_named(parts);
}

// ---------------------------------------------------------------------------
// Resolving.
// ---------------------------------------------------------------------------

/// A path is followed component by component. A dot leads nowhere. Two dots lead
/// back from a name, stay at a root, and are kept where there is nothing to lead
/// back from. Everything else leads further.
pub proof fn law_a_path_is_followed_component_by_component(parts: Seq<Part>, part: Part)
    ensures
        path::folded(seq![]) == Seq::<Part>::empty(),
        ({
            let before = path::folded(parts);
            let after = path::folded(parts.push(part));
            &&& part is CurDir ==> after == before
            &&& part is ParentDir && before.len() != 0 && before.last() is Normal ==> after
                == before.take(before.len() - 1)
            &&& part is ParentDir && before.len() != 0 && (before.last() is RootDir
                || before.last() is Prefix) ==> after == before
            &&& part is ParentDir && (before.len() == 0 || before.last() is ParentDir) ==> after
                == before + seq![Part::ParentDir]
            &&& !(part is CurDir) && !(part is ParentDir) ==> after == before + seq![part]
        }),
{
    assert(parts.push(part).drop_last() =~= parts);
    let before = path::folded(parts);
    if before.len() != 0 {
        assert(before.drop_last() =~= before.take(before.len() - 1));
    }
    assert(before.push(Part::ParentDir) =~= before + seq![Part::ParentDir]);
    assert(before.push(part) =~= before + seq![part]);
}

/// A path is resolved against a directory by following it from there. An absolute
/// path is followed by itself.
pub proof fn law_what_a_path_is_resolved_against(base: Seq<Part>, path: Seq<Part>)
    ensures
        path.len() != 0 && (path[0] is RootDir || path[0] is Prefix) ==> path::joined(base, path)
            == path::folded(path),
        path.len() == 0 || !(path[0] is RootDir || path[0] is Prefix) ==> path::joined(base, path)
            == path::folded(base + path),
{
}

/// A path is seen from a directory it lies in without what leads there, and from
/// any other as it is.
pub proof fn law_how_a_path_is_seen_from_a_directory(
    base: Seq<Part>,
    rest: Seq<Part>,
    other: Seq<Part>,
)
    ensures
        path::is_under(base + rest, base),
        path::seen_from(base + rest, base) == rest,
        !base.is_prefix_of(other) ==> !path::is_under(other, base) && path::seen_from(other, base)
            == other,
        path::told_from(base + rest, base) == path::spelled_like(
            encode_utf8(path::shown(rest)),
            rest,
        ),
        !base.is_prefix_of(other) ==> path::told_from(other, base) == path::spelled_like(
            encode_utf8(path::shown(other)),
            other,
        ),
{
    let whole = base + rest;
    let n = base.len() as int;
    assert(whole.take(n) =~= base);
    assert(whole.skip(n) =~= rest);
    if n <= other.len() {
        assert(other.take(n) =~= other.subrange(0, n));
    }
}

// ---------------------------------------------------------------------------
// File names.
// ---------------------------------------------------------------------------

/// `name` holds no dot.
pub open spec fn is_undotted(name: Seq<u8>) -> bool {
    forall|i: int| 0 <= i < name.len() ==> #[trigger] name[i] != 0x2e
}

/// The extension of a file is what stands behind the last dot of its name, unless
/// that is the first character of it. It is what is exchanged for another, and
/// where there is none another is put behind the name.
#[verifier::rlimit(40)]
pub proof fn law_what_an_extension_is(
    directory: Seq<Part>,
    stem: Seq<u8>,
    extension: Seq<u8>,
    other: Seq<u8>,
)
    requires
        is_undotted(extension),
    ensures
        stem.len() != 0 ==> path::extension(
            directory.push(Part::Normal(stem + seq![0x2eu8] + extension)),
        ) == Some(extension),
        stem.len() != 0 ==> path::with_extension(
            directory.push(Part::Normal(stem + seq![0x2eu8] + extension)),
            other,
        ) == directory.push(Part::Normal(stem + seq![0x2eu8] + other)),
        path::extension(directory.push(Part::Normal(extension))) is None,
        path::with_extension(directory.push(Part::Normal(extension)), other) == directory.push(
            Part::Normal(extension + seq![0x2eu8] + other),
        ),
        path::extension(directory.push(Part::Normal(seq![0x2eu8] + extension))) is None,
{
    let name = stem + seq![0x2eu8] + extension;
    let path = directory.push(Part::Normal(name));
    assert(path.last() == Part::Normal(name));
    assert(path.drop_last() =~= directory);
    lemma_last_dot(name);
    let at = path::last_dot(name);
    assert(name[stem.len() as int] == 0x2e);
    assert(at == Some(stem.len() as int)) by {
        if at->0 > stem.len() {
            assert(name[at->0] == extension[at->0 - stem.len() - 1]);
        } else if at->0 < stem.len() {
            assert(name[stem.len() as int] != path::DOT);
        }
    }
    assert(name.skip(stem.len() + 1int) =~= extension);
    assert(name.take(stem.len() as int) =~= stem);
    let bare = directory.push(Part::Normal(extension));
    assert(bare.last() == Part::Normal(extension));
    assert(bare.drop_last() =~= directory);
    lemma_last_dot(extension);
    let hidden = seq![0x2eu8] + extension;
    assert(directory.push(Part::Normal(hidden)).last() == Part::Normal(hidden));
    lemma_last_dot(hidden);
    if let Some(found) = path::last_dot(hidden) {
        if found > 0 {
            assert(hidden[found] == extension[found - 1]);
        }
    }
}

/// The name of a file is the last component of its path, where that is a name. It is
/// exchanged for another, and put behind a path that has none.
pub proof fn law_how_a_file_is_named_anew(directory: Seq<Part>, name: Seq<u8>, other: Seq<u8>)
    ensures
        path::file_name(directory.push(Part::Normal(name))) == Some(name),
        directory.len() == 0 || !(directory.last() is Normal) ==> path::file_name(
            directory,
        ) is None,
        path::with_file_name(directory.push(Part::Normal(name)), other) == directory.push(
            Part::Normal(other),
        ),
        directory.len() == 0 || !(directory.last() is Normal) ==> path::with_file_name(
            directory,
            other,
        ) == directory.push(Part::Normal(other)),
{
    let path = directory.push(Part::Normal(name));
    assert(path.last() == Part::Normal(name));
    assert(path.drop_last() =~= directory);
}

// ---------------------------------------------------------------------------
// Order.
// ---------------------------------------------------------------------------

/// Names are put in order by the first byte at which they differ, and one that is
/// the beginning of another comes before it.
pub proof fn law_names_are_ordered_by_their_first_difference(
    a: Seq<u8>,
    b: Seq<u8>,
    at: int,
)
    requires
        0 <= at <= a.len(),
        at <= b.len(),
        forall|i: int| 0 <= i < at ==> a[i] == b[i],
        at < a.len() && at < b.len() ==> a[at] != b[at],
    ensures
        at < a.len() && at < b.len() ==> path::bytes_before(a, b) == (a[at] < b[at]),
        at == a.len() || at == b.len() ==> path::bytes_before(a, b) == (a.len() < b.len()),
    decreases at,
{
    if at > 0 {
        assert(a[0] == b[0]);
        law_names_are_ordered_by_their_first_difference(a.skip(1), b.skip(1), at - 1);
    }
}

/// `a` comes before `b`: a drive or share before a root, that before a dot, that
/// before two, and that before a name. Of two of a kind it goes by the name.
pub open spec fn comes_before(a: Part, b: Part) -> bool {
    match (a, b) {
        (Part::Prefix(x), Part::Prefix(y)) => path::bytes_before(x, y),
        (Part::Normal(x), Part::Normal(y)) => path::bytes_before(x, y),
        (Part::Prefix(_), _) => true,
        (Part::RootDir, Part::CurDir) => true,
        (Part::RootDir, Part::ParentDir) => true,
        (Part::RootDir, Part::Normal(_)) => true,
        (Part::CurDir, Part::ParentDir) => true,
        (Part::CurDir, Part::Normal(_)) => true,
        (Part::ParentDir, Part::Normal(_)) => true,
        _ => false,
    }
}

/// Paths are put in order by the first component at which they differ, and one that
/// leads to another comes before it.
pub proof fn law_paths_are_ordered_by_their_first_difference(
    a: Seq<Part>,
    b: Seq<Part>,
    at: int,
)
    requires
        0 <= at <= a.len(),
        at <= b.len(),
        forall|i: int| 0 <= i < at ==> a[i] == b[i],
        at < a.len() && at < b.len() ==> a[at] != b[at],
    ensures
        at < a.len() && at < b.len() ==> path::goes_before(Order::Path, a, b) == comes_before(
            a[at],
            b[at],
        ),
        at == a.len() || at == b.len() ==> path::goes_before(Order::Path, a, b) == (a.len()
            < b.len()),
    decreases at,
{
    if at > 0 {
        assert(a[0] == b[0]);
        let (c, d) = (a.skip(1), b.skip(1));
        assert forall|i: int| 0 <= i < at - 1 implies c[i] == d[i] by {
            assert(a[i + 1] == b[i + 1]);
        }
        law_paths_are_ordered_by_their_first_difference(c, d, at - 1);
    }
}

/// Files are put in order by their names, whatever directory they are in.
pub proof fn law_files_are_ordered_by_their_names(
    a: Seq<Part>,
    b: Seq<Part>,
    x: Seq<u8>,
    y: Seq<u8>,
)
    ensures
        path::goes_before(Order::Name, a.push(Part::Normal(x)), b.push(Part::Normal(y)))
            == path::bytes_before(x, y),
{
    assert(a.push(Part::Normal(x)).last() == Part::Normal(x));
    assert(b.push(Part::Normal(y)).last() == Part::Normal(y));
}

proof fn lemma_filtered<T>(all: Seq<T>, item: T, keeps: spec_fn(T) -> bool)
    ensures
        all.push(item).filter(keeps) == if keeps(item) {
            all.filter(keeps).push(item)
        } else {
            all.filter(keeps)
        },
{
    reveal(Seq::filter);
    assert(all.push(item).drop_last() =~= all);
}

proof fn lemma_placed_behind_its_like(all: Seq<Seq<Part>>, path: Seq<Part>, name: Option<Seq<u8>>)
    ensures
        path::placed(Order::Name, all, path).filter(
            |other: Seq<Part>| path::file_name(other) == name,
        ) == all.push(path).filter(|other: Seq<Part>| path::file_name(other) == name),
    decreases all.len(),
{
    let keeps = |other: Seq<Part>| path::file_name(other) == name;
    if all.len() != 0 && path::goes_before(Order::Name, path, all.last()) {
        let rest = all.drop_last();
        let last = all.last();
        assert(rest.push(last) =~= all);
        lemma_placed_behind_its_like(rest, path, name);
        lemma_filtered(path::placed(Order::Name, rest, path), last, keeps);
        lemma_filtered(rest, path, keeps);
        lemma_filtered(rest, last, keeps);
        lemma_filtered(all, path, keeps);
        crate::laws::path::law_going_before_is_an_order(Order::Name, path, path, path);
        crate::laws::path::law_going_before_is_an_order(Order::Name, last, last, last);
    }
}

/// Files with one name stay in the order they came in when files are put in order by
/// their names.
pub proof fn law_files_with_one_name_stay_in_order(all: Seq<Seq<Part>>, name: Option<Seq<u8>>)
    ensures
        path::sorted(Order::Name, all).filter(
            |other: Seq<Part>| path::file_name(other) == name,
        ) == all.filter(|other: Seq<Part>| path::file_name(other) == name),
    decreases all.len(),
{
    let keeps = |other: Seq<Part>| path::file_name(other) == name;
    if all.len() != 0 {
        let rest = all.drop_last();
        let last = all.last();
        assert(rest.push(last) =~= all);
        law_files_with_one_name_stay_in_order(rest, name);
        lemma_placed_behind_its_like(path::sorted(Order::Name, rest), last, name);
        lemma_filtered(path::sorted(Order::Name, rest), last, keeps);
        lemma_filtered(rest, last, keeps);
    }
}

} // verus!
