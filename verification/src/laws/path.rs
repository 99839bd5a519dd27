//! What holds of paths.

use vstd::prelude::*;
use vstd::utf8::*;

use crate::cases;
use crate::path;
use crate::path::{Order, Part, DOT, SEPARATOR};

verus! {

// ---------------------------------------------------------------------------
// Folding.
// ---------------------------------------------------------------------------

/// `parts` has nothing left to fold: no `.`, and a `..` only where nothing stands
/// before it that it could be taken together with.
pub open spec fn is_folded(parts: Seq<Part>) -> bool {
    forall|i: int|
        0 <= i < parts.len() ==> !((#[trigger] parts[i]) is CurDir) && (parts[i] is ParentDir
            ==> i == 0 || parts[i - 1] is ParentDir)
}

proof fn lemma_followed_is_folded(parts: Seq<Part>, part: Part)
    requires
        is_folded(parts),
    ensures
        is_folded(path::followed(parts, part)),
{
    let next = path::followed(parts, part);
    assert forall|i: int| 0 <= i < next.len() implies !((#[trigger] next[i]) is CurDir) && (
    next[i] is ParentDir ==> i == 0 || next[i - 1] is ParentDir) by {
        if i < parts.len() {
            assert(next[i] == parts[i]);
            assert(!(parts[i] is CurDir));
        } else if part is ParentDir && parts.len() != 0 {
            assert(!(parts[parts.len() - 1] is CurDir));
        }
    }
}

/// What folding leaves has no `.` in it, and a `..` only at its beginning.
pub proof fn law_a_folded_path_has_nothing_left_to_fold(parts: Seq<Part>)
    ensures
        is_folded(path::folded(parts)),
    decreases parts.len(),
{
    if parts.len() != 0 {
        law_a_folded_path_has_nothing_left_to_fold(parts.drop_last());
        lemma_followed_is_folded(path::folded(parts.drop_last()), parts.last());
    }
}

proof fn lemma_folding_a_folded_path(parts: Seq<Part>)
    requires
        is_folded(parts),
    ensures
        path::folded(parts) == parts,
    decreases parts.len(),
{
    if parts.len() != 0 {
        let rest = parts.drop_last();
        assert forall|i: int| 0 <= i < rest.len() implies !((#[trigger] rest[i]) is CurDir) && (
        rest[i] is ParentDir ==> i == 0 || rest[i - 1] is ParentDir) by {
            assert(rest[i] == parts[i]);
            if i > 0 {
                assert(rest[i - 1] == parts[i - 1]);
            }
        }
        lemma_folding_a_folded_path(rest);
        assert(!(parts[parts.len() - 1] is CurDir));
        if parts.last() is ParentDir {
            assert(rest.len() == 0 || rest.last() is ParentDir);
        }
        assert(path::folded(parts) =~= parts);
    }
}

/// Folding what is folded changes nothing.
pub proof fn law_folding_twice_is_folding_once(parts: Seq<Part>)
    ensures
        path::folded(path::folded(parts)) == path::folded(parts),
{
    law_a_folded_path_has_nothing_left_to_fold(parts);
    lemma_folding_a_folded_path(path::folded(parts));
}

/// Resolving what is resolved changes nothing, whatever it is resolved against.
pub proof fn law_resolving_an_absolute_path_again_changes_nothing(
    base: Seq<Part>,
    path: Seq<Part>,
)
    requires
        path::is_absolute(path::joined(base, path)),
    ensures
        path::joined(base, path::joined(base, path)) == path::joined(base, path),
{
    if path::is_absolute(path) {
        law_folding_twice_is_folding_once(path);
    } else {
        law_folding_twice_is_folding_once(base + path);
    }
}

/// `parts` is nothing but names.
pub open spec fn is_names(parts: Seq<Part>) -> bool {
    forall|i: int| 0 <= i < parts.len() ==> (#[trigger] parts[i]) is Normal
}

proof fn lemma_folding_past_names(base: Seq<Part>, names: Seq<Part>)
    requires
        is_folded(base),
        is_names(names),
    ensures
        path::folded(base + names) == base + names,
    decreases names.len(),
{
    if names.len() == 0 {
        assert(base + names =~= base);
        lemma_folding_a_folded_path(base);
    } else {
        let rest = names.drop_last();
        assert forall|i: int| 0 <= i < rest.len() implies (#[trigger] rest[i]) is Normal by {
            assert(rest[i] == names[i]);
        }
        lemma_folding_past_names(base, rest);
        assert((base + names).drop_last() =~= base + rest);
        assert(names[names.len() - 1] is Normal);
        assert((base + rest).push(names.last()) =~= base + names);
    }
}

/// A path made of names, resolved against a folded directory and then seen from
/// it again, is the path it was.
pub proof fn law_a_resolved_path_is_seen_as_it_was(base: Seq<Part>, names: Seq<Part>)
    requires
        is_folded(base),
        is_names(names),
    ensures
        path::joined(base, names) == base + names,
        path::is_under(path::joined(base, names), base),
        path::seen_from(path::joined(base, names), base) == names,
{
    if names.len() != 0 {
        assert(names[0] is Normal);
    }
    lemma_folding_past_names(base, names);
    let resolved = base + names;
    assert(resolved.take(base.len() as int) =~= base);
    assert(resolved.skip(base.len() as int) =~= names);
}

/// A `.` anywhere in a path does not change what it resolves to, and neither does
/// a name taken back by a `..`.
pub proof fn law_every_spelling_resolves_to_one_path(
    before: Seq<Part>,
    name: Seq<u8>,
    after: Seq<Part>,
)
    ensures
        path::folded(before + seq![Part::CurDir] + after) == path::folded(before + after),
        path::folded(before + seq![Part::Normal(name), Part::ParentDir] + after) == path::folded(
            before + after,
        ),
    decreases after.len(),
{
    let dotted = before + seq![Part::CurDir] + after;
    let detour = before + seq![Part::Normal(name), Part::ParentDir] + after;
    let direct = before + after;
    if after.len() == 0 {
        assert(direct =~= before);
        assert(dotted.drop_last() =~= before);
        let out = before.push(Part::Normal(name));
        assert(detour.drop_last() =~= out);
        assert(out.drop_last() =~= before);
        assert(path::folded(out) == path::folded(before).push(Part::Normal(name)));
        assert(path::folded(before).push(Part::Normal(name)).drop_last() =~= path::folded(before));
    } else {
        let rest = after.drop_last();
        law_every_spelling_resolves_to_one_path(before, name, rest);
        assert(dotted.drop_last() =~= before + seq![Part::CurDir] + rest);
        assert(detour.drop_last() =~= before + seq![Part::Normal(name), Part::ParentDir] + rest);
        assert(direct.drop_last() =~= before + rest);
    }
}

// ---------------------------------------------------------------------------
// Goldens.
// ---------------------------------------------------------------------------

pub(crate) proof fn lemma_last_dot(name: Seq<u8>)
    ensures
        match path::last_dot(name) {
            Some(at) => 0 <= at < name.len() && name[at] == DOT && forall|i: int|
                at < i < name.len() ==> name[i] != DOT,
            None => forall|i: int| 0 <= i < name.len() ==> name[i] != DOT,
        },
    decreases name.len(),
{
    if name.len() != 0 && name.last() != DOT {
        let rest = name.drop_last();
        lemma_last_dot(rest);
        assert(forall|i: int| 0 <= i < rest.len() ==> rest[i] == name[i]);
    }
}

proof fn lemma_last_dot_is(name: Seq<u8>, at: int)
    requires
        0 <= at < name.len(),
        name[at] == DOT,
        forall|i: int| at < i < name.len() ==> name[i] != DOT,
    ensures
        path::last_dot(name) == Some(at),
{
    lemma_last_dot(name);
    if let Some(found) = path::last_dot(name) {
        if found < at {
            assert(name[at] != DOT);
        }
        if at < found {
            assert(name[found] != DOT);
        }
    }
}

/// `text` holds no dot.
pub open spec fn has_no_dot(text: Seq<u8>) -> bool {
    forall|i: int| 0 <= i < text.len() ==> text[i] != DOT
}

proof fn lemma_renamed(name: Seq<u8>, from: Seq<u8>, to: Seq<u8>)
    requires
        path::extension_at(name) is Some,
        name.skip(path::extension_at(name)->0 + 1) == from,
        has_no_dot(to),
        has_no_dot(from),
    ensures
        path::extension_at(path::renamed(name, to)) == path::extension_at(name),
        path::renamed(name, to).skip(path::extension_at(name)->0 + 1) == to,
        path::renamed(path::renamed(name, to), from) == name,
{
    lemma_last_dot(name);
    let at = path::extension_at(name)->0;
    let other = path::renamed(name, to);
    let stem = name.take(at);
    assert(other =~= stem + seq![DOT] + to);
    assert(other[at] == DOT);
    assert forall|i: int| at < i < other.len() implies other[i] != DOT by {
        assert(other[i] == to[i - at - 1]);
    }
    lemma_last_dot_is(other, at);
    assert(other.skip(at + 1) =~= to);
    assert(other.take(at) =~= stem);
    assert(stem + seq![DOT] + from =~= name);
}

proof fn lemma_known_extensions()
    ensures
        has_no_dot(encode_utf8("rs"@)),
        has_no_dot(encode_utf8("stderr"@)),
        encode_utf8("rs"@) != encode_utf8("stderr"@),
{
    reveal_strlit("rs");
    reveal_strlit("stderr");
    is_ascii_chars_encode_utf8("rs"@);
    is_ascii_chars_encode_utf8("stderr"@);
}

/// A fixture: a file whose name ends in `.rs`.
pub open spec fn is_fixture(path: Seq<Part>) -> bool {
    path::extension(path) == Some(encode_utf8("rs"@))
}

/// The golden of a fixture lies in the fixture's directory, ends in `.stderr`, and
/// leads back to the fixture.
pub proof fn law_a_golden_sits_beside_its_fixture(fixture: Seq<Part>)
    requires
        is_fixture(fixture),
    ensures
        cases::golden_of(fixture).drop_last() == fixture.drop_last(),
        path::extension(cases::golden_of(fixture)) == Some(encode_utf8("stderr"@)),
        path::with_extension(cases::golden_of(fixture), encode_utf8("rs"@)) == fixture,
{
    lemma_known_extensions();
    let name = path::file_name(fixture)->0;
    lemma_renamed(name, encode_utf8("rs"@), encode_utf8("stderr"@));
    let golden = cases::golden_of(fixture);
    assert(golden.drop_last() =~= fixture.drop_last());
    assert(path::with_extension(golden, encode_utf8("rs"@)) =~= fixture);
}

/// No two fixtures share a golden.
pub proof fn law_no_two_fixtures_share_a_golden(a: Seq<Part>, b: Seq<Part>)
    requires
        is_fixture(a),
        is_fixture(b),
        cases::golden_of(a) == cases::golden_of(b),
    ensures
        a == b,
{
    law_a_golden_sits_beside_its_fixture(a);
    law_a_golden_sits_beside_its_fixture(b);
}

// ---------------------------------------------------------------------------
// Text.
// ---------------------------------------------------------------------------

/// A name a file system can hold, and a manifest can write.
pub open spec fn is_writable_name(name: Seq<u8>) -> bool {
    &&& name.len() != 0
    &&& valid_utf8(name)
    &&& forall|i: int| 0 <= i < name.len() ==> name[i] != SEPARATOR
}

/// A folded path whose every name can be written: names, after a root where it
/// begins with one.
pub open spec fn is_writable(parts: Seq<Part>) -> bool {
    forall|i: int|
        0 <= i < parts.len() ==> match #[trigger] parts[i] {
            Part::RootDir => i == 0,
            Part::Normal(name) => is_writable_name(name),
            _ => false,
        }
}

proof fn lemma_separator_survives(text: Seq<char>, at: int)
    requires
        0 <= at < text.len(),
        text[at] == '/',
    ensures
        exists|i: int| 0 <= i < encode_utf8(text).len() && encode_utf8(text)[i] == SEPARATOR,
    decreases text.len(),
{
    let first = encode_scalar(text[0] as u32);
    let rest = text.drop_first();
    assert(encode_utf8(text) == first + encode_utf8(rest));
    if at == 0 {
        assert(leading_byte_width_1(0x2f) == 0x2fu8) by (bit_vector);
        assert(first == seq![0x2fu8]);
        assert(encode_utf8(text)[0] == SEPARATOR);
    } else {
        assert(rest[at - 1] == '/');
        lemma_separator_survives(rest, at - 1);
        let i = choose|i: int| 0 <= i < encode_utf8(rest).len() && encode_utf8(rest)[i] == SEPARATOR;
        assert(encode_utf8(text)[first.len() + i] == SEPARATOR);
    }
}

proof fn lemma_name_as_text(name: Seq<u8>)
    requires
        is_writable_name(name),
    ensures
        path::name_text(name).len() != 0,
        forall|i: int| 0 <= i < path::name_text(name).len() ==> path::name_text(name)[i] != '/',
        encode_utf8(path::name_text(name)) == name,
{
    let text = path::name_text(name);
    decode_utf8_encode_utf8(name);
    if text.len() == 0 {
        assert(text =~= Seq::<char>::empty());
        assert(encode_utf8(text).len() == 0);
    }
    assert forall|i: int| 0 <= i < text.len() implies text[i] != '/' by {
        if text[i] == '/' {
            lemma_separator_survives(text, i);
            let k = choose|k: int| 0 <= k < encode_utf8(text).len() && encode_utf8(text)[k] == SEPARATOR;
            assert(name[k] == SEPARATOR);
        }
    }
}

/// What stands before the last name of a path, as text.
spec fn shown_before(parts: Seq<Part>) -> Seq<char> {
    let before = path::shown(parts);
    if before.len() == 0 || before.last() == '/' {
        before
    } else {
        before.push('/')
    }
}

proof fn lemma_writable_rest(parts: Seq<Part>)
    requires
        is_writable(parts),
        parts.len() != 0,
    ensures
        is_writable(parts.drop_last()),
{
    let rest = parts.drop_last();
    assert forall|i: int| 0 <= i < rest.len() implies match #[trigger] rest[i] {
        Part::RootDir => i == 0,
        Part::Normal(name) => is_writable_name(name),
        _ => false,
    } by {
        assert(rest[i] == parts[i]);
    }
}

proof fn lemma_shown_writable(parts: Seq<Part>)
    requires
        is_writable(parts),
    ensures
        path::shown(parts).len() == 0 <==> parts.len() == 0,
        parts.len() != 0 && parts.last() is Normal ==> path::shown(parts).last() != '/',
        parts.len() != 0 && parts.last() is RootDir ==> parts.len() == 1 && path::shown(parts)
            == "/"@,
{
    reveal_strlit("/");
    if parts.len() != 0 {
        let last = parts[parts.len() - 1];
        if let Part::Normal(name) = last {
            lemma_name_as_text(name);
        } else {
            assert(last is RootDir);
            assert(parts.drop_last() =~= Seq::<Part>::empty());
            assert(path::shown(parts.drop_last()) =~= Seq::<char>::empty());
            assert(path::shown(parts) =~= "/"@);
        }
    }
}

/// Two paths that can be written are written alike only where they are one path.
/// So a fixture's path can stand for it in its golden and in the manifest.
pub proof fn law_text_tells_paths_apart(a: Seq<Part>, b: Seq<Part>)
    requires
        is_writable(a),
        is_writable(b),
        path::shown(a) == path::shown(b),
    ensures
        a == b,
    decreases a.len(),
{
    lemma_shown_writable(a);
    lemma_shown_writable(b);
    reveal_strlit("/");
    if a.len() == 0 {
        assert(a =~= b);
    } else {
        lemma_writable_rest(a);
        lemma_writable_rest(b);
        assert(is_writable(a) && is_writable(b));
        let x = a[a.len() - 1];
        let y = b[b.len() - 1];
        assert(x is Normal || x is RootDir);
        assert(y is Normal || y is RootDir);
        if x is RootDir || y is RootDir {
            assert(path::shown(a).last() == '/');
            assert(x is RootDir && y is RootDir);
            assert(a =~= b);
        } else {
            let (m, n) = (x->Normal_0, y->Normal_0);
            lemma_name_as_text(m);
            lemma_name_as_text(n);
            let (p, q) = (a.drop_last(), b.drop_last());
            let (h, k) = (shown_before(p), shown_before(q));
            let (s, t) = (path::name_text(m), path::name_text(n));
            assert(path::shown(a) == h + s);
            assert(path::shown(b) == k + t);
            if h.len() < k.len() {
                assert(k.last() == '/');
                assert((k + t)[k.len() - 1] == '/');
                assert((h + s)[k.len() - 1] == s[k.len() - 1 - h.len()]);
            }
            if k.len() < h.len() {
                assert(h.last() == '/');
                assert((h + s)[h.len() - 1] == '/');
                assert((k + t)[h.len() - 1] == t[h.len() - 1 - k.len()]);
            }
            assert(h =~= (h + s).take(h.len() as int));
            assert(k =~= (k + t).take(h.len() as int));
            assert(s =~= (h + s).skip(h.len() as int));
            assert(t =~= (k + t).skip(h.len() as int));
            assert(m == n);
            lemma_shown_writable(p);
            lemma_shown_writable(q);
            assert(path::shown(p) == path::shown(q)) by {
                if p.len() != 0 {
                    assert(p[p.len() - 1] is Normal || p[p.len() - 1] is RootDir);
                }
                if q.len() != 0 {
                    assert(q[q.len() - 1] is Normal || q[q.len() - 1] is RootDir);
                }
                let (u, v) = (path::shown(p), path::shown(q));
                if u.len() == 0 || u.last() == '/' {
                    if !(v.len() == 0 || v.last() == '/') {
                        assert(u == v.push('/'));
                        assert(u.len() > 1);
                        assert(p.last() is RootDir);
                    }
                } else if v.len() == 0 || v.last() == '/' {
                    assert(v == u.push('/'));
                    assert(v.len() > 1);
                    assert(q.last() is RootDir);
                } else {
                    assert(u =~= h.drop_last());
                    assert(v =~= k.drop_last());
                }
            }
            law_text_tells_paths_apart(p, q);
            assert(a =~= p.push(x));
            assert(b =~= q.push(y));
        }
    }
}

// ---------------------------------------------------------------------------
// Order.
// ---------------------------------------------------------------------------

proof fn lemma_bytes_irreflexive(a: Seq<u8>)
    ensures
        !path::bytes_before(a, a),
    decreases a.len(),
{
    if a.len() != 0 {
        lemma_bytes_irreflexive(a.skip(1));
    }
}

proof fn lemma_bytes_transitive(a: Seq<u8>, b: Seq<u8>, c: Seq<u8>)
    requires
        path::bytes_before(a, b),
        path::bytes_before(b, c),
    ensures
        path::bytes_before(a, c),
    decreases a.len(),
{
    if a.len() != 0 && a[0] == b[0] && b[0] == c[0] {
        lemma_bytes_transitive(a.skip(1), b.skip(1), c.skip(1));
    }
}

pub(crate) proof fn lemma_bytes_total(a: Seq<u8>, b: Seq<u8>)
    ensures
        a == b || path::bytes_before(a, b) || path::bytes_before(b, a),
    decreases a.len(),
{
    if a.len() != 0 && b.len() != 0 && a[0] == b[0] {
        let (c, d) = (a.skip(1), b.skip(1));
        lemma_bytes_total(c, d);
        if c == d {
            assert forall|i: int| 0 <= i < a.len() implies a[i] == b[i] by {
                if i > 0 {
                    assert(a[i] == c[i - 1] && b[i] == d[i - 1]);
                }
            }
            assert(a.len() == c.len() + 1 && b.len() == d.len() + 1);
            assert(a =~= b);
        }
    } else if a.len() == 0 && b.len() == 0 {
        assert(a =~= b);
    }
}

proof fn lemma_part_order(a: Part, b: Part, c: Part)
    ensures
        !path::part_before(a, a),
        path::part_before(a, b) && path::part_before(b, c) ==> path::part_before(a, c),
        a == b || path::part_before(a, b) || path::part_before(b, a),
{
    match (a, b, c) {
        (Part::Normal(x), Part::Normal(y), Part::Normal(z)) => {
            lemma_bytes_irreflexive(x);
            lemma_bytes_total(x, y);
            if path::bytes_before(x, y) && path::bytes_before(y, z) {
                lemma_bytes_transitive(x, y, z);
            }
        },
        (Part::Prefix(x), Part::Prefix(y), Part::Prefix(z)) => {
            lemma_bytes_irreflexive(x);
            lemma_bytes_total(x, y);
            if path::bytes_before(x, y) && path::bytes_before(y, z) {
                lemma_bytes_transitive(x, y, z);
            }
        },
        _ => {
            if let Part::Normal(x) = a {
                lemma_bytes_irreflexive(x);
                if let Part::Normal(y) = b {
                    lemma_bytes_total(x, y);
                }
            }
            if let Part::Prefix(x) = a {
                lemma_bytes_irreflexive(x);
                if let Part::Prefix(y) = b {
                    lemma_bytes_total(x, y);
                }
            }
        },
    }
}

proof fn lemma_path_irreflexive(a: Seq<Part>)
    ensures
        !path::path_before(a, a),
    decreases a.len(),
{
    if a.len() != 0 {
        lemma_path_irreflexive(a.skip(1));
    }
}

proof fn lemma_path_transitive(a: Seq<Part>, b: Seq<Part>, c: Seq<Part>)
    requires
        path::path_before(a, b),
        path::path_before(b, c),
    ensures
        path::path_before(a, c),
    decreases a.len(),
{
    if a.len() != 0 {
        lemma_part_order(a[0], b[0], c[0]);
        lemma_part_order(a[0], b[0], a[0]);
        if a[0] == b[0] && b[0] == c[0] {
            lemma_path_transitive(a.skip(1), b.skip(1), c.skip(1));
        }
    }
}

proof fn lemma_path_total(a: Seq<Part>, b: Seq<Part>)
    ensures
        a == b || path::path_before(a, b) || path::path_before(b, a),
    decreases a.len(),
{
    if a.len() != 0 && b.len() != 0 {
        lemma_part_order(a[0], b[0], a[0]);
        if a[0] == b[0] {
            lemma_path_total(a.skip(1), b.skip(1));
            if a.skip(1) == b.skip(1) {
                assert(a =~= seq![a[0]] + a.skip(1));
                assert(b =~= seq![b[0]] + b.skip(1));
            }
        }
    } else if a.len() == 0 && b.len() == 0 {
        assert(a =~= b);
    }
}

/// Going before is a strict order, in either order paths are put in.
pub proof fn law_going_before_is_an_order(order: Order, a: Seq<Part>, b: Seq<Part>, c: Seq<Part>)
    ensures
        !path::goes_before(order, a, a),
        path::goes_before(order, a, b) && path::goes_before(order, b, c) ==> path::goes_before(
            order,
            a,
            c,
        ),
        !(path::goes_before(order, a, b) && path::goes_before(order, b, a)),
        order == Order::Path ==> a == b || path::goes_before(order, a, b) || path::goes_before(
            order,
            b,
            a,
        ),
{
    match order {
        Order::Path => {
            lemma_path_irreflexive(a);
            lemma_path_total(a, b);
            if path::path_before(a, b) && path::path_before(b, c) {
                lemma_path_transitive(a, b, c);
            }
            if path::path_before(a, b) && path::path_before(b, a) {
                lemma_path_transitive(a, b, a);
            }
        },
        Order::Name => {
            if let Some(x) = path::file_name(a) {
                lemma_bytes_irreflexive(x);
                if let Some(y) = path::file_name(b) {
                    if path::bytes_before(x, y) && path::bytes_before(y, x) {
                        lemma_bytes_transitive(x, y, x);
                    }
                    if let Some(z) = path::file_name(c) {
                        if path::bytes_before(x, y) && path::bytes_before(y, z) {
                            lemma_bytes_transitive(x, y, z);
                        }
                    }
                }
            }
        },
    }
}

/// No path of `all` stands behind one it goes before.
pub open spec fn is_in_order(order: Order, all: Seq<Seq<Part>>) -> bool {
    forall|i: int, k: int|
        0 <= i < k < all.len() ==> !path::goes_before(order, #[trigger] all[k], #[trigger] all[i])
}

proof fn lemma_placed(order: Order, all: Seq<Seq<Part>>, path: Seq<Part>)
    requires
        is_in_order(order, all),
    ensures
        is_in_order(order, path::placed(order, all, path)),
        path::placed(order, all, path).to_multiset() == all.to_multiset().insert(path),
        path::placed(order, all, path).len() == all.len() + 1,
        forall|i: int|
            0 <= i < path::placed(order, all, path).len() ==> all.contains(
                #[trigger] path::placed(order, all, path)[i],
            ) || path::placed(order, all, path)[i] == path,
    decreases all.len(),
{
    broadcast use vstd::seq_lib::group_to_multiset_ensures;

    let next = path::placed(order, all, path);
    if all.len() != 0 && path::goes_before(order, path, all.last()) {
        let rest = all.drop_last();
        assert forall|i: int, k: int| 0 <= i < k < rest.len() implies !path::goes_before(
            order,
            #[trigger] rest[k],
            #[trigger] rest[i],
        ) by {
            assert(!path::goes_before(order, all[k], all[i]));
        }
        lemma_placed(order, rest, path);
        let inner = path::placed(order, rest, path);
        assert(next == inner.push(all.last()));
        assert(all =~= rest.push(all.last()));
        assert(next.to_multiset() =~= all.to_multiset().insert(path));
        assert forall|i: int| 0 <= i < next.len() implies all.contains(#[trigger] next[i]) || next[i]
            == path by {
            if i < inner.len() {
                assert(next[i] == inner[i]);
                if inner[i] != path {
                    let j = rest.index_of(inner[i]);
                    assert(all[j] == inner[i]);
                }
            } else {
                assert(all[all.len() - 1] == next[i]);
            }
        }
        assert forall|i: int, k: int| 0 <= i < k < next.len() implies !path::goes_before(
            order,
            #[trigger] next[k],
            #[trigger] next[i],
        ) by {
            assert(next[i] == inner[i]);
            if k < inner.len() {
                assert(next[k] == inner[k]);
            } else {
                assert(next[k] == all.last());
                if inner[i] == path {
                    law_going_before_is_an_order(order, path, all.last(), path);
                } else {
                    let j = rest.index_of(inner[i]);
                    assert(rest[j] == all[j]);
                    assert(!path::goes_before(order, all[all.len() - 1], all[j]));
                }
            }
        }
    } else {
        assert(next == all.push(path));
        assert forall|i: int| 0 <= i < next.len() implies all.contains(#[trigger] next[i]) || next[i]
            == path by {
            if i < all.len() {
                assert(all[i] == next[i]);
            }
        }
        assert forall|i: int, k: int| 0 <= i < k < next.len() implies !path::goes_before(
            order,
            #[trigger] next[k],
            #[trigger] next[i],
        ) by {
            assert(next[i] == all[i]);
            if k < all.len() {
                assert(next[k] == all[k]);
            } else if i < all.len() - 1 {
                assert(!path::goes_before(order, all[all.len() - 1], all[i]));
                if path::goes_before(order, path, all[i]) {
                    lemma_between(order, path, all[i], all.last());
                }
            }
        }
    }
}

/// A path that goes before another goes before whatever that one does not come
/// after.
proof fn lemma_between(order: Order, a: Seq<Part>, b: Seq<Part>, c: Seq<Part>)
    requires
        path::goes_before(order, a, b),
        !path::goes_before(order, c, b),
    ensures
        path::goes_before(order, a, c),
{
    law_going_before_is_an_order(order, a, b, c);
    law_going_before_is_an_order(order, b, c, a);
    match order {
        Order::Path => {
            lemma_path_total(b, c);
        },
        Order::Name => {
            if let Some(y) = path::file_name(b) {
                if let Some(z) = path::file_name(c) {
                    lemma_bytes_total(y, z);
                }
            }
        },
    }
}

/// Putting paths in order leaves the paths that were there, in order. So what is
/// reported does not depend on the order a file system lists things in.
pub proof fn law_sorting_puts_the_same_paths_in_order(order: Order, all: Seq<Seq<Part>>)
    ensures
        is_in_order(order, path::sorted(order, all)),
        path::sorted(order, all).to_multiset() == all.to_multiset(),
    decreases all.len(),
{
    broadcast use vstd::seq_lib::group_to_multiset_ensures;

    if all.len() != 0 {
        let rest = all.drop_last();
        law_sorting_puts_the_same_paths_in_order(order, rest);
        lemma_placed(order, path::sorted(order, rest), all.last());
        assert(all =~= rest.push(all.last()));
    } else {
        assert(path::sorted(order, all) =~= all);
    }
}

/// `all` is in order, and no path comes twice.
spec fn is_strictly_in_order(order: Order, all: Seq<Seq<Part>>) -> bool {
    forall|i: int, k: int|
        0 <= i < k < all.len() ==> path::goes_before(order, #[trigger] all[i], #[trigger] all[k])
}

/// Any two paths of `all` can be told apart by `order`.
pub open spec fn tells_apart(order: Order, all: Seq<Seq<Part>>) -> bool {
    forall|i: int, k: int|
        0 <= i < all.len() && 0 <= k < all.len() && i != k ==> path::goes_before(
            order,
            #[trigger] all[i],
            #[trigger] all[k],
        ) || path::goes_before(order, all[k], all[i])
}

proof fn lemma_one_order(order: Order, a: Seq<Seq<Part>>, b: Seq<Seq<Part>>)
    requires
        is_strictly_in_order(order, a),
        is_strictly_in_order(order, b),
        forall|path: Seq<Part>| a.contains(path) <==> b.contains(path),
    ensures
        a == b,
    decreases a.len(),
{
    if a.len() == 0 {
        if b.len() != 0 {
            assert(b.contains(b[0]));
            assert(a.contains(b[0]));
        }
        assert(a =~= b);
    } else {
        assert(a.contains(a[0]));
        assert(b.contains(a[0]));
        assert(b.len() != 0);
        let (x, y) = (a.last(), b.last());
        assert(a[a.len() - 1] == x);
        assert(b[b.len() - 1] == y);
        assert(a.contains(x) && b.contains(y));
        let i = b.index_of(x);
        let k = a.index_of(y);
        if x != y {
            assert(path::goes_before(order, b[i], b[b.len() - 1]));
            assert(path::goes_before(order, a[k], a[a.len() - 1]));
            law_going_before_is_an_order(order, x, y, x);
        }
        let (c, d) = (a.drop_last(), b.drop_last());
        assert forall|path: Seq<Part>| c.contains(path) <==> d.contains(path) by {
            lemma_all_but_last(order, a, path);
            lemma_all_but_last(order, b, path);
        }
        assert forall|i: int, k: int| 0 <= i < k < c.len() implies path::goes_before(
            order,
            #[trigger] c[i],
            #[trigger] c[k],
        ) by {
            assert(path::goes_before(order, a[i], a[k]));
        }
        assert forall|i: int, k: int| 0 <= i < k < d.len() implies path::goes_before(
            order,
            #[trigger] d[i],
            #[trigger] d[k],
        ) by {
            assert(path::goes_before(order, b[i], b[k]));
        }
        lemma_one_order(order, c, d);
        assert(a =~= c.push(x));
        assert(b =~= d.push(y));
    }
}

proof fn lemma_all_but_last(order: Order, all: Seq<Seq<Part>>, path: Seq<Part>)
    requires
        is_strictly_in_order(order, all),
        all.len() != 0,
    ensures
        all.drop_last().contains(path) <==> all.contains(path) && path != all.last(),
{
    let rest = all.drop_last();
    if rest.contains(path) {
        let i = rest.index_of(path);
        assert(all[i] == path);
        assert(path::goes_before(order, all[i], all[all.len() - 1]));
        law_going_before_is_an_order(order, path, path, path);
    }
    if all.contains(path) && path != all.last() {
        let i = all.index_of(path);
        assert(rest[i] == path);
    }
}

/// Paths that can be told apart are put in one order, whatever order they came
/// in.
pub proof fn law_the_order_paths_come_in_does_not_matter(
    order: Order,
    a: Seq<Seq<Part>>,
    b: Seq<Seq<Part>>,
)
    requires
        a.to_multiset() == b.to_multiset(),
        tells_apart(order, a),
    ensures
        path::sorted(order, a) == path::sorted(order, b),
{
    broadcast use vstd::seq_lib::group_to_multiset_ensures;

    let (c, d) = (path::sorted(order, a), path::sorted(order, b));
    law_sorting_puts_the_same_paths_in_order(order, a);
    law_sorting_puts_the_same_paths_in_order(order, b);
    lemma_no_path_twice(order, a);
    a.lemma_multiset_has_no_duplicates();
    lemma_tells_apart(order, a, c);
    lemma_tells_apart(order, a, d);
    assert forall|path: Seq<Part>| c.contains(path) <==> d.contains(path) by {
        assert(c.contains(path) <==> c.to_multiset().count(path) > 0);
        assert(d.contains(path) <==> d.to_multiset().count(path) > 0);
    }
    lemma_one_order(order, c, d);
}

proof fn lemma_no_path_twice(order: Order, all: Seq<Seq<Part>>)
    requires
        tells_apart(order, all),
    ensures
        all.no_duplicates(),
{
    assert forall|i: int, k: int| 0 <= i < all.len() && 0 <= k < all.len() && i != k implies all[i]
        != all[k] by {
        law_going_before_is_an_order(order, all[i], all[k], all[i]);
    }
}

proof fn lemma_tells_apart(order: Order, all: Seq<Seq<Part>>, ordered: Seq<Seq<Part>>)
    requires
        tells_apart(order, all),
        all.no_duplicates(),
        all.to_multiset() == ordered.to_multiset(),
        is_in_order(order, ordered),
    ensures
        is_strictly_in_order(order, ordered),
{
    broadcast use vstd::seq_lib::group_to_multiset_ensures;

    all.lemma_multiset_has_no_duplicates();
    ordered.lemma_multiset_has_no_duplicates_conv();
    assert forall|i: int, k: int| 0 <= i < k < ordered.len() implies path::goes_before(
        order,
        #[trigger] ordered[i],
        #[trigger] ordered[k],
    ) by {
        assert(ordered.contains(ordered[i]) && ordered.contains(ordered[k]));
        assert(all.to_multiset().count(ordered[i]) > 0);
        assert(all.to_multiset().count(ordered[k]) > 0);
        let x = all.index_of(ordered[i]);
        let y = all.index_of(ordered[k]);
        assert(ordered[i] != ordered[k]);
        assert(path::goes_before(order, all[x], all[y]) || path::goes_before(
            order,
            all[y],
            all[x],
        ));
    }
}

// ---------------------------------------------------------------------------
// Spelling.
// ---------------------------------------------------------------------------

/// A name a file system can hold.
spec fn is_name(name: Seq<u8>) -> bool {
    name.len() != 0 && forall|i: int| 0 <= i < name.len() ==> name[i] != SEPARATOR
}

/// Every name of `parts` is one a file system can hold, and a root stands only at
/// its beginning.
spec fn is_spellable(parts: Seq<Part>) -> bool {
    forall|i: int|
        0 <= i < parts.len() ==> match #[trigger] parts[i] {
            Part::Prefix(_) => false,
            Part::RootDir => i == 0,
            Part::Normal(name) => is_name(name),
            _ => true,
        }
}

proof fn lemma_segment_end(bytes: Seq<u8>)
    ensures
        path::segment_end(bytes) <= bytes.len(),
        forall|i: int| 0 <= i < path::segment_end(bytes) ==> bytes[i] != SEPARATOR,
    decreases bytes.len(),
{
    if bytes.len() != 0 && bytes[0] != SEPARATOR {
        let rest = bytes.skip(1);
        lemma_segment_end(rest);
        assert forall|i: int| 0 <= i < path::segment_end(bytes) implies bytes[i] != SEPARATOR by {
            if i > 0 {
                assert(bytes[i] == rest[i - 1]);
            }
        }
    }
}

proof fn lemma_segments(bytes: Seq<u8>)
    ensures
        forall|i: int|
            0 <= i < path::segments(bytes).len() ==> match #[trigger] path::segments(bytes)[i] {
                Part::Normal(name) => is_name(name),
                Part::ParentDir => true,
                _ => false,
            },
    decreases bytes.len(),
{
    let end = path::segment_end(bytes) as int;
    lemma_segment_end(bytes);
    let first = bytes.take(end);
    assert(forall|i: int| 0 <= i < first.len() ==> first[i] == bytes[i]);
    if end >= bytes.len() {
        assert(first =~= bytes);
    } else {
        let rest = path::segments(bytes.skip(end + 1));
        lemma_segments(bytes.skip(end + 1));
        let head = path::segment_parts(first);
        assert forall|i: int| 0 <= i < path::segments(bytes).len() implies match
            #[trigger] path::segments(bytes)[i] {
            Part::Normal(name) => is_name(name),
            Part::ParentDir => true,
            _ => false,
        } by {
            if i >= head.len() {
                assert(path::segments(bytes)[i] == rest[i - head.len()]);
            }
        }
    }
}

proof fn lemma_followed_is_spellable(parts: Seq<Part>, part: Part)
    requires
        is_spellable(parts),
        parts.len() != 0 && parts[0] is RootDir,
        is_folded(parts),
        match part {
            Part::Normal(name) => is_name(name),
            Part::Prefix(_) => false,
            Part::RootDir => false,
            _ => true,
        },
    ensures
        is_spellable(path::followed(parts, part)),
        path::followed(parts, part).len() != 0,
        path::followed(parts, part)[0] is RootDir,
        is_folded(path::followed(parts, part)),
{
    let next = path::followed(parts, part);
    lemma_followed_is_folded(parts, part);
    assert forall|i: int| 0 <= i < next.len() implies match #[trigger] next[i] {
        Part::Prefix(_) => false,
        Part::RootDir => i == 0,
        Part::Normal(name) => is_name(name),
        _ => true,
    } by {
        if i < parts.len() {
            assert(next[i] == parts[i]);
        }
    }
    if part is ParentDir && parts.last() is Normal {
        assert(parts.len() > 1);
    }
}

proof fn lemma_folded_is_spellable(parts: Seq<Part>)
    requires
        is_spellable(parts),
        parts.len() != 0,
        parts[0] is RootDir,
    ensures
        is_spellable(path::folded(parts)),
        path::folded(parts).len() != 0,
        path::folded(parts)[0] is RootDir,
        is_folded(path::folded(parts)),
    decreases parts.len(),
{
    let rest = parts.drop_last();
    if rest.len() == 0 {
        assert(path::folded(rest) =~= Seq::<Part>::empty());
        assert(path::folded(parts) =~= seq![Part::RootDir]);
    } else {
        assert forall|i: int| 0 <= i < rest.len() implies match #[trigger] rest[i] {
            Part::Prefix(_) => false,
            Part::RootDir => i == 0,
            Part::Normal(name) => is_name(name),
            _ => true,
        } by {
            assert(rest[i] == parts[i]);
        }
        lemma_folded_is_spellable(rest);
        assert(parts[parts.len() - 1] == parts.last());
        lemma_followed_is_spellable(path::folded(rest), parts.last());
    }
}

proof fn lemma_no_parent_behind_a_root(parts: Seq<Part>, at: int)
    requires
        is_folded(parts),
        parts.len() != 0,
        parts[0] is RootDir,
        0 <= at < parts.len(),
    ensures
        !(parts[at] is ParentDir),
    decreases at,
{
    if at > 0 && parts[at] is ParentDir {
        lemma_no_parent_behind_a_root(parts, at - 1);
    }
}

/// Whatever a path is spelled like, what it resolves to against a directory that
/// can be written can be written too, as long as its names are text.
pub proof fn law_a_resolved_path_can_be_written(base: Seq<Part>, spelling: Seq<u8>)
    requires
        is_writable(base),
        base.len() != 0,
        base[0] is RootDir,
        path::is_text(path::joined(base, path::spelled(spelling))),
    ensures
        is_writable(path::joined(base, path::spelled(spelling))),
        path::joined(base, path::spelled(spelling))[0] is RootDir,
        path::joined(base, path::spelled(spelling)).len() != 0,
{
    let path = path::spelled(spelling);
    let whole = if path::is_absolute(path) {
        path
    } else {
        base + path
    };
    lemma_segments(spelling);
    let found = path::segments(spelling);
    if found.len() != 0 {
        assert(match found[0] {
            Part::Normal(name) => is_name(name),
            Part::ParentDir => true,
            _ => false,
        });
    }
    let head = path.len() - found.len();
    assert forall|i: int| 0 <= i < whole.len() implies match #[trigger] whole[i] {
        Part::Prefix(_) => false,
        Part::RootDir => i == 0,
        Part::Normal(name) => is_name(name),
        _ => true,
    } by {
        if path::is_absolute(path) {
            if i >= head {
                assert(whole[i] == found[i - head]);
            }
        } else if i < base.len() {
            assert(whole[i] == base[i]);
        } else if i - base.len() >= head {
            assert(whole[i] == found[i - base.len() - head]);
        }
    }
    lemma_folded_is_spellable(whole);
    let resolved = path::folded(whole);
    assert forall|i: int| 0 <= i < resolved.len() implies match #[trigger] resolved[i] {
        Part::RootDir => i == 0,
        Part::Normal(name) => is_writable_name(name),
        _ => false,
    } by {
        lemma_no_parent_behind_a_root(resolved, i);
        assert(path::part_is_text(resolved[i]));
    }
}

/// Two resolved fixtures are shown alike in a report and in a golden only where
/// they are one file.
pub proof fn law_two_fixtures_are_shown_alike_only_where_they_are_one(
    base: Seq<Part>,
    a: Seq<Part>,
    b: Seq<Part>,
)
    requires
        is_writable(base),
        base.len() != 0,
        base[0] is RootDir,
        is_writable(a),
        is_writable(b),
        a.len() != 0,
        b.len() != 0,
        a[0] is RootDir,
        b[0] is RootDir,
        path::shown(path::seen_from(a, base)) == path::shown(path::seen_from(b, base)),
    ensures
        a == b,
{
    let (c, d) = (path::seen_from(a, base), path::seen_from(b, base));
    lemma_seen_is_writable(base, a);
    lemma_seen_is_writable(base, b);
    law_text_tells_paths_apart(c, d);
    if path::is_under(a, base) && path::is_under(b, base) {
        assert(a =~= base + c);
        assert(b =~= base + d);
    } else if path::is_under(a, base) {
        assert(a =~= base + c);
        assert(c[0] is RootDir);
        assert(a[base.len() as int] is RootDir);
    } else if path::is_under(b, base) {
        assert(b =~= base + d);
        assert(d[0] is RootDir);
        assert(b[base.len() as int] is RootDir);
    }
}

proof fn lemma_seen_is_writable(base: Seq<Part>, path: Seq<Part>)
    requires
        base.len() != 0,
        is_writable(path),
    ensures
        is_writable(path::seen_from(path, base)),
{
    let seen = path::seen_from(path, base);
    if path::is_under(path, base) {
        assert forall|i: int| 0 <= i < seen.len() implies match #[trigger] seen[i] {
            Part::RootDir => i == 0,
            Part::Normal(name) => is_writable_name(name),
            _ => false,
        } by {
            assert(seen[i] == path[base.len() + i]);
        }
    }
}

} // verus!
