//! Paths of files, compared by their components.

use vstd::prelude::*;

use crate::text::{copy_bytes, same_bytes};

verus! {

/// The byte between the components of a path.
pub const SLASH: u8 = 47;

/// A full stop.
pub const DOT: u8 = 46;

/// What a path says: where it starts, and the names on the way.
#[verifier::ext_equal]
pub struct PathParts {
    pub absolute: bool,
    pub names: Seq<Seq<u8>>,
}

/// The pieces of a path between its slashes.
pub open spec fn segments(path: Seq<u8>) -> Seq<Seq<u8>>
    decreases path.len(),
{
    if path.len() == 0 {
        seq![Seq::empty()]
    } else {
        let before = segments(path.drop_last());
        if path.last() == SLASH {
            before.push(Seq::empty())
        } else {
            before.drop_last().push(before.last().push(path.last()))
        }
    }
}

/// Whether the piece at place `i` is a component: empty pieces are none, and
/// neither is a `.` but at the very start.
pub open spec fn is_component(piece: Seq<u8>, i: int) -> bool {
    piece.len() > 0 && (i == 0 || piece != seq![DOT])
}

/// The components among the pieces of a path.
pub open spec fn components(pieces: Seq<Seq<u8>>) -> Seq<Seq<u8>>
    decreases pieces.len(),
{
    if pieces.len() == 0 {
        Seq::empty()
    } else {
        let before = components(pieces.drop_last());
        if is_component(pieces.last(), pieces.len() - 1) {
            before.push(pieces.last())
        } else {
            before
        }
    }
}

/// What a path says.
pub open spec fn parts(path: Seq<u8>) -> PathParts {
    PathParts {
        absolute: path.len() > 0 && path.first() == SLASH,
        names: components(segments(path)),
    }
}

/// Whether two paths are the same, though they may be written differently.
pub open spec fn same_path(a: Seq<u8>, b: Seq<u8>) -> bool {
    parts(a) == parts(b)
}

/// Names with a slash between each two.
pub open spec fn joined(names: Seq<Seq<u8>>) -> Seq<u8>
    decreases names.len(),
{
    if names.len() == 0 {
        Seq::empty()
    } else if names.len() == 1 {
        names[0]
    } else {
        joined(names.drop_last()).push(SLASH) + names.last()
    }
}

/// The plainest way to write a path.
pub open spec fn written(parts: PathParts) -> Seq<u8> {
    if parts.absolute {
        seq![SLASH] + joined(parts.names)
    } else {
        joined(parts.names)
    }
}

/// A path in its plainest form.
pub open spec fn plain(path: Seq<u8>) -> Seq<u8> {
    written(parts(path))
}

/// Whether a path is in its plainest form.
pub open spec fn is_plain(path: Seq<u8>) -> bool {
    plain(path) == path
}

/// The last component of a path, where it names a file: `.` and `..` do not.
pub open spec fn file_name_of(path: Seq<u8>) -> Option<Seq<u8>> {
    let names = parts(path).names;
    if names.len() == 0 || names.last() == seq![DOT] || names.last() == seq![DOT, DOT] {
        None
    } else {
        Some(names.last())
    }
}

/// Whether a name holds no slash.
pub open spec fn slash_free(name: Seq<u8>) -> bool {
    forall|i: int| 0 <= i < name.len() ==> #[trigger] name[i] != SLASH
}

/// Whether names can be the components of a path whose first name stands at
/// place `at` among its pieces.
spec fn proper(names: Seq<Seq<u8>>, at: int) -> bool {
    forall|i: int|
        0 <= i < names.len() ==> slash_free(#[trigger] names[i]) && is_component(names[i], at + i)
}

/// There is always a piece, no piece holds a slash, and the first is empty if
/// the path starts with one.
proof fn lemma_segments(path: Seq<u8>)
    ensures
        segments(path).len() > 0,
        forall|i: int| 0 <= i < segments(path).len() ==> slash_free(#[trigger] segments(path)[i]),
        path.len() > 0 && path.first() == SLASH ==> segments(path).len() > 1 && segments(
            path,
        ).first().len() == 0,
        path.len() > 0 && path.first() != SLASH ==> segments(path).first().len() > 0,
    decreases path.len(),
{
    if path.len() > 0 {
        let fewer = path.drop_last();
        lemma_segments(fewer);
        let before = segments(fewer);
        let all = segments(path);
        if path.last() == SLASH {
            assert forall|i: int| 0 <= i < all.len() implies slash_free(#[trigger] all[i]) by {
                if i < before.len() {
                    assert(all[i] == before[i]);
                }
            }
            assert(all.first() == before.first());
        } else {
            let last = before.last().push(path.last());
            assert(slash_free(before[before.len() - 1]));
            assert forall|i: int| 0 <= i < all.len() implies slash_free(#[trigger] all[i]) by {
                if i < before.len() - 1 {
                    assert(all[i] == before[i]);
                } else {
                    assert forall|k: int| 0 <= k < last.len() implies #[trigger] last[k]
                        != SLASH by {
                        if k < before.last().len() {
                            assert(last[k] == before.last()[k]);
                        }
                    }
                }
            }
            if fewer.len() > 0 {
                assert(fewer.first() == path.first());
                if before.len() > 1 {
                    assert(all.first() == before.first());
                }
            }
        }
        if fewer.len() == 0 {
            assert(fewer =~= Seq::<u8>::empty());
            assert(path.first() == path.last());
        }
    }
}

/// The components of a path are among its pieces, and each could stand where it
/// stands, or one place later behind a slash.
proof fn lemma_components(pieces: Seq<Seq<u8>>)
    requires
        forall|i: int| 0 <= i < pieces.len() ==> slash_free(#[trigger] pieces[i]),
    ensures
        components(pieces).len() <= pieces.len(),
        proper(components(pieces), 0),
        pieces.len() > 0 && pieces.first().len() == 0 ==> proper(components(pieces), 1)
            && components(pieces).len() < pieces.len(),
        pieces.len() > 0 && pieces.first().len() > 0 ==> components(pieces).len() > 0
            && components(pieces).first() == pieces.first(),
    decreases pieces.len(),
{
    if pieces.len() > 0 {
        let fewer = pieces.drop_last();
        assert forall|i: int| 0 <= i < fewer.len() implies slash_free(#[trigger] fewer[i]) by {
            assert(fewer[i] == pieces[i]);
        }
        lemma_components(fewer);
        let before = components(fewer);
        let all = components(pieces);
        assert(slash_free(pieces[pieces.len() - 1]));
        if fewer.len() > 0 {
            assert(fewer.first() == pieces.first());
        }
        assert forall|i: int| 0 <= i < all.len() implies slash_free(#[trigger] all[i])
            && is_component(all[i], i) by {
            if i < before.len() {
                assert(all[i] == before[i]);
            }
        }
        if pieces.first().len() == 0 {
            assert forall|i: int| 0 <= i < all.len() implies slash_free(#[trigger] all[i])
                && is_component(all[i], 1 + i) by {
                if i < before.len() {
                    assert(all[i] == before[i]);
                }
            }
        }
    }
}

/// What a path says can be said by a path.
proof fn lemma_parts(path: Seq<u8>)
    ensures
        proper(
            parts(path).names,
            if parts(path).absolute {
                1
            } else {
                0
            },
        ),
{
    lemma_segments(path);
    lemma_components(segments(path));
}

/// A name without a slash is a single piece.
proof fn lemma_segments_of_name(name: Seq<u8>)
    requires
        slash_free(name),
    ensures
        segments(name) == seq![name],
    decreases name.len(),
{
    if name.len() == 0 {
        assert(name =~= Seq::<u8>::empty());
        assert(segments(name) =~= seq![name]);
    } else {
        let fewer = name.drop_last();
        assert forall|i: int| 0 <= i < fewer.len() implies #[trigger] fewer[i] != SLASH by {
            assert(fewer[i] == name[i]);
        }
        lemma_segments_of_name(fewer);
        assert(name[name.len() - 1] != SLASH);
        assert(fewer.push(name.last()) =~= name);
        assert(segments(name) =~= seq![name]);
    }
}

/// A name behind a slash is one more piece.
proof fn lemma_segments_append(path: Seq<u8>, name: Seq<u8>)
    requires
        slash_free(name),
    ensures
        segments(path.push(SLASH) + name) == segments(path).push(name),
    decreases name.len(),
{
    let whole = path.push(SLASH) + name;
    lemma_segments(path);
    if name.len() == 0 {
        assert(whole =~= path.push(SLASH));
        assert(whole.drop_last() =~= path);
        assert(name =~= Seq::<u8>::empty());
    } else {
        let fewer = name.drop_last();
        assert forall|i: int| 0 <= i < fewer.len() implies #[trigger] fewer[i] != SLASH by {
            assert(fewer[i] == name[i]);
        }
        lemma_segments_append(path, fewer);
        assert(whole.drop_last() =~= path.push(SLASH) + fewer);
        assert(name[name.len() - 1] != SLASH);
        assert(whole.last() == name.last());
        assert(fewer.push(name.last()) =~= name);
        assert(segments(whole) =~= segments(path).push(name));
    }
}

/// What a path with one more piece says: a piece that is a component comes last,
/// and another changes nothing.
pub proof fn lemma_parts_of_longer(path: Seq<u8>, name: Seq<u8>)
    requires
        slash_free(name),
        path.len() > 0,
    ensures
        parts(path.push(SLASH) + name) == if name.len() == 0 || name == seq![DOT] {
            parts(path)
        } else {
            PathParts { names: parts(path).names.push(name), ..parts(path) }
        },
{
    let whole = path.push(SLASH) + name;
    lemma_segments(path);
    lemma_segments_append(path, name);
    let pieces = segments(whole);
    assert(pieces.last() == name);
    assert(pieces.drop_last() =~= segments(path));
    assert(whole.first() == path.first());
    assert(parts(whole).names == if name.len() == 0 || name == seq![DOT] {
        parts(path).names
    } else {
        parts(path).names.push(name)
    });
}

/// What a path of one piece says.
pub proof fn lemma_parts_of_name(name: Seq<u8>)
    requires
        slash_free(name),
    ensures
        !parts(name).absolute,
        parts(name).names == if name.len() == 0 {
            Seq::<Seq<u8>>::empty()
        } else {
            seq![name]
        },
{
    lemma_segments_of_name(name);
    if name.len() > 0 {
        assert(name[0] != SLASH);
    }
    let pieces = seq![name];
    assert(pieces.drop_last() =~= Seq::<Seq<u8>>::empty());
    assert(components(pieces.drop_last()) =~= Seq::<Seq<u8>>::empty());
    assert(pieces.last() == name);
    assert(components(pieces) =~= if name.len() == 0 {
        Seq::<Seq<u8>>::empty()
    } else {
        seq![name]
    });
}

/// What a path of one piece behind a slash says.
pub proof fn lemma_parts_of_rooted(name: Seq<u8>)
    requires
        slash_free(name),
    ensures
        parts(seq![SLASH] + name).absolute,
        parts(seq![SLASH] + name).names == if name.len() == 0 || name == seq![DOT] {
            Seq::<Seq<u8>>::empty()
        } else {
            seq![name]
        },
{
    let none = Seq::<u8>::empty();
    let whole = seq![SLASH] + name;
    lemma_segments_append(none, name);
    assert(none.push(SLASH) + name =~= whole);
    let pieces = segments(whole);
    assert(segments(none) =~= seq![none]);
    assert(pieces =~= seq![none, name]);
    assert(pieces.drop_last() =~= seq![none]);
    assert(seq![none].drop_last() =~= Seq::<Seq<u8>>::empty());
    assert(components(seq![none].drop_last()) =~= Seq::<Seq<u8>>::empty());
    assert(components(seq![none]) =~= Seq::<Seq<u8>>::empty());
    assert(whole.first() == SLASH);
    assert(parts(whole).names =~= if name.len() == 0 || name == seq![DOT] {
        Seq::<Seq<u8>>::empty()
    } else {
        seq![name]
    });
}

/// A relative path has a component unless it is empty.
pub proof fn lemma_relative_names(path: Seq<u8>)
    requires
        path.len() > 0,
        path.first() != SLASH,
    ensures
        parts(path).names.len() > 0,
{
    lemma_segments(path);
    lemma_components(segments(path));
}

/// The file name of an entry of a directory is the entry's name.
pub proof fn lemma_file_name_of_entry(directory: Seq<u8>, name: Seq<u8>)
    requires
        slash_free(name),
        name.len() > 0,
        name != seq![DOT],
        name != seq![DOT, DOT],
    ensures
        file_name_of(directory.push(SLASH) + name) == Some(name),
{
    let whole = directory.push(SLASH) + name;
    lemma_segments(directory);
    lemma_segments_append(directory, name);
    let pieces = segments(whole);
    assert(pieces.last() == name);
    assert(components(pieces) == components(pieces.drop_last()).push(name));
}

/// The pieces of joined names are the names, behind an empty piece if a slash
/// comes first.
proof fn lemma_segments_of_joined(names: Seq<Seq<u8>>, absolute: bool)
    requires
        names.len() > 0,
        forall|i: int| 0 <= i < names.len() ==> slash_free(#[trigger] names[i]),
    ensures
        segments(written(PathParts { absolute, names })) == if absolute {
            seq![Seq::<u8>::empty()] + names
        } else {
            names
        },
    decreases names.len(),
{
    let whole = written(PathParts { absolute, names });
    let none = Seq::<u8>::empty();
    assert(slash_free(names[names.len() - 1]));
    if names.len() == 1 {
        assert(slash_free(names[0]));
        if absolute {
            lemma_segments_append(none, names[0]);
            assert(whole =~= none.push(SLASH) + names[0]);
            assert(segments(none) =~= seq![none]);
            assert(segments(whole) =~= seq![none] + names);
        } else {
            lemma_segments_of_name(names[0]);
            assert(segments(whole) =~= names);
        }
    } else {
        let fewer = names.drop_last();
        assert forall|i: int| 0 <= i < fewer.len() implies slash_free(#[trigger] fewer[i]) by {
            assert(fewer[i] == names[i]);
        }
        lemma_segments_of_joined(fewer, absolute);
        let start = written(PathParts { absolute, names: fewer });
        lemma_segments_append(start, names.last());
        assert(whole =~= start.push(SLASH) + names.last());
        if absolute {
            assert(segments(whole) =~= seq![none] + names);
        } else {
            assert(segments(whole) =~= names);
        }
    }
}

/// Names that can be components are the components of their pieces.
proof fn lemma_components_of_names(names: Seq<Seq<u8>>)
    requires
        proper(names, 0),
    ensures
        components(names) == names,
    decreases names.len(),
{
    if names.len() > 0 {
        let fewer = names.drop_last();
        assert(proper(fewer, 0)) by {
            assert forall|i: int| 0 <= i < fewer.len() implies slash_free(#[trigger] fewer[i])
                && is_component(fewer[i], 0 + i) by {
                assert(fewer[i] == names[i]);
            }
        }
        lemma_components_of_names(fewer);
        assert(is_component(names[names.len() - 1], names.len() - 1));
        assert(fewer.push(names.last()) =~= names);
    } else {
        assert(components(names) =~= names);
    }
}

/// An empty piece in front is no component.
proof fn lemma_components_behind_root(names: Seq<Seq<u8>>)
    requires
        proper(names, 1),
    ensures
        components(seq![Seq::<u8>::empty()] + names) == names,
    decreases names.len(),
{
    let root = seq![Seq::<u8>::empty()];
    let all = root + names;
    if names.len() > 0 {
        let fewer = names.drop_last();
        assert(proper(fewer, 1)) by {
            assert forall|i: int| 0 <= i < fewer.len() implies slash_free(#[trigger] fewer[i])
                && is_component(fewer[i], 1 + i) by {
                assert(fewer[i] == names[i]);
            }
        }
        lemma_components_behind_root(fewer);
        assert(all.drop_last() =~= root + fewer);
        assert(is_component(names[names.len() - 1], 1 + (names.len() - 1)));
        assert(fewer.push(names.last()) =~= names);
    } else {
        assert(all =~= root);
        assert(root.drop_last() =~= Seq::<Seq<u8>>::empty());
        assert(components(root.drop_last()) =~= names);
    }
}

/// Joined names start with the first name.
proof fn lemma_joined_start(names: Seq<Seq<u8>>)
    requires
        names.len() > 0,
        names.first().len() > 0,
    ensures
        joined(names).len() > 0,
        joined(names).first() == names.first().first(),
    decreases names.len(),
{
    if names.len() > 1 {
        lemma_joined_start(names.drop_last());
    }
}

/// Writing a path in its plainest form does not change what it says.
pub proof fn lemma_plain_says_the_same(path: Seq<u8>)
    ensures
        parts(plain(path)) == parts(path),
        is_plain(plain(path)),
{
    lemma_parts(path);
    let said = parts(path);
    let names = said.names;
    let whole = plain(path);
    if names.len() == 0 {
        let none = Seq::<u8>::empty();
        lemma_segments_of_name(none);
        assert(seq![none].drop_last() =~= Seq::<Seq<u8>>::empty());
        assert(!is_component(seq![none].last(), 0));
        assert(components(seq![none].drop_last()) =~= names);
        assert(components(seq![none]) =~= names);
        if said.absolute {
            lemma_segments_append(none, none);
            assert(whole =~= none.push(SLASH) + none);
            assert(segments(whole).drop_last() =~= seq![none]);
            assert(segments(whole).last() == none);
            assert(components(segments(whole)) =~= names);
        } else {
            assert(whole =~= none);
        }
    } else {
        lemma_segments_of_joined(names, said.absolute);
        if said.absolute {
            lemma_components_behind_root(names);
        } else {
            lemma_components_of_names(names);
            assert(slash_free(names[0]) && is_component(names[0], 0));
            lemma_joined_start(names);
            assert(names[0][0] != SLASH);
        }
        assert(components(segments(whole)) =~= names);
    }
    assert(parts(whole).absolute == said.absolute);
    assert(parts(whole) =~= said);
}

/// What a path says, read off its bytes.
struct Reading {
    absolute: bool,
    names: Vec<Vec<u8>>,
}

/// The bytes of each of a list of names.
pub open spec fn byte_views(names: Seq<Vec<u8>>) -> Seq<Seq<u8>> {
    names.map_values(|name: Vec<u8>| name@)
}

/// Whether a name is a single full stop.
fn is_dot(name: &Vec<u8>) -> (r: bool)
    ensures
        r == (name@ == seq![DOT]),
{
    let r = name.len() == 1 && name[0] == DOT;
    proof {
        if r {
            assert(name@ =~= seq![DOT]);
        } else if name@ == seq![DOT] {
            assert(name@.len() == 1 && name@[0] == DOT);
        }
    }
    r
}

/// Takes a piece in, if it is a component.
fn take_piece(names: &mut Vec<Vec<u8>>, piece: Vec<u8>, first: bool)
    ensures
        byte_views(final(names)@) == if is_component(
            piece@,
            if first {
                0
            } else {
                1
            },
        ) {
            byte_views(old(names)@).push(piece@)
        } else {
            byte_views(old(names)@)
        },
{
    let ghost before = byte_views(names@);
    if piece.len() > 0 && (first || !is_dot(&piece)) {
        let ghost said = piece@;
        names.push(piece);
        assert(byte_views(names@) =~= before.push(said));
    }
}

/// Reads a path.
fn read_path(path: &[u8]) -> (r: Reading)
    ensures
        parts(path@) == (PathParts { absolute: r.absolute, names: byte_views(r.names@) }),
{
    let absolute: bool = path.len() > 0 && path[0] == SLASH;
    let mut names: Vec<Vec<u8>> = Vec::new();
    let mut piece: Vec<u8> = Vec::new();
    let mut first: bool = true;
    let mut i: usize = 0;
    let ghost mut pieces = segments(path@.take(0));
    assert(path@.take(0) =~= Seq::<u8>::empty());
    assert(pieces.drop_last() =~= Seq::<Seq<u8>>::empty());
    assert(byte_views(names@) =~= components(pieces.drop_last()));
    while i < path.len()
        invariant
            i <= path.len(),
            pieces == segments(path@.take(i as int)),
            pieces.len() > 0,
            first == (pieces.len() == 1),
            piece@ == pieces.last(),
            byte_views(names@) == components(pieces.drop_last()),
        decreases path.len() - i,
    {
        let ghost shown = path@.take(i + 1);
        assert(shown.drop_last() =~= path@.take(i as int));
        let ghost before = pieces;
        if path[i] == SLASH {
            let mut done: Vec<u8> = Vec::new();
            std::mem::swap(&mut done, &mut piece);
            take_piece(&mut names, done, first);
            first = false;
            proof {
                pieces = segments(shown);
                assert(pieces.drop_last() =~= before);
            }
        } else {
            piece.push(path[i]);
            proof {
                pieces = segments(shown);
                assert(pieces.drop_last() =~= before.drop_last());
            }
        }
        i = i + 1;
    }
    assert(path@.take(i as int) =~= path@);
    take_piece(&mut names, piece, first);
    Reading { absolute, names }
}

/// The last component of `path`, where it names a file.
pub fn file_name(path: &[u8]) -> (r: Option<Vec<u8>>)
    ensures
        match r {
            Some(name) => file_name_of(path@) == Some(name@),
            None => file_name_of(path@) is None,
        },
{
    let said = read_path(path);
    if said.names.len() == 0 {
        return None;
    }
    let last = &said.names[said.names.len() - 1];
    assert(last@ == parts(path@).names.last());
    let dots: bool = last.len() == 2 && last[0] == DOT && last[1] == DOT;
    assert(dots == (last@ == seq![DOT, DOT])) by {
        if dots {
            assert(last@ =~= seq![DOT, DOT]);
        } else if last@ == seq![DOT, DOT] {
            assert(last@.len() == 2 && last@[0] == DOT && last@[1] == DOT);
        }
    }
    if is_dot(last) || dots {
        None
    } else {
        Some(copy_bytes(last.as_slice()))
    }
}

/// Adds bytes at the end.
fn append_bytes(to: &mut Vec<u8>, bytes: &Vec<u8>)
    ensures
        final(to)@ == old(to)@ + bytes@,
{
    let ghost before = to@;
    let mut i: usize = 0;
    assert(before + bytes@.take(0) =~= before);
    while i < bytes.len()
        invariant
            i <= bytes@.len(),
            to@ == before + bytes@.take(i as int),
        decreases bytes@.len() - i,
    {
        to.push(bytes[i]);
        i = i + 1;
        assert(to@ =~= before + bytes@.take(i as int));
    }
    assert(bytes@.take(i as int) =~= bytes@);
}

/// A path in its plainest form.
fn plain_bytes(path: &[u8]) -> (r: Vec<u8>)
    ensures
        r@ == plain(path@),
{
    let said = read_path(path);
    let mut r: Vec<u8> = Vec::new();
    if said.absolute {
        r.push(SLASH);
    }
    let ghost start = r@;
    let ghost names = byte_views(said.names@);
    let mut i: usize = 0;
    assert(start =~= if said.absolute {
        seq![SLASH]
    } else {
        Seq::<u8>::empty()
    });
    assert(names.take(0) =~= Seq::<Seq<u8>>::empty());
    assert(r@ =~= start + joined(names.take(0)));
    while i < said.names.len()
        invariant
            i <= said.names@.len(),
            names == byte_views(said.names@),
            r@ == start + joined(names.take(i as int)),
        decreases said.names@.len() - i,
    {
        let ghost shown = names.take(i + 1);
        assert(shown.drop_last() =~= names.take(i as int));
        assert(shown.last() == said.names@[i as int]@);
        if i > 0 {
            r.push(SLASH);
        }
        append_bytes(&mut r, &said.names[i]);
        assert(r@ =~= start + joined(shown));
        i = i + 1;
    }
    assert(names.take(i as int) =~= names);
    assert(r@ =~= plain(path@));
    r
}

/// The path of a device file. Two are equal exactly if their components are, for
/// the bytes are those of the plainest form.
#[derive(Debug)]
pub struct DevicePath {
    bytes: Vec<u8>,
}

impl View for DevicePath {
    type V = Seq<u8>;

    closed spec fn view(&self) -> Seq<u8> {
        self.bytes@
    }
}

impl DevicePath {
    #[verifier::type_invariant]
    spec fn in_plain_form(self) -> bool {
        is_plain(self.bytes@)
    }

    /// A path, however it is written.
    pub fn new(path: &[u8]) -> (r: DevicePath)
        ensures
            r@ == plain(path@),
            is_plain(r@),
            same_path(r@, path@),
    {
        proof {
            lemma_plain_says_the_same(path@);
        }
        DevicePath { bytes: plain_bytes(path) }
    }

    /// The bytes of the path.
    pub fn as_bytes(&self) -> (r: &[u8])
        ensures
            r@ == self@,
            is_plain(self@),
    {
        proof {
            use_type_invariant(self);
        }
        self.bytes.as_slice()
    }

    /// Whether `path`, however it is written, is the same path.
    pub fn is_same_as(&self, path: &[u8]) -> (r: bool)
        ensures
            r == same_path(self@, path@),
    {
        proof {
            use_type_invariant(self);
            lemma_plain_says_the_same(path@);
        }
        let other = plain_bytes(path);
        same_bytes(self.bytes.as_slice(), other.as_slice())
    }
}

impl Clone for DevicePath {
    fn clone(&self) -> (r: DevicePath)
        ensures
            r@ == self@,
    {
        proof {
            use_type_invariant(self);
        }
        DevicePath { bytes: copy_bytes(self.bytes.as_slice()) }
    }
}

/// What each path of a list says.
pub open spec fn path_views(paths: Seq<DevicePath>) -> Seq<Seq<u8>> {
    paths.map_values(|path: DevicePath| path@)
}

} // verus!
