//! When two paths are the same, and what they are called.

use vstd::prelude::*;
use vstd::utf8::*;

use crate::applet::device_label;
use crate::path::{
    file_name_of, is_plain, joined, lemma_file_name_of_entry, lemma_parts_of_longer,
    lemma_parts_of_name, lemma_parts_of_rooted, lemma_relative_names, parts, plain, same_path,
    slash_free,
};
use crate::text::{lossy_text, text_of};

verus! {

/// `path`, a slash and `name`.
pub open spec fn below(path: Seq<u8>, name: Seq<u8>) -> Seq<u8> {
    path.push(0x2f) + name
}

/// Whether a name is that of something in a directory: it is not empty, not `.`
/// and holds no slash.
pub open spec fn names_an_entry(name: Seq<u8>) -> bool {
    &&& name.len() > 0
    &&& name != seq![0x2eu8]
    &&& forall|i: int| 0 <= i < name.len() ==> #[trigger] name[i] != 0x2f
}

/// A slash at the end of a path, doubled or before a `.`, does not change it.
pub proof fn law_slashes_and_dots_are_idle(path: Seq<u8>)
    requires
        path.len() > 0,
    ensures
        same_path(path.push(0x2f), path),
        same_path(below(path, seq![0x2eu8]), path),
{
    let none = Seq::<u8>::empty();
    lemma_parts_of_longer(path, none);
    assert(path.push(0x2f) + none =~= path.push(0x2f));
    assert(slash_free(seq![0x2eu8]));
    lemma_parts_of_longer(path, seq![0x2eu8]);
}

/// What stands below two paths is the same exactly if the paths are and the
/// names are, letter by letter. It is not the same as the path itself.
pub proof fn law_entries_are_told_apart(
    a: Seq<u8>,
    b: Seq<u8>,
    name: Seq<u8>,
    other: Seq<u8>,
)
    requires
        a.len() > 0,
        b.len() > 0,
        names_an_entry(name),
        names_an_entry(other),
    ensures
        same_path(below(a, name), below(b, other)) <==> same_path(a, b) && name == other,
        !same_path(below(a, name), a),
{
    assert(slash_free(name) && slash_free(other));
    lemma_parts_of_longer(a, name);
    lemma_parts_of_longer(b, other);
    let left = parts(a).names.push(name);
    let right = parts(b).names.push(other);
    if same_path(below(a, name), below(b, other)) {
        assert(left == right);
        assert(left.last() == name && right.last() == other);
        assert(left.drop_last() =~= parts(a).names);
        assert(right.drop_last() =~= parts(b).names);
    }
    assert(left.len() == parts(a).names.len() + 1);
}

/// At the top names are the same letter by letter. One behind a slash differs
/// from one without, two slashes are as good as one, and an entry of a directory
/// is none of them unless the directory is the root.
pub proof fn law_top_names_are_told_apart(path: Seq<u8>, name: Seq<u8>, other: Seq<u8>)
    requires
        path.len() > 0,
        names_an_entry(name),
        names_an_entry(other),
    ensures
        same_path(name, other) <==> name == other,
        same_path(seq![0x2fu8] + name, seq![0x2fu8] + other) <==> name == other,
        !same_path(seq![0x2fu8] + name, other),
        same_path(below(seq![0x2fu8], name), seq![0x2fu8] + name),
        !same_path(below(path, name), other),
{
    assert(slash_free(name) && slash_free(other));
    lemma_parts_of_name(name);
    lemma_parts_of_name(other);
    lemma_parts_of_rooted(name);
    lemma_parts_of_rooted(other);
    lemma_parts_of_rooted(Seq::empty());
    assert(seq![0x2fu8] + Seq::<u8>::empty() =~= seq![0x2fu8]);
    lemma_parts_of_longer(seq![0x2fu8], name);
    lemma_parts_of_longer(path, name);
    assert(seq![name][0] == name && seq![other][0] == other);
    assert(Seq::<Seq<u8>>::empty().push(name) =~= seq![name]);
    if path.first() != 0x2f {
        lemma_relative_names(path);
        assert(parts(below(path, name)).names.len() > 1);
    }
}

/// The empty path, `.` and the root are three paths, and none of them is that of
/// an entry.
pub proof fn law_roots_are_told_apart(path: Seq<u8>, name: Seq<u8>)
    requires
        path.len() > 0,
        names_an_entry(name),
    ensures
        !same_path(Seq::<u8>::empty(), seq![0x2eu8]),
        !same_path(Seq::<u8>::empty(), seq![0x2fu8]),
        !same_path(seq![0x2eu8], seq![0x2fu8]),
        !same_path(name, Seq::<u8>::empty()),
        !same_path(name, seq![0x2eu8]),
        !same_path(name, seq![0x2fu8]),
        !same_path(below(path, name), Seq::<u8>::empty()),
        !same_path(below(path, name), seq![0x2eu8]),
        !same_path(below(path, name), seq![0x2fu8]),
{
    let none = Seq::<u8>::empty();
    let dot = seq![0x2eu8];
    assert(slash_free(name) && slash_free(dot));
    lemma_parts_of_name(none);
    lemma_parts_of_name(dot);
    lemma_parts_of_name(name);
    lemma_parts_of_rooted(none);
    assert(seq![0x2fu8] + none =~= seq![0x2fu8]);
    lemma_parts_of_longer(path, name);
    let names = parts(below(path, name)).names;
    assert(names.last() == name);
    assert(seq![name][0] == name && seq![dot][0] == dot);
    assert(seq![dot].last() == dot);
}

/// Paths are kept with one slash between two names, none at the end, and no `.`
/// but at the start.
pub proof fn law_plainest_forms(path: Seq<u8>, name: Seq<u8>)
    requires
        names_an_entry(name),
    ensures
        is_plain(Seq::<u8>::empty()),
        is_plain(seq![0x2eu8]),
        is_plain(seq![0x2fu8]),
        is_plain(name),
        is_plain(seq![0x2fu8] + name),
        path.len() > 0 && path != seq![0x2fu8] && is_plain(path) ==> is_plain(below(path, name)),
{
    let none = Seq::<u8>::empty();
    let dot = seq![0x2eu8];
    let root = seq![0x2fu8];
    assert(slash_free(name) && slash_free(dot));
    lemma_parts_of_name(none);
    lemma_parts_of_name(dot);
    lemma_parts_of_name(name);
    lemma_parts_of_rooted(none);
    lemma_parts_of_rooted(name);
    assert(root + none =~= root);
    assert(joined(Seq::<Seq<u8>>::empty()) =~= none);
    assert(joined(seq![dot]) == seq![dot][0]);
    assert(joined(seq![name]) == seq![name][0]);
    assert(plain(none) =~= none);
    assert(plain(root) =~= root);
    if path.len() > 0 && path != root && is_plain(path) {
        let names = parts(path).names;
        lemma_parts_of_longer(path, name);
        assert(names.len() > 0) by {
            if names.len() == 0 {
                assert(names =~= Seq::<Seq<u8>>::empty());
                assert(plain(path) =~= if parts(path).absolute {
                    root
                } else {
                    none
                });
            }
        }
        let more = names.push(name);
        assert(more.drop_last() =~= names);
        assert(joined(more) == joined(names).push(0x2f) + name);
        assert(plain(below(path, name)) =~= plain(path).push(0x2f) + name);
    }
}

/// A path goes by the name of its last entry, however the path is written. One
/// that ends in `..`, and the root, go by none.
pub proof fn law_file_names(path: Seq<u8>, name: Seq<u8>, other: Seq<u8>)
    requires
        names_an_entry(name),
    ensures
        name != seq![0x2eu8, 0x2e] ==> file_name_of(below(path, name)) == Some(name),
        name != seq![0x2eu8, 0x2e] ==> file_name_of(name) == Some(name),
        path.len() > 0 ==> file_name_of(below(path, seq![0x2eu8, 0x2e])) is None,
        file_name_of(seq![0x2fu8]) is None,
        file_name_of(Seq::<u8>::empty()) is None,
        same_path(path, other) ==> file_name_of(path) == file_name_of(other),
{
    assert(slash_free(name));
    let up = seq![0x2eu8, 0x2e];
    assert(slash_free(up));
    if name != up {
        lemma_file_name_of_entry(path, name);
    }
    lemma_parts_of_name(name);
    lemma_parts_of_name(Seq::empty());
    lemma_parts_of_rooted(Seq::empty());
    assert(seq![0x2fu8] + Seq::<u8>::empty() =~= seq![0x2fu8]);
    if path.len() > 0 {
        assert(up != seq![0x2eu8]) by {
            assert(up.len() == 2);
        }
        lemma_parts_of_longer(path, up);
        assert(parts(below(path, up)).names.last() == up);
    }
}

/// A device is labelled exactly if its path has a file name. The label is the
/// name as text, and what `lossy_text` makes of a name that is none.
pub proof fn law_labels_read_file_names(path: Seq<u8>)
    ensures
        device_label(path) is Some <==> file_name_of(path) is Some,
        file_name_of(path) matches Some(name) ==> {
            &&& valid_utf8(name) ==> encode_utf8(device_label(path)->0) == name
            &&& !valid_utf8(name) ==> device_label(path)->0 == lossy_text(name)
        },
{
    if file_name_of(path) is Some {
        let name = file_name_of(path)->0;
        if valid_utf8(name) {
            decode_utf8_encode_utf8(name);
        }
        assert(device_label(path) == Some(text_of(name)));
    }
}

} // verus!
