//! Which nodes of PipeWire are shown, and under which name and label.

use vstd::prelude::*;

use crate::applet::MessageView;
use crate::node::{label_of, program_name, start_of, value_of};

verus! {

/// A property has the value that stands with its key first.
pub proof fn law_value_stands_with_its_key(
    pairs: Seq<(Seq<char>, Seq<char>)>,
    key: Seq<char>,
    i: int,
)
    requires
        0 <= i < pairs.len(),
        pairs[i].0 == key,
        forall|j: int| 0 <= j < i ==> (#[trigger] pairs[j]).0 != key,
    ensures
        value_of(pairs, key) == Some(pairs[i].1),
    decreases pairs.len(),
{
    if i > 0 {
        let rest = pairs.drop_first();
        assert(pairs[0].0 != key);
        assert(rest[i - 1] == pairs[i]);
        assert forall|j: int| 0 <= j < i - 1 implies (#[trigger] rest[j]).0 != key by {
            assert(rest[j] == pairs[j + 1]);
        }
        law_value_stands_with_its_key(rest, key, i - 1);
    }
}

/// A property has no value exactly if its key does not stand.
pub proof fn law_no_value_without_its_key(pairs: Seq<(Seq<char>, Seq<char>)>, key: Seq<char>)
    ensures
        value_of(pairs, key) is None <==> forall|i: int|
            0 <= i < pairs.len() ==> (#[trigger] pairs[i]).0 != key,
    decreases pairs.len(),
{
    if pairs.len() > 0 {
        let rest = pairs.drop_first();
        law_no_value_without_its_key(rest, key);
        assert(pairs[0] == pairs.first());
        if value_of(pairs, key) is None {
            assert forall|i: int| 0 <= i < pairs.len() implies (#[trigger] pairs[i]).0 != key by {
                if i > 0 {
                    assert(rest[i - 1] == pairs[i]);
                }
            }
        } else if pairs[0].0 != key {
            let i = choose|i: int| 0 <= i < rest.len() && (#[trigger] rest[i]).0 == key;
            assert(pairs[i + 1] == rest[i]);
        }
    }
}

/// A program is shown under the name of its application. Without one it is shown
/// under the name of its node, and as `Unknown` without either.
pub proof fn law_program_is_shown_by_name(props: Seq<(Seq<char>, Seq<char>)>)
    ensures
        value_of(props, "application.name"@) matches Some(name) ==> program_name(props) == name,
        value_of(props, "application.name"@) is None ==> (value_of(
            props,
            "node.name"@,
        ) matches Some(name) ==> program_name(props) == name),
        value_of(props, "application.name"@) is None && value_of(props, "node.name"@) is None
            ==> program_name(props) == "Unknown"@,
{
}

/// The two classes of streams that are shown differ.
proof fn lemma_classes_differ()
    ensures
        "Stream/Input/Audio"@ != "Stream/Input/Video"@,
{
    reveal_strlit("Stream/Input/Audio");
    reveal_strlit("Stream/Input/Video");
    assert("Stream/Input/Audio"@[13] != "Stream/Input/Video"@[13]);
}

/// Whether an announced object is a node of this media class.
pub open spec fn is_node_of(
    interface: Seq<char>,
    props: Option<Seq<(Seq<char>, Seq<char>)>>,
    class: Seq<char>,
) -> bool {
    interface == "PipeWire:Interface:Node"@ && (props matches Some(props) && value_of(
        props,
        "media.class"@,
    ) == Some(class))
}

/// A new object starts a microphone exactly if it is a node that takes in audio,
/// and a screen share exactly if it is a node that takes in video. It is shown
/// under its own id and program, with no label yet. No other object is shown.
pub proof fn law_shown_nodes(
    id: u32,
    interface: Seq<char>,
    props: Option<Seq<(Seq<char>, Seq<char>)>>,
)
    ensures
        is_node_of(interface, props, "Stream/Input/Audio"@) ==> start_of(id, interface, props)
            == Some(MessageView::MicrophoneAdd(id, program_name(props->0), None)),
        is_node_of(interface, props, "Stream/Input/Video"@) ==> start_of(id, interface, props)
            == Some(MessageView::ScreenShareAdd(id, program_name(props->0), None)),
        !is_node_of(interface, props, "Stream/Input/Audio"@) && !is_node_of(
            interface,
            props,
            "Stream/Input/Video"@,
        ) ==> start_of(id, interface, props) is None,
{
    lemma_classes_differ();
}

/// A stream is labelled with its media name, whatever that is, unless it is
/// empty or the program's name, and with nothing else.
pub proof fn law_label_is_the_media_name(
    props: Option<Seq<(Seq<char>, Seq<char>)>>,
    program: Seq<char>,
    label: Seq<char>,
)
    ensures
        label_of(props, program) == Some(label) <==> label.len() > 0 && label != program && (
        props matches Some(props) && value_of(props, "media.name"@) == Some(label)),
{
}

} // verus!
