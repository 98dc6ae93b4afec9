//! What the nodes of PipeWire share.

use vstd::prelude::*;

use crate::applet::{Message, MessageView};

verus! {

/// The properties of a node: keys and values, in order.
#[derive(Debug)]
pub struct Props {
    pub pairs: Vec<(String, String)>,
}

impl View for Props {
    type V = Seq<(Seq<char>, Seq<char>)>;

    open spec fn view(&self) -> Seq<(Seq<char>, Seq<char>)> {
        self.pairs@.map_values(|pair: (String, String)| (pair.0@, pair.1@))
    }
}

/// The value of the first pair with this key.
pub open spec fn value_of(pairs: Seq<(Seq<char>, Seq<char>)>, key: Seq<char>) -> Option<Seq<char>>
    decreases pairs.len(),
{
    if pairs.len() == 0 {
        None
    } else if pairs.first().0 == key {
        Some(pairs.first().1)
    } else {
        value_of(pairs.drop_first(), key)
    }
}

impl Props {
    /// The value of a property.
    pub fn get(&self, key: &str) -> (r: Option<String>)
        ensures
            match r {
                Some(value) => value_of(self@, key@) == Some(value@),
                None => value_of(self@, key@) is None,
            },
    {
        let wanted: String = key.to_owned();
        let ghost all = self@;
        let mut i: usize = 0;
        assert(all.skip(0) =~= all);
        while i < self.pairs.len()
            invariant
                i <= self.pairs@.len(),
                all == self@,
                wanted@ == key@,
                value_of(all, key@) == value_of(all.skip(i as int), key@),
            decreases self.pairs@.len() - i,
        {
            let ghost rest = all.skip(i as int);
            assert(rest.first() == (self.pairs@[i as int].0@, self.pairs@[i as int].1@));
            assert(rest.drop_first() =~= all.skip(i + 1));
            if self.pairs[i].0 == wanted {
                return Some(self.pairs[i].1.clone());
            }
            i = i + 1;
        }
        None
    }
}

/// An object that PipeWire announces.
#[derive(Debug)]
pub struct NodeGlobal {
    pub id: u32,
    /// The name of the object's interface.
    pub interface: String,
    pub props: Option<Props>,
}

/// The name under which a node's program is shown.
pub open spec fn program_name(props: Seq<(Seq<char>, Seq<char>)>) -> Seq<char> {
    match value_of(props, "application.name"@) {
        Some(name) => name,
        None => match value_of(props, "node.name"@) {
            Some(name) => name,
            None => "Unknown"@,
        },
    }
}

/// The message with which a node starts to be shown, if it takes in video or
/// audio.
pub open spec fn start_of(
    id: u32,
    interface: Seq<char>,
    props: Option<Seq<(Seq<char>, Seq<char>)>>,
) -> Option<MessageView> {
    if interface != "PipeWire:Interface:Node"@ {
        None
    } else {
        match props {
            Some(props) => match value_of(props, "media.class"@) {
                Some(class) => if class == "Stream/Input/Video"@ {
                    Some(MessageView::ScreenShareAdd(id, program_name(props), None))
                } else if class == "Stream/Input/Audio"@ {
                    Some(MessageView::MicrophoneAdd(id, program_name(props), None))
                } else {
                    None
                },
                None => None,
            },
            None => None,
        }
    }
}

/// What optional properties say.
pub open spec fn props_view(props: Option<Props>) -> Option<Seq<(Seq<char>, Seq<char>)>> {
    match props {
        Some(props) => Some(props@),
        None => None,
    }
}

/// The label of a node's stream: its media name, unless that is empty or says
/// no more than the program's name.
pub open spec fn label_of(
    props: Option<Seq<(Seq<char>, Seq<char>)>>,
    program: Seq<char>,
) -> Option<Seq<char>> {
    match props {
        Some(props) => match value_of(props, "media.name"@) {
            Some(label) => if label.len() > 0 && label != program {
                Some(label)
            } else {
                None
            },
            None => None,
        },
        None => None,
    }
}

/// A node that is to be shown.
#[derive(Debug)]
pub struct NewStream {
    /// The message with which it starts to be shown.
    pub message: Message,
    /// The name of its program.
    pub program: String,
}

/// The name under which a node's program is shown.
fn name_of(props: &Props) -> (r: String)
    ensures
        r@ == program_name(props@),
{
    match props.get("application.name") {
        Some(name) => name,
        None => match props.get("node.name") {
            Some(name) => name,
            None => "Unknown".to_owned(),
        },
    }
}

/// What a new object of PipeWire means for the applet: nothing unless it is a
/// node that takes in video or audio.
pub fn node_added(global: &NodeGlobal) -> (r: Option<NewStream>)
    ensures
        match r {
            Some(stream) => {
                &&& start_of(global.id, global.interface@, props_view(global.props)) == Some(
                    stream.message@,
                )
                &&& stream.program@ == program_name(props_view(global.props)->0)
            },
            None => start_of(global.id, global.interface@, props_view(global.props)) is None,
        },
{
    let node: String = "PipeWire:Interface:Node".to_owned();
    if global.interface != node {
        return None;
    }
    match &global.props {
        Some(props) => {
            let program: String = name_of(props);
            match props.get("media.class") {
                Some(class) => {
                    let video: String = "Stream/Input/Video".to_owned();
                    let audio: String = "Stream/Input/Audio".to_owned();
                    if class == video {
                        Some(
                            NewStream {
                                message: Message::ScreenShareAdd(global.id, program.clone(), None),
                                program,
                            },
                        )
                    } else if class == audio {
                        Some(
                            NewStream {
                                message: Message::MicrophoneAdd(global.id, program.clone(), None),
                                program,
                            },
                        )
                    } else {
                        None
                    }
                },
                None => None,
            }
        },
        None => None,
    }
}

/// The message with which the label of a node's stream is set, once the node
/// reports its properties.
pub fn node_info(id: u32, program: &String, props: &Option<Props>) -> (r: Message)
    ensures
        r@ == MessageView::NodeDetail(id, label_of(props_view(*props), program@)),
{
    let label: Option<String> = match props {
        Some(props) => match props.get("media.name") {
            Some(label) => if !label.as_str().is_empty() && label != *program {
                Some(label)
            } else {
                None
            },
            None => None,
        },
        None => None,
    };
    Message::NodeDetail(id, label)
}

/// The message with which a node stops being shown.
pub fn node_removed(id: u32) -> (r: Message)
    ensures
        r@ == MessageView::PipeWireNodeRemove(id),
{
    Message::PipeWireNodeRemove(id)
}

} // verus!
