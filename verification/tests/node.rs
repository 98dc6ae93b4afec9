use privacy_indicator::applet::Message;
use privacy_indicator::node::{node_added, node_info, node_removed, NodeGlobal, Props};

const NODE: &str = "PipeWire:Interface:Node";

fn props(pairs: &[(&str, &str)]) -> Option<Props> {
    Some(Props {
        pairs: pairs.iter().map(|(key, value)| (key.to_string(), value.to_string())).collect(),
    })
}

fn global(interface: &str, props: Option<Props>) -> NodeGlobal {
    NodeGlobal { id: 42, interface: interface.to_string(), props }
}

#[test]
fn video_input_is_a_screen_share() {
    let stream = node_added(&global(
        NODE,
        props(&[("node.name", "portal"), ("application.name", "OBS"), ("media.class", "Stream/Input/Video")]),
    ))
    .unwrap();
    assert!(matches!(&stream.message, Message::ScreenShareAdd(42, name, None) if name == "OBS"));
    assert_eq!(stream.program, "OBS");
}

#[test]
fn audio_input_is_a_microphone() {
    let stream = node_added(&global(
        NODE,
        props(&[("media.class", "Stream/Input/Audio"), ("node.name", "parec")]),
    ))
    .unwrap();
    assert!(matches!(&stream.message, Message::MicrophoneAdd(42, name, None) if name == "parec"));
    assert_eq!(stream.program, "parec");
}

#[test]
fn a_nameless_program_is_unknown() {
    let stream = node_added(&global(NODE, props(&[("media.class", "Stream/Input/Audio")]))).unwrap();
    assert!(matches!(&stream.message, Message::MicrophoneAdd(42, name, None) if name == "Unknown"));
}

#[test]
fn other_objects_are_not_shown() {
    let audio = &[("media.class", "Stream/Input/Audio")];
    assert!(node_added(&global("PipeWire:Interface:Port", props(audio))).is_none());
    assert!(node_added(&global(NODE, None)).is_none());
    assert!(node_added(&global(NODE, props(&[("application.name", "OBS")]))).is_none());
    assert!(node_added(&global(NODE, props(&[("media.class", "Stream/Output/Audio")]))).is_none());
    assert!(node_added(&global(NODE, props(&[("media.class", "Stream/Input/Audio/Virtual")]))).is_none());
}

#[test]
fn the_first_value_of_a_key_counts() {
    let props = props(&[("a", "1"), ("b", "2"), ("a", "3")]).unwrap();
    assert_eq!(props.get("a"), Some("1".to_string()));
    assert_eq!(props.get("b"), Some("2".to_string()));
    assert_eq!(props.get("c"), None);
}

#[test]
fn a_label_says_more_than_the_program_name() {
    let obs = "OBS".to_string();
    let label = |props: Option<Props>| match node_info(7, &obs, &props) {
        Message::NodeDetail(7, label) => label,
        other => panic!("{:?}", other),
    };
    assert_eq!(label(props(&[("media.name", "Mic/Aux")])), Some("Mic/Aux".to_string()));
    assert_eq!(label(props(&[("media.name", "OBS")])), None);
    assert_eq!(label(props(&[("media.name", "")])), None);
    assert_eq!(label(props(&[("node.name", "x")])), None);
    assert_eq!(label(None), None);
}

#[test]
fn a_removed_node_is_reported() {
    assert!(matches!(node_removed(42), Message::PipeWireNodeRemove(42)));
}
