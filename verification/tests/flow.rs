use privacy_indicator::applet::{Action, Config, Icon, Message, PrivacyIndicator};
use privacy_indicator::camera::{open_cameras, procs_using_camera, ProcEntry};
use privacy_indicator::node::{node_added, node_info, node_removed, NodeGlobal, Props};
use privacy_indicator::path::DevicePath;
use privacy_indicator::popup::Row;
use privacy_indicator::watch::{
    get_inotify, DeviceEvent, DeviceNode, DeviceStep, WatchTable, CLOSE_WRITE, OPEN,
};

fn applet() -> PrivacyIndicator {
    PrivacyIndicator::init(Config { animated: false, refresh: 0 })
}

fn send(applet: &mut PrivacyIndicator, message: Message) {
    assert!(matches!(applet.update(message, 0), Action::Nothing));
}

fn icons(applet: &mut PrivacyIndicator) -> Vec<Icon> {
    send(applet, Message::Tick);
    match applet.panel(false, (1, 1)) {
        Some(panel) => panel.icons,
        None => vec![],
    }
}

fn device(name: &str, watch: i32) -> DeviceNode {
    DeviceNode {
        name: name.as_bytes().to_vec(),
        path: DevicePath::new(format!("/dev/{}", name).as_bytes()),
        watch: Some(watch),
    }
}

fn react(applet: &mut PrivacyIndicator, watches: &WatchTable, mask: u32, watch: (u64, i32)) {
    match watches.react(&DeviceEvent { mask, watch, name: None }) {
        DeviceStep::Report(message) => send(applet, message),
        other => panic!("{:?}", other),
    }
}

#[test]
fn an_open_event_shows_the_camera() {
    let mut applet = applet();
    let watches = get_inotify(1, &vec![device("video0", 2)]);
    react(&mut applet, &watches, OPEN, (1, 2));
    assert_eq!(icons(&mut applet), vec![Icon::Recording, Icon::Camera]);
    react(&mut applet, &watches, CLOSE_WRITE, (1, 2));
    assert!(icons(&mut applet).is_empty());
}

#[test]
fn a_device_that_goes_away_while_open_is_not_shown() {
    let mut applet = applet();
    let mut watches = get_inotify(1, &vec![device("video0", 2), device("video1", 3)]);
    react(&mut applet, &watches, OPEN, (1, 2));
    react(&mut applet, &watches, OPEN, (1, 3));
    for message in watches.rescan(get_inotify(2, &vec![device("video1", 1)])) {
        send(&mut applet, message);
    }
    assert_eq!(icons(&mut applet), vec![Icon::Recording, Icon::Camera]);
    react(&mut applet, &watches, CLOSE_WRITE, (2, 1));
    assert!(icons(&mut applet).is_empty());
}

#[test]
fn a_process_that_is_listed_is_counted() {
    let procs = vec![ProcEntry {
        name: b"10".to_vec(),
        fds: Some(vec![Some(b"/dev/video0".to_vec())]),
        comm: Some("obs\n".to_string()),
    }];
    let device = DevicePath::new(b"/dev/video0");
    assert_eq!(procs_using_camera(false, &procs, &device).len(), 1);
    let cameras = open_cameras(false, &procs);
    assert_eq!(cameras.get(&device), Some((1, 0)));
    let mut applet = applet();
    send(&mut applet, Message::CameraPrevious(cameras));
    assert_eq!(icons(&mut applet), vec![Icon::Recording, Icon::Camera]);
    assert_eq!(applet.view_window(false, &procs).len(), 2);
}

#[test]
fn a_node_comes_is_labelled_and_goes() {
    let mut applet = applet();
    let stream = node_added(&NodeGlobal {
        id: 30,
        interface: "PipeWire:Interface:Node".to_string(),
        props: Some(Props {
            pairs: vec![
                ("application.name".to_string(), "OBS".to_string()),
                ("media.class".to_string(), "Stream/Input/Audio".to_string()),
            ],
        }),
    })
    .unwrap();
    send(&mut applet, stream.message);
    assert_eq!(icons(&mut applet), vec![Icon::Recording, Icon::Microphone]);
    let label = Some(Props { pairs: vec![("media.name".to_string(), "Mic/Aux".to_string())] });
    send(&mut applet, node_info(30, &stream.program, &label));
    let rows = applet.view_window(false, &vec![]);
    assert_eq!(rows.len(), 2);
    assert!(matches!(
        &rows[1],
        Row::App { name, detail: Some(detail), kill: Some(Message::DisconnectNode(30)) }
            if name == "OBS" && detail == "Mic/Aux"
    ));
    send(&mut applet, node_removed(30));
    assert!(icons(&mut applet).is_empty());
    assert!(applet.view_window(false, &vec![]).is_empty());
}
