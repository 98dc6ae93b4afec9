use inotify::{EventMask, WatchMask};
use privacy_indicator::applet::Message;
use privacy_indicator::camera::ProcEntry;
use privacy_indicator::path::DevicePath;
use privacy_indicator::watch::{
    get_inotify, DeviceEvent, DeviceMonitor, DeviceNode, DeviceStep, WatchTable, ATTRIB, CLOSE_NOWRITE,
    CLOSE_WRITE, CREATE, DELETE_SELF, DEVICE_EVENTS, DIRECTORY_EVENTS, OPEN,
};

fn text(path: &DevicePath) -> String {
    String::from_utf8(path.as_bytes().to_vec()).unwrap()
}

fn node(name: &str, watch: Option<i32>) -> DeviceNode {
    DeviceNode {
        name: name.as_bytes().to_vec(),
        path: DevicePath::new(format!("/dev/{}", name).as_bytes()),
        watch,
    }
}

fn event(mask: u32, watch: (u64, i32), name: Option<&str>) -> DeviceEvent {
    DeviceEvent { mask, watch, name: name.map(|name| name.as_bytes().to_vec()) }
}

fn opened(table: &WatchTable, watch: (u64, i32)) -> Option<String> {
    match table.react(&event(OPEN, watch, None)) {
        DeviceStep::Report(Message::CameraOpen(path)) => Some(text(&path)),
        DeviceStep::Ignore => None,
        other => panic!("{:?}", other),
    }
}

fn closed(table: &WatchTable, mask: u32, watch: (u64, i32)) -> Option<String> {
    match table.react(&event(mask, watch, None)) {
        DeviceStep::Report(Message::CameraClose(path)) => Some(text(&path)),
        DeviceStep::Ignore => None,
        other => panic!("{:?}", other),
    }
}

#[test]
fn event_bits_are_those_of_inotify() {
    assert_eq!(ATTRIB, EventMask::ATTRIB.bits());
    assert_eq!(CLOSE_WRITE, EventMask::CLOSE_WRITE.bits());
    assert_eq!(CLOSE_NOWRITE, EventMask::CLOSE_NOWRITE.bits());
    assert_eq!(OPEN, EventMask::OPEN.bits());
    assert_eq!(CREATE, EventMask::CREATE.bits());
    assert_eq!(DELETE_SELF, EventMask::DELETE_SELF.bits());
    assert_eq!(DIRECTORY_EVENTS, WatchMask::ATTRIB.bits());
    assert_eq!(
        DEVICE_EVENTS,
        (WatchMask::OPEN | WatchMask::CLOSE | WatchMask::DELETE_SELF).bits()
    );
}

#[test]
fn events_are_reported_for_their_device() {
    let table = get_inotify(
        1,
        &vec![node("video0", Some(2)), node("sda", Some(3)), node("video1", None), node("video2", Some(4))],
    );
    assert_eq!(opened(&table, (1, 2)), Some("/dev/video0".to_string()));
    assert_eq!(opened(&table, (1, 4)), Some("/dev/video2".to_string()));
    assert_eq!(opened(&table, (1, 3)), None);
    assert_eq!(opened(&table, (1, 9)), None);
    assert_eq!(closed(&table, CLOSE_WRITE, (1, 2)), Some("/dev/video0".to_string()));
    assert_eq!(closed(&table, CLOSE_NOWRITE, (1, 4)), Some("/dev/video2".to_string()));
    assert_eq!(closed(&table, CLOSE_WRITE, (1, 9)), None);
}

#[test]
fn events_of_a_replaced_instance_are_ignored() {
    let table = get_inotify(2, &vec![node("video0", Some(1))]);
    assert_eq!(opened(&table, (1, 1)), None);
    assert_eq!(opened(&table, (2, 1)), Some("/dev/video0".to_string()));
}

#[test]
fn a_descriptor_stands_for_the_last_path_that_got_it() {
    let table = get_inotify(1, &vec![node("video0", Some(2)), node("video-front", Some(2))]);
    assert_eq!(opened(&table, (1, 2)), Some("/dev/video-front".to_string()));
    let mut table = table;
    let messages = table.rescan(get_inotify(2, &vec![]));
    assert_eq!(messages.len(), 1);
    assert!(matches!(&messages[0], Message::CameraReset(path) if path.as_bytes() == b"/dev/video-front"));
}

#[test]
fn a_path_has_the_last_descriptor_that_it_got() {
    let table = get_inotify(1, &vec![node("video0", Some(2)), node("video0", Some(3))]);
    assert_eq!(opened(&table, (1, 2)), None);
    assert_eq!(opened(&table, (1, 3)), Some("/dev/video0".to_string()));
}

#[test]
fn changes_of_devices_call_for_a_rescan() {
    let table = get_inotify(1, &vec![node("video0", Some(2))]);
    let rescans = |mask: u32, name: Option<&str>| {
        matches!(table.react(&event(mask, (1, 1), name)), DeviceStep::Rescan)
    };
    assert!(rescans(CREATE, Some("video1")));
    assert!(rescans(ATTRIB, Some("video1")));
    assert!(rescans(DELETE_SELF, None));
    assert!(rescans(DELETE_SELF, Some("sda")));
    assert!(!rescans(CREATE, Some("sda")));
    assert!(!rescans(ATTRIB, Some("vide")));
    assert!(!rescans(ATTRIB, None));
    assert!(!rescans(OPEN, Some("video1")));
    assert!(!rescans(CREATE | ATTRIB, Some("video1")));
}

#[test]
fn other_events_are_ignored() {
    let table = get_inotify(1, &vec![node("video0", Some(2))]);
    for mask in [
        EventMask::ACCESS,
        EventMask::MODIFY,
        EventMask::IGNORED,
        EventMask::Q_OVERFLOW,
        EventMask::DELETE,
        EventMask::OPEN | EventMask::ISDIR,
        EventMask::CREATE | EventMask::ISDIR,
    ] {
        let step = table.react(&event(mask.bits(), (1, 2), Some("video0")));
        assert!(matches!(step, DeviceStep::Ignore));
    }
    assert!(matches!(table.react(&event(ATTRIB, (1, 2), Some("sda"))), DeviceStep::Ignore));
}

#[test]
fn a_rescan_resets_what_is_gone() {
    let mut table = get_inotify(
        1,
        &vec![node("video0", Some(2)), node("video1", Some(3)), node("video2", Some(4))],
    );
    let messages = table.rescan(get_inotify(2, &vec![node("video1", Some(1)), node("video5", Some(2))]));
    let mut gone: Vec<String> = messages
        .into_iter()
        .map(|message| match message {
            Message::CameraReset(path) => text(&path),
            other => panic!("{:?}", other),
        })
        .collect();
    gone.sort();
    assert_eq!(gone, vec!["/dev/video0".to_string(), "/dev/video2".to_string()]);
    assert_eq!(opened(&table, (2, 1)), Some("/dev/video1".to_string()));
    assert_eq!(opened(&table, (1, 3)), None);
    assert!(table.rescan(get_inotify(3, &vec![node("video1", Some(1)), node("video5", Some(2))])).is_empty());
}

#[test]
fn two_spellings_of_a_path_are_one_device() {
    let spelled = |path: &[u8], watch: i32| DeviceNode {
        name: b"video0".to_vec(),
        path: DevicePath::new(path),
        watch: Some(watch),
    };
    let table = get_inotify(1, &vec![spelled(b"/dev/video0", 2), spelled(b"/dev//video0/", 3)]);
    assert_eq!(opened(&table, (1, 2)), None);
    assert_eq!(opened(&table, (1, 3)), Some("/dev/video0".to_string()));
    let mut table = table;
    assert!(table.rescan(get_inotify(2, &vec![node("video0", Some(1))])).is_empty());
}

#[test]
fn a_monitor_starts_with_what_is_open() {
    let procs = vec![ProcEntry {
        name: b"10".to_vec(),
        fds: Some(vec![Some(b"/dev/video0".to_vec()), Some(b"/dev/video0".to_vec())]),
        comm: None,
    }];
    let device = DevicePath::new(b"/dev/video0");
    let (monitor, message) = DeviceMonitor::start(false, &procs);
    assert_eq!(monitor.instance(), 0);
    match message {
        Message::CameraPrevious(cameras) => assert_eq!(cameras.get(&device), Some((2, 0))),
        other => panic!("{:?}", other),
    }
    match DeviceMonitor::start(true, &procs).1 {
        Message::CameraPrevious(cameras) => assert!(cameras.paths().is_empty()),
        other => panic!("{:?}", other),
    }
}

#[test]
fn a_monitor_reports_for_its_present_instance_only() {
    let (mut monitor, _) = DeviceMonitor::start(false, &vec![]);
    let opened = |monitor: &DeviceMonitor, watch: (u64, i32)| {
        match monitor.react(&event(OPEN, watch, None)) {
            DeviceStep::Report(Message::CameraOpen(path)) => Some(text(&path)),
            DeviceStep::Ignore => None,
            other => panic!("{:?}", other),
        }
    };
    assert_eq!(opened(&monitor, (0, 2)), None);
    assert!(monitor.rescan(&vec![node("video0", Some(2)), node("video1", Some(3))]).is_empty());
    assert_eq!(monitor.instance(), 1);
    assert_eq!(opened(&monitor, (1, 2)), Some("/dev/video0".to_string()));
    assert_eq!(opened(&monitor, (0, 2)), None);

    let resets = monitor.rescan(&vec![node("video1", Some(2))]);
    assert_eq!(resets.len(), 1);
    assert!(matches!(&resets[0], Message::CameraReset(path) if text(path) == "/dev/video0"));
    assert_eq!(monitor.instance(), 2);
    assert_eq!(opened(&monitor, (1, 2)), None);
    assert_eq!(opened(&monitor, (2, 2)), Some("/dev/video1".to_string()));
    // The devices are looked up anew for a replaced instance too.
    let stale = event(DELETE_SELF, (1, 3), None);
    assert!(matches!(monitor.react(&stale), DeviceStep::Rescan));
}
