use privacy_indicator::applet::{
    tag_apps, Action, AppInfo, Config, Feed, Icon, Message, PrivacyIndicator,
};
use privacy_indicator::camera::{CameraTable, ProcEntry};
use privacy_indicator::path::DevicePath;
use privacy_indicator::popup::Row;
use std::borrow::Cow;
use std::time::Instant;

const CONFIG: Config = Config { animated: true, refresh: 50 };

fn applet() -> PrivacyIndicator {
    PrivacyIndicator::init(CONFIG)
}

fn path(text: &str) -> DevicePath {
    DevicePath::new(text.as_bytes())
}

fn icons(applet: &PrivacyIndicator) -> Vec<Icon> {
    match applet.panel(true, (4, 8)) {
        Some(panel) => panel.icons,
        None => vec![],
    }
}

/// Sends a message that asks for nothing to be done outside.
fn send(applet: &mut PrivacyIndicator, message: Message) {
    assert!(applet.accepts(&message));
    assert!(matches!(applet.update(message, 0), Action::Nothing));
}

/// The programs that the popup lists, with their labels.
fn listed(applet: &PrivacyIndicator) -> Vec<(String, Option<String>)> {
    let mut found: Vec<(String, Option<String>)> = applet
        .view_window(false, &vec![])
        .into_iter()
        .filter_map(|row| match row {
            Row::App { name, detail, .. } => Some((name, detail)),
            _ => None,
        })
        .collect();
    found.sort();
    found
}

#[test]
fn a_new_applet_shows_nothing() {
    let applet = applet();
    assert!(applet.panel(true, (4, 8)).is_none());
    assert!(applet.view_window(false, &vec![]).is_empty());
    assert!(applet.on_close_requested(1).is_none());
}

#[test]
fn the_camera_is_shown_while_a_device_is_open() {
    let mut applet = applet();
    send(&mut applet, Message::CameraOpen(path("/dev/video0")));
    assert!(icons(&applet).is_empty());
    send(&mut applet, Message::Tick);
    assert_eq!(icons(&applet), vec![Icon::Recording, Icon::Camera]);
    send(&mut applet, Message::CameraClose(path("/dev/video0")));
    assert_eq!(icons(&applet), vec![Icon::Recording, Icon::Camera]);
    send(&mut applet, Message::Tick);
    assert!(icons(&applet).is_empty());
}

#[test]
fn a_second_tick_changes_nothing() {
    let mut applet = applet();
    send(&mut applet, Message::CameraOpen(path("/dev/video0")));
    send(&mut applet, Message::MicrophoneAdd(7, "obs".to_string(), None));
    send(&mut applet, Message::Tick);
    let shown = icons(&applet);
    assert_eq!(shown, vec![Icon::Recording, Icon::Camera, Icon::Microphone]);
    send(&mut applet, Message::Tick);
    assert_eq!(icons(&applet), shown);
}

#[test]
fn every_stream_is_listed_once() {
    let mut applet = applet();
    for id in 1..=20 {
        send(&mut applet, Message::MicrophoneAdd(id, format!("m{:02}", id), None));
        send(&mut applet, Message::ScreenShareAdd(id, format!("s{:02}", id), None));
    }
    let names: Vec<String> = listed(&applet).into_iter().map(|(name, _)| name).collect();
    let mut expected: Vec<String> = (1..=20).map(|id| format!("m{:02}", id)).collect();
    expected.extend((1..=20).map(|id| format!("s{:02}", id)));
    assert_eq!(names, expected);
}

#[test]
fn unmatched_closes_do_not_hide_an_open() {
    let mut applet = applet();
    for _ in 0..3 {
        send(&mut applet, Message::CameraClose(path("/dev/video0")));
    }
    send(&mut applet, Message::CameraOpen(path("/dev/video0")));
    send(&mut applet, Message::CameraOpen(path("/dev/video0")));
    send(&mut applet, Message::CameraClose(path("/dev/video0")));
    send(&mut applet, Message::Tick);
    assert_eq!(icons(&applet), vec![Icon::Recording, Icon::Camera]);
    send(&mut applet, Message::CameraClose(path("/dev/video0")));
    send(&mut applet, Message::Tick);
    assert!(icons(&applet).is_empty());
}

#[test]
fn cameras_open_before_the_start_are_shown() {
    let mut applet = applet();
    let mut cameras = CameraTable::new();
    cameras.insert(path("/dev/video0"), (2, 0));
    send(&mut applet, Message::CameraPrevious(cameras));
    send(&mut applet, Message::Tick);
    assert_eq!(icons(&applet), vec![Icon::Recording, Icon::Camera]);
    send(&mut applet, Message::CameraClose(path("/dev/video0")));
    send(&mut applet, Message::CameraClose(path("/dev/video0")));
    send(&mut applet, Message::Tick);
    assert!(icons(&applet).is_empty());
}

#[test]
fn a_reset_forgets_a_device() {
    let mut applet = applet();
    send(&mut applet, Message::CameraOpen(path("/dev/video0")));
    send(&mut applet, Message::CameraReset(path("/dev/video1")));
    send(&mut applet, Message::Tick);
    assert_eq!(icons(&applet), vec![Icon::Recording, Icon::Camera]);
    send(&mut applet, Message::CameraReset(path("/dev/video0")));
    send(&mut applet, Message::Tick);
    assert!(icons(&applet).is_empty());
}

#[test]
fn counts_stay_within_range() {
    let mut applet = applet();
    let mut cameras = CameraTable::new();
    cameras.insert(path("a"), (i32::MAX, 0));
    cameras.insert(path("b"), (i32::MIN, i32::MIN));
    send(&mut applet, Message::CameraPrevious(cameras));
    assert!(!applet.accepts(&Message::CameraOpen(path("a"))));
    assert!(applet.accepts(&Message::CameraClose(path("a"))));
    assert!(applet.accepts(&Message::CameraOpen(path("b"))));
    assert!(!applet.accepts(&Message::CameraClose(path("b"))));
    assert!(applet.accepts(&Message::CameraOpen(path("c"))));
    assert!(applet.accepts(&Message::Tick));
}

#[test]
fn streams_are_shown_while_they_last() {
    let mut applet = applet();
    send(&mut applet, Message::MicrophoneAdd(7, "obs".to_string(), None));
    send(&mut applet, Message::ScreenShareAdd(8, "obs".to_string(), None));
    send(&mut applet, Message::Tick);
    assert_eq!(icons(&applet), vec![Icon::Recording, Icon::Microphone, Icon::ScreenShare]);
    send(&mut applet, Message::PipeWireNodeRemove(7));
    send(&mut applet, Message::Tick);
    assert_eq!(icons(&applet), vec![Icon::Recording, Icon::ScreenShare]);
    send(&mut applet, Message::PipeWireNodeRemove(8));
    send(&mut applet, Message::PipeWireNodeRemove(9));
    send(&mut applet, Message::Tick);
    assert!(icons(&applet).is_empty());
}

#[test]
fn all_icons_in_order() {
    let mut applet = applet();
    send(&mut applet, Message::ScreenShareAdd(8, "a".to_string(), None));
    send(&mut applet, Message::MicrophoneAdd(7, "b".to_string(), None));
    send(&mut applet, Message::CameraOpen(path("/dev/video0")));
    send(&mut applet, Message::Tick);
    assert_eq!(
        icons(&applet),
        vec![Icon::Recording, Icon::Camera, Icon::Microphone, Icon::ScreenShare]
    );
    assert_eq!(Icon::Recording.name(), None);
    assert_eq!(Icon::Camera.name(), Some("camera-web-symbolic"));
    assert_eq!(Icon::Microphone.name(), Some("audio-input-microphone-symbolic"));
    assert_eq!(Icon::ScreenShare.name(), Some("accessories-screenshot-symbolic"));
}

#[test]
fn the_panel_follows_its_orientation() {
    let mut applet = applet();
    send(&mut applet, Message::MicrophoneAdd(7, "b".to_string(), None));
    send(&mut applet, Message::Tick);
    let row = applet.panel(true, (4, 8)).unwrap();
    assert!(row.horizontal);
    assert_eq!((row.spacing, row.padding), (4, 4));
    assert!(matches!(row.on_press, Message::TogglePopup));
    let column = applet.panel(false, (4, 8)).unwrap();
    assert!(!column.horizontal);
    assert_eq!((column.spacing, column.padding), (8, 4));
    let wide = applet.panel(true, (9, 3)).unwrap();
    assert_eq!((wide.spacing, wide.padding), (9, 3));
}

#[test]
fn a_label_is_set_on_the_stream_that_is_there() {
    let mut applet = applet();
    send(&mut applet, Message::MicrophoneAdd(7, "obs".to_string(), None));
    send(&mut applet, Message::ScreenShareAdd(8, "zoom".to_string(), None));
    send(&mut applet, Message::NodeDetail(7, Some("Mic/Aux".to_string())));
    send(&mut applet, Message::NodeDetail(9, Some("nobody".to_string())));
    assert_eq!(
        listed(&applet),
        vec![
            ("obs".to_string(), Some("Mic/Aux".to_string())),
            ("zoom".to_string(), None),
        ]
    );
    send(&mut applet, Message::NodeDetail(7, None));
    send(&mut applet, Message::NodeDetail(8, Some("Window".to_string())));
    assert_eq!(
        listed(&applet),
        vec![
            ("obs".to_string(), None),
            ("zoom".to_string(), Some("Window".to_string())),
        ]
    );
}

#[test]
fn a_label_reaches_both_lists() {
    let mut applet = applet();
    send(&mut applet, Message::MicrophoneAdd(7, "a".to_string(), None));
    send(&mut applet, Message::ScreenShareAdd(7, "b".to_string(), None));
    send(&mut applet, Message::NodeDetail(7, Some("x".to_string())));
    assert_eq!(
        listed(&applet),
        vec![
            ("a".to_string(), Some("x".to_string())),
            ("b".to_string(), Some("x".to_string())),
        ]
    );
    send(&mut applet, Message::PipeWireNodeRemove(7));
    assert!(listed(&applet).is_empty());
}

#[test]
fn a_second_announcement_replaces_the_first() {
    let mut applet = applet();
    send(&mut applet, Message::MicrophoneAdd(7, "a".to_string(), Some("x".to_string())));
    send(&mut applet, Message::MicrophoneAdd(7, "b".to_string(), None));
    assert_eq!(listed(&applet), vec![("b".to_string(), None)]);
}

#[test]
fn the_popup_is_toggled() {
    let mut applet = applet();
    assert!(matches!(applet.update(Message::TogglePopup, 5), Action::OpenPopup(5)));
    assert!(matches!(applet.on_close_requested(5), Some(Message::ClosePopup(5))));
    assert!(applet.on_close_requested(6).is_none());
    assert!(matches!(applet.update(Message::TogglePopup, 6), Action::DestroyPopup(5)));
    assert!(applet.on_close_requested(5).is_none());
    assert!(matches!(applet.update(Message::TogglePopup, 7), Action::OpenPopup(7)));
}

#[test]
fn only_its_own_number_closes_the_popup() {
    let mut applet = applet();
    assert!(matches!(applet.update(Message::TogglePopup, 5), Action::OpenPopup(5)));
    send(&mut applet, Message::ClosePopup(6));
    assert!(applet.on_close_requested(5).is_some());
    let close = applet.on_close_requested(5).unwrap();
    send(&mut applet, close);
    assert!(applet.on_close_requested(5).is_none());
    assert!(matches!(applet.update(Message::TogglePopup, 8), Action::OpenPopup(8)));
}

#[test]
fn outside_actions() {
    let mut applet = applet();
    let now = Instant::now();
    assert!(
        matches!(applet.update(Message::RecTick(now), 0), Action::AdvanceTimeline(then) if then == now)
    );
    assert!(matches!(applet.update(Message::DisconnectNode(9), 0), Action::Disconnect(9)));
    assert!(matches!(applet.update(Message::KillProcess(4321), 0), Action::Terminate(4321)));
    assert!(matches!(
        applet.update(Message::KillProcess(2147483648), 0),
        Action::Terminate(i32::MIN)
    ));
    assert!(matches!(applet.update(Message::KillProcess(u32::MAX), 0), Action::Terminate(-1)));
}

#[test]
fn sources_of_messages() {
    let mut applet = applet();
    assert_eq!(
        applet.subscription(),
        vec![Feed::PipeWire, Feed::Devices, Feed::Settings, Feed::RecTick(50), Feed::Tick(2)]
    );
    send(&mut applet, Message::Config(Config { animated: false, refresh: 50 }));
    assert_eq!(
        applet.subscription(),
        vec![Feed::PipeWire, Feed::Devices, Feed::Settings, Feed::Tick(2)]
    );
}

#[test]
fn new_settings_turn_into_a_message() {
    let (message, report) = PrivacyIndicator::config_subscription(CONFIG, &vec![]);
    assert!(matches!(message, Message::Config(config) if config == CONFIG));
    assert!(!report);
    let (message, report) = PrivacyIndicator::config_subscription(CONFIG, &vec!["bad".to_string()]);
    assert!(matches!(message, Message::Config(config) if config == CONFIG));
    assert!(report);
}

#[test]
fn camera_rows_carry_the_device() {
    let mut applet = applet();
    send(&mut applet, Message::CameraOpen(path("/dev/video0")));
    send(&mut applet, Message::CameraOpen(DevicePath::new(b"/dev/video\xff")));
    let procs = vec![ProcEntry {
        name: b"10".to_vec(),
        fds: Some(vec![
            Some(b"/dev/video0".to_vec()),
            Some(b"/dev/video\xff".to_vec()),
            Some(b"/dev/video9".to_vec()),
        ]),
        comm: Some("obs\n".to_string()),
    }];
    let rows = applet.view_window(false, &procs);
    assert_eq!(rows.len(), 3);
    assert!(matches!(&rows[0], Row::Heading(title) if title == "Camera"));
    let mut labels: Vec<String> = vec![];
    for row in &rows[1..] {
        match row {
            Row::App { name, detail: Some(detail), kill: Some(Message::KillProcess(10)) } => {
                assert_eq!(name, "obs");
                labels.push(detail.clone());
            }
            other => panic!("{:?}", other),
        }
    }
    labels.sort();
    assert_eq!(labels, vec!["video0".to_string(), "video\u{fffd}".to_string()]);
    assert!(applet.view_window(true, &procs).is_empty());
}

#[test]
fn labels_are_set_on_every_program() {
    let mut apps = vec![
        AppInfo { name: Cow::Borrowed("a"), detail: None, id: 1 },
        AppInfo { name: Cow::Borrowed("b"), detail: Some(Cow::Borrowed("old")), id: 2 },
    ];
    tag_apps(&mut apps, Some("video0".to_string()));
    assert!(apps.iter().all(|app| app.detail.as_deref() == Some("video0")));
    assert_eq!((&*apps[0].name, apps[0].id), ("a", 1));
    assert_eq!((&*apps[1].name, apps[1].id), ("b", 2));
    tag_apps(&mut apps, None);
    assert!(apps.iter().all(|app| app.detail.is_none()));
}

#[test]
fn copies_of_messages_say_the_same() {
    let mut cameras = CameraTable::new();
    cameras.insert(path("a"), (4, -1));
    match Message::CameraPrevious(cameras).clone() {
        Message::CameraPrevious(copy) => assert_eq!(copy.get(&path("a")), Some((4, -1))),
        other => panic!("{:?}", other),
    }
    let message = Message::MicrophoneAdd(3, "obs".to_string(), Some("Mic".to_string()));
    assert_eq!(format!("{:?}", message.clone()), format!("{:?}", message));
}

#[test]
fn a_default_program_says_nothing() {
    let app = AppInfo::default();
    assert_eq!((&*app.name, app.detail.is_none(), app.id), ("", true, 0));
    assert_eq!(app.clone().id, 0);
}

#[test]
fn only_labels_are_sent_once() {
    assert!(!Message::NodeDetail(1, Some("a".to_string())).is_retried());
    assert!(!Message::NodeDetail(1, None).is_retried());
    assert!(Message::PipeWireNodeRemove(1).is_retried());
    assert!(Message::MicrophoneAdd(1, "a".to_string(), None).is_retried());
    assert!(Message::ScreenShareAdd(1, "a".to_string(), None).is_retried());
    assert!(Message::CameraPrevious(CameraTable::new()).is_retried());
    assert!(Message::CameraOpen(path("/dev/video0")).is_retried());
    assert!(Message::CameraClose(path("/dev/video0")).is_retried());
    assert!(Message::CameraReset(path("/dev/video0")).is_retried());
}
