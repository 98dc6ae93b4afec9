use privacy_indicator::applet::{AppInfo, Message};
use privacy_indicator::popup::{popup_rows, Row, Section};
use std::borrow::Cow;

fn app(name: &'static str, detail: Option<&'static str>, id: u32) -> AppInfo<'static> {
    AppInfo { name: Cow::Borrowed(name), detail: detail.map(Cow::Borrowed), id }
}

fn is_heading(row: &Row, text: &str) -> bool {
    matches!(row, Row::Heading(title) if title == text)
}

#[test]
fn an_empty_popup_has_no_rows() {
    assert!(popup_rows(&vec![], &vec![], &vec![]).is_empty());
}

#[test]
fn sections_follow_one_another() {
    let cameras = vec![app("obs", Some("video0"), 10), app("cheese", Some("video1"), 11)];
    let microphones = vec![app("obs", Some("Mic/Aux"), 50)];
    let screenshares = vec![app("zoom", None, 60)];
    let rows = popup_rows(&cameras, &microphones, &screenshares);
    assert_eq!(rows.len(), 9);
    assert!(is_heading(&rows[0], "Camera"));
    assert!(matches!(
        &rows[1],
        Row::App { name, detail: Some(detail), kill: Some(Message::KillProcess(10)) }
            if name == "obs" && detail == "video0"
    ));
    assert!(matches!(
        &rows[2],
        Row::App { name, detail: Some(detail), kill: Some(Message::KillProcess(11)) }
            if name == "cheese" && detail == "video1"
    ));
    assert!(matches!(rows[3], Row::Divider));
    assert!(is_heading(&rows[4], "Microphone"));
    assert!(matches!(
        &rows[5],
        Row::App { name, detail: Some(detail), kill: Some(Message::DisconnectNode(50)) }
            if name == "obs" && detail == "Mic/Aux"
    ));
    assert!(matches!(rows[6], Row::Divider));
    assert!(is_heading(&rows[7], "Screen Share"));
    assert!(matches!(
        &rows[8],
        Row::App { name, detail: None, kill: Some(Message::DisconnectNode(60)) } if name == "zoom"
    ));
}

#[test]
fn an_empty_section_is_left_out() {
    let rows = popup_rows(&vec![], &vec![app("a", None, 1)], &vec![]);
    assert_eq!(rows.len(), 2);
    assert!(is_heading(&rows[0], "Microphone"));
    let rows = popup_rows(&vec![app("a", None, 1)], &vec![], &vec![app("b", None, 2)]);
    assert_eq!(rows.len(), 5);
    assert!(is_heading(&rows[0], "Camera"));
    assert!(matches!(rows[2], Row::Divider));
    assert!(is_heading(&rows[3], "Screen Share"));
}

#[test]
fn id_zero_cannot_be_killed() {
    let rows = popup_rows(&vec![app("kernel", None, 0)], &vec![], &vec![]);
    assert!(matches!(rows[1], Row::App { kill: None, .. }));
    assert!(Section::Camera.kill(0).is_none());
    assert!(Section::Microphone.kill(0).is_none());
    assert!(Section::ScreenShare.kill(0).is_none());
}

#[test]
fn sections_have_titles() {
    assert_eq!(Section::Camera.label(), "Camera");
    assert_eq!(Section::Microphone.label(), "Microphone");
    assert_eq!(Section::ScreenShare.label(), "Screen Share");
}
