//! The applet's state, what changes it, and what it shows.

use std::borrow::Cow;
use std::collections::HashMap;
use std::time::Instant;
use vstd::prelude::*;
use vstd::std_specs::hash::*;

use crate::camera::{
    after_close, after_open, app_views, has_id, is_order_of, proc_views, procs_using_camera,
    total_in_use, users, CameraTable, ProcEntry, ProcView,
};
use crate::path::{file_name, file_name_of, path_views, DevicePath};
use crate::popup::{popup_rows, row_views, rows_of, Row};
use crate::text::{read_text, text_of};

verus! {

broadcast use group_hash_axioms;

/// A point in time, carried from the clock to the animation.
#[verifier::external_type_specification]
#[verifier::external_body]
pub struct ExInstant(Instant);

/// A program that shares something.
#[derive(Debug)]
pub struct AppInfo<'s> {
    pub name: Cow<'s, str>,
    /// A stream or device label that tells several entries of one program
    /// apart.
    pub detail: Option<Cow<'s, str>>,
    pub id: u32,
}

/// What an [`AppInfo`] says.
pub struct AppView {
    pub name: Seq<char>,
    pub detail: Option<Seq<char>>,
    pub id: u32,
}

impl<'s> View for AppInfo<'s> {
    type V = AppView;

    open spec fn view(&self) -> AppView {
        AppView {
            name: self.name@,
            detail: match self.detail {
                Some(detail) => Some(detail@),
                None => None,
            },
            id: self.id,
        }
    }
}

/// A copy of text that may be borrowed.
pub fn copy_text(text: &Cow<'_, str>) -> (r: String)
    ensures
        r@ == text@,
{
    match text {
        Cow::Borrowed(borrowed) => (*borrowed).to_owned(),
        Cow::Owned(owned) => owned.clone(),
    }
}

impl<'s> Default for AppInfo<'s> {
    fn default() -> (r: AppInfo<'s>)
        ensures
            r@ == (AppView { name: Seq::empty(), detail: None, id: 0 }),
    {
        AppInfo { name: Cow::Owned(String::new()), detail: None, id: 0 }
    }
}

impl<'s> Clone for AppInfo<'s> {
    fn clone(&self) -> (r: AppInfo<'s>)
        ensures
            r@ == self@,
    {
        AppInfo {
            name: Cow::Owned(copy_text(&self.name)),
            detail: match &self.detail {
                Some(detail) => Some(Cow::Owned(copy_text(detail))),
                None => None,
            },
            id: self.id,
        }
    }
}

/// The number by which a popup window is known.
pub type PopupId = u64;

/// The settings of the applet.
#[derive(Debug, Clone, Copy, PartialEq, Eq, Structural)]
pub struct Config {
    /// Whether the record icon is animated.
    pub animated: bool,
    /// Milliseconds between two frames of the animation.
    pub refresh: u64,
}

/// What is being shared, as of the last tick.
#[derive(Debug, Clone, Copy, PartialEq, Eq, Structural)]
pub struct Shared {
    pub microphone: bool,
    pub screenshare: bool,
    pub camera: bool,
}

/// Everything that happens to the applet.
#[derive(Debug)]
pub enum Message {
    Tick,
    RecTick(Instant),
    ScreenShareAdd(u32, String, Option<String>),
    MicrophoneAdd(u32, String, Option<String>),
    /// Sets the label of a stream once the stream's node reports it.
    NodeDetail(u32, Option<String>),
    PipeWireNodeRemove(u32),
    CameraOpen(DevicePath),
    CameraClose(DevicePath),
    CameraPrevious(CameraTable),
    CameraReset(DevicePath),
    DisconnectNode(u32),
    TogglePopup,
    ClosePopup(PopupId),
    KillProcess(u32),
    Config(Config),
}

/// What a [`Message`] says.
pub enum MessageView {
    Tick,
    RecTick(Instant),
    ScreenShareAdd(u32, Seq<char>, Option<Seq<char>>),
    MicrophoneAdd(u32, Seq<char>, Option<Seq<char>>),
    NodeDetail(u32, Option<Seq<char>>),
    PipeWireNodeRemove(u32),
    CameraOpen(Seq<u8>),
    CameraClose(Seq<u8>),
    CameraPrevious(Map<Seq<u8>, (int, int)>),
    CameraReset(Seq<u8>),
    DisconnectNode(u32),
    TogglePopup,
    ClosePopup(PopupId),
    KillProcess(u32),
    Config(Config),
}

/// The text of an optional string.
pub open spec fn text_view(text: Option<String>) -> Option<Seq<char>> {
    match text {
        Some(text) => Some(text@),
        None => None,
    }
}

impl View for Message {
    type V = MessageView;

    open spec fn view(&self) -> MessageView {
        match *self {
            Message::Tick => MessageView::Tick,
            Message::RecTick(now) => MessageView::RecTick(now),
            Message::ScreenShareAdd(id, name, detail) => MessageView::ScreenShareAdd(
                id,
                name@,
                text_view(detail),
            ),
            Message::MicrophoneAdd(id, name, detail) => MessageView::MicrophoneAdd(
                id,
                name@,
                text_view(detail),
            ),
            Message::NodeDetail(id, detail) => MessageView::NodeDetail(id, text_view(detail)),
            Message::PipeWireNodeRemove(id) => MessageView::PipeWireNodeRemove(id),
            Message::CameraOpen(path) => MessageView::CameraOpen(path@),
            Message::CameraClose(path) => MessageView::CameraClose(path@),
            Message::CameraPrevious(cameras) => MessageView::CameraPrevious(cameras@),
            Message::CameraReset(path) => MessageView::CameraReset(path@),
            Message::DisconnectNode(id) => MessageView::DisconnectNode(id),
            Message::TogglePopup => MessageView::TogglePopup,
            Message::ClosePopup(id) => MessageView::ClosePopup(id),
            Message::KillProcess(id) => MessageView::KillProcess(id),
            Message::Config(config) => MessageView::Config(config),
        }
    }
}

/// A copy of an optional string.
pub fn copy_detail(detail: &Option<String>) -> (r: Option<String>)
    ensures
        text_view(r) == text_view(*detail),
{
    match detail {
        Some(text) => Some(text.clone()),
        None => None,
    }
}

impl MessageView {
    /// Whether the message is sent again and again until there is room for it.
    /// A label is sent once: if it is lost, the next report of the node brings
    /// it.
    pub open spec fn retried(self) -> bool {
        !(self is NodeDetail)
    }
}

impl Message {
    /// Whether the message is sent again and again until there is room for it.
    pub fn is_retried(&self) -> (r: bool)
        ensures
            r == self@.retried(),
    {
        match self {
            Message::NodeDetail(_, _) => false,
            _ => true,
        }
    }
}

impl Clone for Message {
    fn clone(&self) -> (r: Message)
        ensures
            r@ == self@,
    {
        match self {
            Message::Tick => Message::Tick,
            Message::RecTick(now) => Message::RecTick(*now),
            Message::ScreenShareAdd(id, name, detail) => Message::ScreenShareAdd(
                *id,
                name.clone(),
                copy_detail(detail),
            ),
            Message::MicrophoneAdd(id, name, detail) => Message::MicrophoneAdd(
                *id,
                name.clone(),
                copy_detail(detail),
            ),
            Message::NodeDetail(id, detail) => Message::NodeDetail(*id, copy_detail(detail)),
            Message::PipeWireNodeRemove(id) => Message::PipeWireNodeRemove(*id),
            Message::CameraOpen(path) => Message::CameraOpen(path.clone()),
            Message::CameraClose(path) => Message::CameraClose(path.clone()),
            Message::CameraPrevious(cameras) => Message::CameraPrevious(cameras.clone()),
            Message::CameraReset(path) => Message::CameraReset(path.clone()),
            Message::DisconnectNode(id) => Message::DisconnectNode(*id),
            Message::TogglePopup => Message::TogglePopup,
            Message::ClosePopup(id) => Message::ClosePopup(*id),
            Message::KillProcess(id) => Message::KillProcess(*id),
            Message::Config(config) => Message::Config(*config),
        }
    }
}

/// What is to be done outside the applet after a message.
#[derive(Debug)]
pub enum Action {
    /// Nothing.
    Nothing,
    /// Move the animation on to this point in time.
    AdvanceTimeline(Instant),
    /// Close the popup.
    DestroyPopup(PopupId),
    /// Open a popup under this number.
    OpenPopup(PopupId),
    /// Have PipeWire destroy a node.
    Disconnect(u32),
    /// Ask the process of this raw id to terminate.
    Terminate(i32),
}

/// A stream of a program: the program's name, and the stream's label.
pub struct StreamView {
    pub name: Seq<char>,
    pub detail: Option<Seq<char>>,
}

/// What a stored stream says.
pub open spec fn stream_view(stream: (String, Option<String>)) -> StreamView {
    StreamView { name: stream.0@, detail: text_view(stream.1) }
}

/// What all stored streams say.
pub open spec fn stream_views(streams: Map<u32, (String, Option<String>)>) -> Map<u32, StreamView> {
    streams.map_values(|stream: (String, Option<String>)| stream_view(stream))
}

/// The applet's state.
pub struct IndicatorView {
    pub shared: Shared,
    pub microphones: Map<u32, StreamView>,
    pub screenshares: Map<u32, StreamView>,
    pub cameras: Map<Seq<u8>, (int, int)>,
    pub popup: Option<PopupId>,
    pub config: Config,
}

/// `streams` with a new label for one of them, if it is there.
pub open spec fn relabelled(
    streams: Map<u32, StreamView>,
    id: u32,
    detail: Option<Seq<char>>,
) -> Map<u32, StreamView> {
    if streams.contains_key(id) {
        streams.insert(id, StreamView { detail, ..streams[id] })
    } else {
        streams
    }
}

impl IndicatorView {
    /// The state of a new applet.
    pub open spec fn initial(config: Config) -> IndicatorView {
        IndicatorView {
            shared: Shared { microphone: false, screenshare: false, camera: false },
            microphones: Map::empty(),
            screenshares: Map::empty(),
            cameras: Map::empty(),
            popup: None,
            config,
        }
    }

    /// What is being shared now.
    pub open spec fn observed(self) -> Shared {
        Shared {
            microphone: !self.microphones.is_empty(),
            screenshare: !self.screenshares.is_empty(),
            camera: total_in_use(self.cameras) > 0,
        }
    }

    /// Whether the counts of the message's device stay within 32 bits.
    pub open spec fn accepts(self, message: MessageView) -> bool {
        match message {
            MessageView::CameraOpen(path) => self.cameras.contains_key(path)
                ==> self.cameras[path].0 < i32::MAX,
            MessageView::CameraClose(path) => self.cameras.contains_key(path)
                ==> self.cameras[path].0 > i32::MIN,
            _ => true,
        }
    }

    /// The state after a message. `fresh` is the number that a popup gets if
    /// one is opened.
    pub open spec fn after(self, message: MessageView, fresh: PopupId) -> IndicatorView {
        match message {
            MessageView::Tick => IndicatorView { shared: self.observed(), ..self },
            MessageView::CameraPrevious(cameras) => IndicatorView { cameras, ..self },
            MessageView::CameraOpen(path) => IndicatorView {
                cameras: after_open(self.cameras, path),
                ..self
            },
            MessageView::CameraClose(path) => IndicatorView {
                cameras: after_close(self.cameras, path),
                ..self
            },
            MessageView::CameraReset(path) => IndicatorView {
                cameras: self.cameras.remove(path),
                ..self
            },
            MessageView::ScreenShareAdd(id, name, detail) => IndicatorView {
                screenshares: self.screenshares.insert(id, StreamView { name, detail }),
                ..self
            },
            MessageView::MicrophoneAdd(id, name, detail) => IndicatorView {
                microphones: self.microphones.insert(id, StreamView { name, detail }),
                ..self
            },
            MessageView::NodeDetail(id, detail) => IndicatorView {
                microphones: relabelled(self.microphones, id, detail),
                screenshares: relabelled(self.screenshares, id, detail),
                ..self
            },
            MessageView::PipeWireNodeRemove(id) => IndicatorView {
                microphones: self.microphones.remove(id),
                screenshares: self.screenshares.remove(id),
                ..self
            },
            MessageView::TogglePopup => IndicatorView {
                popup: if self.popup is Some {
                    None
                } else {
                    Some(fresh)
                },
                ..self
            },
            MessageView::ClosePopup(id) => IndicatorView {
                popup: if self.popup == Some(id) {
                    None
                } else {
                    self.popup
                },
                ..self
            },
            MessageView::Config(config) => IndicatorView { config, ..self },
            MessageView::RecTick(_) => self,
            MessageView::DisconnectNode(_) => self,
            MessageView::KillProcess(_) => self,
        }
    }

    /// What a message asks to be done outside the applet.
    pub open spec fn action(self, message: MessageView, fresh: PopupId) -> Action {
        match message {
            MessageView::RecTick(now) => Action::AdvanceTimeline(now),
            MessageView::TogglePopup => match self.popup {
                Some(id) => Action::DestroyPopup(id),
                None => Action::OpenPopup(fresh),
            },
            MessageView::DisconnectNode(id) => Action::Disconnect(id),
            MessageView::KillProcess(id) => Action::Terminate(raw_pid(id)),
            _ => Action::Nothing,
        }
    }
}

/// The raw process id with the same 32 bits as `id`.
pub open spec fn raw_pid(id: u32) -> i32 {
    if id <= i32::MAX {
        id as i32
    } else {
        (id - 0x1_0000_0000) as i32
    }
}

/// The applet: what is being shared, by whom, and what of it is on display.
#[derive(Debug)]
pub struct PrivacyIndicator {
    shared: Shared,
    microphones: HashMap<u32, (String, Option<String>)>,
    screenshares: HashMap<u32, (String, Option<String>)>,
    cameras: CameraTable,
    popup: Option<PopupId>,
    config: Config,
}

impl View for PrivacyIndicator {
    type V = IndicatorView;

    closed spec fn view(&self) -> IndicatorView {
        IndicatorView {
            shared: self.shared,
            microphones: stream_views(self.microphones@),
            screenshares: stream_views(self.screenshares@),
            cameras: self.cameras@,
            popup: self.popup,
            config: self.config,
        }
    }
}

/// Storing a stream stores what it says.
proof fn lemma_stream_insert(
    streams: Map<u32, (String, Option<String>)>,
    id: u32,
    stream: (String, Option<String>),
)
    ensures
        stream_views(streams.insert(id, stream)) == stream_views(streams).insert(
            id,
            stream_view(stream),
        ),
{
    assert(stream_views(streams.insert(id, stream)) =~= stream_views(streams).insert(
        id,
        stream_view(stream),
    ));
}

/// Removing a stream removes what it says.
proof fn lemma_stream_remove(streams: Map<u32, (String, Option<String>)>, id: u32)
    ensures
        stream_views(streams.remove(id)) == stream_views(streams).remove(id),
{
    assert(stream_views(streams.remove(id)) =~= stream_views(streams).remove(id));
}

/// There are streams exactly if they say something.
proof fn lemma_stream_empty(streams: Map<u32, (String, Option<String>)>)
    ensures
        stream_views(streams).is_empty() == streams.is_empty(),
{
    assert(stream_views(streams).dom() =~= streams.dom());
}

/// Sets the label of a stream, if it is there.
fn relabel(streams: &mut HashMap<u32, (String, Option<String>)>, id: u32, detail: Option<String>)
    ensures
        stream_views(final(streams)@) == relabelled(
            stream_views(old(streams)@),
            id,
            text_view(detail),
        ),
{
    let ghost before = streams@;
    match streams.remove(&id) {
        Some(stream) => {
            let (name, _) = stream;
            let ghost new = (name, detail);
            streams.insert(id, (name, detail));
            proof {
                lemma_stream_insert(before.remove(id), id, new);
                lemma_stream_remove(before, id);
                assert(stream_views(streams@) =~= relabelled(
                    stream_views(before),
                    id,
                    text_view(detail),
                ));
            }
        },
        None => {
            assert(before.remove(id) =~= before);
        },
    }
}

impl PrivacyIndicator {
    /// A new applet with the given settings.
    pub fn init(flags: Config) -> (r: PrivacyIndicator)
        ensures
            r@ == IndicatorView::initial(flags),
    {
        let r = PrivacyIndicator {
            shared: Shared { microphone: false, screenshare: false, camera: false },
            microphones: HashMap::new(),
            screenshares: HashMap::new(),
            cameras: CameraTable::new(),
            popup: None,
            config: flags,
        };
        assert(r@.microphones =~= Map::<u32, StreamView>::empty());
        assert(r@.screenshares =~= Map::<u32, StreamView>::empty());
        r
    }

    /// The message that a request to close window `id` turns into: none unless
    /// it is the popup.
    pub fn on_close_requested(&self, id: PopupId) -> (r: Option<Message>)
        ensures
            match r {
                Some(message) => self@.popup == Some(id) && message@ == MessageView::ClosePopup(id),
                None => self@.popup != Some(id),
            },
    {
        match self.popup {
            Some(stored) if stored == id => Some(Message::ClosePopup(id)),
            _ => None,
        }
    }

    /// Whether [`update`](Self::update) can take this message.
    pub fn accepts(&self, message: &Message) -> (r: bool)
        ensures
            r == self@.accepts(message@),
    {
        match message {
            Message::CameraOpen(path) => match self.cameras.get(path) {
                Some(counts) => counts.0 < i32::MAX,
                None => true,
            },
            Message::CameraClose(path) => match self.cameras.get(path) {
                Some(counts) => counts.0 > i32::MIN,
                None => true,
            },
            _ => true,
        }
    }

    /// Takes a message in and says what is to be done about it. `fresh` is the
    /// number that a popup gets if one is opened.
    pub fn update(&mut self, message: Message, fresh: PopupId) -> (r: Action)
        requires
            old(self)@.accepts(message@),
        ensures
            final(self)@ == old(self)@.after(message@, fresh),
            r == old(self)@.action(message@, fresh),
    {
        match message {
            Message::Tick => {
                proof {
                    lemma_stream_empty(self.microphones@);
                    lemma_stream_empty(self.screenshares@);
                }
                self.shared = Shared {
                    microphone: !self.microphones.is_empty(),
                    screenshare: !self.screenshares.is_empty(),
                    camera: self.cameras.in_use(),
                };
                Action::Nothing
            },
            Message::CameraPrevious(cameras) => {
                self.cameras = cameras;
                Action::Nothing
            },
            Message::CameraOpen(path) => {
                self.cameras.open(path);
                Action::Nothing
            },
            Message::CameraClose(path) => {
                self.cameras.close(path);
                Action::Nothing
            },
            Message::CameraReset(path) => {
                self.cameras.remove(&path);
                Action::Nothing
            },
            Message::ScreenShareAdd(id, name, detail) => {
                proof {
                    lemma_stream_insert(self.screenshares@, id, (name, detail));
                }
                self.screenshares.insert(id, (name, detail));
                Action::Nothing
            },
            Message::MicrophoneAdd(id, name, detail) => {
                proof {
                    lemma_stream_insert(self.microphones@, id, (name, detail));
                }
                self.microphones.insert(id, (name, detail));
                Action::Nothing
            },
            Message::NodeDetail(id, detail) => {
                // The node lives in whichever map its Add message filled.
                relabel(&mut self.microphones, id, copy_detail(&detail));
                relabel(&mut self.screenshares, id, detail);
                Action::Nothing
            },
            Message::PipeWireNodeRemove(id) => {
                proof {
                    lemma_stream_remove(self.screenshares@, id);
                    lemma_stream_remove(self.microphones@, id);
                }
                self.screenshares.remove(&id);
                self.microphones.remove(&id);
                Action::Nothing
            },
            Message::RecTick(now) => Action::AdvanceTimeline(now),
            Message::TogglePopup => {
                let shown = self.popup.take();
                match shown {
                    Some(id) => Action::DestroyPopup(id),
                    None => {
                        self.popup = Some(fresh);
                        Action::OpenPopup(fresh)
                    },
                }
            },
            Message::ClosePopup(id) => {
                let stored = match self.popup {
                    Some(stored) => stored == id,
                    None => false,
                };
                if stored {
                    self.popup = None;
                }
                Action::Nothing
            },
            Message::DisconnectNode(id) => Action::Disconnect(id),
            Message::KillProcess(pid) => {
                assert(pid <= 0x7fff_ffff ==> pid as i32 == pid) by (bit_vector);
                assert(pid > 0x7fff_ffff ==> pid as i32 == pid - 0x1_0000_0000) by (bit_vector);
                Action::Terminate(pid as i32)
            },
            Message::Config(config) => {
                self.config = config;
                Action::Nothing
            },
        }
    }
}

/// An icon of the panel.
#[derive(Debug, Clone, Copy, PartialEq, Eq, Structural)]
pub enum Icon {
    /// The record icon, which may be animated.
    Recording,
    Camera,
    Microphone,
    ScreenShare,
}

impl Icon {
    /// The name of the icon in the icon theme. The record icon is drawn.
    pub open spec fn theme_name(self) -> Option<Seq<char>> {
        match self {
            Icon::Recording => None,
            Icon::Camera => Some("camera-web-symbolic"@),
            Icon::Microphone => Some("audio-input-microphone-symbolic"@),
            Icon::ScreenShare => Some("accessories-screenshot-symbolic"@),
        }
    }

    /// The name of the icon in the icon theme. The record icon is drawn.
    pub fn name(self) -> (r: Option<&'static str>)
        ensures
            match r {
                Some(name) => self.theme_name() == Some(name@),
                None => self.theme_name() is None,
            },
    {
        match self {
            Icon::Recording => None,
            Icon::Camera => Some("camera-web-symbolic"),
            Icon::Microphone => Some("audio-input-microphone-symbolic"),
            Icon::ScreenShare => Some("accessories-screenshot-symbolic"),
        }
    }
}

/// What the panel shows while something is being shared.
#[derive(Debug)]
pub struct Panel {
    /// The icons, from the left or from the top.
    pub icons: Vec<Icon>,
    /// Whether they stand in a row rather than in a column.
    pub horizontal: bool,
    /// The space between two icons.
    pub spacing: u16,
    /// The space around them.
    pub padding: u16,
    /// What a press on the panel sends.
    pub on_press: Message,
}

/// `icons` and one more, if `shown`.
pub open spec fn with_icon(icons: Seq<Icon>, shown: bool, icon: Icon) -> Seq<Icon> {
    if shown {
        icons.push(icon)
    } else {
        icons
    }
}

/// The icons for what is being shared.
pub open spec fn icons_of(shared: Shared) -> Seq<Icon> {
    let icons = seq![Icon::Recording];
    let icons = with_icon(icons, shared.camera, Icon::Camera);
    let icons = with_icon(icons, shared.microphone, Icon::Microphone);
    with_icon(icons, shared.screenshare, Icon::ScreenShare)
}

/// A source of messages.
#[derive(Debug, Clone, Copy, PartialEq, Eq, Structural)]
pub enum Feed {
    /// The nodes of PipeWire.
    PipeWire,
    /// The video devices.
    Devices,
    /// Changes of the settings.
    Settings,
    /// A frame of the animation every so many milliseconds.
    RecTick(u64),
    /// A tick every so many seconds.
    Tick(u64),
}

/// The sources that the applet listens to.
pub open spec fn feeds(config: Config) -> Seq<Feed> {
    if config.animated {
        seq![
            Feed::PipeWire,
            Feed::Devices,
            Feed::Settings,
            Feed::RecTick(config.refresh),
            Feed::Tick(2),
        ]
    } else {
        seq![Feed::PipeWire, Feed::Devices, Feed::Settings, Feed::Tick(2)]
    }
}

/// `apps` lists each stream once, under its id.
pub open spec fn lists(apps: Seq<AppView>, streams: Map<u32, StreamView>) -> bool {
    &&& forall|i: int|
        0 <= i < apps.len() ==> {
            let app = #[trigger] apps[i];
            streams.contains_key(app.id) && streams[app.id] == StreamView {
                name: app.name,
                detail: app.detail,
            }
        }
    &&& forall|id: u32| #[trigger] streams.contains_key(id) ==> has_id(apps, id)
    &&& forall|i: int, j: int|
        0 <= i < j < apps.len() ==> (#[trigger] apps[i]).id != (#[trigger] apps[j]).id
}

/// The label of a device, such as `video0`.
pub open spec fn device_label(path: Seq<u8>) -> Option<Seq<char>> {
    match file_name_of(path) {
        Some(name) => Some(text_of(name)),
        None => None,
    }
}

/// `apps`, each with the label of the device that it uses.
pub open spec fn tagged(apps: Seq<AppView>, label: Option<Seq<char>>) -> Seq<AppView> {
    apps.map_values(|app: AppView| AppView { detail: label, ..app })
}

/// The programs that use one of the devices, device by device.
pub open spec fn camera_apps(
    order: Seq<Seq<u8>>,
    sandboxed: bool,
    procs: Seq<ProcView>,
) -> Seq<AppView>
    decreases order.len(),
{
    if sandboxed || order.len() == 0 {
        Seq::empty()
    } else {
        camera_apps(order.drop_last(), sandboxed, procs) + tagged(
            users(procs, order.last()),
            device_label(order.last()),
        )
    }
}

/// Sets the label of the device that each program uses.
pub fn tag_apps(apps: &mut Vec<AppInfo<'_>>, label: Option<String>)
    ensures
        app_views(final(apps)@) == tagged(app_views(old(apps)@), text_view(label)),
{
    let ghost before = app_views(apps@);
    let ghost wanted = tagged(before, text_view(label));
    let mut i: usize = 0;
    while i < apps.len()
        invariant
            i <= apps@.len(),
            apps@.len() == before.len(),
            wanted == tagged(before, text_view(label)),
            forall|j: int| 0 <= j < i ==> (#[trigger] apps@[j])@ == wanted[j],
            forall|j: int| i <= j < apps@.len() ==> (#[trigger] apps@[j])@ == before[j],
        decreases apps@.len() - i,
    {
        let tagged_app = AppInfo {
            name: Cow::Owned(copy_text(&apps[i].name)),
            detail: match copy_detail(&label) {
                Some(text) => Some(Cow::Owned(text)),
                None => None,
            },
            id: apps[i].id,
        };
        assert(apps@[i as int]@ == before[i as int]);
        apps.set(i, tagged_app);
        i = i + 1;
    }
    assert(app_views(apps@) =~= wanted);
}

/// The programs of a table of streams, in any order.
fn stream_apps<'s>(streams: &'s HashMap<u32, (String, Option<String>)>) -> (r: Vec<AppInfo<'s>>)
    ensures
        lists(app_views(r@), stream_views(streams@)),
{
    let mut apps: Vec<AppInfo<'s>> = Vec::new();
    let walk = streams.iter();
    assert(vstd::std_specs::iter::IteratorSpec::remaining(&spec_hash_map_iter(streams)).no_duplicates());
    for pair in it: walk
        invariant
            it.seq() == vstd::std_specs::iter::IteratorSpec::remaining(&spec_hash_map_iter(streams)),
            apps@.len() == it.index(),
            forall|j: int|
                0 <= j < apps@.len() ==> {
                    let (id, stream) = it.seq()[j];
                    (#[trigger] apps@[j])@ == (AppView {
                        name: stream_view(*stream).name,
                        detail: stream_view(*stream).detail,
                        id: *id,
                    })
                },
    {
        let (id, stream) = pair;
        apps.push(
            AppInfo {
                name: Cow::Borrowed(stream.0.as_str()),
                detail: match &stream.1 {
                    Some(detail) => Some(Cow::Borrowed(detail.as_str())),
                    None => None,
                },
                id: *id,
            },
        );
    }
    proof {
        let walked = vstd::std_specs::iter::IteratorSpec::remaining(&spec_hash_map_iter(streams));
        let views = app_views(apps@);
        let said = stream_views(streams@);
        assert forall|i: int| 0 <= i < views.len() implies {
            let app = #[trigger] views[i];
            said.contains_key(app.id) && said[app.id] == StreamView {
                name: app.name,
                detail: app.detail,
            }
        } by {
            assert(streams@.contains_key(*walked[i].0));
            assert(apps@[i]@ == views[i]);
        }
        assert forall|id: u32| #[trigger] said.contains_key(id) implies has_id(views, id) by {
            assert(streams@.contains_key(id));
            let i = choose|i: int| 0 <= i < walked.len() && walked[i] == (&id, &streams@[id]);
            assert(apps@[i]@ == views[i]);
        }
        assert forall|i: int, j: int| 0 <= i < j < views.len() implies (#[trigger] views[i]).id != (
        #[trigger] views[j]).id by {
            assert(apps@[i]@ == views[i] && apps@[j]@ == views[j]);
            assert(walked[i] != walked[j]);
            assert(streams@[*walked[i].0] == *walked[i].1);
            assert(streams@[*walked[j].0] == *walked[j].1);
        }
    }
    apps
}

/// The programs that use one of the devices, device by device.
pub fn camera_users(
    paths: &Vec<DevicePath>,
    sandboxed: bool,
    procs: &Vec<ProcEntry>,
) -> (r: Vec<AppInfo<'static>>)
    ensures
        app_views(r@) == camera_apps(path_views(paths@), sandboxed, proc_views(procs@)),
{
    let mut all: Vec<AppInfo<'static>> = Vec::new();
    let ghost order = path_views(paths@);
    let ghost views = proc_views(procs@);
    let mut i: usize = 0;
    assert(order.take(0) =~= Seq::<Seq<u8>>::empty());
    assert(app_views(all@) =~= Seq::<AppView>::empty());
    while i < paths.len()
        invariant
            i <= paths@.len(),
            order == path_views(paths@),
            views == proc_views(procs@),
            app_views(all@) == camera_apps(order.take(i as int), sandboxed, views),
        decreases paths@.len() - i,
    {
        let path = &paths[i];
        let label: Option<String> = match file_name(path.as_bytes()) {
            Some(name) => Some(read_text(name.as_slice())),
            None => None,
        };
        let mut apps = procs_using_camera(sandboxed, procs, path);
        tag_apps(&mut apps, label);
        let ghost shown = order.take(i + 1);
        assert(shown.drop_last() =~= order.take(i as int));
        assert(shown.last() == path@);
        let ghost before = app_views(all@);
        let ghost more = app_views(apps@);
        let mut k: usize = 0;
        assert(before + more.take(0) =~= before);
        while k < apps.len()
            invariant
                k <= apps@.len(),
                more == app_views(apps@),
                app_views(all@) == before + more.take(k as int),
            decreases apps@.len() - k,
        {
            let ghost so_far = app_views(all@);
            let app: AppInfo<'static> = AppInfo {
                name: Cow::Owned(copy_text(&apps[k].name)),
                detail: match &apps[k].detail {
                    Some(detail) => Some(Cow::Owned(copy_text(detail))),
                    None => None,
                },
                id: apps[k].id,
            };
            assert(app@ == more[k as int]);
            all.push(app);
            assert(app_views(all@) =~= so_far.push(app@));
            assert(app_views(all@) =~= before + more.take(k + 1));
            k = k + 1;
        }
        assert(more.take(k as int) =~= more);
        assert(app_views(all@) =~= camera_apps(shown, sandboxed, views));
        i = i + 1;
    }
    assert(order.take(i as int) =~= order);
    all
}

impl PrivacyIndicator {
    /// What the panel shows: nothing unless something is being shared. `pad`
    /// is the suggested padding along a horizontal and along a vertical panel.
    pub fn panel(&self, horizontal: bool, pad: (u16, u16)) -> (r: Option<Panel>)
        ensures
            r is None <==> !self@.shared.microphone && !self@.shared.screenshare
                && !self@.shared.camera,
            r matches Some(panel) ==> {
                &&& panel.icons@ == icons_of(self@.shared)
                &&& panel.horizontal == horizontal
                &&& panel.spacing == if horizontal {
                    pad.0
                } else {
                    pad.1
                }
                &&& panel.padding == if pad.0 < pad.1 {
                    pad.0
                } else {
                    pad.1
                }
                &&& panel.on_press@ == MessageView::TogglePopup
            },
    {
        let Shared { microphone, screenshare, camera } = self.shared;
        if !microphone && !screenshare && !camera {
            return None;
        }
        let mut icons: Vec<Icon> = Vec::new();
        icons.push(Icon::Recording);
        assert(icons@ =~= seq![Icon::Recording]);
        if camera {
            icons.push(Icon::Camera);
        }
        if microphone {
            icons.push(Icon::Microphone);
        }
        if screenshare {
            icons.push(Icon::ScreenShare);
        }
        Some(
            Panel {
                icons,
                horizontal,
                spacing: if horizontal {
                    pad.0
                } else {
                    pad.1
                },
                padding: if pad.0 < pad.1 {
                    pad.0
                } else {
                    pad.1
                },
                on_press: Message::TogglePopup,
            },
        )
    }

    /// The rows of the popup. `procs` is what `/proc` holds at the moment;
    /// `sandboxed` says that it does not show the processes of others.
    pub fn view_window(&self, sandboxed: bool, procs: &Vec<ProcEntry>) -> (r: Vec<Row>)
        ensures
            exists|order: Seq<Seq<u8>>, microphones: Seq<AppView>, screenshares: Seq<AppView>|
                {
                    &&& #[trigger] is_order_of(order, self@.cameras)
                    &&& #[trigger] lists(microphones, self@.microphones)
                    &&& #[trigger] lists(screenshares, self@.screenshares)
                    &&& row_views(r@) == rows_of(
                        camera_apps(order, sandboxed, proc_views(procs@)),
                        microphones,
                        screenshares,
                    )
                },
    {
        let microphones = stream_apps(&self.microphones);
        let screenshares = stream_apps(&self.screenshares);
        let paths = self.cameras.paths();
        let cameras = camera_users(&paths, sandboxed, procs);
        let rows = popup_rows(&cameras, &microphones, &screenshares);
        assert(is_order_of(path_views(paths@), self@.cameras));
        assert(lists(app_views(microphones@), self@.microphones));
        assert(lists(app_views(screenshares@), self@.screenshares));
        rows
    }

    /// The sources of messages that the applet listens to.
    pub fn subscription(&self) -> (r: Vec<Feed>)
        ensures
            r@ == feeds(self@.config),
    {
        let mut r: Vec<Feed> = Vec::new();
        r.push(Feed::PipeWire);
        r.push(Feed::Devices);
        r.push(Feed::Settings);
        if self.config.animated {
            r.push(Feed::RecTick(self.config.refresh));
        }
        r.push(Feed::Tick(2));
        assert(r@ =~= feeds(self@.config));
        r
    }

    /// What a change of the settings turns into: a message, and whether errors
    /// are to be reported.
    pub fn config_subscription(config: Config, errors: &Vec<String>) -> (r: (Message, bool))
        ensures
            r.0@ == MessageView::Config(config),
            r.1 == (errors@.len() > 0),
    {
        (Message::Config(config), errors.len() > 0)
    }
}

} // verus!
