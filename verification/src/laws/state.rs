//! What each message does to the applet, and what the panel shows of it.

use vstd::prelude::*;

use crate::applet::{
    feeds, icons_of, Action, Config, Feed, Icon, IndicatorView, MessageView, PopupId, Shared,
    StreamView,
};
use crate::camera::{after_close, after_open, lemma_total_in_use_remove, total_in_use};

verus! {

/// A new applet shows nothing, knows of nothing, has no popup and keeps the
/// settings that it is given.
pub proof fn law_new_applet(config: Config, id: u32, path: Seq<u8>)
    ensures
        ({
            let state = IndicatorView::initial(config);
            &&& !state.shared.camera && !state.shared.microphone && !state.shared.screenshare
            &&& !state.microphones.contains_key(id)
            &&& !state.screenshares.contains_key(id)
            &&& !state.cameras.contains_key(path)
            &&& state.popup is None
            &&& state.config == config
        }),
{
}

/// A message changes only what it is about.
pub proof fn law_messages_change_what_they_are_about(
    state: IndicatorView,
    message: MessageView,
    fresh: PopupId,
)
    ensures
        ({
            let after = state.after(message, fresh);
            &&& !(message is Tick) ==> after.shared == state.shared
            &&& !(message is MicrophoneAdd || message is NodeDetail || message is PipeWireNodeRemove)
                ==> after.microphones == state.microphones
            &&& !(message is ScreenShareAdd || message is NodeDetail
                || message is PipeWireNodeRemove) ==> after.screenshares == state.screenshares
            &&& !(message is CameraOpen || message is CameraClose || message is CameraReset
                || message is CameraPrevious) ==> after.cameras == state.cameras
            &&& !(message is TogglePopup || message is ClosePopup) ==> after.popup == state.popup
            &&& !(message is Config) ==> after.config == state.config
        }),
{
}

/// A tick shows the microphone while there is a microphone stream, the screen
/// share while there is such a stream, and the camera while the opens outweigh
/// the closes.
pub proof fn law_tick_shows_what_is_there(state: IndicatorView, fresh: PopupId)
    ensures
        ({
            let shared = state.after(MessageView::Tick, fresh).shared;
            &&& shared.microphone <==> exists|id: u32| #[trigger] state.microphones.contains_key(id)
            &&& shared.screenshare <==> exists|id: u32| #[trigger]
                state.screenshares.contains_key(id)
            &&& shared.camera <==> total_in_use(state.cameras) > 0
        }),
{
    if !state.microphones.is_empty() {
        let id = choose|id: u32| state.microphones.dom().contains(id);
        assert(state.microphones.contains_key(id));
    }
    if !state.screenshares.is_empty() {
        let id = choose|id: u32| state.screenshares.dom().contains(id);
        assert(state.screenshares.contains_key(id));
    }
}

/// What is in use is the sum of what each device has open above its lowest
/// count.
pub proof fn law_use_adds_up(cameras: Map<Seq<u8>, (int, int)>, path: Seq<u8>)
    requires
        cameras.dom().finite(),
    ensures
        total_in_use(Map::<Seq<u8>, (int, int)>::empty()) == 0,
        cameras.contains_key(path) ==> total_in_use(cameras) == total_in_use(cameras.remove(path))
            + (cameras[path].0 - cameras[path].1),
{
    assert(Map::<Seq<u8>, (int, int)>::empty().dom() =~= Set::<Seq<u8>>::empty());
    if cameras.contains_key(path) {
        lemma_total_in_use_remove(cameras, path);
    }
}

/// The count of a device: its opens less its closes, none for a device that the
/// applet does not know of.
pub open spec fn count(cameras: Map<Seq<u8>, (int, int)>, path: Seq<u8>) -> (int, int) {
    if cameras.contains_key(path) {
        cameras[path]
    } else {
        (0, 0)
    }
}

/// An open raises the count of its device by one and leaves the lowest count. A
/// close lowers the count by one, and the lowest count with it if it goes below;
/// one on a device that the applet does not know of leaves both at zero. Either
/// makes the device known and leaves every other as it is.
pub proof fn law_opens_and_closes_are_counted(
    state: IndicatorView,
    path: Seq<u8>,
    other: Seq<u8>,
    fresh: PopupId,
)
    ensures
        ({
            let opened = state.after(MessageView::CameraOpen(path), fresh).cameras;
            let closed = state.after(MessageView::CameraClose(path), fresh).cameras;
            let (opens, lowest) = count(state.cameras, path);
            &&& opened.contains_key(path) && closed.contains_key(path)
            &&& opened[path].0 == opens + 1
            &&& opened[path].1 == lowest
            &&& state.cameras.contains_key(path) ==> {
                &&& closed[path].0 == opens - 1
                &&& closed[path].1 <= lowest && closed[path].1 <= opens - 1
                &&& closed[path].1 == lowest || closed[path].1 == opens - 1
            }
            &&& !state.cameras.contains_key(path) ==> closed[path] == (0int, 0int)
            &&& other != path ==> {
                &&& opened.contains_key(other) == state.cameras.contains_key(other)
                &&& closed.contains_key(other) == state.cameras.contains_key(other)
                &&& state.cameras.contains_key(other) ==> opened[other] == state.cameras[other]
                    && closed[other] == state.cameras[other]
            }
        }),
{
    assert(state.after(MessageView::CameraOpen(path), fresh).cameras == after_open(
        state.cameras,
        path,
    ));
    assert(state.after(MessageView::CameraClose(path), fresh).cameras == after_close(
        state.cameras,
        path,
    ));
}

/// A report of what was open before takes the place of all that was counted, and
/// a reset takes its device away and no other.
pub proof fn law_reports_and_resets(
    state: IndicatorView,
    cameras: Map<Seq<u8>, (int, int)>,
    path: Seq<u8>,
    other: Seq<u8>,
    fresh: PopupId,
)
    ensures
        state.after(MessageView::CameraPrevious(cameras), fresh).cameras == cameras,
        ({
            let after = state.after(MessageView::CameraReset(path), fresh).cameras;
            &&& !after.contains_key(path)
            &&& other != path ==> {
                &&& after.contains_key(other) == state.cameras.contains_key(other)
                &&& state.cameras.contains_key(other) ==> after[other] == state.cameras[other]
            }
        }),
{
}

/// Whether `after` has what `before` has for every id but `id`.
pub open spec fn same_but_for(
    before: Map<u32, StreamView>,
    after: Map<u32, StreamView>,
    id: u32,
) -> bool {
    forall|other: u32|
        #![trigger after.contains_key(other)]
        #![trigger before.contains_key(other)]
        other != id ==> {
            &&& after.contains_key(other) == before.contains_key(other)
            &&& before.contains_key(other) ==> after[other] == before[other]
        }
}

/// A stream is added under its id with the name and label that it comes with, to
/// the streams of its own kind, and a removed one is taken from both kinds. No
/// other stream is touched.
pub proof fn law_streams_come_and_go(
    state: IndicatorView,
    id: u32,
    name: Seq<char>,
    detail: Option<Seq<char>>,
    fresh: PopupId,
)
    ensures
        ({
            let heard = state.after(MessageView::MicrophoneAdd(id, name, detail), fresh).microphones;
            let seen = state.after(
                MessageView::ScreenShareAdd(id, name, detail),
                fresh,
            ).screenshares;
            let gone = state.after(MessageView::PipeWireNodeRemove(id), fresh);
            &&& heard.contains_key(id) && heard[id].name == name && heard[id].detail == detail
            &&& same_but_for(state.microphones, heard, id)
            &&& seen.contains_key(id) && seen[id].name == name && seen[id].detail == detail
            &&& same_but_for(state.screenshares, seen, id)
            &&& !gone.microphones.contains_key(id) && !gone.screenshares.contains_key(id)
            &&& same_but_for(state.microphones, gone.microphones, id)
            &&& same_but_for(state.screenshares, gone.screenshares, id)
        }),
{
}

/// A label is set on the stream of its id, of whichever kind it is, and on no
/// other. It keeps the stream's name and makes no stream.
pub proof fn law_labels_are_patched_in(
    state: IndicatorView,
    id: u32,
    detail: Option<Seq<char>>,
    fresh: PopupId,
)
    ensures
        ({
            let after = state.after(MessageView::NodeDetail(id, detail), fresh);
            &&& after.microphones.contains_key(id) == state.microphones.contains_key(id)
            &&& after.screenshares.contains_key(id) == state.screenshares.contains_key(id)
            &&& state.microphones.contains_key(id) ==> after.microphones[id].detail == detail
                && after.microphones[id].name == state.microphones[id].name
            &&& state.screenshares.contains_key(id) ==> after.screenshares[id].detail == detail
                && after.screenshares[id].name == state.screenshares[id].name
            &&& same_but_for(state.microphones, after.microphones, id)
            &&& same_but_for(state.screenshares, after.screenshares, id)
        }),
{
}

/// New settings take the place of the old ones. A popup opens under the new
/// number if there is none, and closes if there is one or if its own number is
/// closed.
pub proof fn law_settings_and_popup(
    state: IndicatorView,
    config: Config,
    id: PopupId,
    fresh: PopupId,
)
    ensures
        state.after(MessageView::Config(config), fresh).config == config,
        state.popup is None ==> state.after(MessageView::TogglePopup, fresh).popup == Some(fresh),
        state.popup is Some ==> state.after(MessageView::TogglePopup, fresh).popup is None,
        state.popup == Some(id) ==> state.after(MessageView::ClosePopup(id), fresh).popup is None,
        state.popup != Some(id) ==> state.after(MessageView::ClosePopup(id), fresh).popup
            == state.popup,
{
}

/// What is to be done outside: the animation moves on at its ticks, a toggle
/// opens or destroys the popup, a node is disconnected by its own id, and a
/// process is ended by its own id, read as a number of 32 bits with a sign.
/// Nothing is to be done about any other message.
pub proof fn law_actions(state: IndicatorView, message: MessageView, fresh: PopupId)
    ensures
        match state.action(message, fresh) {
            Action::Nothing => !(message is RecTick || message is TogglePopup
                || message is DisconnectNode || message is KillProcess),
            Action::AdvanceTimeline(now) => message == MessageView::RecTick(now),
            Action::DestroyPopup(id) => message is TogglePopup && state.popup == Some(id),
            Action::OpenPopup(id) => message is TogglePopup && state.popup is None && id == fresh,
            Action::Disconnect(id) => message == MessageView::DisconnectNode(id),
            Action::Terminate(pid) => message matches MessageView::KillProcess(id) && (pid == id
                || pid == id - 0x1_0000_0000),
        },
{
}

/// Every message is taken but an open of a device whose count is the highest of
/// 32 bits, or a close of one whose count is the lowest.
pub proof fn law_messages_are_taken(state: IndicatorView, message: MessageView)
    ensures
        state.accepts(message) <==> match message {
            MessageView::CameraOpen(path) => count(state.cameras, path).0 < 0x7fff_ffff
                || !state.cameras.contains_key(path),
            MessageView::CameraClose(path) => count(state.cameras, path).0 > -0x8000_0000
                || !state.cameras.contains_key(path),
            _ => true,
        },
{
}

/// Only a label is not sent again when there was no room for it.
pub proof fn law_what_is_sent_again(message: MessageView)
    ensures
        message.retried() <==> !(message is NodeDetail),
{
}

/// Where an icon comes on the panel.
pub open spec fn rank(icon: Icon) -> int {
    match icon {
        Icon::Recording => 0,
        Icon::Camera => 1,
        Icon::Microphone => 2,
        Icon::ScreenShare => 3,
    }
}

/// The icons stand in a fixed order, each at most once, the record icon always
/// and each other exactly if what it stands for is shared.
pub proof fn law_icons_in_order(shared: Shared, icon: Icon)
    ensures
        forall|i: int, j: int|
            0 <= i < j < icons_of(shared).len() ==> rank(#[trigger] icons_of(shared)[i]) < rank(
                #[trigger] icons_of(shared)[j],
            ),
        icons_of(shared).contains(icon) <==> match icon {
            Icon::Recording => true,
            Icon::Camera => shared.camera,
            Icon::Microphone => shared.microphone,
            Icon::ScreenShare => shared.screenshare,
        },
{
    let icons = icons_of(shared);
    assert(icons[0] == Icon::Recording);
    if shared.camera {
        assert(icons[1] == Icon::Camera);
    }
    if shared.microphone {
        assert(icons[if shared.camera {
            2
        } else {
            1int
        }] == Icon::Microphone);
    }
    if shared.screenshare {
        assert(icons[icons.len() - 1] == Icon::ScreenShare);
    }
}

/// Each icon but the record icon, which is drawn, has its own name in the theme.
pub proof fn law_icon_names(icon: Icon)
    ensures
        icon.theme_name() is None <==> icon == Icon::Recording,
        Icon::Camera.theme_name() == Some("camera-web-symbolic"@),
        Icon::Microphone.theme_name() == Some("audio-input-microphone-symbolic"@),
        Icon::ScreenShare.theme_name() == Some("accessories-screenshot-symbolic"@),
{
}

/// The applet always listens to PipeWire, the devices and the settings, and to a
/// tick every two seconds. To the frames of the animation it listens while it is
/// animated, at the rate that is set.
pub proof fn law_feeds(config: Config, feed: Feed)
    ensures
        feeds(config).no_duplicates(),
        feeds(config).contains(feed) <==> match feed {
            Feed::PipeWire => true,
            Feed::Devices => true,
            Feed::Settings => true,
            Feed::RecTick(millis) => config.animated && millis == config.refresh,
            Feed::Tick(seconds) => seconds == 2,
        },
{
    let all = feeds(config);
    assert(all[0] == Feed::PipeWire && all[1] == Feed::Devices && all[2] == Feed::Settings);
    assert(all[all.len() - 1] == Feed::Tick(2));
    if config.animated {
        assert(all[3] == Feed::RecTick(config.refresh));
    }
}

} // verus!
