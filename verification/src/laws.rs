//! What holds of the applet whatever happens to it.

pub mod events;
pub mod nodes;
pub mod paths;
pub mod programs;
pub mod rows;
pub mod state;
pub mod views;

use vstd::prelude::*;
use vstd::utf8::*;

use crate::applet::{
    camera_apps, device_label, icons_of, lists, raw_pid, relabelled, Action, AppView, Config, Icon,
    IndicatorView, MessageView, PopupId, Shared, StreamView,
};
use crate::camera::{
    after_close, after_open, device_prefix, has_id, held, held_by, leads_to, lemma_tally_push,
    lemma_total_in_use_remove, name_prefix, tally, times, total_in_use, user_of, users,
    video_links, ProcView,
};
use crate::node::{label_of, program_name, start_of};
use crate::path::{
    file_name_of, is_plain, lemma_file_name_of_entry, lemma_plain_says_the_same, plain, same_path,
    slash_free, DOT, SLASH,
};
use crate::popup::{app_row, rows_of, section_rows, with_section, RowView, Section};
use crate::text::{
    all_digits, process_id_of, trimmed, trimmed_end, trimmed_start, white_space,
};
use crate::watch::{
    device_of, has_path, is_gone, lemma_paired_one_to_one, one_to_one, resets_of, step_of,
    watches_of, NodeView, StepView, WatchId, CLOSE_NOWRITE, CLOSE_WRITE, OPEN,
};

verus! {

/// How many opens of a device are not made up for by a close.
pub open spec fn pending(cameras: Map<Seq<u8>, (int, int)>, path: Seq<u8>) -> int {
    if cameras.contains_key(path) {
        cameras[path].0 - cameras[path].1
    } else {
        0
    }
}

/// Whether no count is below the lowest count on record, for finitely many devices.
pub open spec fn settled(cameras: Map<Seq<u8>, (int, int)>) -> bool {
    &&& cameras.dom().finite()
    &&& forall|path: Seq<u8>| #[trigger]
        cameras.contains_key(path) ==> cameras[path].1 <= cameras[path].0
}

/// An open adds one to what is pending on its device and changes no other.
pub proof fn law_open_adds_one(cameras: Map<Seq<u8>, (int, int)>, path: Seq<u8>, other: Seq<u8>)
    ensures
        pending(after_open(cameras, path), path) == pending(cameras, path) + 1,
        other != path ==> pending(after_open(cameras, path), other) == pending(cameras, other),
{
}

/// A close takes one from what is pending on its device, if anything is, and
/// changes no other. So a close whose open was never seen does not hide a
/// later open.
pub proof fn law_close_takes_at_most_one(
    cameras: Map<Seq<u8>, (int, int)>,
    path: Seq<u8>,
    other: Seq<u8>,
)
    requires
        settled(cameras),
    ensures
        pending(after_close(cameras, path), path) == if pending(cameras, path) > 0 {
            pending(cameras, path) - 1
        } else {
            0
        },
        other != path ==> pending(after_close(cameras, path), other) == pending(cameras, other),
{
}

/// A close right after an open undoes it.
pub proof fn law_close_undoes_open(cameras: Map<Seq<u8>, (int, int)>, path: Seq<u8>)
    requires
        settled(cameras),
        cameras.contains_key(path),
    ensures
        after_close(after_open(cameras, path), path) == cameras,
{
    assert(after_close(after_open(cameras, path), path) =~= cameras);
}

/// The devices are in use taken together exactly if something is pending on one
/// of them.
pub proof fn law_in_use_means_pending(cameras: Map<Seq<u8>, (int, int)>)
    requires
        settled(cameras),
    ensures
        total_in_use(cameras) >= 0,
        total_in_use(cameras) > 0 <==> exists|path: Seq<u8>| #[trigger] pending(cameras, path) > 0,
    decreases cameras.dom().len(),
{
    if cameras.dom().len() == 0 {
        assert(cameras.dom() =~= Set::<Seq<u8>>::empty());
        assert forall|path: Seq<u8>| #[trigger] pending(cameras, path) == 0 by {}
    } else {
        let first = cameras.dom().choose();
        assert(cameras.dom().contains(first));
        let rest = cameras.remove(first);
        lemma_total_in_use_remove(cameras, first);
        assert(settled(rest));
        law_in_use_means_pending(rest);
        if total_in_use(rest) > 0 {
            let path = choose|path: Seq<u8>| #[trigger] pending(rest, path) > 0;
            assert(pending(cameras, path) > 0);
        } else if total_in_use(cameras) > 0 {
            assert(pending(cameras, first) > 0);
        }
        if exists|path: Seq<u8>| #[trigger] pending(cameras, path) > 0 {
            let path = choose|path: Seq<u8>| #[trigger] pending(cameras, path) > 0;
            if path != first {
                assert(pending(rest, path) > 0);
            }
        }
    }
}

/// Counting descriptors leaves the table settled, with each descriptor pending.
pub proof fn law_tally_is_pending(paths: Seq<Seq<u8>>)
    ensures
        settled(tally(paths)),
        forall|path: Seq<u8>| #[trigger] pending(tally(paths), path) == times(paths, path),
    decreases paths.len(),
{
    broadcast use vstd::seq_lib::group_to_multiset_ensures;

    if paths.len() == 0 {
        assert(tally(paths) =~= Map::<Seq<u8>, (int, int)>::empty());
    } else {
        let fewer = paths.drop_last();
        law_tally_is_pending(fewer);
        lemma_tally_push(fewer, paths.last());
        assert(fewer.push(paths.last()) =~= paths);
        assert forall|path: Seq<u8>| #[trigger] pending(tally(paths), path) == times(
            paths,
            path,
        ) by {
            assert(pending(tally(fewer), path) == times(fewer, path));
        }
    }
}

/// The state after a run of messages, each with the number that a popup gets if
/// it opens one.
pub open spec fn run(state: IndicatorView, messages: Seq<(MessageView, PopupId)>) -> IndicatorView
    decreases messages.len(),
{
    if messages.len() == 0 {
        state
    } else {
        run(state, messages.drop_last()).after(messages.last().0, messages.last().1)
    }
}

/// Whether every table of devices in a run of messages is settled.
pub open spec fn sound(messages: Seq<(MessageView, PopupId)>) -> bool {
    forall|i: int|
        0 <= i < messages.len() ==> ((#[trigger] messages[i]).0 matches MessageView::CameraPrevious(
            cameras,
        ) ==> settled(cameras))
}

/// Whether no device was opened or closed more than `bound` times on balance.
pub open spec fn within(cameras: Map<Seq<u8>, (int, int)>, bound: int) -> bool {
    forall|path: Seq<u8>| #[trigger]
        cameras.contains_key(path) ==> -bound <= cameras[path].0 <= bound
}

/// Whether every table of devices in a run of messages is within a bound.
pub open spec fn reports_within(messages: Seq<(MessageView, PopupId)>, bound: int) -> bool {
    forall|i: int|
        0 <= i < messages.len() ==> ((#[trigger] messages[i]).0 matches MessageView::CameraPrevious(
            cameras,
        ) ==> within(cameras, bound))
}

/// What holds of every table of devices in a run of messages holds without the
/// last message too.
proof fn lemma_fewer_reports(messages: Seq<(MessageView, PopupId)>, bound: int)
    requires
        messages.len() > 0,
    ensures
        sound(messages) ==> sound(messages.drop_last()),
        reports_within(messages, bound) ==> reports_within(messages.drop_last(), bound),
{
    let before = messages.drop_last();
    assert forall|i: int| 0 <= i < before.len() implies #[trigger] before[i] == messages[i] by {}
}

/// A message keeps the table of devices settled.
pub proof fn law_settled_is_kept(state: IndicatorView, message: MessageView, fresh: PopupId)
    requires
        settled(state.cameras),
        message matches MessageView::CameraPrevious(cameras) ==> settled(cameras),
    ensures
        settled(state.after(message, fresh).cameras),
{
}

/// The table of devices is settled at every moment of an applet's life.
pub proof fn law_settled_always(config: Config, messages: Seq<(MessageView, PopupId)>)
    requires
        sound(messages),
    ensures
        settled(run(IndicatorView::initial(config), messages).cameras),
    decreases messages.len(),
{
    if messages.len() > 0 {
        let before = messages.drop_last();
        lemma_fewer_reports(messages, 0);
        law_settled_always(config, before);
        assert(messages[messages.len() - 1] == messages.last());
        law_settled_is_kept(
            run(IndicatorView::initial(config), before),
            messages.last().0,
            messages.last().1,
        );
    }
}

/// The opens of a device in a run of messages that no later close makes up for,
/// counted anew from each reset and from each report of what was open before.
pub open spec fn unmatched(messages: Seq<(MessageView, PopupId)>, path: Seq<u8>) -> int
    decreases messages.len(),
{
    if messages.len() == 0 {
        0
    } else {
        let before = unmatched(messages.drop_last(), path);
        match messages.last().0 {
            MessageView::CameraOpen(other) if other == path => before + 1,
            MessageView::CameraClose(other) if other == path => if before > 0 {
                before - 1
            } else {
                0
            },
            MessageView::CameraReset(other) if other == path => 0,
            MessageView::CameraPrevious(cameras) => pending(cameras, path),
            _ => before,
        }
    }
}

/// What is pending on a device is what its opens and closes leave unmatched.
pub proof fn law_pending_is_unmatched(
    config: Config,
    messages: Seq<(MessageView, PopupId)>,
    path: Seq<u8>,
)
    requires
        sound(messages),
    ensures
        pending(run(IndicatorView::initial(config), messages).cameras, path) == unmatched(
            messages,
            path,
        ),
    decreases messages.len(),
{
    if messages.len() > 0 {
        let before = messages.drop_last();
        lemma_fewer_reports(messages, 0);
        law_settled_always(config, before);
        law_pending_is_unmatched(config, before, path);
        let state = run(IndicatorView::initial(config), before);
        match messages.last().0 {
            MessageView::CameraOpen(other) => law_open_adds_one(state.cameras, other, path),
            MessageView::CameraClose(other) => law_close_takes_at_most_one(
                state.cameras,
                other,
                path,
            ),
            _ => {},
        }
    }
}

/// After a tick the camera is shown exactly if some device has an open that no
/// later close makes up for.
pub proof fn law_camera_is_shown_while_open(
    config: Config,
    messages: Seq<(MessageView, PopupId)>,
    fresh: PopupId,
)
    requires
        sound(messages),
    ensures
        run(IndicatorView::initial(config), messages).after(MessageView::Tick, fresh).shared.camera
            <==> exists|path: Seq<u8>| #[trigger] unmatched(messages, path) > 0,
{
    let cameras = run(IndicatorView::initial(config), messages).cameras;
    law_settled_always(config, messages);
    law_in_use_means_pending(cameras);
    assert forall|path: Seq<u8>| #[trigger] unmatched(messages, path) == pending(
        cameras,
        path,
    ) by {
        law_pending_is_unmatched(config, messages, path);
    }
    if exists|path: Seq<u8>| #[trigger] pending(cameras, path) > 0 {
        let path = choose|path: Seq<u8>| #[trigger] pending(cameras, path) > 0;
        assert(unmatched(messages, path) > 0);
    }
}

/// Each message moves a count by one at most.
pub proof fn law_counts_grow_by_one(
    config: Config,
    messages: Seq<(MessageView, PopupId)>,
    bound: int,
)
    requires
        0 <= bound,
        reports_within(messages, bound),
    ensures
        within(run(IndicatorView::initial(config), messages).cameras, bound + messages.len()),
    decreases messages.len(),
{
    if messages.len() > 0 {
        let before = messages.drop_last();
        lemma_fewer_reports(messages, bound);
        law_counts_grow_by_one(config, before, bound);
        assert(messages[messages.len() - 1] == messages.last());
    }
}

/// An applet takes any message until the messages, and the opens that were
/// there before, are as many as 32 bits can count.
pub proof fn law_messages_are_accepted(
    config: Config,
    messages: Seq<(MessageView, PopupId)>,
    bound: int,
    next: MessageView,
)
    requires
        0 <= bound,
        reports_within(messages, bound),
        bound + messages.len() < i32::MAX,
    ensures
        run(IndicatorView::initial(config), messages).accepts(next),
{
    law_counts_grow_by_one(config, messages, bound);
}

/// What was open before the applet started is shown at the first tick.
pub proof fn law_cameras_open_before_are_shown(
    state: IndicatorView,
    paths: Seq<Seq<u8>>,
    fresh: PopupId,
)
    ensures
        state.after(MessageView::CameraPrevious(tally(paths)), fresh).after(
            MessageView::Tick,
            fresh,
        ).shared.camera <==> paths.len() > 0,
{
    broadcast use vstd::seq_lib::group_to_multiset_ensures;

    let cameras = tally(paths);
    law_tally_is_pending(paths);
    law_in_use_means_pending(cameras);
    if paths.len() > 0 {
        assert(paths.contains(paths[0]));
        assert(times(paths, paths[0]) > 0);
        assert(pending(cameras, paths[0]) > 0);
    } else {
        assert forall|path: Seq<u8>| #[trigger] pending(cameras, path) == 0 by {}
    }
}

/// A reset forgets its device, even one with opens pending, and no other.
pub proof fn law_reset_forgets(
    state: IndicatorView,
    path: Seq<u8>,
    other: Seq<u8>,
    fresh: PopupId,
)
    ensures
        !state.after(MessageView::CameraReset(path), fresh).cameras.contains_key(path),
        pending(state.after(MessageView::CameraReset(path), fresh).cameras, path) == 0,
        other != path ==> pending(
            state.after(MessageView::CameraReset(path), fresh).cameras,
            other,
        ) == pending(state.cameras, other),
{
}

/// The display follows the state at ticks alone.
pub proof fn law_display_changes_at_ticks(
    state: IndicatorView,
    message: MessageView,
    fresh: PopupId,
)
    ensures
        message is Tick ==> state.after(message, fresh).shared == state.observed(),
        !(message is Tick) ==> state.after(message, fresh).shared == state.shared,
{
}

/// A second tick changes nothing.
pub proof fn law_tick_is_idempotent(state: IndicatorView, a: PopupId, b: PopupId)
    ensures
        state.after(MessageView::Tick, a).after(MessageView::Tick, b) == state.after(
            MessageView::Tick,
            a,
        ),
{
}

/// Whether a microphone was announced and not removed since.
pub open spec fn microphone_added(messages: Seq<(MessageView, PopupId)>, id: u32) -> bool
    decreases messages.len(),
{
    if messages.len() == 0 {
        false
    } else {
        match messages.last().0 {
            MessageView::MicrophoneAdd(other, _, _) if other == id => true,
            MessageView::PipeWireNodeRemove(other) if other == id => false,
            _ => microphone_added(messages.drop_last(), id),
        }
    }
}

/// Whether a screen share was announced and not removed since.
pub open spec fn screenshare_added(messages: Seq<(MessageView, PopupId)>, id: u32) -> bool
    decreases messages.len(),
{
    if messages.len() == 0 {
        false
    } else {
        match messages.last().0 {
            MessageView::ScreenShareAdd(other, _, _) if other == id => true,
            MessageView::PipeWireNodeRemove(other) if other == id => false,
            _ => screenshare_added(messages.drop_last(), id),
        }
    }
}

/// A node is listed exactly if it was announced and not removed since.
pub proof fn law_listed_while_added(
    config: Config,
    messages: Seq<(MessageView, PopupId)>,
    id: u32,
)
    ensures
        run(IndicatorView::initial(config), messages).microphones.contains_key(id)
            <==> microphone_added(messages, id),
        run(IndicatorView::initial(config), messages).screenshares.contains_key(id)
            <==> screenshare_added(messages, id),
    decreases messages.len(),
{
    if messages.len() > 0 {
        law_listed_while_added(config, messages.drop_last(), id);
    }
}

/// After a tick a kind of stream is shown exactly if one was announced and not
/// removed since.
pub proof fn law_streams_are_shown_while_added(
    config: Config,
    messages: Seq<(MessageView, PopupId)>,
    fresh: PopupId,
)
    ensures
        run(IndicatorView::initial(config), messages).after(
            MessageView::Tick,
            fresh,
        ).shared.microphone <==> exists|id: u32| #[trigger] microphone_added(messages, id),
        run(IndicatorView::initial(config), messages).after(
            MessageView::Tick,
            fresh,
        ).shared.screenshare <==> exists|id: u32| #[trigger] screenshare_added(messages, id),
{
    let state = run(IndicatorView::initial(config), messages);
    assert forall|id: u32|
        #![trigger state.microphones.contains_key(id)]
        #![trigger microphone_added(messages, id)]
        state.microphones.contains_key(id) <==> microphone_added(messages, id) by {
        law_listed_while_added(config, messages, id);
    }
    assert forall|id: u32|
        #![trigger state.screenshares.contains_key(id)]
        #![trigger screenshare_added(messages, id)]
        state.screenshares.contains_key(id) <==> screenshare_added(messages, id) by {
        law_listed_while_added(config, messages, id);
    }
    if !state.microphones.is_empty() {
        let id = choose|id: u32| state.microphones.dom().contains(id);
        assert(state.microphones.contains_key(id));
    }
    if !state.screenshares.is_empty() {
        let id = choose|id: u32| state.screenshares.dom().contains(id);
        assert(state.screenshares.contains_key(id));
    }
}

/// A label is set on the streams that are there and changes nothing else: no
/// stream comes or goes, none is renamed, and no other is relabelled.
pub proof fn law_label_changes_only_the_label(
    streams: Map<u32, StreamView>,
    id: u32,
    detail: Option<Seq<char>>,
    other: u32,
)
    ensures
        relabelled(streams, id, detail).dom() == streams.dom(),
        streams.contains_key(other) ==> relabelled(streams, id, detail)[other].name
            == streams[other].name,
        streams.contains_key(id) ==> relabelled(streams, id, detail)[id].detail == detail,
        other != id && streams.contains_key(other) ==> relabelled(streams, id, detail)[other]
            == streams[other],
{
    assert(relabelled(streams, id, detail).dom() =~= streams.dom());
}

/// A removed node is in neither list.
pub proof fn law_removed_node_is_gone(state: IndicatorView, id: u32, fresh: PopupId)
    ensures
        !state.after(MessageView::PipeWireNodeRemove(id), fresh).microphones.contains_key(id),
        !state.after(MessageView::PipeWireNodeRemove(id), fresh).screenshares.contains_key(id),
{
}

/// Toggling the popup twice closes what was opened, and opens anew what was
/// closed.
pub proof fn law_toggle_twice(state: IndicatorView, a: PopupId, b: PopupId)
    ensures
        state.popup is None ==> {
            &&& state.after(MessageView::TogglePopup, a).popup == Some(a)
            &&& state.action(MessageView::TogglePopup, a) == Action::OpenPopup(a)
            &&& state.after(MessageView::TogglePopup, a).after(MessageView::TogglePopup, b) == state
            &&& state.after(MessageView::TogglePopup, a).action(MessageView::TogglePopup, b)
                == Action::DestroyPopup(a)
        },
        state.popup matches Some(id) ==> {
            &&& state.action(MessageView::TogglePopup, a) == Action::DestroyPopup(id)
            &&& state.after(MessageView::TogglePopup, a).after(
                MessageView::TogglePopup,
                b,
            ).popup == Some(b)
        },
{
}

/// Only the popup's own number closes it.
pub proof fn law_close_popup(state: IndicatorView, id: PopupId, fresh: PopupId)
    ensures
        state.popup == Some(id) ==> state.after(MessageView::ClosePopup(id), fresh).popup is None,
        state.popup != Some(id) ==> state.after(MessageView::ClosePopup(id), fresh) == state,
{
}

/// A message that is to be acted on outside, other than on the popup, leaves
/// the state as it was.
pub proof fn law_outside_actions_keep_the_state(
    state: IndicatorView,
    message: MessageView,
    fresh: PopupId,
)
    requires
        !(state.action(message, fresh) is Nothing),
    ensures
        message is TogglePopup || state.after(message, fresh) == state,
{
}

/// The panel starts with the record icon and has each other icon once if what
/// it stands for is shared, and not otherwise.
pub proof fn law_icons(shared: Shared)
    ensures
        icons_of(shared).first() == Icon::Recording,
        icons_of(shared).no_duplicates(),
        icons_of(shared).contains(Icon::Camera) <==> shared.camera,
        icons_of(shared).contains(Icon::Microphone) <==> shared.microphone,
        icons_of(shared).contains(Icon::ScreenShare) <==> shared.screenshare,
{
    let icons = icons_of(shared);
    if shared.camera {
        assert(icons[1] == Icon::Camera);
    }
    if shared.microphone {
        assert(icons[if shared.camera {
            2
        } else {
            1int
        }] == Icon::Microphone);
    }
    if shared.screenshare {
        assert(icons[icons.len() - 1] == Icon::ScreenShare);
    }
}

/// Whether rows are well set: a section's title comes first, a program last, and
/// each line stands between a program and the title of the next section.
pub open spec fn well_set(rows: Seq<RowView>) -> bool {
    &&& rows.len() > 0 ==> rows.first() is Heading && rows.last() is App
    &&& forall|i: int|
        0 <= i < rows.len() && (#[trigger] rows[i]) is Divider ==> 0 < i < rows.len() - 1
            && rows[i - 1] is App && rows[i + 1] is Heading
}

/// One for a section with programs, none for an empty one.
pub open spec fn titles(apps: Seq<AppView>) -> int {
    if apps.len() == 0 {
        0
    } else {
        1
    }
}

/// A section keeps rows well set and adds a row for each of its programs.
proof fn lemma_with_section(rows: Seq<RowView>, section: Section, apps: Seq<AppView>)
    requires
        well_set(rows),
    ensures
        well_set(with_section(rows, section, apps)),
        apps.len() > 0 ==> with_section(rows, section, apps).len() == rows.len() + apps.len() + 1 + (
        if rows.len() > 0 {
            1int
        } else {
            0
        }),
        forall|row: RowView| rows.contains(row) ==> #[trigger] with_section(
            rows,
            section,
            apps,
        ).contains(row),
        forall|i: int|
            0 <= i < apps.len() ==> with_section(rows, section, apps).contains(
                app_row(section, #[trigger] apps[i]),
            ),
{
    let more = with_section(rows, section, apps);
    let added = section_rows(section, apps);
    if apps.len() > 0 {
        let start = more.len() - added.len();
        assert forall|i: int| 0 <= i < rows.len() implies #[trigger] more[i] == rows[i] by {}
        assert forall|i: int| 0 <= i < added.len() implies #[trigger] added[i] == more[start + i] by {}
        assert(added[0] is Heading);
        assert forall|i: int| 0 < i < added.len() implies (#[trigger] added[i]) is App by {}
        assert(more.last() == added[added.len() - 1]);
        if rows.len() > 0 {
            assert(more.first() == rows.first());
            assert(more[rows.len() as int] is Divider);
            assert(more[rows.len() as int + 1] == added[0]);
            assert(more[rows.len() - 1] == rows.last());
        } else {
            assert(more.first() == added[0]);
        }
        assert forall|i: int| 0 <= i < more.len() && (#[trigger] more[i]) is Divider implies 0 < i
            < more.len() - 1 && more[i - 1] is App && more[i + 1] is Heading by {
            if i < rows.len() {
                assert(rows[i] is Divider);
                assert(more[i - 1] == rows[i - 1] && more[i + 1] == rows[i + 1]);
            } else if i >= start {
                assert(added[i - start] == more[i]);
            }
        }
        assert forall|row: RowView| rows.contains(row) implies #[trigger] more.contains(row) by {
            let i = choose|i: int| 0 <= i < rows.len() && rows[i] == row;
            assert(more[i] == row);
        }
        assert forall|i: int| 0 <= i < apps.len() implies more.contains(
            app_row(section, #[trigger] apps[i]),
        ) by {
            assert(added[i + 1] == app_row(section, apps[i]));
            assert(more[start + i + 1] == added[i + 1]);
        }
    }
}

/// The popup has a title for each section with programs, a line between two
/// sections, and a row for every program; it is empty if there are none.
pub proof fn law_popup_rows(
    cameras: Seq<AppView>,
    microphones: Seq<AppView>,
    screenshares: Seq<AppView>,
)
    ensures
        well_set(rows_of(cameras, microphones, screenshares)),
        ({
            let sections = titles(cameras) + titles(microphones) + titles(screenshares);
            rows_of(cameras, microphones, screenshares).len() == cameras.len() + microphones.len()
                + screenshares.len() + sections + (if sections > 0 {
                sections - 1
            } else {
                0
            })
        }),
        forall|i: int|
            0 <= i < cameras.len() ==> rows_of(cameras, microphones, screenshares).contains(
                app_row(Section::Camera, #[trigger] cameras[i]),
            ),
        forall|i: int|
            0 <= i < microphones.len() ==> rows_of(cameras, microphones, screenshares).contains(
                app_row(Section::Microphone, #[trigger] microphones[i]),
            ),
        forall|i: int|
            0 <= i < screenshares.len() ==> rows_of(cameras, microphones, screenshares).contains(
                app_row(Section::ScreenShare, #[trigger] screenshares[i]),
            ),
{
    let none = Seq::<RowView>::empty();
    let first = with_section(none, Section::Camera, cameras);
    let second = with_section(first, Section::Microphone, microphones);
    lemma_with_section(none, Section::Camera, cameras);
    lemma_with_section(first, Section::Microphone, microphones);
    lemma_with_section(second, Section::ScreenShare, screenshares);
}

/// A kill button does nothing for id zero. Otherwise it ends the process or
/// disconnects the node of its row.
pub proof fn law_kill_button(state: IndicatorView, section: Section, id: u32, fresh: PopupId)
    ensures
        section.kill_of(id) is None <==> id == 0,
        section.kill_of(id) matches Some(message) ==> {
            &&& state.after(message, fresh) == state
            &&& section is Camera ==> state.action(message, fresh) == Action::Terminate(raw_pid(id))
            &&& !(section is Camera) ==> state.action(message, fresh) == Action::Disconnect(id)
        },
        id <= i32::MAX ==> raw_pid(id) == id,
{
}

/// The programs that use a device are listed once each: every process that
/// holds it open and whose name can be read is there under its id, and nothing
/// else is.
pub proof fn law_users(procs: Seq<ProcView>, device: Seq<u8>)
    ensures
        forall|i: int, j: int|
            0 <= i < j < users(procs, device).len() ==> (#[trigger] users(procs, device)[i]).id != (
            #[trigger] users(procs, device)[j]).id,
        forall|k: int|
            0 <= k < procs.len() ==> (user_of(#[trigger] procs[k], device) matches Some(app)
                ==> has_id(users(procs, device), app.id)),
        forall|i: int|
            0 <= i < users(procs, device).len() ==> exists|k: int|
                0 <= k < procs.len() && user_of(#[trigger] procs[k], device) == Some(
                    #[trigger] users(procs, device)[i],
                ),
    decreases procs.len(),
{
    if procs.len() > 0 {
        let fewer = procs.drop_last();
        law_users(fewer, device);
        let before = users(fewer, device);
        let all = users(procs, device);
        let n = procs.len() - 1;
        assert(procs[n] == procs.last());
        assert forall|i: int, j: int| 0 <= i < j < all.len() implies (#[trigger] all[i]).id != (
        #[trigger] all[j]).id by {
            if j < before.len() {
                assert(before[i].id != before[j].id);
            } else {
                assert(before[i] == all[i]);
            }
        }
        assert forall|id: u32| has_id(before, id) implies #[trigger] has_id(all, id) by {
            let i = choose|i: int| 0 <= i < before.len() && (#[trigger] before[i]).id == id;
            assert(all[i].id == id);
        }
        assert forall|k: int| 0 <= k < procs.len() implies (user_of(
            #[trigger] procs[k],
            device,
        ) matches Some(app) ==> has_id(all, app.id)) by {
            if k < n {
                assert(fewer[k] == procs[k]);
            } else if user_of(procs[k], device) is Some {
                let app = user_of(procs[k], device)->0;
                if !has_id(before, app.id) {
                    assert(all[before.len() as int].id == app.id);
                }
            }
        }
        assert forall|i: int| 0 <= i < all.len() implies exists|k: int|
            0 <= k < procs.len() && user_of(#[trigger] procs[k], device) == Some(
                #[trigger] all[i],
            ) by {
            if i < before.len() {
                assert(all[i] == before[i]);
                let k = choose|k: int|
                    0 <= k < fewer.len() && user_of(#[trigger] fewer[k], device) == Some(before[i]);
                assert(procs[k] == fewer[k]);
            } else {
                assert(user_of(procs[n], device) == Some(all[i]));
            }
        }
    }
}

/// Whether some link to `device` is written as that of a video device.
pub open spec fn written_as_video(links: Seq<Option<Seq<u8>>>, device: Seq<u8>) -> bool {
    exists|i: int|
        0 <= i < links.len() && ((#[trigger] links[i]) matches Some(link) && same_path(link, device)
            && device_prefix().is_prefix_of(link))
}

/// A process holds a video device open exactly if a link to it is written as
/// that of one.
proof fn lemma_video_links(links: Seq<Option<Seq<u8>>>, device: Seq<u8>)
    ensures
        video_links(links).contains(plain(device)) == written_as_video(links, device),
    decreases links.len(),
{
    if links.len() > 0 {
        let fewer = links.drop_last();
        let all = video_links(links);
        let before = video_links(fewer);
        lemma_video_links(fewer, device);
        if written_as_video(links, device) {
            let k = choose|k: int|
                0 <= k < links.len() && ((#[trigger] links[k]) matches Some(link) && same_path(
                    link,
                    device,
                ) && device_prefix().is_prefix_of(link));
            if k < links.len() - 1 {
                assert(fewer[k] == links[k]);
                let i = choose|i: int| 0 <= i < before.len() && before[i] == plain(device);
                assert(all[i] == plain(device));
            } else {
                assert(all[before.len() as int] == plain(device));
            }
        }
        if all.contains(plain(device)) {
            let i = choose|i: int| 0 <= i < all.len() && all[i] == plain(device);
            if i < before.len() {
                assert(before[i] == plain(device));
                let k = choose|k: int|
                    0 <= k < fewer.len() && ((#[trigger] fewer[k]) matches Some(link) && same_path(
                        link,
                        device,
                    ) && device_prefix().is_prefix_of(link));
                assert(links[k] == fewer[k]);
            } else {
                let link = links.last()->0;
                lemma_plain_says_the_same(link);
                lemma_plain_says_the_same(device);
                assert(links[links.len() - 1] == Some(link));
            }
        }
    }
}

/// An entry of `/proc` holds a video device open exactly if it is that of a
/// process with a link to the device that is written as that of one.
proof fn lemma_held_by(entry: ProcView, device: Seq<u8>)
    ensures
        held_by(entry).contains(plain(device)) <==> all_digits(entry.name) && (
        entry.fds matches Some(links) && written_as_video(links, device)),
{
    if entry.fds is Some {
        lemma_video_links(entry.fds->0, device);
    }
}

/// What is held open is what some process holds open.
proof fn lemma_held_by_one(procs: Seq<ProcView>, path: Seq<u8>)
    ensures
        held(procs).contains(path) <==> exists|k: int|
            0 <= k < procs.len() && held_by(#[trigger] procs[k]).contains(path),
    decreases procs.len(),
{
    if procs.len() > 0 {
        let fewer = procs.drop_last();
        let all = held(procs);
        let before = held(fewer);
        let own = held_by(procs.last());
        lemma_held_by_one(fewer, path);
        if all.contains(path) {
            let i = choose|i: int| 0 <= i < all.len() && all[i] == path;
            if i < before.len() {
                assert(before[i] == path);
                let k = choose|k: int|
                    0 <= k < fewer.len() && held_by(#[trigger] fewer[k]).contains(path);
                assert(procs[k] == fewer[k]);
            } else {
                assert(own[i - before.len()] == path);
                assert(procs[procs.len() - 1] == procs.last());
            }
        }
        if exists|k: int| 0 <= k < procs.len() && held_by(#[trigger] procs[k]).contains(path) {
            let k = choose|k: int|
                0 <= k < procs.len() && held_by(#[trigger] procs[k]).contains(path);
            if k < fewer.len() {
                assert(fewer[k] == procs[k]);
                let i = choose|i: int| 0 <= i < before.len() && before[i] == path;
                assert(all[i] == path);
            } else {
                let i = choose|i: int| 0 <= i < own.len() && own[i] == path;
                assert(all[before.len() + i] == path);
            }
        }
    }
}

/// A device is counted exactly if some process has a link to it that is written
/// as that of a video device.
pub proof fn law_counted_devices(procs: Seq<ProcView>, device: Seq<u8>)
    ensures
        tally(held(procs)).contains_key(plain(device)) <==> exists|k: int|
            0 <= k < procs.len() && all_digits((#[trigger] procs[k]).name) && (
            procs[k].fds matches Some(links) && written_as_video(links, device)),
{
    lemma_held_by_one(procs, plain(device));
    assert forall|k: int| 0 <= k < procs.len() implies held_by(#[trigger] procs[k]).contains(
        plain(device),
    ) == (all_digits(procs[k].name) && (procs[k].fds matches Some(links) && written_as_video(
        links,
        device,
    ))) by {
        lemma_held_by(procs[k], device);
    }
}

/// A device has no more programs listed than descriptors counted, if each listed
/// program has a link to it that is written as that of a video device. So if one
/// is listed, the device is counted.
pub proof fn law_listed_device_is_counted(procs: Seq<ProcView>, device: Seq<u8>)
    requires
        forall|k: int|
            0 <= k < procs.len() && user_of(#[trigger] procs[k], device) is Some
                ==> written_as_video(procs[k].fds->0, device),
    ensures
        users(procs, device).len() <= times(held(procs), plain(device)),
        users(procs, device).len() > 0 ==> tally(held(procs)).contains_key(plain(device)),
    decreases procs.len(),
{
    broadcast use vstd::seq_lib::group_to_multiset_ensures;

    if procs.len() > 0 {
        let fewer = procs.drop_last();
        let entry = procs.last();
        let own = held_by(entry);
        assert forall|k: int|
            0 <= k < fewer.len() && user_of(#[trigger] fewer[k], device) is Some implies
            written_as_video(fewer[k].fds->0, device) by {
            assert(fewer[k] == procs[k]);
        }
        law_listed_device_is_counted(fewer, device);
        assert(procs[procs.len() - 1] == entry);
        vstd::seq_lib::lemma_multiset_commutative(held(fewer), own);
        if user_of(entry, device) is Some {
            lemma_held_by(entry, device);
            assert(own.contains(plain(device)));
        }
    }
    if users(procs, device).len() > 0 {
        assert(held(procs).to_multiset().count(plain(device)) > 0);
        assert(held(procs).contains(plain(device)));
    }
}

/// How many links all entries of `/proc` have together.
pub open spec fn link_count(procs: Seq<ProcView>) -> nat
    decreases procs.len(),
{
    if procs.len() == 0 {
        0
    } else {
        link_count(procs.drop_last()) + match procs.last().fds {
            Some(links) => links.len(),
            None => 0,
        }
    }
}

/// No more video devices are held open than there are links.
proof fn lemma_video_links_len(links: Seq<Option<Seq<u8>>>)
    ensures
        video_links(links).len() <= links.len(),
    decreases links.len(),
{
    if links.len() > 0 {
        lemma_video_links_len(links.drop_last());
    }
}

/// No device is held open more often than the processes have links, so the
/// counts fit 32 bits if the number of all links does.
pub proof fn law_counts_are_within_the_links(procs: Seq<ProcView>, path: Seq<u8>)
    ensures
        times(held(procs), path) <= held(procs).len() <= link_count(procs),
    decreases procs.len(),
{
    broadcast use vstd::seq_lib::group_to_multiset_ensures;

    if procs.len() > 0 {
        law_counts_are_within_the_links(procs.drop_last(), path);
        if procs.last().fds is Some {
            lemma_video_links_len(procs.last().fds->0);
        }
    }
    assert(held(procs).to_multiset().len() == held(procs).len());
}

/// A video device that is counted has a program listed, if the id and the name
/// of each process that holds it open can be read.
pub proof fn law_counted_device_is_listed(procs: Seq<ProcView>, device: Seq<u8>)
    requires
        forall|k: int|
            0 <= k < procs.len() && held_by(#[trigger] procs[k]).contains(plain(device))
                ==> process_id_of(procs[k].name) is Some && procs[k].comm is Some,
        tally(held(procs)).contains_key(plain(device)),
    ensures
        users(procs, device).len() > 0,
{
    lemma_held_by_one(procs, plain(device));
    let k = choose|k: int|
        0 <= k < procs.len() && held_by(#[trigger] procs[k]).contains(plain(device));
    lemma_held_by(procs[k], device);
    assert(leads_to(procs[k].fds->0, device));
    law_users(procs, device);
    assert(user_of(procs[k], device) is Some);
}

/// Paths in their plainest form have the same bytes exactly if they are the same
/// path, and a path is the same as its plainest form.
pub proof fn law_paths(a: Seq<u8>, b: Seq<u8>)
    ensures
        is_plain(a) && is_plain(b) ==> (a == b <==> same_path(a, b)),
        plain(a) == plain(b) <==> same_path(a, b),
        is_plain(plain(a)) && same_path(plain(a), a),
{
    lemma_plain_says_the_same(a);
    lemma_plain_says_the_same(b);
}

/// A device whose file name is text is shown under that text.
pub proof fn law_device_label_reads_the_name(path: Seq<u8>, name: Seq<char>)
    requires
        file_name_of(path) == Some(encode_utf8(name)),
    ensures
        device_label(path) == Some(name),
{
    encode_utf8_valid_utf8(name);
    encode_utf8_decode_utf8(name);
}

/// An entry of a directory is shown under its name, if that is text.
pub proof fn law_entry_is_shown_under_its_name(directory: Seq<u8>, name: Seq<char>)
    requires
        slash_free(encode_utf8(name)),
        encode_utf8(name).len() > 0,
        encode_utf8(name) != seq![DOT],
        encode_utf8(name) != seq![DOT, DOT],
    ensures
        device_label(directory.push(SLASH) + encode_utf8(name)) == Some(name),
{
    lemma_file_name_of_entry(directory, encode_utf8(name));
    law_device_label_reads_the_name(directory.push(SLASH) + encode_utf8(name), name);
}

/// Every entry carries the label of one of the devices.
proof fn lemma_camera_labels(order: Seq<Seq<u8>>, sandboxed: bool, procs: Seq<ProcView>)
    ensures
        forall|i: int|
            0 <= i < camera_apps(order, sandboxed, procs).len() ==> exists|a: int|
                0 <= a < order.len() && (#[trigger] camera_apps(order, sandboxed, procs)[i]).detail
                    == device_label(#[trigger] order[a]),
    decreases order.len(),
{
    if !sandboxed && order.len() > 0 {
        let fewer = order.drop_last();
        lemma_camera_labels(fewer, sandboxed, procs);
        let before = camera_apps(fewer, sandboxed, procs);
        let all = camera_apps(order, sandboxed, procs);
        assert forall|i: int| 0 <= i < all.len() implies exists|a: int|
            0 <= a < order.len() && (#[trigger] all[i]).detail == device_label(
                #[trigger] order[a],
            ) by {
            if i < before.len() {
                assert(all[i] == before[i]);
                let a = choose|a: int|
                    0 <= a < fewer.len() && before[i].detail == device_label(#[trigger] fewer[a]);
                assert(order[a] == fewer[a]);
            } else {
                assert(all[i].detail == device_label(order[order.len() - 1]));
            }
        }
    }
}

/// Two entries of one process that uses several devices can be told apart by
/// their labels, if the labels of the devices differ.
pub proof fn law_camera_entries_differ(
    order: Seq<Seq<u8>>,
    sandboxed: bool,
    procs: Seq<ProcView>,
)
    requires
        forall|a: int, b: int|
            0 <= a < b < order.len() ==> device_label(#[trigger] order[a]) != device_label(
                #[trigger] order[b],
            ),
    ensures
        forall|i: int, j: int|
            0 <= i < j < camera_apps(order, sandboxed, procs).len() ==> (
            #[trigger] camera_apps(order, sandboxed, procs)[i]).id != (
            #[trigger] camera_apps(order, sandboxed, procs)[j]).id || camera_apps(
                order,
                sandboxed,
                procs,
            )[i].detail != camera_apps(order, sandboxed, procs)[j].detail,
    decreases order.len(),
{
    if !sandboxed && order.len() > 0 {
        let fewer = order.drop_last();
        let device = order.last();
        assert forall|a: int, b: int| 0 <= a < b < fewer.len() implies device_label(
            #[trigger] fewer[a],
        ) != device_label(#[trigger] fewer[b]) by {
            assert(fewer[a] == order[a] && fewer[b] == order[b]);
        }
        law_camera_entries_differ(fewer, sandboxed, procs);
        lemma_camera_labels(fewer, sandboxed, procs);
        law_users(procs, device);
        let before = camera_apps(fewer, sandboxed, procs);
        let all = camera_apps(order, sandboxed, procs);
        let found = users(procs, device);
        let n = before.len();
        assert forall|i: int, j: int| 0 <= i < j < all.len() implies (#[trigger] all[i]).id != (
        #[trigger] all[j]).id || all[i].detail != all[j].detail by {
            if j < n {
                assert(all[i] == before[i] && all[j] == before[j]);
            } else if i < n {
                assert(all[i] == before[i]);
                let a = choose|a: int|
                    0 <= a < fewer.len() && before[i].detail == device_label(#[trigger] fewer[a]);
                assert(order[a] == fewer[a]);
                assert(order[order.len() - 1] == device);
                assert(all[j].detail == device_label(device));
            } else {
                assert(found[i - n].id != found[j - n].id);
                assert(all[i].id == found[i - n].id && all[j].id == found[j - n].id);
            }
        }
    }
}

/// A list of streams has as many programs as there are streams.
pub proof fn law_every_stream_is_listed_once(apps: Seq<AppView>, streams: Map<u32, StreamView>)
    requires
        lists(apps, streams),
    ensures
        streams.dom().finite(),
        apps.len() == streams.dom().len(),
{
    let ids = apps.map_values(|app: AppView| app.id);
    assert(ids.no_duplicates()) by {
        assert forall|i: int, j: int|
            0 <= i < ids.len() && 0 <= j < ids.len() && i != j implies #[trigger] ids[i]
            != #[trigger] ids[j] by {
            if i < j {
                assert(apps[i].id != apps[j].id);
            } else {
                assert(apps[j].id != apps[i].id);
            }
        }
    }
    ids.unique_seq_to_set();
    assert forall|id: u32| #[trigger] ids.to_set().contains(id) <==> streams.dom().contains(id) by {
        if ids.to_set().contains(id) {
            let i = choose|i: int| 0 <= i < ids.len() && ids[i] == id;
            assert(apps[i].id == id);
        }
        if streams.contains_key(id) {
            assert(has_id(apps, id));
            let i = choose|i: int| 0 <= i < apps.len() && (#[trigger] apps[i]).id == id;
            assert(ids[i] == id);
        }
    }
    assert(ids.to_set() =~= streams.dom());
    vstd::seq_lib::seq_to_set_is_finite(ids);
}

/// The watches of an instance are one to one, carry its number, and are on
/// video devices that it granted.
pub proof fn law_watches(instance: u64, nodes: Seq<NodeView>)
    ensures
        one_to_one(watches_of(instance, nodes)),
        forall|pair: (Seq<u8>, WatchId)| #[trigger]
            watches_of(instance, nodes).contains(pair) ==> pair.1.0 == instance && exists|k: int|
                {
                    &&& 0 <= k < nodes.len()
                    &&& (#[trigger] nodes[k]).path == pair.0
                    &&& nodes[k].watch == Some(pair.1.1)
                    &&& name_prefix().is_prefix_of(nodes[k].name)
                },
    decreases nodes.len(),
{
    if nodes.len() > 0 {
        let fewer = nodes.drop_last();
        law_watches(instance, fewer);
        let before = watches_of(instance, fewer);
        let node = nodes.last();
        assert(nodes[nodes.len() - 1] == node);
        if node.watch is Some {
            lemma_paired_one_to_one(before, node.path, (instance, node.watch->0));
        }
        assert forall|pair: (Seq<u8>, WatchId)| #[trigger]
            watches_of(instance, nodes).contains(pair) implies pair.1.0 == instance && exists|
            k: int,
        |
            {
                &&& 0 <= k < nodes.len()
                &&& (#[trigger] nodes[k]).path == pair.0
                &&& nodes[k].watch == Some(pair.1.1)
                &&& name_prefix().is_prefix_of(nodes[k].name)
            } by {
            if before.contains(pair) {
                let k = choose|k: int|
                    {
                        &&& 0 <= k < fewer.len()
                        &&& (#[trigger] fewer[k]).path == pair.0
                        &&& fewer[k].watch == Some(pair.1.1)
                        &&& name_prefix().is_prefix_of(fewer[k].name)
                    };
                assert(nodes[k] == fewer[k]);
            }
        }
    }
}

/// Whether an entry of `/dev` is a video device whose watch was granted.
pub open spec fn is_watched(node: NodeView) -> bool {
    node.watch is Some && name_prefix().is_prefix_of(node.name)
}

/// A granted watch on a video device counts unless a later one has its path or
/// its descriptor.
pub proof fn law_granted_watches_count(instance: u64, nodes: Seq<NodeView>, k: int)
    requires
        0 <= k < nodes.len(),
        is_watched(nodes[k]),
        forall|j: int|
            k < j < nodes.len() && is_watched(#[trigger] nodes[j]) ==> nodes[j].path
                != nodes[k].path && nodes[j].watch != nodes[k].watch,
    ensures
        watches_of(instance, nodes).contains((nodes[k].path, (instance, nodes[k].watch->0))),
    decreases nodes.len(),
{
    let last = nodes.len() - 1;
    if k < last {
        let fewer = nodes.drop_last();
        assert forall|j: int| k < j < fewer.len() && is_watched(#[trigger] fewer[j]) implies fewer[j].path
            != fewer[k].path && fewer[j].watch != fewer[k].watch by {
            assert(nodes[j] == fewer[j]);
        }
        law_granted_watches_count(instance, fewer, k);
        assert(nodes[last] == nodes.last());
    }
}

/// An open or a close on a watch is reported for the device that it stands for.
pub proof fn law_event_is_reported(
    watches: Set<(Seq<u8>, WatchId)>,
    path: Seq<u8>,
    watch: WatchId,
    name: Option<Seq<u8>>,
)
    requires
        one_to_one(watches),
        watches.contains((path, watch)),
    ensures
        step_of(watches, OPEN, watch, name) == StepView::Report(
            MessageView::CameraOpen(path),
        ),
        step_of(watches, CLOSE_WRITE, watch, name) == StepView::Report(
            MessageView::CameraClose(path),
        ),
        step_of(watches, CLOSE_NOWRITE, watch, name) == StepView::Report(
            MessageView::CameraClose(path),
        ),
{
    let found = device_of(watches, watch);
    assert(found is Some);
    assert(watches.contains((found->0, watch)));
}

/// An open on a watched device shows the camera at the next tick.
pub proof fn law_open_event_shows_the_camera(
    state: IndicatorView,
    watches: Set<(Seq<u8>, WatchId)>,
    path: Seq<u8>,
    watch: WatchId,
    name: Option<Seq<u8>>,
    fresh: PopupId,
)
    requires
        settled(state.cameras),
        one_to_one(watches),
        watches.contains((path, watch)),
    ensures
        step_of(watches, OPEN, watch, name) matches StepView::Report(message) && state.after(
            message,
            fresh,
        ).after(MessageView::Tick, fresh).shared.camera,
{
    law_event_is_reported(watches, path, watch, name);
    let cameras = after_open(state.cameras, path);
    law_settled_is_kept(state, MessageView::CameraOpen(path), fresh);
    law_open_adds_one(state.cameras, path, path);
    law_in_use_means_pending(cameras);
    assert(pending(cameras, path) > 0);
}

/// An event of an instance that has been replaced is reported for no device.
pub proof fn law_stale_event_is_not_reported(
    instance: u64,
    nodes: Seq<NodeView>,
    mask: u32,
    watch: WatchId,
    name: Option<Seq<u8>>,
)
    requires
        watch.0 != instance,
    ensures
        !(step_of(watches_of(instance, nodes), mask, watch, name) is Report),
{
    law_watches(instance, nodes);
    let watches = watches_of(instance, nodes);
    if device_of(watches, watch) is Some {
        assert(watches.contains((device_of(watches, watch)->0, watch)));
    }
}

/// The messages that reset devices, with a number for each.
pub open spec fn reset_run(gone: Seq<Seq<u8>>, fresh: PopupId) -> Seq<(MessageView, PopupId)> {
    resets_of(gone).map_values(|message: MessageView| (message, fresh))
}

/// Resetting devices forgets them and nothing else.
pub proof fn law_resets_forget(state: IndicatorView, gone: Seq<Seq<u8>>, fresh: PopupId)
    ensures
        run(state, reset_run(gone, fresh)) == (IndicatorView {
            cameras: state.cameras.remove_keys(gone.to_set()),
            ..state
        }),
    decreases gone.len(),
{
    if gone.len() == 0 {
        assert(state.cameras.remove_keys(gone.to_set()) =~= state.cameras);
    } else {
        let fewer = gone.drop_last();
        law_resets_forget(state, fewer, fresh);
        assert(reset_run(gone, fresh).drop_last() =~= reset_run(fewer, fresh));
        assert(reset_run(gone, fresh).last() == (
            MessageView::CameraReset(gone.last()),
            fresh,
        ));
        assert forall|path: Seq<u8>| #[trigger] gone.contains(path) == (fewer.contains(path) || path
            == gone.last()) by {
            assert(gone[gone.len() - 1] == gone.last());
            if fewer.contains(path) {
                let i = choose|i: int| 0 <= i < fewer.len() && fewer[i] == path;
                assert(gone[i] == path);
            }
            if gone.contains(path) && path != gone.last() {
                let i = choose|i: int| 0 <= i < gone.len() && gone[i] == path;
                assert(fewer[i] == path);
            }
        }
        assert(state.cameras.remove_keys(fewer.to_set()).remove(gone.last())
            =~= state.cameras.remove_keys(gone.to_set()));
    }
}

/// After a rescan the devices that are watched no longer are forgotten, and all
/// others are kept with their counts.
pub proof fn law_rescan_forgets_what_is_gone(
    state: IndicatorView,
    older: Set<(Seq<u8>, WatchId)>,
    newer: Set<(Seq<u8>, WatchId)>,
    gone: Seq<Seq<u8>>,
    path: Seq<u8>,
    fresh: PopupId,
)
    requires
        is_gone(gone, older, newer),
    ensures
        ({
            let after = run(state, reset_run(gone, fresh)).cameras;
            &&& has_path(older, path) && !has_path(newer, path) ==> !after.contains_key(path)
            &&& !has_path(older, path) || has_path(newer, path) ==> {
                &&& after.contains_key(path) == state.cameras.contains_key(path)
                &&& after.contains_key(path) ==> after[path] == state.cameras[path]
            }
        }),
{
    law_resets_forget(state, gone, fresh);
    assert(gone.contains(path) <==> has_path(older, path) && !has_path(newer, path));
}

/// A node that starts to be shown is listed under its id and the name of its
/// program, with no label yet.
pub proof fn law_started_node_is_listed(
    state: IndicatorView,
    id: u32,
    interface: Seq<char>,
    props: Option<Seq<(Seq<char>, Seq<char>)>>,
    fresh: PopupId,
)
    requires
        start_of(id, interface, props) is Some,
    ensures
        ({
            let message = start_of(id, interface, props)->0;
            let after = state.after(message, fresh);
            let stream = StreamView { name: program_name(props->0), detail: None };
            &&& message is MicrophoneAdd || message is ScreenShareAdd
            &&& message is MicrophoneAdd ==> after.microphones == state.microphones.insert(
                id,
                stream,
            )
            &&& message is ScreenShareAdd ==> after.screenshares == state.screenshares.insert(
                id,
                stream,
            )
        }),
{
}

/// A node that starts to be shown shows its kind at the next tick.
pub proof fn law_started_node_is_shown(
    state: IndicatorView,
    id: u32,
    interface: Seq<char>,
    props: Option<Seq<(Seq<char>, Seq<char>)>>,
    fresh: PopupId,
)
    requires
        start_of(id, interface, props) is Some,
    ensures
        ({
            let message = start_of(id, interface, props)->0;
            let shared = state.after(message, fresh).after(MessageView::Tick, fresh).shared;
            &&& message is MicrophoneAdd ==> shared.microphone
            &&& message is ScreenShareAdd ==> shared.screenshare
        }),
{
    let after = state.after(start_of(id, interface, props)->0, fresh);
    assert(after.microphones.contains_key(id) || after.screenshares.contains_key(id));
}

/// A label is never empty and never just the program's name.
pub proof fn law_label_says_more(
    props: Option<Seq<(Seq<char>, Seq<char>)>>,
    program: Seq<char>,
)
    ensures
        label_of(props, program) matches Some(label) ==> label.len() > 0 && label != program,
{
}

/// A node that comes, is labelled and goes leaves the lists as they were without it.
pub proof fn law_node_leaves_nothing(
    state: IndicatorView,
    id: u32,
    interface: Seq<char>,
    props: Option<Seq<(Seq<char>, Seq<char>)>>,
    detail: Option<Seq<char>>,
    fresh: PopupId,
)
    requires
        start_of(id, interface, props) is Some,
    ensures
        state.after(start_of(id, interface, props)->0, fresh).after(
            MessageView::NodeDetail(id, detail),
            fresh,
        ).after(MessageView::PipeWireNodeRemove(id), fresh) == state.after(
            MessageView::PipeWireNodeRemove(id),
            fresh,
        ),
{
    let added = state.after(start_of(id, interface, props)->0, fresh);
    let labelled = added.after(MessageView::NodeDetail(id, detail), fresh);
    assert(labelled.microphones.remove(id) =~= state.microphones.remove(id));
    assert(labelled.screenshares.remove(id) =~= state.screenshares.remove(id));
}

/// Trimming the end leaves no white space there, and nothing else is taken.
proof fn lemma_trimmed_end(s: Seq<char>)
    ensures
        trimmed_end(s).len() > 0 ==> !white_space(trimmed_end(s).last()),
        trimmed_end(s).len() > 0 ==> trimmed_end(s).first() == s.first(),
        trimmed_end(s).len() <= s.len(),
    decreases s.len(),
{
    if s.len() > 0 && white_space(s.last()) {
        lemma_trimmed_end(s.drop_last());
    }
}

/// Trimming the start leaves no white space there.
proof fn lemma_trimmed_start(s: Seq<char>)
    ensures
        trimmed_start(s).len() > 0 ==> !white_space(trimmed_start(s).first()),
    decreases s.len(),
{
    if s.len() > 0 && white_space(s.first()) {
        lemma_trimmed_start(s.drop_first());
    }
}

/// Trimmed text neither starts nor ends with white space, and trimming it again
/// changes nothing.
pub proof fn law_trimmed(s: Seq<char>)
    ensures
        trimmed(s).len() > 0 ==> !white_space(trimmed(s).first()) && !white_space(
            trimmed(s).last(),
        ),
        trimmed(trimmed(s)) == trimmed(s),
{
    lemma_trimmed_start(s);
    lemma_trimmed_end(trimmed_start(s));
}

} // verus!
