//! What values say is what they hold.

use std::borrow::Cow;
use std::time::Instant;
use vstd::prelude::*;

use crate::applet::{AppInfo, Config, Message, MessageView, PopupId};
use crate::camera::{app_views, link_views, proc_views, CameraTable, ProcEntry};
use crate::node::{props_view, Props};
use crate::path::{path_views, DevicePath};
use crate::popup::{row_views, Row, RowView};
use crate::watch::{
    message_views, name_view, node_views, DeviceNode, DeviceStep, StepView,
};

verus! {

/// A message on a node or a process names it by its own id.
pub proof fn law_messages_on_nodes_say_their_parts(
    id: u32,
    name: String,
    label: String,
)
    ensures
        Message::MicrophoneAdd(id, name, None)@ == MessageView::MicrophoneAdd(id, name@, None),
        Message::MicrophoneAdd(id, name, Some(label))@ == MessageView::MicrophoneAdd(
            id,
            name@,
            Some(label@),
        ),
        Message::ScreenShareAdd(id, name, None)@ == MessageView::ScreenShareAdd(id, name@, None),
        Message::ScreenShareAdd(id, name, Some(label))@ == MessageView::ScreenShareAdd(
            id,
            name@,
            Some(label@),
        ),
        Message::NodeDetail(id, None)@ == MessageView::NodeDetail(id, None),
        Message::NodeDetail(id, Some(label))@ == MessageView::NodeDetail(id, Some(label@)),
        Message::PipeWireNodeRemove(id)@ == MessageView::PipeWireNodeRemove(id),
        Message::DisconnectNode(id)@ == MessageView::DisconnectNode(id),
        Message::KillProcess(id)@ == MessageView::KillProcess(id),
{
}

/// A message on a device, on the popup, on the settings or on the time says
/// which.
pub proof fn law_other_messages_say_their_parts(
    path: DevicePath,
    cameras: CameraTable,
    popup: PopupId,
    config: Config,
    now: Instant,
)
    ensures
        Message::CameraOpen(path)@ == MessageView::CameraOpen(path@),
        Message::CameraClose(path)@ == MessageView::CameraClose(path@),
        Message::CameraReset(path)@ == MessageView::CameraReset(path@),
        Message::CameraPrevious(cameras)@ == MessageView::CameraPrevious(cameras@),
        Message::ClosePopup(popup)@ == MessageView::ClosePopup(popup),
        Message::TogglePopup@ == MessageView::TogglePopup,
        Message::Config(config)@ == MessageView::Config(config),
        Message::Tick@ == MessageView::Tick,
        Message::RecTick(now)@ == MessageView::RecTick(now),
{
}

/// Whether what a row says is its title, or its program's name, its label and
/// its button.
pub open spec fn says_its_parts(row: Row) -> bool {
    match (row, row@) {
        (Row::Divider, RowView::Divider) => true,
        (Row::Heading(title), RowView::Heading(said)) => said == title@,
        (
            Row::App { name, detail, kill },
            RowView::App { name: said, detail: label, kill: button },
        ) => {
            &&& said == name@
            &&& match detail {
                Some(detail) => label == Some(detail@),
                None => label is None,
            }
            &&& match kill {
                Some(message) => button == Some(message@),
                None => button is None,
            }
        },
        _ => false,
    }
}

/// A row says its title, or its program's name, its label and its button.
pub proof fn law_rows_say_their_parts(row: Row)
    ensures
        says_its_parts(row),
{
}

/// A program says its name, its label and its id.
pub proof fn law_programs_say_their_parts(app: AppInfo<'static>, label: Cow<'static, str>)
    ensures
        app@.name == app.name@,
        app@.id == app.id,
        app.detail is None <==> app@.detail is None,
        app.detail == Some(label) ==> app@.detail == Some(label@),
{
}

/// An entry of `/proc` says its name, its links one by one, and what it is
/// called.
pub proof fn law_processes_say_their_parts(
    entry: ProcEntry,
    links: Vec<Option<Vec<u8>>>,
    i: int,
    comm: String,
)
    ensures
        entry@.name == entry.name@,
        entry.fds is None <==> entry@.fds is None,
        entry.fds == Some(links) ==> entry@.fds == Some(link_views(links@)),
        link_views(links@).len() == links@.len(),
        0 <= i < links@.len() ==> (match links@[i] {
            Some(link) => link_views(links@)[i] == Some(link@),
            None => link_views(links@)[i] is None,
        }),
        entry.comm is None <==> entry@.comm is None,
        entry.comm == Some(comm) ==> entry@.comm == Some(comm@),
{
}

/// An entry of `/dev` says its name, its path and its watch. A step says what it
/// reports.
pub proof fn law_devices_say_their_parts(
    node: DeviceNode,
    message: Message,
    name: Vec<u8>,
)
    ensures
        node@.name == node.name@,
        node@.path == node.path@,
        node@.watch == node.watch,
        DeviceStep::Ignore@ == StepView::Ignore,
        DeviceStep::Rescan@ == StepView::Rescan,
        DeviceStep::Report(message)@ == StepView::Report(message@),
        name_view(Some(name)) == Some(name@),
        name_view(None) is None,
{
}

/// Properties say their keys and values, in order.
pub proof fn law_properties_say_their_parts(props: Props, i: int)
    ensures
        props@.len() == props.pairs@.len(),
        0 <= i < props.pairs@.len() ==> props@[i] == (props.pairs@[i].0@, props.pairs@[i].1@),
        props_view(Some(props)) == Some(props@),
        props_view(None) is None,
{
}

/// A list says what each of its elements says, in order.
pub proof fn law_lists_say_their_parts(
    apps: Seq<AppInfo>,
    rows: Seq<Row>,
    procs: Seq<ProcEntry>,
    nodes: Seq<DeviceNode>,
    messages: Seq<Message>,
    paths: Seq<DevicePath>,
    i: int,
)
    ensures
        app_views(apps).len() == apps.len(),
        0 <= i < apps.len() ==> app_views(apps)[i] == apps[i]@,
        row_views(rows).len() == rows.len(),
        0 <= i < rows.len() ==> row_views(rows)[i] == rows[i]@,
        proc_views(procs).len() == procs.len(),
        0 <= i < procs.len() ==> proc_views(procs)[i] == procs[i]@,
        node_views(nodes).len() == nodes.len(),
        0 <= i < nodes.len() ==> node_views(nodes)[i] == nodes[i]@,
        message_views(messages).len() == messages.len(),
        0 <= i < messages.len() ==> message_views(messages)[i] == messages[i]@,
        path_views(paths).len() == paths.len(),
        0 <= i < paths.len() ==> path_views(paths)[i] == paths[i]@,
{
}

} // verus!
