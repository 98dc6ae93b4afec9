//! What the events of inotify come to.

use vstd::prelude::*;

use crate::applet::MessageView;
use crate::camera::{device_prefix, name_prefix};
use crate::watch::{
    device_of, has_path, is_gone, one_to_one, paired, resets_of, step_of, watches_of, NodeView,
    StepView, WatchId,
};

verus! {

/// Whether a file name is `video`, or `video` and something more.
pub open spec fn named_video(name: Seq<u8>) -> bool {
    &&& name.len() >= 5
    &&& name[0] == 0x76
    &&& name[1] == 0x69
    &&& name[2] == 0x64
    &&& name[3] == 0x65
    &&& name[4] == 0x6f
}

/// Whether a link is `/dev/video`, or `/dev/video` and something more.
pub open spec fn begins_with_dev_video(link: Seq<u8>) -> bool {
    &&& link.len() >= 10
    &&& link[0] == 0x2f
    &&& link[1] == 0x64
    &&& link[2] == 0x65
    &&& link[3] == 0x76
    &&& link[4] == 0x2f
    &&& named_video(link.skip(5))
}

/// A video device is told by the first five letters of its name alone.
pub proof fn law_video_names(name: Seq<u8>)
    ensures
        name_prefix().is_prefix_of(name) <==> named_video(name),
{
    let prefix = name_prefix();
    if named_video(name) {
        assert(prefix =~= name.subrange(0, prefix.len() as int));
    }
    if prefix.is_prefix_of(name) {
        let start = name.subrange(0, prefix.len() as int);
        assert(start[0] == name[0] && start[1] == name[1] && start[2] == name[2]);
        assert(start[3] == name[3] && start[4] == name[4]);
    }
}

/// A link to a video device is told by its first ten letters alone.
pub proof fn law_video_links(link: Seq<u8>)
    ensures
        device_prefix().is_prefix_of(link) <==> begins_with_dev_video(link),
{
    let prefix = device_prefix();
    if begins_with_dev_video(link) {
        let rest = link.skip(5);
        assert(link[5] == rest[0] && link[6] == rest[1] && link[7] == rest[2]);
        assert(link[8] == rest[3] && link[9] == rest[4]);
        assert(prefix =~= link.subrange(0, prefix.len() as int));
    }
    if prefix.is_prefix_of(link) {
        let start = link.subrange(0, prefix.len() as int);
        assert(start[0] == link[0] && start[1] == link[1] && start[2] == link[2]);
        assert(start[3] == link[3] && start[4] == link[4] && start[5] == link[5]);
        assert(start[6] == link[6] && start[7] == link[7] && start[8] == link[8]);
        assert(start[9] == link[9]);
        let rest = link.skip(5);
        assert(link[5] == rest[0] && link[6] == rest[1] && link[7] == rest[2]);
        assert(link[8] == rest[3] && link[9] == rest[4]);
    }
}

/// The devices are looked up anew when a watched file is deleted, whichever it
/// is, and when a file named like a video device is made or changes its
/// metadata, and at no other event.
pub proof fn law_changes_of_devices_call_for_a_rescan(
    watches: Set<(Seq<u8>, WatchId)>,
    mask: u32,
    watch: WatchId,
    name: Option<Seq<u8>>,
)
    ensures
        mask == 0x400 ==> step_of(watches, mask, watch, name) is Rescan,
        mask == 0x100 || mask == 0x4 ==> (step_of(watches, mask, watch, name) is Rescan <==> (
        name matches Some(name) && named_video(name))),
        mask != 0x400 && mask != 0x100 && mask != 0x4 ==> !(step_of(
            watches,
            mask,
            watch,
            name,
        ) is Rescan),
{
    if name is Some {
        law_video_names(name->0);
    }
}

/// An open is reported for an open event alone, and a close for the two close
/// events alone, each for a device that the watch stands for. Nothing else is
/// reported.
pub proof fn law_only_opens_and_closes_are_reported(
    watches: Set<(Seq<u8>, WatchId)>,
    mask: u32,
    watch: WatchId,
    name: Option<Seq<u8>>,
)
    ensures
        step_of(watches, mask, watch, name) matches StepView::Report(message) ==> match message {
            MessageView::CameraOpen(path) => mask == 0x20 && watches.contains((path, watch)),
            MessageView::CameraClose(path) => (mask == 0x8 || mask == 0x10) && watches.contains(
                (path, watch),
            ),
            _ => false,
        },
{
    let found = device_of(watches, watch);
    if found is Some {
        assert(watches.contains((found->0, watch)));
    }
}

/// Every open and every close on a watched device is reported for that device,
/// whatever name the event carries.
pub proof fn law_every_open_and_close_is_reported(
    watches: Set<(Seq<u8>, WatchId)>,
    path: Seq<u8>,
    watch: WatchId,
    name: Option<Seq<u8>>,
)
    requires
        one_to_one(watches),
        watches.contains((path, watch)),
    ensures
        step_of(watches, 0x20, watch, name) == StepView::Report(MessageView::CameraOpen(path)),
        step_of(watches, 0x8, watch, name) == StepView::Report(MessageView::CameraClose(path)),
        step_of(watches, 0x10, watch, name) == StepView::Report(MessageView::CameraClose(path)),
{
    let found = device_of(watches, watch);
    assert(found is Some);
    assert(watches.contains((found->0, watch)));
}

/// What a watch that is on none of the devices tells is never reported.
pub proof fn law_unwatched_is_not_reported(
    watches: Set<(Seq<u8>, WatchId)>,
    mask: u32,
    watch: WatchId,
    name: Option<Seq<u8>>,
)
    requires
        forall|path: Seq<u8>| !#[trigger] watches.contains((path, watch)),
    ensures
        !(step_of(watches, mask, watch, name) is Report),
{
}

/// Whether an entry of `/dev` is named like a video device and got a watch.
pub open spec fn got_watch(node: NodeView) -> bool {
    node.watch is Some && named_video(node.name)
}

/// Whether the watch that entry `k` got is on `pair`, and no later entry got a
/// watch of the same path or of the same descriptor.
pub open spec fn stands(nodes: Seq<NodeView>, k: int, pair: (Seq<u8>, WatchId)) -> bool {
    &&& 0 <= k < nodes.len()
    &&& got_watch(nodes[k])
    &&& nodes[k].path == pair.0
    &&& nodes[k].watch == Some(pair.1.1)
    &&& forall|j: int|
        k < j < nodes.len() && got_watch(#[trigger] nodes[j]) ==> nodes[j].path != pair.0
            && nodes[j].watch != Some(pair.1.1)
}

/// The watches of an instance are those that its entries of `/dev` got, and of
/// those that share a path or a descriptor the last.
pub proof fn law_watches_are_the_last_granted(
    instance: u64,
    nodes: Seq<NodeView>,
    pair: (Seq<u8>, WatchId),
)
    ensures
        watches_of(instance, nodes).contains(pair) <==> pair.1.0 == instance && exists|k: int| #[trigger]
            stands(nodes, k, pair),
    decreases nodes.len(),
{
    if nodes.len() > 0 {
        let fewer = nodes.drop_last();
        let before = watches_of(instance, fewer);
        let node = nodes.last();
        let last = nodes.len() - 1;
        law_watches_are_the_last_granted(instance, fewer, pair);
        law_video_names(node.name);
        assert(nodes[last] == node);
        if got_watch(node) {
            let new = (node.path, (instance, node.watch->0));
            assert(watches_of(instance, nodes) == paired(before, new.0, new.1));
            if pair == new {
                assert(stands(nodes, last, pair));
            }
        }
        if exists|k: int| #[trigger] stands(nodes, k, pair) {
            let k = choose|k: int| #[trigger] stands(nodes, k, pair);
            if k < last {
                assert forall|j: int| k < j < fewer.len() && got_watch(#[trigger] fewer[j]) implies fewer[j].path
                    != pair.0 && fewer[j].watch != Some(pair.1.1) by {
                    assert(nodes[j] == fewer[j]);
                }
                assert(fewer[k] == nodes[k]);
                assert(stands(fewer, k, pair));
            }
        }
        if before.contains(pair) && watches_of(instance, nodes).contains(pair) && !(got_watch(node)
            && pair == (node.path, (instance, node.watch->0))) {
            let k = choose|k: int| #[trigger] stands(fewer, k, pair);
            assert(nodes[k] == fewer[k]);
            assert forall|j: int| k < j < nodes.len() && got_watch(#[trigger] nodes[j]) implies nodes[j].path
                != pair.0 && nodes[j].watch != Some(pair.1.1) by {
                if j < last {
                    assert(fewer[j] == nodes[j]);
                }
            }
            assert(stands(nodes, k, pair));
        }
    }
}

/// A rescan resets exactly the devices that had a watch and have none any more,
/// each once, and sends nothing else.
pub proof fn law_lost_devices_are_reset(
    gone: Seq<Seq<u8>>,
    older: Set<(Seq<u8>, WatchId)>,
    newer: Set<(Seq<u8>, WatchId)>,
    path: Seq<u8>,
)
    requires
        is_gone(gone, older, newer),
    ensures
        resets_of(gone).contains(MessageView::CameraReset(path)) <==> (exists|watch: WatchId| #[trigger]
            older.contains((path, watch))) && (forall|watch: WatchId| !#[trigger] newer.contains(
            (path, watch),
        )),
        forall|i: int|
            0 <= i < resets_of(gone).len() ==> (#[trigger] resets_of(gone)[i]) is CameraReset,
        resets_of(gone).no_duplicates(),
{
    let resets = resets_of(gone);
    assert forall|i: int| 0 <= i < resets.len() implies #[trigger] resets[i]
        == MessageView::CameraReset(gone[i]) by {}
    assert(gone.contains(path) <==> has_path(older, path) && !has_path(newer, path));
    if gone.contains(path) {
        let i = choose|i: int| 0 <= i < gone.len() && gone[i] == path;
        assert(resets[i] == MessageView::CameraReset(path));
    }
    if resets.contains(MessageView::CameraReset(path)) {
        let i = choose|i: int| 0 <= i < resets.len() && resets[i] == MessageView::CameraReset(path);
        assert(gone[i] == path);
    }
    assert(has_path(older, path) <==> exists|watch: WatchId| #[trigger]
        older.contains((path, watch)));
    assert(has_path(newer, path) <==> exists|watch: WatchId| #[trigger]
        newer.contains((path, watch)));
}

} // verus!
