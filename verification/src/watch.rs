//! Which device each inotify watch stands for, and what its events mean.

use bimap::BiHashMap;
use vstd::prelude::*;

use crate::applet::{Message, MessageView};
use crate::camera::{
    held, is_device_name, name_prefix, open_cameras, proc_views, tally, times, ProcEntry,
};
use crate::path::{byte_views, is_plain, DevicePath};
use crate::text::{copy_bytes, same_bytes};

verus! {

/// A watch: the number of the inotify instance that holds it, and the
/// descriptor that the instance gave it. Descriptors are only told apart within
/// an instance.
pub type WatchId = (u64, i32);

/// The two-way map of the `bimap` crate.
#[verifier::external_type_specification]
#[verifier::external_body]
#[verifier::reject_recursive_types(L)]
#[verifier::reject_recursive_types(R)]
#[verifier::reject_recursive_types(LS)]
#[verifier::reject_recursive_types(RS)]
pub struct ExBiHashMap<L, R, LS, RS>(BiHashMap<L, R, LS, RS>);

/// The pairs that a two-way map holds.
pub uninterp spec fn pairs(map: BiHashMap<Vec<u8>, (u64, i32)>) -> Set<(Seq<u8>, (u64, i32))>;

/// `pairs` after a pair is put in: it takes the place of every pair that has
/// its left or its right value.
pub open spec fn paired(
    pairs: Set<(Seq<u8>, WatchId)>,
    path: Seq<u8>,
    watch: WatchId,
) -> Set<(Seq<u8>, WatchId)> {
    pairs.filter(|pair: (Seq<u8>, WatchId)| pair.0 != path && pair.1 != watch).insert(
        (path, watch),
    )
}

/// Calls `BiHashMap::new`.
///
/// Taken on trust: the new map is empty.
#[verifier::external_body]
fn empty_map() -> (r: BiHashMap<Vec<u8>, WatchId>)
    ensures
        pairs(r) == Set::<(Seq<u8>, WatchId)>::empty(),
{
    BiHashMap::new()
}

/// Calls `BiHashMap::insert`.
///
/// Taken on trust: the pairs that share a value with the new one leave, and the
/// new one is put in. What left is dropped.
#[verifier::external_body]
fn insert_pair(map: &mut BiHashMap<Vec<u8>, WatchId>, path: Vec<u8>, watch: WatchId)
    ensures
        pairs(*final(map)) == paired(pairs(*old(map)), path@, watch),
{
    map.insert(path, watch);
}

/// Calls `BiHashMap::get_by_right`.
///
/// Taken on trust: a left value that is paired with `watch` comes back if there
/// is one.
#[verifier::external_body]
fn left_of(map: &BiHashMap<Vec<u8>, WatchId>, watch: WatchId) -> (r: Option<&Vec<u8>>)
    ensures
        match r {
            Some(path) => pairs(*map).contains((path@, watch)),
            None => forall|path: Seq<u8>| !#[trigger] pairs(*map).contains((path, watch)),
        },
{
    map.get_by_right(&watch)
}

/// Calls `BiHashMap::left_values`.
///
/// Taken on trust: every left value comes once, in any order.
#[verifier::external_body]
fn left_values(map: &BiHashMap<Vec<u8>, WatchId>) -> (r: Vec<Vec<u8>>)
    ensures
        byte_views(r@).no_duplicates(),
        forall|path: Seq<u8>| #[trigger]
            byte_views(r@).contains(path) <==> has_path(pairs(*map), path),
{
    map.left_values().cloned().collect()
}

/// Whether a device is watched.
pub open spec fn has_path(watches: Set<(Seq<u8>, WatchId)>, path: Seq<u8>) -> bool {
    exists|watch: WatchId| #[trigger] watches.contains((path, watch))
}

/// Whether no device has two watches and no watch two devices.
pub open spec fn one_to_one(watches: Set<(Seq<u8>, WatchId)>) -> bool {
    forall|a: (Seq<u8>, WatchId), b: (Seq<u8>, WatchId)|
        #[trigger] watches.contains(a) && #[trigger] watches.contains(b) && (a.0 == b.0 || a.1
            == b.1) ==> a == b
}

/// Whether the path of every watched device is in its plainest form, so that
/// equal paths have equal bytes.
pub open spec fn all_plain(watches: Set<(Seq<u8>, WatchId)>) -> bool {
    forall|pair: (Seq<u8>, WatchId)| #[trigger] watches.contains(pair) ==> is_plain(pair.0)
}

/// The device that a watch stands for.
pub open spec fn device_of(watches: Set<(Seq<u8>, WatchId)>, watch: WatchId) -> Option<Seq<u8>> {
    if exists|path: Seq<u8>| #[trigger] watches.contains((path, watch)) {
        Some(choose|path: Seq<u8>| #[trigger] watches.contains((path, watch)))
    } else {
        None
    }
}

/// Putting a pair in keeps the pairs one to one.
pub proof fn lemma_paired_one_to_one(
    watches: Set<(Seq<u8>, WatchId)>,
    path: Seq<u8>,
    watch: WatchId,
)
    requires
        one_to_one(watches),
    ensures
        one_to_one(paired(watches, path, watch)),
{
}

/// An entry of `/dev`, and the watch on it.
#[derive(Debug)]
pub struct DeviceNode {
    /// The entry's file name.
    pub name: Vec<u8>,
    /// The entry's path.
    pub path: DevicePath,
    /// The descriptor of the watch, where one was asked for and granted.
    pub watch: Option<i32>,
}

/// What a [`DeviceNode`] says.
pub struct NodeView {
    pub name: Seq<u8>,
    pub path: Seq<u8>,
    pub watch: Option<i32>,
}

impl View for DeviceNode {
    type V = NodeView;

    open spec fn view(&self) -> NodeView {
        NodeView { name: self.name@, path: self.path@, watch: self.watch }
    }
}

/// What each entry of a list says.
pub open spec fn node_views(nodes: Seq<DeviceNode>) -> Seq<NodeView> {
    nodes.map_values(|node: DeviceNode| node@)
}

/// The watches on the video devices among the entries of `/dev`.
pub open spec fn watches_of(instance: u64, nodes: Seq<NodeView>) -> Set<(Seq<u8>, WatchId)>
    decreases nodes.len(),
{
    if nodes.len() == 0 {
        Set::empty()
    } else {
        let before = watches_of(instance, nodes.drop_last());
        let node = nodes.last();
        match node.watch {
            Some(id) if name_prefix().is_prefix_of(node.name) => paired(
                before,
                node.path,
                (instance, id),
            ),
            _ => before,
        }
    }
}

/// The events that are asked for on `/dev`: `IN_ATTRIB`.
pub const DIRECTORY_EVENTS: u32 = 0x4;

/// The events that are asked for on a video device: `IN_OPEN`, `IN_CLOSE` and
/// `IN_DELETE_SELF`.
pub const DEVICE_EVENTS: u32 = 0x438;

/// `IN_ATTRIB`: the metadata of a file changed.
pub const ATTRIB: u32 = 0x4;

/// `IN_CLOSE_WRITE`: a file that was open for writing was closed.
pub const CLOSE_WRITE: u32 = 0x8;

/// `IN_CLOSE_NOWRITE`: a file that was not open for writing was closed.
pub const CLOSE_NOWRITE: u32 = 0x10;

/// `IN_OPEN`: a file was opened.
pub const OPEN: u32 = 0x20;

/// `IN_CREATE`: a file was made in a watched directory.
pub const CREATE: u32 = 0x100;

/// `IN_DELETE_SELF`: a watched file was deleted.
pub const DELETE_SELF: u32 = 0x400;

/// An event of an inotify instance.
#[derive(Debug)]
pub struct DeviceEvent {
    /// What happened.
    pub mask: u32,
    /// The watch that it happened on.
    pub watch: WatchId,
    /// The file in a watched directory that it happened to.
    pub name: Option<Vec<u8>>,
}

/// What an event calls for.
#[derive(Debug)]
pub enum DeviceStep {
    /// Nothing.
    Ignore,
    /// The devices may have changed: they are to be looked up and watched anew.
    Rescan,
    /// A message is to be sent.
    Report(Message),
}

/// What a [`DeviceStep`] says.
pub enum StepView {
    Ignore,
    Rescan,
    Report(MessageView),
}

impl View for DeviceStep {
    type V = StepView;

    open spec fn view(&self) -> StepView {
        match *self {
            DeviceStep::Ignore => StepView::Ignore,
            DeviceStep::Rescan => StepView::Rescan,
            DeviceStep::Report(message) => StepView::Report(message@),
        }
    }
}

/// Whether an event means that the devices may have changed: a watched device
/// is gone, or something named like a video device was made or changed its
/// metadata. The mask has to be just the one bit.
pub open spec fn calls_for_rescan(mask: u32, name: Option<Seq<u8>>) -> bool {
    mask == DELETE_SELF || ((mask == CREATE || mask == ATTRIB) && match name {
        Some(name) => name_prefix().is_prefix_of(name),
        None => false,
    })
}

/// What an event calls for.
pub open spec fn step_of(
    watches: Set<(Seq<u8>, WatchId)>,
    mask: u32,
    watch: WatchId,
    name: Option<Seq<u8>>,
) -> StepView {
    if calls_for_rescan(mask, name) {
        StepView::Rescan
    } else {
        match device_of(watches, watch) {
            Some(path) if mask == OPEN => StepView::Report(MessageView::CameraOpen(path)),
            Some(path) if mask == CLOSE_WRITE || mask == CLOSE_NOWRITE => StepView::Report(
                MessageView::CameraClose(path),
            ),
            _ => StepView::Ignore,
        }
    }
}

/// The bytes of an optional name.
pub open spec fn name_view(name: Option<Vec<u8>>) -> Option<Seq<u8>> {
    match name {
        Some(name) => Some(name@),
        None => None,
    }
}

/// `paths` holds each device that is watched in `older` and not in `newer`, once.
pub open spec fn is_gone(
    paths: Seq<Seq<u8>>,
    older: Set<(Seq<u8>, WatchId)>,
    newer: Set<(Seq<u8>, WatchId)>,
) -> bool {
    &&& paths.no_duplicates()
    &&& forall|path: Seq<u8>| #[trigger]
        paths.contains(path) <==> has_path(older, path) && !has_path(newer, path)
}

/// The messages that reset each of `paths`.
pub open spec fn resets_of(paths: Seq<Seq<u8>>) -> Seq<MessageView> {
    paths.map_values(|path: Seq<u8>| MessageView::CameraReset(path))
}

/// What each message of a list says.
pub open spec fn message_views(messages: Seq<Message>) -> Seq<MessageView> {
    messages.map_values(|message: Message| message@)
}

/// The watches on the video devices.
pub struct WatchTable {
    map: BiHashMap<Vec<u8>, WatchId>,
}

impl View for WatchTable {
    type V = Set<(Seq<u8>, WatchId)>;

    closed spec fn view(&self) -> Set<(Seq<u8>, WatchId)> {
        pairs(self.map)
    }
}

/// Whether a path stands in a list.
fn is_among(paths: &Vec<Vec<u8>>, path: &[u8]) -> (r: bool)
    ensures
        r == byte_views(paths@).contains(path@),
{
    let ghost views = byte_views(paths@);
    let mut i: usize = 0;
    while i < paths.len()
        invariant
            i <= paths@.len(),
            views == byte_views(paths@),
            forall|j: int| 0 <= j < i ==> #[trigger] views[j] != path@,
        decreases paths@.len() - i,
    {
        assert(views[i as int] == paths@[i as int]@);
        if same_bytes(paths[i].as_slice(), path) {
            return true;
        }
        i = i + 1;
    }
    false
}

/// The watches that inotify instance `instance` holds on the video devices
/// among the entries of `/dev`. A descriptor that comes back for a second path
/// stands for that path from then on.
pub fn get_inotify(instance: u64, nodes: &Vec<DeviceNode>) -> (r: WatchTable)
    ensures
        r@ == watches_of(instance, node_views(nodes@)),
{
    let mut map = empty_map();
    let ghost views = node_views(nodes@);
    let mut i: usize = 0;
    assert(views.take(0) =~= Seq::<NodeView>::empty());
    while i < nodes.len()
        invariant
            i <= nodes@.len(),
            views == node_views(nodes@),
            one_to_one(pairs(map)),
            all_plain(pairs(map)),
            pairs(map) == watches_of(instance, views.take(i as int)),
        decreases nodes@.len() - i,
    {
        assert(views.take(i + 1).drop_last() =~= views.take(i as int));
        assert(views.take(i + 1).last() == nodes@[i as int]@);
        if is_device_name(nodes[i].name.as_slice()) {
            match nodes[i].watch {
                Some(id) => {
                    proof {
                        lemma_paired_one_to_one(
                            pairs(map),
                            nodes@[i as int].path@,
                            (instance, id),
                        );
                    }
                    let path = nodes[i].path.as_bytes();
                    insert_pair(&mut map, copy_bytes(path), (instance, id));
                },
                None => {},
            }
        }
        i = i + 1;
    }
    assert(views.take(i as int) =~= views);
    WatchTable { map }
}

impl WatchTable {
    #[verifier::type_invariant]
    spec fn is_sound(self) -> bool {
        one_to_one(pairs(self.map)) && all_plain(pairs(self.map))
    }

    /// What an event calls for.
    pub fn react(&self, event: &DeviceEvent) -> (r: DeviceStep)
        ensures
            one_to_one(self@),
            all_plain(self@),
            r@ == step_of(self@, event.mask, event.watch, name_view(event.name)),
    {
        proof {
            use_type_invariant(self);
        }
        let mask: u32 = event.mask;
        if mask == CREATE || mask == ATTRIB || mask == DELETE_SELF {
            let named: bool = match &event.name {
                Some(name) => is_device_name(name.as_slice()),
                None => false,
            };
            if mask == DELETE_SELF || named {
                return DeviceStep::Rescan;
            }
            return DeviceStep::Ignore;
        }
        if mask != OPEN && mask != CLOSE_WRITE && mask != CLOSE_NOWRITE {
            return DeviceStep::Ignore;
        }
        match left_of(&self.map, event.watch) {
            Some(path) => {
                proof {
                    let found = device_of(self@, event.watch);
                    assert(self@.contains((path@, event.watch)));
                    assert(found is Some);
                    assert(self@.contains((found->0, event.watch)));
                }
                if mask == OPEN {
                    DeviceStep::Report(Message::CameraOpen(DevicePath::new(path.as_slice())))
                } else {
                    DeviceStep::Report(Message::CameraClose(DevicePath::new(path.as_slice())))
                }
            },
            None => DeviceStep::Ignore,
        }
    }

    /// Goes over to the watches of a rescan, and gives the messages that reset
    /// the devices which are watched no longer, in any order.
    pub fn rescan(&mut self, newer: WatchTable) -> (r: Vec<Message>)
        ensures
            final(self)@ == newer@,
            exists|gone: Seq<Seq<u8>>| #[trigger]
                is_gone(gone, old(self)@, newer@) && message_views(r@) == resets_of(gone),
    {
        proof {
            use_type_invariant(&*self);
        }
        let old_paths = left_values(&self.map);
        let new_paths = left_values(&newer.map);
        let ghost old_views = byte_views(old_paths@);
        let ghost new_views = byte_views(new_paths@);
        let mut messages: Vec<Message> = Vec::new();
        let ghost mut gone: Seq<Seq<u8>> = Seq::empty();
        let mut i: usize = 0;
        assert(message_views(messages@) =~= resets_of(gone));
        assert forall|path: Seq<u8>| #[trigger] old_views.contains(path) implies is_plain(path) by {
            let watch = choose|watch: WatchId| #[trigger] self@.contains((path, watch));
            assert(self@.contains((path, watch)));
        }
        while i < old_paths.len()
            invariant
                i <= old_paths@.len(),
                old_views == byte_views(old_paths@),
                new_views == byte_views(new_paths@),
                old_views.no_duplicates(),
                forall|path: Seq<u8>| #[trigger] old_views.contains(path) ==> is_plain(path),
                message_views(messages@) == resets_of(gone),
                gone.no_duplicates(),
                forall|path: Seq<u8>| #[trigger]
                    gone.contains(path) <==> old_views.take(i as int).contains(path)
                        && !new_views.contains(path),
            decreases old_paths@.len() - i,
        {
            let path = old_paths[i].as_slice();
            assert(old_views[i as int] == path@);
            assert(old_views.contains(path@));
            let ghost shown = old_views.take(i as int);
            let ghost longer = old_views.take(i + 1);
            assert(longer =~= shown.push(path@));
            assert(!shown.contains(path@)) by {
                if shown.contains(path@) {
                    let j = choose|j: int| 0 <= j < shown.len() && shown[j] == path@;
                    assert(old_views[j] == old_views[i as int]);
                }
            }
            assert forall|other: Seq<u8>| #[trigger]
                longer.contains(other) == (shown.contains(other) || other == path@) by {
                lemma_push_contains(shown, path@, other);
            }
            if !is_among(&new_paths, path) {
                let ghost before = gone;
                let ghost said = message_views(messages@);
                messages.push(Message::CameraReset(DevicePath::new(path)));
                proof {
                    gone = before.push(path@);
                    assert(!before.contains(path@));
                    assert(message_views(messages@) =~= said.push(
                        MessageView::CameraReset(path@),
                    ));
                    assert(message_views(messages@) =~= resets_of(gone));
                    assert forall|other: Seq<u8>| #[trigger]
                        gone.contains(other) == (before.contains(other) || other == path@) by {
                        lemma_push_contains(before, path@, other);
                    }
                }
            }
            i = i + 1;
        }
        assert(old_views.take(i as int) =~= old_views);
        assert(is_gone(gone, self@, newer@));
        *self = newer;
        messages
    }
}

/// What a [`DeviceMonitor`] says.
pub struct MonitorView {
    pub instance: u64,
    pub watches: Set<(Seq<u8>, WatchId)>,
}

/// Whether every watch is of this inotify instance.
pub open spec fn all_of(watches: Set<(Seq<u8>, WatchId)>, instance: u64) -> bool {
    forall|pair: (Seq<u8>, WatchId)| #[trigger] watches.contains(pair) ==> pair.1.0 == instance
}

/// The inotify instances that watch the video devices, one after the other, and
/// the watches of the present one.
pub struct DeviceMonitor {
    instance: u64,
    watches: WatchTable,
}

impl View for DeviceMonitor {
    type V = MonitorView;

    closed spec fn view(&self) -> MonitorView {
        MonitorView { instance: self.instance, watches: self.watches@ }
    }
}

/// All watches that an instance grants are its own.
proof fn lemma_watches_of_instance(instance: u64, nodes: Seq<NodeView>)
    ensures
        all_of(watches_of(instance, nodes), instance),
    decreases nodes.len(),
{
    if nodes.len() > 0 {
        lemma_watches_of_instance(instance, nodes.drop_last());
    }
}

impl DeviceMonitor {
    #[verifier::type_invariant]
    spec fn watches_with_one_instance(self) -> bool {
        all_of(self.watches@, self.instance)
    }

    /// Starts with what the processes hold open, which is to be reported before
    /// anything is watched. The first rescan sets the first watches.
    pub fn start(sandboxed: bool, procs: &Vec<ProcEntry>) -> (r: (DeviceMonitor, Message))
        requires
            !sandboxed ==> forall|path: Seq<u8>| #[trigger]
                times(held(proc_views(procs@)), path) <= i32::MAX,
        ensures
            r.0@ == (MonitorView { instance: 0, watches: Set::empty() }),
            r.1@ == MessageView::CameraPrevious(
                if sandboxed {
                    Map::<Seq<u8>, (int, int)>::empty()
                } else {
                    tally(held(proc_views(procs@)))
                },
            ),
    {
        let none: Vec<DeviceNode> = Vec::new();
        let watches = get_inotify(0, &none);
        assert(node_views(none@) =~= Seq::<NodeView>::empty());
        let monitor = DeviceMonitor { instance: 0, watches };
        (monitor, Message::CameraPrevious(open_cameras(sandboxed, procs)))
    }

    /// The number of the present inotify instance, by which its events are known.
    pub fn instance(&self) -> (r: u64)
        ensures
            r == self@.instance,
    {
        self.instance
    }

    /// What an event calls for. An event of an instance that has been replaced
    /// is reported for no device.
    pub fn react(&self, event: &DeviceEvent) -> (r: DeviceStep)
        ensures
            one_to_one(self@.watches),
            all_plain(self@.watches),
            r@ == step_of(self@.watches, event.mask, event.watch, name_view(event.name)),
            event.watch.0 != self@.instance ==> !(r@ is Report),
    {
        proof {
            use_type_invariant(self);
            let found = device_of(self.watches@, event.watch);
            if found is Some {
                assert(self.watches@.contains((found->0, event.watch)));
            }
        }
        self.watches.react(event)
    }

    /// Goes over to a new inotify instance, which watches the video devices
    /// among the entries of `/dev`, and gives the messages that reset the
    /// devices which are watched no longer, in any order.
    pub fn rescan(&mut self, nodes: &Vec<DeviceNode>) -> (r: Vec<Message>)
        requires
            old(self)@.instance < u64::MAX,
        ensures
            final(self)@.instance == old(self)@.instance + 1,
            final(self)@.watches == watches_of(final(self)@.instance, node_views(nodes@)),
            exists|gone: Seq<Seq<u8>>| #[trigger]
                is_gone(gone, old(self)@.watches, final(self)@.watches) && message_views(r@)
                    == resets_of(gone),
            old(self)@.watches == Set::<(Seq<u8>, WatchId)>::empty() ==> r@.len() == 0,
    {
        let instance: u64 = self.instance + 1;
        let newer = get_inotify(instance, nodes);
        let none: Vec<DeviceNode> = Vec::new();
        let mut watches = get_inotify(0, &none);
        proof {
            lemma_watches_of_instance(instance, node_views(nodes@));
            assert(node_views(none@) =~= Seq::<NodeView>::empty());
        }
        std::mem::swap(&mut watches, &mut self.watches);
        let ghost older = watches@;
        let messages = watches.rescan(newer);
        *self = DeviceMonitor { instance, watches };
        proof {
            let gone = choose|gone: Seq<Seq<u8>>| #[trigger]
                is_gone(gone, older, watches@) && message_views(messages@) == resets_of(gone);
            assert(is_gone(gone, old(self)@.watches, self@.watches));
            assert(message_views(messages@).len() == gone.len());
            if gone.len() > 0 {
                assert(gone.contains(gone[0]));
            }
        }
        messages
    }
}

/// What a list holds with one element more.
proof fn lemma_push_contains(paths: Seq<Seq<u8>>, path: Seq<u8>, other: Seq<u8>)
    ensures
        paths.push(path).contains(other) == (paths.contains(other) || other == path),
{
    let longer = paths.push(path);
    assert(longer[paths.len() as int] == path);
    if paths.contains(other) {
        let j = choose|j: int| 0 <= j < paths.len() && paths[j] == other;
        assert(longer[j] == other);
    }
    if longer.contains(other) && other != path {
        let j = choose|j: int| 0 <= j < longer.len() && longer[j] == other;
        assert(paths[j] == other);
    }
}

} // verus!
