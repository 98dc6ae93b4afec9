//! Which video devices are held open, and by whom.

use std::borrow::Cow;
use std::collections::HashSet;
use vstd::prelude::*;

use crate::applet::{AppInfo, AppView};
use crate::path::{path_views, plain, same_path, DevicePath};
use crate::text::{
    all_digits, begins_with, is_all_digits, process_id, process_id_of, same_bytes, trim, trimmed,
};

verus! {

broadcast use vstd::std_specs::hash::group_hash_axioms;

/// For each device two counts: how often it has been opened less how often it
/// has been closed, and the lowest that this has been.
///
/// Every device stands at most once.
#[derive(Debug)]
pub struct CameraTable {
    entries: Vec<(DevicePath, (i32, i32))>,
}

/// Whether `path` stands in one of the entries.
spec fn is_listed(entries: Seq<(DevicePath, (i32, i32))>, path: Seq<u8>) -> bool {
    exists|i: int| 0 <= i < entries.len() && (#[trigger] entries[i]).0@ == path
}

/// The entry in which `path` stands.
spec fn place(entries: Seq<(DevicePath, (i32, i32))>, path: Seq<u8>) -> int {
    choose|i: int| 0 <= i < entries.len() && (#[trigger] entries[i]).0@ == path
}

/// Whether no two entries are for the same device.
spec fn distinct(entries: Seq<(DevicePath, (i32, i32))>) -> bool {
    forall|i: int, j: int|
        0 <= i < j < entries.len() ==> (#[trigger] entries[i]).0@ != (#[trigger] entries[j]).0@
}

/// The entries as a map.
spec fn as_map(entries: Seq<(DevicePath, (i32, i32))>) -> Map<Seq<u8>, (int, int)> {
    Map::new(
        |path: Seq<u8>| is_listed(entries, path),
        |path: Seq<u8>|
            {
                let counts = entries[place(entries, path)].1;
                (counts.0 as int, counts.1 as int)
            },
    )
}

impl View for CameraTable {
    type V = Map<Seq<u8>, (int, int)>;

    closed spec fn view(&self) -> Map<Seq<u8>, (int, int)> {
        as_map(self.entries@)
    }
}

/// `cameras` after one more open of `path`.
pub open spec fn after_open(cameras: Map<Seq<u8>, (int, int)>, path: Seq<u8>) -> Map<
    Seq<u8>,
    (int, int),
> {
    if cameras.contains_key(path) {
        cameras.insert(path, (cameras[path].0 + 1, cameras[path].1))
    } else {
        cameras.insert(path, (1, 0))
    }
}

/// `cameras` after a close of `path`.
pub open spec fn after_close(cameras: Map<Seq<u8>, (int, int)>, path: Seq<u8>) -> Map<
    Seq<u8>,
    (int, int),
> {
    if cameras.contains_key(path) {
        let shares = cameras[path].0 - 1;
        let min = if cameras[path].1 < shares {
            cameras[path].1
        } else {
            shares
        };
        cameras.insert(path, (shares, min))
    } else {
        cameras.insert(path, (0, 0))
    }
}

/// The opens above the lowest count, summed over all devices.
pub open spec fn total_in_use(cameras: Map<Seq<u8>, (int, int)>) -> int
    decreases cameras.dom().len(),
    when cameras.dom().finite()
{
    if cameras.dom().len() == 0 {
        0
    } else {
        let path = cameras.dom().choose();
        total_in_use(cameras.remove(path)) + cameras[path].0 - cameras[path].1
    }
}

/// Each device adds its own share to the sum, whichever is taken first.
pub proof fn lemma_total_in_use_remove(cameras: Map<Seq<u8>, (int, int)>, path: Seq<u8>)
    requires
        cameras.dom().finite(),
        cameras.contains_key(path),
    ensures
        total_in_use(cameras) == total_in_use(cameras.remove(path)) + cameras[path].0
            - cameras[path].1,
    decreases cameras.dom().len(),
{
    let first = cameras.dom().choose();
    assert(cameras.dom().contains(path));
    assert(cameras.dom().len() > 0);
    assert(cameras.dom().contains(first));
    if first != path {
        let rest = cameras.remove(first);
        lemma_total_in_use_remove(rest, path);
        lemma_total_in_use_remove(cameras.remove(path), first);
        assert(rest.remove(path) =~= cameras.remove(path).remove(first));
    }
}

/// A listed device is looked up in its only entry.
proof fn lemma_place(entries: Seq<(DevicePath, (i32, i32))>, i: int)
    requires
        distinct(entries),
        0 <= i < entries.len(),
    ensures
        is_listed(entries, entries[i].0@),
        place(entries, entries[i].0@) == i,
{
    let p = place(entries, entries[i].0@);
    assert(0 <= p < entries.len() && entries[p].0@ == entries[i].0@);
}

/// One entry more is one key more.
proof fn lemma_push(entries: Seq<(DevicePath, (i32, i32))>, entry: (DevicePath, (i32, i32)))
    requires
        distinct(entries),
        !is_listed(entries, entry.0@),
    ensures
        distinct(entries.push(entry)),
        as_map(entries.push(entry)) == as_map(entries).insert(
            entry.0@,
            (entry.1.0 as int, entry.1.1 as int),
        ),
{
    let longer = entries.push(entry);
    assert forall|i: int, j: int| 0 <= i < j < longer.len() implies (#[trigger] longer[i]).0@ != (
    #[trigger] longer[j]).0@ by {
        assert(longer[i] == entries[i]);
        if j < entries.len() {
            assert(longer[j] == entries[j]);
        }
    }
    lemma_place(longer, entries.len() as int);
    assert forall|path: Seq<u8>| #[trigger] is_listed(longer, path) == (path == entry.0@ || is_listed(
        entries,
        path,
    )) by {
        if is_listed(entries, path) {
            let i = place(entries, path);
            assert(longer[i].0@ == path);
        }
        if is_listed(longer, path) && path != entry.0@ {
            let i = place(longer, path);
            assert(entries[i].0@ == path);
        }
    }
    assert forall|path: Seq<u8>| is_listed(entries, path) implies longer[place(longer, path)]
        == entries[#[trigger] place(entries, path)] by {
        let i = place(entries, path);
        assert(longer[i].0@ == path);
        lemma_place(longer, i);
    }
    assert(as_map(longer) =~= as_map(entries).insert(
        entry.0@,
        (entry.1.0 as int, entry.1.1 as int),
    ));
}

/// New counts in an entry are new counts for its device.
proof fn lemma_update(entries: Seq<(DevicePath, (i32, i32))>, i: int, entry: (DevicePath, (i32, i32)))
    requires
        distinct(entries),
        0 <= i < entries.len(),
        entry.0@ == entries[i].0@,
    ensures
        distinct(entries.update(i, entry)),
        as_map(entries.update(i, entry)) == as_map(entries).insert(
            entry.0@,
            (entry.1.0 as int, entry.1.1 as int),
        ),
{
    let changed = entries.update(i, entry);
    assert forall|j: int| 0 <= j < entries.len() implies (#[trigger] changed[j]).0@
        == entries[j].0@ by {}
    assert(distinct(changed)) by {
        assert forall|a: int, b: int| 0 <= a < b < changed.len() implies (#[trigger] changed[a]).0@
            != (#[trigger] changed[b]).0@ by {
            assert(entries[a].0@ != entries[b].0@);
        }
    }
    lemma_place(entries, i);
    lemma_place(changed, i);
    assert forall|path: Seq<u8>| #[trigger] is_listed(changed, path) == is_listed(entries, path) by {
        if is_listed(entries, path) {
            assert(changed[place(entries, path)].0@ == path);
        }
        if is_listed(changed, path) {
            assert(entries[place(changed, path)].0@ == path);
        }
    }
    assert forall|path: Seq<u8>| is_listed(entries, path) && path != entry.0@ implies changed[place(
        changed,
        path,
    )] == entries[#[trigger] place(entries, path)] by {
        let j = place(entries, path);
        assert(changed[j].0@ == path);
        lemma_place(changed, j);
    }
    assert(as_map(changed) =~= as_map(entries).insert(
        entry.0@,
        (entry.1.0 as int, entry.1.1 as int),
    ));
}

/// Without an entry, its device is gone and no other.
proof fn lemma_remove(entries: Seq<(DevicePath, (i32, i32))>, i: int)
    requires
        distinct(entries),
        0 <= i < entries.len(),
    ensures
        distinct(entries.remove(i)),
        as_map(entries.remove(i)) == as_map(entries).remove(entries[i].0@),
{
    let fewer = entries.remove(i);
    let gone = entries[i].0@;
    assert forall|j: int| 0 <= j < fewer.len() implies #[trigger] fewer[j] == entries[if j < i {
        j
    } else {
        j + 1
    }] by {}
    assert(distinct(fewer)) by {
        assert forall|a: int, b: int| 0 <= a < b < fewer.len() implies (#[trigger] fewer[a]).0@ != (
        #[trigger] fewer[b]).0@ by {}
    }
    assert forall|path: Seq<u8>| #[trigger] is_listed(fewer, path) == (path != gone && is_listed(
        entries,
        path,
    )) by {
        if is_listed(fewer, path) {
            let j = place(fewer, path);
            let k = if j < i {
                j
            } else {
                j + 1
            };
            assert(entries[k].0@ == path);
            assert(k != i);
        }
        if path != gone && is_listed(entries, path) {
            let k = place(entries, path);
            assert(fewer[if k < i {
                k
            } else {
                k - 1
            }].0@ == path);
        }
    }
    assert forall|path: Seq<u8>| path != gone && is_listed(entries, path) implies fewer[place(
        fewer,
        path,
    )] == entries[#[trigger] place(entries, path)] by {
        let k = place(entries, path);
        let j = if k < i {
            k
        } else {
            k - 1
        };
        assert(fewer[j].0@ == path);
        lemma_place(fewer, j);
    }
    assert(as_map(fewer) =~= as_map(entries).remove(gone));
}

/// The sum over the entries is the sum over the map.
proof fn lemma_sum(entries: Seq<(DevicePath, (i32, i32))>)
    requires
        distinct(entries),
    ensures
        as_map(entries).dom().finite(),
        entries.len() > 0 ==> total_in_use(as_map(entries)) == total_in_use(
            as_map(entries.drop_last()),
        ) + entries.last().1.0 - entries.last().1.1,
        entries.len() == 0 ==> total_in_use(as_map(entries)) == 0,
    decreases entries.len(),
{
    if entries.len() == 0 {
        assert(as_map(entries) =~= Map::<Seq<u8>, (int, int)>::empty());
    } else {
        let rest = entries.drop_last();
        assert(distinct(rest)) by {
            assert forall|a: int, b: int| 0 <= a < b < rest.len() implies (#[trigger] rest[a]).0@
                != (#[trigger] rest[b]).0@ by {
                assert(entries[a].0@ != entries[b].0@);
            }
        }
        lemma_sum(rest);
        let last = entries.last();
        assert(!is_listed(rest, last.0@)) by {
            if is_listed(rest, last.0@) {
                let i = place(rest, last.0@);
                assert(entries[i].0@ == entries[entries.len() - 1].0@);
            }
        }
        lemma_push(rest, last);
        assert(rest.push(last) =~= entries);
        lemma_total_in_use_remove(as_map(entries), last.0@);
        assert(as_map(entries).remove(last.0@) =~= as_map(rest));
    }
}

impl CameraTable {
    #[verifier::type_invariant]
    spec fn one_entry_per_device(self) -> bool {
        distinct(self.entries@)
    }

    /// A table of no devices.
    pub fn new() -> (r: CameraTable)
        ensures
            r@ == Map::<Seq<u8>, (int, int)>::empty(),
    {
        let r = CameraTable { entries: Vec::new() };
        assert(r@ =~= Map::<Seq<u8>, (int, int)>::empty());
        r
    }

    /// Where `path` stands among the entries.
    fn find(&self, path: &DevicePath) -> (r: Option<usize>)
        ensures
            match r {
                Some(i) => i < self.entries@.len() && self.entries@[i as int].0@ == path@,
                None => !is_listed(self.entries@, path@),
            },
    {
        let mut i: usize = 0;
        while i < self.entries.len()
            invariant
                i <= self.entries@.len(),
                forall|j: int| 0 <= j < i ==> (#[trigger] self.entries@[j]).0@ != path@,
            decreases self.entries@.len() - i,
        {
            if same_bytes(self.entries[i].0.as_bytes(), path.as_bytes()) {
                return Some(i);
            }
            i = i + 1;
        }
        None
    }

    /// The counts of `path`.
    pub fn get(&self, path: &DevicePath) -> (r: Option<(i32, i32)>)
        ensures
            match r {
                Some(counts) => self@.contains_key(path@) && self@[path@] == (
                    counts.0 as int,
                    counts.1 as int,
                ),
                None => !self@.contains_key(path@),
            },
    {
        proof {
            use_type_invariant(self);
        }
        match self.find(path) {
            Some(i) => {
                proof {
                    lemma_place(self.entries@, i as int);
                }
                Some(self.entries[i].1)
            },
            None => None,
        }
    }

    /// Sets the counts of `path`.
    pub fn insert(&mut self, path: DevicePath, counts: (i32, i32))
        ensures
            final(self)@ == old(self)@.insert(path@, (counts.0 as int, counts.1 as int)),
    {
        proof {
            use_type_invariant(&*self);
        }
        let found = self.find(&path);
        let ghost before = self.entries@;
        let mut entries: Vec<(DevicePath, (i32, i32))> = Vec::new();
        std::mem::swap(&mut entries, &mut self.entries);
        match found {
            Some(i) => {
                proof {
                    lemma_update(before, i as int, (path, counts));
                }
                entries.set(i, (path, counts));
            },
            None => {
                proof {
                    lemma_push(before, (path, counts));
                }
                entries.push((path, counts));
            },
        }
        self.entries = entries;
    }

    /// Counts one more open of `path`.
    pub fn open(&mut self, path: DevicePath)
        requires
            old(self)@.contains_key(path@) ==> old(self)@[path@].0 < i32::MAX,
        ensures
            final(self)@ == after_open(old(self)@, path@),
    {
        match self.get(&path) {
            Some(counts) => self.insert(path, (counts.0 + 1, counts.1)),
            None => self.insert(path, (1, 0)),
        }
    }

    /// Counts a close of `path`.
    pub fn close(&mut self, path: DevicePath)
        requires
            old(self)@.contains_key(path@) ==> old(self)@[path@].0 > i32::MIN,
        ensures
            final(self)@ == after_close(old(self)@, path@),
    {
        match self.get(&path) {
            Some(counts) => {
                let shares: i32 = counts.0 - 1;
                let min: i32 = if counts.1 < shares {
                    counts.1
                } else {
                    shares
                };
                self.insert(path, (shares, min))
            },
            None => self.insert(path, (0, 0)),
        }
    }

    /// Forgets `path`.
    pub fn remove(&mut self, path: &DevicePath)
        ensures
            final(self)@ == old(self)@.remove(path@),
    {
        proof {
            use_type_invariant(&*self);
        }
        match self.find(path) {
            Some(i) => {
                proof {
                    lemma_remove(self.entries@, i as int);
                }
                let mut entries: Vec<(DevicePath, (i32, i32))> = Vec::new();
                std::mem::swap(&mut entries, &mut self.entries);
                entries.remove(i);
                self.entries = entries;
            },
            None => {
                assert(self@.remove(path@) =~= self@);
            },
        }
    }

    /// Whether the devices together have been opened above their lowest counts.
    pub fn in_use(&self) -> (r: bool)
        ensures
            self@.dom().finite(),
            r == (total_in_use(self@) > 0),
    {
        proof {
            use_type_invariant(self);
            lemma_sum(self.entries@.take(0));
        }
        let mut sum: i128 = 0;
        let mut i: usize = 0;
        while i < self.entries.len()
            invariant
                i <= self.entries@.len(),
                distinct(self.entries@),
                sum == total_in_use(as_map(self.entries@.take(i as int))),
                -(i * 0x2_0000_0000) <= sum <= i * 0x2_0000_0000,
            decreases self.entries@.len() - i,
        {
            let counts = self.entries[i].1;
            proof {
                let shown = self.entries@.take(i + 1);
                assert(distinct(shown)) by {
                    assert forall|a: int, b: int| 0 <= a < b < shown.len() implies (
                    #[trigger] shown[a]).0@ != (#[trigger] shown[b]).0@ by {
                        assert(self.entries@[a].0@ != self.entries@[b].0@);
                    }
                }
                lemma_sum(shown);
                assert(shown.drop_last() =~= self.entries@.take(i as int));
            }
            sum = sum + counts.0 as i128 - counts.1 as i128;
            i = i + 1;
        }
        proof {
            assert(self.entries@.take(i as int) =~= self.entries@);
            lemma_sum(self.entries@);
        }
        sum > 0
    }
}

/// A list of devices in which each device of the table stands once.
pub open spec fn is_order_of(order: Seq<Seq<u8>>, cameras: Map<Seq<u8>, (int, int)>) -> bool {
    &&& order.no_duplicates()
    &&& forall|path: Seq<u8>| order.contains(path) <==> #[trigger] cameras.contains_key(path)
}

impl CameraTable {
    /// The devices of the table, in any order.
    pub fn paths(&self) -> (r: Vec<DevicePath>)
        ensures
            is_order_of(path_views(r@), self@),
    {
        proof {
            use_type_invariant(self);
        }
        let mut r: Vec<DevicePath> = Vec::new();
        let mut i: usize = 0;
        while i < self.entries.len()
            invariant
                i <= self.entries@.len(),
                r@.len() == i,
                forall|j: int| 0 <= j < i ==> (#[trigger] r@[j])@ == self.entries@[j].0@,
            decreases self.entries@.len() - i,
        {
            r.push(self.entries[i].0.clone());
            i = i + 1;
        }
        proof {
            let order = path_views(r@);
            assert forall|a: int, b: int|
                0 <= a < order.len() && 0 <= b < order.len() && a != b implies #[trigger] order[a]
                != #[trigger] order[b] by {
                if a < b {
                    assert(self.entries@[a].0@ != self.entries@[b].0@);
                } else {
                    assert(self.entries@[b].0@ != self.entries@[a].0@);
                }
            }
            assert forall|path: Seq<u8>| order.contains(path) <==> #[trigger] self@.contains_key(
                path,
            ) by {
                if order.contains(path) {
                    let k = choose|k: int| 0 <= k < order.len() && order[k] == path;
                    assert(self.entries@[k].0@ == path);
                }
                if is_listed(self.entries@, path) {
                    let k = place(self.entries@, path);
                    assert(order[k] == path);
                }
            }
        }
        r
    }
}

impl Clone for CameraTable {
    fn clone(&self) -> (r: CameraTable)
        ensures
            r@ == self@,
    {
        proof {
            use_type_invariant(self);
        }
        let mut entries: Vec<(DevicePath, (i32, i32))> = Vec::new();
        let mut i: usize = 0;
        while i < self.entries.len()
            invariant
                i <= self.entries@.len(),
                entries@.len() == i,
                forall|j: int|
                    0 <= j < i ==> (#[trigger] entries@[j]).0@ == self.entries@[j].0@
                        && entries@[j].1 == self.entries@[j].1,
            decreases self.entries@.len() - i,
        {
            entries.push((self.entries[i].0.clone(), self.entries[i].1));
            i = i + 1;
        }
        proof {
            lemma_same_entries(self.entries@, entries@);
        }
        CameraTable { entries }
    }
}

/// Entries that read the same make the same map.
proof fn lemma_same_entries(
    a: Seq<(DevicePath, (i32, i32))>,
    b: Seq<(DevicePath, (i32, i32))>,
)
    requires
        distinct(a),
        a.len() == b.len(),
        forall|j: int| 0 <= j < a.len() ==> (#[trigger] b[j]).0@ == a[j].0@ && b[j].1 == a[j].1,
    ensures
        distinct(b),
        as_map(a) == as_map(b),
{
    assert(distinct(b)) by {
        assert forall|i: int, j: int| 0 <= i < j < b.len() implies (#[trigger] b[i]).0@ != (
        #[trigger] b[j]).0@ by {
            assert(a[i].0@ != a[j].0@);
        }
    }
    assert forall|path: Seq<u8>| #[trigger] is_listed(a, path) == is_listed(b, path) by {
        if is_listed(a, path) {
            assert(b[place(a, path)].0@ == path);
        }
        if is_listed(b, path) {
            assert(a[place(b, path)].0@ == path);
        }
    }
    assert forall|path: Seq<u8>| is_listed(a, path) implies #[trigger] place(a, path) == place(
        b,
        path,
    ) by {
        let i = place(a, path);
        assert(b[i].0@ == path);
        lemma_place(b, i);
    }
    assert(as_map(a) =~= as_map(b));
}

/// One entry of `/proc`.
#[derive(Debug)]
pub struct ProcEntry {
    /// The entry's file name.
    pub name: Vec<u8>,
    /// What each file descriptor of the process links to, as it is written in
    /// the link, where the link could be read, if the descriptors could be
    /// listed at all.
    pub fds: Option<Vec<Option<Vec<u8>>>>,
    /// What `comm` holds, where it could be read.
    pub comm: Option<String>,
}

/// What a [`ProcEntry`] says.
pub struct ProcView {
    pub name: Seq<u8>,
    pub fds: Option<Seq<Option<Seq<u8>>>>,
    pub comm: Option<Seq<char>>,
}

/// The bytes of each link of a list.
pub open spec fn link_views(links: Seq<Option<Vec<u8>>>) -> Seq<Option<Seq<u8>>> {
    links.map_values(
        |link: Option<Vec<u8>>|
            match link {
                Some(path) => Some(path@),
                None => None,
            },
    )
}

impl View for ProcEntry {
    type V = ProcView;

    open spec fn view(&self) -> ProcView {
        ProcView {
            name: self.name@,
            fds: match self.fds {
                Some(links) => Some(link_views(links@)),
                None => None,
            },
            comm: match self.comm {
                Some(text) => Some(text@),
                None => None,
            },
        }
    }
}

/// What each entry of a list says.
pub open spec fn proc_views(procs: Seq<ProcEntry>) -> Seq<ProcView> {
    procs.map_values(|entry: ProcEntry| entry@)
}

/// How the path of every video device begins: `/dev/video`.
pub open spec fn device_prefix() -> Seq<u8> {
    seq![
        '/' as u8,
        'd' as u8,
        'e' as u8,
        'v' as u8,
        '/' as u8,
        'v' as u8,
        'i' as u8,
        'd' as u8,
        'e' as u8,
        'o' as u8,
    ]
}

/// How the name of every video device begins: `video`.
pub open spec fn name_prefix() -> Seq<u8> {
    seq!['v' as u8, 'i' as u8, 'd' as u8, 'e' as u8, 'o' as u8]
}

/// Whether a path is that of a video device.
pub fn is_device_path(path: &[u8]) -> (r: bool)
    ensures
        r == device_prefix().is_prefix_of(path@),
{
    let prefix: [u8; 10] = [
        '/' as u8,
        'd' as u8,
        'e' as u8,
        'v' as u8,
        '/' as u8,
        'v' as u8,
        'i' as u8,
        'd' as u8,
        'e' as u8,
        'o' as u8,
    ];
    assert(prefix@ =~= device_prefix());
    begins_with(path, &prefix)
}

/// Whether a file name is that of a video device.
pub fn is_device_name(name: &[u8]) -> (r: bool)
    ensures
        r == name_prefix().is_prefix_of(name@),
{
    let prefix: [u8; 5] = ['v' as u8, 'i' as u8, 'd' as u8, 'e' as u8, 'o' as u8];
    assert(prefix@ =~= name_prefix());
    begins_with(name, &prefix)
}

/// The video devices among the links of one process, in order: the links that are
/// written as such.
pub open spec fn video_links(links: Seq<Option<Seq<u8>>>) -> Seq<Seq<u8>>
    decreases links.len(),
{
    if links.len() == 0 {
        Seq::empty()
    } else {
        let before = video_links(links.drop_last());
        match links.last() {
            Some(link) if device_prefix().is_prefix_of(link) => before.push(plain(link)),
            _ => before,
        }
    }
}

/// The video devices that one entry of `/proc` holds open: none unless the
/// entry is that of a process.
pub open spec fn held_by(entry: ProcView) -> Seq<Seq<u8>> {
    match entry.fds {
        Some(links) if all_digits(entry.name) => video_links(links),
        _ => Seq::empty(),
    }
}

/// The video devices that all processes hold open, once for every descriptor.
pub open spec fn held(procs: Seq<ProcView>) -> Seq<Seq<u8>>
    decreases procs.len(),
{
    if procs.len() == 0 {
        Seq::empty()
    } else {
        held(procs.drop_last()) + held_by(procs.last())
    }
}

/// How often a device stands in a list.
pub open spec fn times(paths: Seq<Seq<u8>>, path: Seq<u8>) -> nat {
    paths.to_multiset().count(path)
}

/// For each device of a list, how often it stands there; the lowest count is zero.
pub open spec fn tally(paths: Seq<Seq<u8>>) -> Map<Seq<u8>, (int, int)> {
    Map::new(|path: Seq<u8>| paths.contains(path), |path: Seq<u8>| (times(paths, path) as int, 0int))
}

/// One more descriptor is one more open.
pub proof fn lemma_tally_push(paths: Seq<Seq<u8>>, path: Seq<u8>)
    ensures
        tally(paths.push(path)) == after_open(tally(paths), path),
{
    broadcast use vstd::seq_lib::group_to_multiset_ensures;

    let longer = paths.push(path);
    assert forall|other: Seq<u8>| longer.contains(other) == (other == path || #[trigger] paths.contains(
        other,
    )) by {
        if paths.contains(other) {
            let i = choose|i: int| 0 <= i < paths.len() && paths[i] == other;
            assert(longer[i] == other);
        }
        assert(longer[paths.len() as int] == path);
        if longer.contains(other) && other != path {
            let i = choose|i: int| 0 <= i < longer.len() && longer[i] == other;
            assert(paths[i] == other);
        }
    }
    if !paths.contains(path) {
        assert(paths.to_multiset().count(path) == 0);
    }
    assert(tally(longer) =~= after_open(tally(paths), path));
}

/// A device stands no more often in a part of a list than in all of it.
proof fn lemma_times_of_part(paths: Seq<Seq<u8>>, n: int, path: Seq<u8>)
    requires
        0 <= n <= paths.len(),
    ensures
        times(paths.take(n), path) <= times(paths, path),
    decreases paths.len() - n,
{
    broadcast use vstd::seq_lib::group_to_multiset_ensures;

    if n == paths.len() {
        assert(paths.take(n) =~= paths);
    } else {
        lemma_times_of_part(paths, n + 1, path);
        assert(paths.take(n + 1) =~= paths.take(n).push(paths[n]));
    }
}

/// Adds the video devices among `links` to `paths`.
fn collect_links(links: &Vec<Option<Vec<u8>>>, paths: &mut Vec<DevicePath>)
    ensures
        path_views(final(paths)@) == path_views(old(paths)@) + video_links(link_views(links@)),
{
    let ghost before = path_views(paths@);
    let ghost all = link_views(links@);
    let mut i: usize = 0;
    assert(all.take(0) =~= Seq::<Option<Seq<u8>>>::empty());
    assert(before + video_links(all.take(0)) =~= before);
    while i < links.len()
        invariant
            i <= links@.len(),
            all == link_views(links@),
            path_views(paths@) == before + video_links(all.take(i as int)),
        decreases links@.len() - i,
    {
        let ghost shown = all.take(i + 1);
        assert(shown.drop_last() =~= all.take(i as int));
        match &links[i] {
            Some(path) => {
                if is_device_path(path.as_slice()) {
                    let ghost shorter = paths@;
                    paths.push(DevicePath::new(path.as_slice()));
                    assert(path_views(paths@) =~= path_views(shorter).push(plain(path@)));
                    assert(path_views(paths@) =~= before + video_links(shown));
                }
            },
            None => {},
        }
        i = i + 1;
    }
    assert(all.take(i as int) =~= all);
}

/// The video devices that are held open at the start, with how many
/// descriptors are open on each. A sandbox hides the processes of others, so
/// there nothing is reported.
pub fn open_cameras(sandboxed: bool, procs: &Vec<ProcEntry>) -> (r: CameraTable)
    requires
        !sandboxed ==> forall|path: Seq<u8>| #[trigger]
            times(held(proc_views(procs@)), path) <= i32::MAX,
    ensures
        r@ == if sandboxed {
            Map::<Seq<u8>, (int, int)>::empty()
        } else {
            tally(held(proc_views(procs@)))
        },
{
    let mut cameras = CameraTable::new();
    if sandboxed {
        return cameras;
    }
    let ghost views = proc_views(procs@);
    let mut paths: Vec<DevicePath> = Vec::new();
    let mut i: usize = 0;
    assert(views.take(0) =~= Seq::<ProcView>::empty());
    assert(path_views(paths@) =~= Seq::<Seq<u8>>::empty());
    while i < procs.len()
        invariant
            i <= procs@.len(),
            views == proc_views(procs@),
            path_views(paths@) == held(views.take(i as int)),
        decreases procs@.len() - i,
    {
        let ghost shown = views.take(i + 1);
        let ghost so_far = path_views(paths@);
        assert(shown.drop_last() =~= views.take(i as int));
        assert(shown.last() == procs@[i as int]@);
        assert(so_far + Seq::<Seq<u8>>::empty() =~= so_far);
        if is_all_digits(procs[i].name.as_slice()) {
            match &procs[i].fds {
                Some(links) => collect_links(links, &mut paths),
                None => {},
            }
        }
        i = i + 1;
    }
    assert(views.take(i as int) =~= views);
    let ghost all = path_views(paths@);
    let mut k: usize = 0;
    proof {
        broadcast use vstd::seq_lib::group_to_multiset_ensures;

        assert(tally(all.take(0)) =~= Map::<Seq<u8>, (int, int)>::empty());
    }
    while k < paths.len()
        invariant
            k <= paths@.len(),
            all == path_views(paths@),
            forall|path: Seq<u8>| #[trigger] times(all, path) <= i32::MAX,
            cameras@ == tally(all.take(k as int)),
        decreases paths@.len() - k,
    {
        proof {
            let path = paths@[k as int]@;
            assert(all.take(k + 1) =~= all.take(k as int).push(path));
            lemma_tally_push(all.take(k as int), path);
            lemma_times_of_part(all, k + 1, path);
            broadcast use vstd::seq_lib::group_to_multiset_ensures;

            assert(times(all.take(k + 1), path) == times(all.take(k as int), path) + 1);
            assert(times(all, path) <= i32::MAX);
        }
        cameras.open(paths[k].clone());
        k = k + 1;
    }
    assert(all.take(k as int) =~= all);
    cameras
}

/// Whether one of the links is to `device`, however it is written.
pub open spec fn leads_to(links: Seq<Option<Seq<u8>>>, device: Seq<u8>) -> bool {
    exists|i: int|
        0 <= i < links.len() && ((#[trigger] links[i]) matches Some(link) && same_path(
            link,
            device,
        ))
}

/// The program behind one entry of `/proc`, if it holds `device` open and its
/// name can be read.
pub open spec fn user_of(entry: ProcView, device: Seq<u8>) -> Option<AppView> {
    match (process_id_of(entry.name), entry.fds, entry.comm) {
        (Some(id), Some(links), Some(comm)) if leads_to(links, device) => Some(
            AppView { name: trimmed(comm), detail: None, id },
        ),
        _ => None,
    }
}

/// Whether a program of a list has this id.
pub open spec fn has_id(apps: Seq<AppView>, id: u32) -> bool {
    exists|i: int| 0 <= i < apps.len() && (#[trigger] apps[i]).id == id
}

/// The programs that hold `device` open, in the order of `/proc`, the first of
/// each id.
pub open spec fn users(procs: Seq<ProcView>, device: Seq<u8>) -> Seq<AppView>
    decreases procs.len(),
{
    if procs.len() == 0 {
        Seq::empty()
    } else {
        let before = users(procs.drop_last(), device);
        match user_of(procs.last(), device) {
            Some(app) if !has_id(before, app.id) => before.push(app),
            _ => before,
        }
    }
}

/// What each program of a list is shown as.
pub open spec fn app_views(apps: Seq<AppInfo>) -> Seq<AppView> {
    apps.map_values(|app: AppInfo| app@)
}

/// Whether one of the links is to `device`.
fn links_to(links: &Vec<Option<Vec<u8>>>, device: &DevicePath) -> (r: bool)
    ensures
        r == leads_to(link_views(links@), device@),
{
    let ghost all = link_views(links@);
    let mut i: usize = 0;
    while i < links.len()
        invariant
            i <= links@.len(),
            all == link_views(links@),
            forall|j: int|
                0 <= j < i ==> !((#[trigger] all[j]) matches Some(link) && same_path(
                    link,
                    device@,
                )),
        decreases links@.len() - i,
    {
        match &links[i] {
            Some(path) => {
                assert(all[i as int] == Some(path@));
                if device.is_same_as(path.as_slice()) {
                    return true;
                }
            },
            None => {
                assert(all[i as int] is None);
            },
        }
        i = i + 1;
    }
    false
}

/// The program behind one entry of `/proc`, if it holds `device` open.
fn user<'d>(entry: &ProcEntry, device: &'d DevicePath) -> (r: Option<AppInfo<'d>>)
    ensures
        match r {
            Some(app) => user_of(entry@, device@) == Some(app@),
            None => user_of(entry@, device@) is None,
        },
{
    match (process_id(entry.name.as_slice()), &entry.fds, &entry.comm) {
        (Some(id), Some(links), Some(comm)) => {
            if links_to(links, device) {
                Some(AppInfo { name: Cow::Owned(trim(comm.as_str())), detail: None, id })
            } else {
                None
            }
        },
        _ => None,
    }
}

/// The programs that hold `device` open. A sandbox hides the processes of
/// others, so there none is reported.
pub fn procs_using_camera<'d>(sandboxed: bool, procs: &Vec<ProcEntry>, device: &'d DevicePath) -> (r: Vec<
    AppInfo<'d>,
>)
    ensures
        app_views(r@) == if sandboxed {
            Seq::<AppView>::empty()
        } else {
            users(proc_views(procs@), device@)
        },
{
    let mut apps: Vec<AppInfo<'d>> = Vec::new();
    assert(app_views(apps@) =~= Seq::<AppView>::empty());
    if sandboxed {
        return apps;
    }
    let ghost views = proc_views(procs@);
    let mut seen: HashSet<u32> = HashSet::new();
    let mut i: usize = 0;
    assert(views.take(0) =~= Seq::<ProcView>::empty());
    while i < procs.len()
        invariant
            i <= procs@.len(),
            views == proc_views(procs@),
            app_views(apps@) == users(views.take(i as int), device@),
            forall|id: u32| seen@.contains(id) <==> #[trigger] has_id(app_views(apps@), id),
        decreases procs@.len() - i,
    {
        let ghost shown = views.take(i + 1);
        let ghost so_far = app_views(apps@);
        assert(shown.drop_last() =~= views.take(i as int));
        assert(shown.last() == procs@[i as int]@);
        match user(&procs[i], device) {
            Some(app) => {
                let id: u32 = app.id;
                let ghost shorter = apps@;
                assert(seen@.contains(id) <==> has_id(so_far, id));
                if seen.insert(id) {
                    apps.push(app);
                    assert(app_views(apps@) =~= so_far.push(app@));
                    assert forall|other: u32| seen@.contains(other) <==> #[trigger] has_id(
                        app_views(apps@),
                        other,
                    ) by {
                        let longer = app_views(apps@);
                        assert(longer[so_far.len() as int].id == id);
                        if has_id(so_far, other) {
                            let j = choose|j: int|
                                0 <= j < so_far.len() && (#[trigger] so_far[j]).id == other;
                            assert(longer[j].id == other);
                        }
                        if has_id(longer, other) && other != id {
                            let j = choose|j: int|
                                0 <= j < longer.len() && (#[trigger] longer[j]).id == other;
                            assert(so_far[j].id == other);
                        }
                    }
                }
            },
            None => {},
        }
        i = i + 1;
    }
    assert(views.take(i as int) =~= views);
    apps
}

} // verus!
