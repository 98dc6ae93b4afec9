//! Which programs are listed, and what is counted.

use vstd::arithmetic::power::{lemma_pow0, lemma_pow1, lemma_pow_adds, pow};
use vstd::prelude::*;

use crate::applet::{camera_apps, device_label, lists, tagged, AppView, StreamView};
use crate::camera::{
    has_id, held, held_by, is_order_of, tally, times, user_of, users, video_links, ProcView,
};
use crate::laws::events::{begins_with_dev_video, law_video_links};
use crate::path::{lemma_plain_says_the_same, plain, same_path};
use crate::text::{
    all_digits, decimal, process_id_of, trimmed, trimmed_end, trimmed_start, white_space,
};

verus! {

/// Whether a name is written in the digits `0` to `9` alone.
pub open spec fn in_digits(name: Seq<u8>) -> bool {
    forall|i: int| 0 <= i < name.len() ==> 0x30 <= #[trigger] name[i] <= 0x39
}

/// Digits are read as decimal numbers are: one digit is its own value, and what
/// comes before others counts ten times as much for each of them.
pub proof fn law_decimal_numbers(a: Seq<u8>, b: Seq<u8>)
    ensures
        a.len() == 1 && in_digits(a) ==> decimal(a) == a[0] - 0x30,
        in_digits(b) ==> decimal(a + b) == decimal(a) * pow(10, b.len()) + decimal(b),
    decreases b.len(),
{
    if a.len() == 1 && in_digits(a) {
        assert(a.drop_last() =~= Seq::<u8>::empty());
        assert(0x30 <= a[0] <= 0x39);
        assert(decimal(a.drop_last()) == 0);
    }
    if b.len() == 0 {
        assert(a + b =~= a);
        lemma_pow0(10);
        assert(decimal(a) * pow(10, 0) == decimal(a)) by (nonlinear_arith)
            requires
                pow(10, 0) == 1,
        ;
    } else if in_digits(b) {
        let fewer = b.drop_last();
        assert forall|i: int| 0 <= i < fewer.len() implies 0x30 <= #[trigger] fewer[i] <= 0x39 by {
            assert(fewer[i] == b[i]);
        }
        law_decimal_numbers(a, fewer);
        assert((a + b).drop_last() =~= a + fewer);
        assert((a + b).last() == b.last());
        assert(0x30 <= b[b.len() - 1] <= 0x39);
        lemma_pow_adds(10, fewer.len(), 1);
        lemma_pow1(10);
        let x = decimal(a) as int;
        let y = decimal(fewer) as int;
        let p = pow(10, fewer.len());
        assert((x * p + y) * 10 == x * (p * 10) + y * 10) by (nonlinear_arith);
    }
}

/// A directory of `/proc` is that of a process exactly if its name is a decimal
/// number of 32 bits, and that number is the process.
pub proof fn law_processes_are_named_by_number(name: Seq<u8>)
    ensures
        process_id_of(name) is Some <==> name.len() > 0 && in_digits(name) && decimal(name)
            <= 0xffff_ffff,
        process_id_of(name) matches Some(id) ==> id == decimal(name),
        all_digits(name) <==> in_digits(name),
{
    assert(all_digits(name) ==> in_digits(name));
    if in_digits(name) {
        assert(all_digits(name));
    }
}

/// Whether all of a text is white space.
pub open spec fn blank(s: Seq<char>) -> bool {
    forall|i: int| 0 <= i < s.len() ==> white_space(#[trigger] s[i])
}

/// Leading white space is taken from the start, and nothing else.
proof fn lemma_start_is_blank(s: Seq<char>) -> (cut: Seq<char>)
    ensures
        blank(cut),
        s == cut + trimmed_start(s),
    decreases s.len(),
{
    if s.len() > 0 && white_space(s.first()) {
        let rest = lemma_start_is_blank(s.drop_first());
        let cut = seq![s.first()] + rest;
        assert forall|i: int| 0 <= i < cut.len() implies white_space(#[trigger] cut[i]) by {
            if i > 0 {
                assert(cut[i] == rest[i - 1]);
            }
        }
        assert(s =~= seq![s.first()] + s.drop_first());
        assert(s =~= cut + trimmed_start(s));
        cut
    } else {
        assert(s =~= Seq::<char>::empty() + s);
        Seq::empty()
    }
}

/// Trailing white space is taken from the end, and nothing else.
proof fn lemma_end_is_blank(s: Seq<char>) -> (cut: Seq<char>)
    ensures
        blank(cut),
        s == trimmed_end(s) + cut,
    decreases s.len(),
{
    if s.len() > 0 && white_space(s.last()) {
        let rest = lemma_end_is_blank(s.drop_last());
        let cut = rest.push(s.last());
        assert forall|i: int| 0 <= i < cut.len() implies white_space(#[trigger] cut[i]) by {
            if i < rest.len() {
                assert(cut[i] == rest[i]);
            }
        }
        assert(s =~= s.drop_last().push(s.last()));
        assert(s =~= trimmed_end(s) + cut);
        cut
    } else {
        assert(s =~= s + Seq::<char>::empty());
        Seq::empty()
    }
}

/// Whether `s` is `middle` with `before` and `after` around it.
pub open spec fn is_around(
    s: Seq<char>,
    before: Seq<char>,
    middle: Seq<char>,
    after: Seq<char>,
) -> bool {
    s == before + middle + after
}

/// Trimming takes white space away at the two ends, and nothing else.
pub proof fn law_trimming_takes_white_space_alone(s: Seq<char>)
    ensures
        exists|before: Seq<char>, after: Seq<char>| #[trigger]
            is_around(s, before, trimmed(s), after) && blank(before) && blank(after),
{
    let before = lemma_start_is_blank(s);
    let after = lemma_end_is_blank(trimmed_start(s));
    assert(before + (trimmed(s) + after) =~= before + trimmed(s) + after);
    assert(is_around(s, before, trimmed(s), after));
}

/// Whether an entry of `/proc` has a link to `device`, however it is written.
pub open spec fn has_link_to(entry: ProcView, device: Seq<u8>) -> bool {
    entry.fds matches Some(links) && exists|i: int|
        0 <= i < links.len() && ((#[trigger] links[i]) matches Some(link) && same_path(
            link,
            device,
        ))
}

/// An entry of `/proc` is listed for a device exactly if it is that of a process
/// which has a link to the device and whose name can be read. It is listed under
/// that name, without the white space around it, and under the process's id.
pub proof fn law_who_uses_a_device(entry: ProcView, device: Seq<u8>)
    ensures
        user_of(entry, device) is Some <==> process_id_of(entry.name) is Some && entry.comm is Some
            && has_link_to(entry, device),
        user_of(entry, device) matches Some(app) ==> {
            &&& Some(app.id) == process_id_of(entry.name)
            &&& app.name == trimmed(entry.comm->0)
            &&& app.detail is None
        },
{
}

/// More entries of `/proc` add programs behind those that are listed, and change
/// none of these. So the programs stand in the order of the entries, and of two
/// with one id the first is listed.
pub proof fn law_users_come_in_order(procs: Seq<ProcView>, n: int, device: Seq<u8>)
    requires
        0 <= n <= procs.len(),
    ensures
        users(procs.take(n), device).len() <= users(procs, device).len(),
        forall|i: int|
            0 <= i < users(procs.take(n), device).len() ==> #[trigger] users(procs, device)[i]
                == users(procs.take(n), device)[i],
    decreases procs.len() - n,
{
    if n == procs.len() {
        assert(procs.take(n) =~= procs);
    } else {
        law_users_come_in_order(procs, n + 1, device);
        assert(procs.take(n + 1).drop_last() =~= procs.take(n));
        let fewer = users(procs.take(n), device);
        let more = users(procs.take(n + 1), device);
        assert forall|i: int| 0 <= i < fewer.len() implies #[trigger] users(procs, device)[i]
            == fewer[i] by {
            assert(more[i] == fewer[i]);
        }
    }
}

/// One entry more lists its program last, unless the id is listed already.
pub proof fn law_next_user(procs: Seq<ProcView>, entry: ProcView, device: Seq<u8>)
    ensures
        user_of(entry, device) is None ==> users(procs.push(entry), device) == users(procs, device),
        user_of(entry, device) matches Some(app) ==> users(procs.push(entry), device) == if (exists|
            i: int,
        |
            0 <= i < users(procs, device).len() && (#[trigger] users(procs, device)[i]).id
                == app.id) {
            users(procs, device)
        } else {
            users(procs, device).push(app)
        },
        users(Seq::<ProcView>::empty(), device).len() == 0,
{
    assert(procs.push(entry).drop_last() =~= procs);
    if user_of(entry, device) is Some {
        let app = user_of(entry, device)->0;
        let before = users(procs, device);
        assert(has_id(before, app.id) <==> exists|i: int|
            0 <= i < before.len() && (#[trigger] before[i]).id == app.id);
    }
}

/// The list of all camera programs joins the lists of the devices, in order, and
/// that of a single device is the programs that use it. None is listed without a
/// device, or in a sandbox.
pub proof fn law_camera_programs_join(
    a: Seq<Seq<u8>>,
    b: Seq<Seq<u8>>,
    device: Seq<u8>,
    procs: Seq<ProcView>,
)
    ensures
        camera_apps(a + b, false, procs) == camera_apps(a, false, procs) + camera_apps(
            b,
            false,
            procs,
        ),
        camera_apps(seq![device], false, procs).len() == users(procs, device).len(),
        forall|i: int|
            0 <= i < users(procs, device).len() ==> (#[trigger] camera_apps(
                seq![device],
                false,
                procs,
            )[i]) == (AppView {
                name: users(procs, device)[i].name,
                detail: device_label(device),
                id: users(procs, device)[i].id,
            }),
        camera_apps(a, true, procs).len() == 0,
    decreases b.len(),
{
    if b.len() == 0 {
        assert(a + b =~= a);
        assert(camera_apps(a + b, false, procs) =~= camera_apps(a, false, procs) + camera_apps(
            b,
            false,
            procs,
        ));
    } else {
        let fewer = b.drop_last();
        law_camera_programs_join(a, fewer, device, procs);
        assert((a + b).drop_last() =~= a + fewer);
        assert((a + b).last() == b.last());
        assert(camera_apps(a + b, false, procs) =~= camera_apps(a, false, procs) + camera_apps(
            b,
            false,
            procs,
        ));
    }
    let one = seq![device];
    assert(one.drop_last() =~= Seq::<Seq<u8>>::empty());
    assert(camera_apps(one.drop_last(), false, procs) =~= Seq::<AppView>::empty());
    assert(one.last() == device);
    assert(camera_apps(one, false, procs) =~= tagged(users(procs, device), device_label(device)));
}

/// How many programs use the devices, summed over the devices.
pub open spec fn uses(order: Seq<Seq<u8>>, procs: Seq<ProcView>) -> nat
    decreases order.len(),
{
    if order.len() == 0 {
        0
    } else {
        users(procs, order.first()).len() + uses(order.drop_first(), procs)
    }
}

/// Outside a sandbox every program that uses one of the devices is listed under
/// its name and id with the label of the device, and as many are listed as there
/// are uses.
pub proof fn law_every_camera_program_is_listed(order: Seq<Seq<u8>>, procs: Seq<ProcView>)
    ensures
        camera_apps(order, false, procs).len() == uses(order, procs),
        forall|a: int, u: int|
            #![trigger users(procs, order[a])[u]]
            0 <= a < order.len() && 0 <= u < users(procs, order[a]).len() ==> camera_apps(
                order,
                false,
                procs,
            ).contains(
                AppView {
                    name: users(procs, order[a])[u].name,
                    detail: device_label(order[a]),
                    id: users(procs, order[a])[u].id,
                },
            ),
    decreases order.len(),
{
    let all = camera_apps(order, false, procs);
    if order.len() > 0 {
        let device = order.first();
        let rest = order.drop_first();
        let one = camera_apps(seq![device], false, procs);
        let others = camera_apps(rest, false, procs);
        law_every_camera_program_is_listed(rest, procs);
        law_camera_programs_join(seq![device], rest, device, procs);
        assert(seq![device] + rest =~= order);
        assert(all == one + others);
        assert forall|a: int, u: int|
            #![trigger users(procs, order[a])[u]]
            0 <= a < order.len() && 0 <= u < users(procs, order[a]).len() implies all.contains(
            AppView {
                name: users(procs, order[a])[u].name,
                detail: device_label(order[a]),
                id: users(procs, order[a])[u].id,
            },
        ) by {
            let user = users(procs, order[a])[u];
            let app = AppView { name: user.name, detail: device_label(order[a]), id: user.id };
            if a == 0 {
                assert(all[u] == one[u]);
                assert(one[u] == app);
            } else {
                assert(rest[a - 1] == order[a]);
                assert(users(procs, rest[a - 1])[u] == user);
                assert(others.contains(app));
                let i = choose|i: int| 0 <= i < others.len() && others[i] == app;
                assert(all[one.len() + i] == app);
            }
        }
    }
}

/// Programs that are given the label of a device keep their number, order, names
/// and ids.
pub proof fn law_label_is_set_on_each_program(apps: Seq<AppView>, label: Option<Seq<char>>)
    ensures
        tagged(apps, label).len() == apps.len(),
        forall|i: int|
            0 <= i < apps.len() ==> (#[trigger] tagged(apps, label)[i]) == (AppView {
                name: apps[i].name,
                detail: label,
                id: apps[i].id,
            }),
{
}

/// The devices that the popup goes through are all that the applet knows of,
/// whether or not anything is pending on them, each once.
pub proof fn law_no_device_is_passed_over(
    order: Seq<Seq<u8>>,
    cameras: Map<Seq<u8>, (int, int)>,
    path: Seq<u8>,
)
    requires
        is_order_of(order, cameras),
    ensures
        order.contains(path) <==> cameras.contains_key(path),
        forall|i: int, j: int|
            0 <= i < j < order.len() ==> #[trigger] order[i] != #[trigger] order[j],
{
}

/// Every stream is listed with its name and label under its id, and every
/// program that is listed is such a stream.
pub proof fn law_every_stream_is_listed(
    apps: Seq<AppView>,
    streams: Map<u32, StreamView>,
    id: u32,
    name: Seq<char>,
    detail: Option<Seq<char>>,
)
    requires
        lists(apps, streams),
    ensures
        apps.contains(AppView { name, detail, id }) <==> streams.contains_key(id) && streams[id]
            == (StreamView { name, detail }),
        forall|i: int, j: int|
            0 <= i < j < apps.len() ==> (#[trigger] apps[i]).id != (#[trigger] apps[j]).id,
{
    let app = AppView { name, detail, id };
    if streams.contains_key(id) && streams[id] == (StreamView { name, detail }) {
        assert(has_id(apps, id));
        let i = choose|i: int| 0 <= i < apps.len() && (#[trigger] apps[i]).id == id;
        assert(apps[i] == app);
    }
    if apps.contains(app) {
        let i = choose|i: int| 0 <= i < apps.len() && apps[i] == app;
        assert(streams.contains_key(apps[i].id));
    }
}

/// How often a device stands in a list is counted one by one.
pub proof fn law_times(paths: Seq<Seq<u8>>, next: Seq<u8>, path: Seq<u8>)
    ensures
        times(Seq::<Seq<u8>>::empty(), path) == 0,
        times(paths.push(next), path) == times(paths, path) + if next == path {
            1int
        } else {
            0
        },
{
    broadcast use vstd::seq_lib::group_to_multiset_ensures;

}

/// A report of what is open has for each device of a list how often it stands
/// there, with nothing closed yet, and no other device.
pub proof fn law_tally(paths: Seq<Seq<u8>>, path: Seq<u8>)
    ensures
        tally(paths).contains_key(path) <==> times(paths, path) > 0,
        tally(paths).contains_key(path) ==> tally(paths)[path] == (
            times(paths, path) as int,
            0int,
        ),
{
    broadcast use vstd::seq_lib::group_to_multiset_ensures;

    if paths.contains(path) {
        assert(times(paths, path) > 0);
    }
}

/// How often two lists together hold a device.
proof fn lemma_times_add(a: Seq<Seq<u8>>, b: Seq<Seq<u8>>, path: Seq<u8>)
    ensures
        times(a + b, path) == times(a, path) + times(b, path),
{
    vstd::seq_lib::lemma_multiset_commutative(a, b);
}

/// The descriptors of several processes add up.
pub proof fn law_descriptors_of_processes_add_up(
    a: Seq<ProcView>,
    b: Seq<ProcView>,
    path: Seq<u8>,
)
    ensures
        times(held(a + b), path) == times(held(a), path) + times(held(b), path),
    decreases b.len(),
{
    broadcast use vstd::seq_lib::group_to_multiset_ensures;

    if b.len() == 0 {
        assert(a + b =~= a);
    } else {
        let fewer = b.drop_last();
        law_descriptors_of_processes_add_up(a, fewer, path);
        assert((a + b).drop_last() =~= a + fewer);
        assert((a + b).last() == b.last());
        lemma_times_add(held(a + fewer), held_by(b.last()), path);
        lemma_times_add(held(fewer), held_by(b.last()), path);
    }
}

/// The links of a process add up.
proof fn lemma_links_add_up(a: Seq<Option<Seq<u8>>>, b: Seq<Option<Seq<u8>>>)
    ensures
        video_links(a + b) == video_links(a) + video_links(b),
    decreases b.len(),
{
    if b.len() == 0 {
        assert(a + b =~= a);
        assert(video_links(a + b) =~= video_links(a) + video_links(b));
    } else {
        let fewer = b.drop_last();
        lemma_links_add_up(a, fewer);
        assert((a + b).drop_last() =~= a + fewer);
        assert((a + b).last() == b.last());
        assert(video_links(a + b) =~= video_links(a) + video_links(b));
    }
}

/// A process alone.
proof fn lemma_held_of_one(entry: ProcView)
    ensures
        held(seq![entry]) == held_by(entry),
{
    let one = seq![entry];
    assert(one.drop_last() =~= Seq::<ProcView>::empty());
    assert(held(one.drop_last()) =~= Seq::<Seq<u8>>::empty());
    assert(held(one) =~= held_by(entry));
}

/// The descriptors of one process add up, however many of them are on one device.
pub proof fn law_descriptors_of_a_process_add_up(
    name: Seq<u8>,
    comm: Option<Seq<char>>,
    a: Seq<Option<Seq<u8>>>,
    b: Seq<Option<Seq<u8>>>,
    path: Seq<u8>,
)
    ensures
        times(held(seq![ProcView { name, fds: Some(a + b), comm }]), path) == times(
            held(seq![ProcView { name, fds: Some(a), comm }]),
            path,
        ) + times(held(seq![ProcView { name, fds: Some(b), comm }]), path),
{
    broadcast use vstd::seq_lib::group_to_multiset_ensures;

    lemma_held_of_one(ProcView { name, fds: Some(a + b), comm });
    lemma_held_of_one(ProcView { name, fds: Some(a), comm });
    lemma_held_of_one(ProcView { name, fds: Some(b), comm });
    lemma_links_add_up(a, b);
    lemma_times_add(video_links(a), video_links(b), path);
}

/// A descriptor counts for a device exactly if its process has a number for a
/// name and its link begins with `/dev/video` and is the device's path. What
/// cannot be read counts for none.
pub proof fn law_what_a_descriptor_counts_for(
    name: Seq<u8>,
    comm: Option<Seq<char>>,
    link: Option<Seq<u8>>,
    device: Seq<u8>,
)
    ensures
        times(held(seq![ProcView { name, fds: Some(seq![link]), comm }]), plain(device)) == if (
        in_digits(name) && (link matches Some(link) && begins_with_dev_video(link) && same_path(
            link,
            device,
        ))) {
            1int
        } else {
            0
        },
        times(held(seq![ProcView { name, fds: None, comm }]), plain(device)) == 0,
        times(held(seq![ProcView { name, fds: Some(Seq::empty()), comm }]), plain(device)) == 0,
{
    broadcast use vstd::seq_lib::group_to_multiset_ensures;

    let links = seq![link];
    let entry = ProcView { name, fds: Some(links), comm };
    lemma_held_of_one(entry);
    lemma_held_of_one(ProcView { name, fds: None, comm });
    lemma_held_of_one(ProcView { name, fds: Some(Seq::empty()), comm });
    law_processes_are_named_by_number(name);
    assert(links.drop_last() =~= Seq::<Option<Seq<u8>>>::empty());
    assert(video_links(links.drop_last()) =~= Seq::<Seq<u8>>::empty());
    assert(links.last() == link);
    if link is Some {
        law_video_links(link->0);
        lemma_plain_says_the_same(link->0);
        lemma_plain_says_the_same(device);
        law_times(Seq::empty(), plain(link->0), plain(device));
    }
}

} // verus!
