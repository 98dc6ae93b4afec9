use privacy_indicator::camera::{
    is_device_name, is_device_path, open_cameras, procs_using_camera, CameraTable, ProcEntry,
};
use privacy_indicator::path::DevicePath;

fn process(name: &str, links: &[&str], comm: &str) -> ProcEntry {
    ProcEntry {
        name: name.as_bytes().to_vec(),
        fds: Some(links.iter().map(|link| Some(link.as_bytes().to_vec())).collect()),
        comm: Some(comm.to_string()),
    }
}

fn path(text: &str) -> DevicePath {
    DevicePath::new(text.as_bytes())
}

#[test]
fn a_table_counts_opens_and_closes() {
    let mut cameras = CameraTable::new();
    assert_eq!(cameras.get(&path("/dev/video0")), None);
    assert!(!cameras.in_use());
    cameras.open(path("/dev/video0"));
    assert_eq!(cameras.get(&path("/dev/video0")), Some((1, 0)));
    assert!(cameras.in_use());
    cameras.open(path("/dev/video0"));
    assert_eq!(cameras.get(&path("/dev/video0")), Some((2, 0)));
    cameras.close(path("/dev/video0"));
    cameras.close(path("/dev/video0"));
    assert_eq!(cameras.get(&path("/dev/video0")), Some((0, 0)));
    assert!(!cameras.in_use());
}

#[test]
fn a_close_without_an_open_does_not_hide_the_next_open() {
    let mut cameras = CameraTable::new();
    cameras.close(path("/dev/video0"));
    assert_eq!(cameras.get(&path("/dev/video0")), Some((0, 0)));
    cameras.close(path("/dev/video0"));
    assert_eq!(cameras.get(&path("/dev/video0")), Some((-1, -1)));
    assert!(!cameras.in_use());
    cameras.open(path("/dev/video0"));
    assert_eq!(cameras.get(&path("/dev/video0")), Some((0, -1)));
    assert!(cameras.in_use());
    cameras.close(path("/dev/video0"));
    assert_eq!(cameras.get(&path("/dev/video0")), Some((-1, -1)));
    assert!(!cameras.in_use());
}

#[test]
fn a_device_is_in_use_whatever_the_others_do() {
    let mut cameras = CameraTable::new();
    cameras.open(path("/dev/video0"));
    cameras.close(path("/dev/video1"));
    cameras.close(path("/dev/video1"));
    cameras.close(path("/dev/video1"));
    assert!(cameras.in_use());
    assert_eq!(cameras.get(&path("/dev/video1")), Some((-2, -2)));
}

#[test]
fn a_table_sums_over_its_devices() {
    let mut cameras = CameraTable::new();
    cameras.insert(path("a"), (3, 0));
    cameras.insert(path("b"), (0, 3));
    assert!(!cameras.in_use());
    cameras.insert(path("b"), (0, 2));
    assert!(cameras.in_use());
    cameras.insert(path("a"), (i32::MAX, i32::MIN));
    cameras.insert(path("b"), (i32::MAX, i32::MIN));
    assert!(cameras.in_use());
}

#[test]
fn a_removed_device_is_forgotten() {
    let mut cameras = CameraTable::new();
    cameras.open(path("/dev/video0"));
    cameras.open(path("/dev/video1"));
    cameras.remove(&path("/dev/video0"));
    cameras.remove(&path("/dev/video7"));
    assert_eq!(cameras.get(&path("/dev/video0")), None);
    assert_eq!(cameras.get(&path("/dev/video1")), Some((1, 0)));
    let paths: Vec<Vec<u8>> = cameras.paths().iter().map(|path| path.as_bytes().to_vec()).collect();
    assert_eq!(paths, vec![b"/dev/video1".to_vec()]);
}

#[test]
fn a_copy_of_a_table_is_its_own() {
    let mut cameras = CameraTable::new();
    cameras.open(path("/dev/video0"));
    let copy = cameras.clone();
    cameras.open(path("/dev/video0"));
    assert_eq!(copy.get(&path("/dev/video0")), Some((1, 0)));
    assert_eq!(cameras.get(&path("/dev/video0")), Some((2, 0)));
}

#[test]
fn video_devices_are_told_by_their_names() {
    assert!(is_device_name(b"video0"));
    assert!(is_device_name(b"video"));
    assert!(is_device_name(b"video\xff"));
    assert!(!is_device_name(b"vide"));
    assert!(!is_device_name(b"sda"));
    assert!(is_device_path(b"/dev/video12"));
    assert!(!is_device_path(b"/dev/vidoe"));
    assert!(!is_device_path(b"/tmp/dev/video0"));
}

#[test]
fn open_descriptors_are_counted_per_device() {
    let procs = vec![
        process("1", &["/dev/null"], "init"),
        process("10", &["/dev/video0", "socket:[7]", "/dev/video0"], "obs"),
        process("11", &["/dev/video0", "/dev/video2"], "firefox"),
        process("bus", &["/dev/video5"], "not a process"),
        ProcEntry { name: b"12".to_vec(), fds: None, comm: None },
        ProcEntry { name: b"13".to_vec(), fds: Some(vec![None, Some(b"/dev/video2".to_vec())]), comm: None },
    ];
    let cameras = open_cameras(false, &procs);
    assert_eq!(cameras.get(&path("/dev/video0")), Some((3, 0)));
    assert_eq!(cameras.get(&path("/dev/video2")), Some((2, 0)));
    assert_eq!(cameras.get(&path("/dev/video5")), None);
    assert_eq!(cameras.get(&path("/dev/null")), None);
    assert_eq!(cameras.paths().len(), 2);
}

#[test]
fn a_sandbox_reports_nothing() {
    let procs = vec![process("10", &["/dev/video0"], "obs")];
    assert!(open_cameras(true, &procs).paths().is_empty());
    assert!(procs_using_camera(true, &procs, &path("/dev/video0")).is_empty());
}

#[test]
fn nothing_is_open_without_processes() {
    assert!(open_cameras(false, &vec![]).paths().is_empty());
    assert!(procs_using_camera(false, &vec![], &path("/dev/video0")).is_empty());
}

#[test]
fn users_of_a_device() {
    let mut nameless = process("14", &["/dev/video0"], "");
    nameless.comm = None;
    let procs = vec![
        process("10", &["/dev/video0", "/dev/video0"], "obs\n"),
        process("11", &["/dev/video1"], "cheese\n"),
        process("12", &["/dev/video00"], "mpv\n"),
        nameless,
        process("self", &["/dev/video0"], "me\n"),
        process("4294967296", &["/dev/video0"], "huge\n"),
        process("0", &["/dev/video0"], "zero\n"),
        process("13", &["/dev/null", "/dev/video0"], " Web Content \n"),
    ];
    let device = path("/dev/video0");
    let apps = procs_using_camera(false, &procs, &device);
    let found: Vec<(&str, u32)> = apps.iter().map(|app| (&*app.name, app.id)).collect();
    assert_eq!(found, vec![("obs", 10), ("zero", 0), ("Web Content", 13)]);
    assert!(apps.iter().all(|app| app.detail.is_none()));
}

#[test]
fn a_process_is_listed_once() {
    let procs = vec![
        process("7", &["/dev/video0"], "first\n"),
        process("007", &["/dev/video0"], "second\n"),
    ];
    let device = path("/dev/video0");
    let apps = procs_using_camera(false, &procs, &device);
    assert_eq!(apps.len(), 1);
    assert_eq!(apps[0].name, "first");
    assert_eq!(apps[0].id, 7);
}

#[test]
fn a_device_is_known_by_any_of_its_spellings() {
    let mut cameras = CameraTable::new();
    cameras.open(path("/dev/video0"));
    cameras.open(path("/dev//video0"));
    cameras.open(path("/dev/./video0/"));
    cameras.open(path("//dev/video0/."));
    assert_eq!(cameras.get(&path("/dev/video0")), Some((4, 0)));
    assert_eq!(cameras.paths().len(), 1);
    assert_eq!(cameras.get(&path("dev/video0")), None);
    assert_eq!(cameras.get(&path("/dev/../video0")), None);
}

#[test]
fn a_link_is_counted_by_its_spelling_and_listed_by_its_path() {
    let procs = vec![
        process("10", &["/dev/video0/", "/dev/video0"], "obs\n"),
        process("11", &["/dev//video0"], "cheese\n"),
    ];
    let cameras = open_cameras(false, &procs);
    assert_eq!(cameras.get(&path("/dev/video0")), Some((2, 0)));
    assert_eq!(cameras.paths().len(), 1);
    let device = path("/dev/video0");
    let ids: Vec<u32> =
        procs_using_camera(false, &procs, &device).iter().map(|app| app.id).collect();
    assert_eq!(ids, vec![10, 11]);
}

#[test]
fn no_more_programs_are_listed_than_descriptors_counted() {
    let mut hidden = process("14", &["/dev/video2"], "");
    hidden.comm = None;
    let procs = vec![
        process("10", &["/dev/video0", "/dev/video0", "/dev/video1"], "obs\n"),
        process("11", &["/dev/video0"], "cheese\n"),
        hidden,
    ];
    let cameras = open_cameras(false, &procs);
    for device in cameras.paths() {
        let listed = procs_using_camera(false, &procs, &device).len() as i32;
        let (opens, closes) = cameras.get(&device).unwrap();
        assert!(listed <= opens - closes);
        // Each has someone listed unless no holder can be named.
        assert_eq!(listed > 0, device.as_bytes() != b"/dev/video2");
    }
    assert_eq!(cameras.get(&path("/dev/video0")), Some((3, 0)));
    assert_eq!(procs_using_camera(false, &procs, &path("/dev/video0")).len(), 2);
}

#[test]
fn one_plain_spelling_is_enough_to_be_counted() {
    let procs = vec![
        process("10", &["/dev//video0", "/dev/video0"], "obs\n"),
        process("11", &["/dev/./video1"], "cheese\n"),
    ];
    let cameras = open_cameras(false, &procs);
    assert_eq!(cameras.get(&path("/dev/video0")), Some((1, 0)));
    assert_eq!(procs_using_camera(false, &procs, &path("/dev/video0")).len(), 1);
    assert_eq!(cameras.get(&path("/dev/video1")), None);
    assert_eq!(procs_using_camera(false, &procs, &path("/dev/video1")).len(), 1);
}
