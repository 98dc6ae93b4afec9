use std::path::Path;

use privacy_indicator::path::{file_name, DevicePath};

const PATHS: [&str; 24] = [
    "",
    ".",
    "..",
    "/",
    "//",
    "/.",
    "./",
    "./a",
    "a",
    "a/",
    "a/.",
    "a/./b",
    "a/..",
    "../a",
    "/a/b",
    "/a//b/",
    "/./a/b",
    "/dev/video0",
    "/dev//video0",
    "/dev/video0/",
    "/dev/./video0/.",
    "/dev/video0 (deleted)",
    "/..a",
    "/dev/...",
];

#[test]
fn file_names() {
    assert_eq!(file_name(b"/dev/video0"), Some(b"video0".to_vec()));
    assert_eq!(file_name(b"video0"), Some(b"video0".to_vec()));
    assert_eq!(file_name(b"/dev/v4l/by-id/cam"), Some(b"cam".to_vec()));
    assert_eq!(file_name(b"/dev/..."), Some(b"...".to_vec()));
    assert_eq!(file_name(b"/dev/video0/"), Some(b"video0".to_vec()));
    assert_eq!(file_name(b"/dev/video0/."), Some(b"video0".to_vec()));
    assert_eq!(file_name(b"/"), None);
    assert_eq!(file_name(b""), None);
    assert_eq!(file_name(b"/dev/.."), None);
    assert_eq!(file_name(b"."), None);
}

#[test]
fn file_names_are_those_of_std() {
    for path in PATHS {
        let expected = Path::new(path)
            .file_name()
            .map(|name| name.to_str().unwrap().as_bytes().to_vec());
        assert_eq!(file_name(path.as_bytes()), expected, "{:?}", path);
    }
}

#[test]
fn paths_are_equal_as_in_std() {
    for a in PATHS {
        for b in PATHS {
            let equal = Path::new(a) == Path::new(b);
            let device = DevicePath::new(a.as_bytes());
            assert_eq!(device.is_same_as(b.as_bytes()), equal, "{:?} {:?}", a, b);
            let other = DevicePath::new(b.as_bytes());
            assert_eq!(device.as_bytes() == other.as_bytes(), equal, "{:?} {:?}", a, b);
        }
    }
}

#[test]
fn a_path_is_kept_in_its_plainest_form() {
    let plain = |path: &str| DevicePath::new(path.as_bytes()).as_bytes().to_vec();
    assert_eq!(plain("/dev//video0/"), b"/dev/video0".to_vec());
    assert_eq!(plain("/dev/./video0/."), b"/dev/video0".to_vec());
    assert_eq!(plain("./a"), b"./a".to_vec());
    assert_eq!(plain("a/../b"), b"a/../b".to_vec());
    assert_eq!(plain("//"), b"/".to_vec());
    assert_eq!(plain(""), b"".to_vec());
    for path in PATHS {
        let shown: std::path::PathBuf = Path::new(path).components().collect();
        assert_eq!(plain(path), shown.to_str().unwrap().as_bytes().to_vec(), "{:?}", path);
    }
}
