use scaii_get::util::sanitize_filename;

fn seg(parts: &[&str]) -> Vec<String> {
    parts.iter().map(|p| p.to_string()).collect()
}

#[test]
fn sanitize_plain_name() {
    assert_eq!(sanitize_filename("dir/file.txt"), seg(&["dir", "file.txt"]));
}

#[test]
fn sanitize_drops_parent_markers() {
    assert_eq!(sanitize_filename("../../../etc/passwd"), seg(&["etc", "passwd"]));
    assert_eq!(sanitize_filename("foo/../bar"), seg(&["foo", "bar"]));
}

#[test]
fn sanitize_drops_root_markers() {
    assert_eq!(sanitize_filename("/etc/passwd"), seg(&["etc", "passwd"]));
    assert_eq!(sanitize_filename("//double//slash"), seg(&["double", "slash"]));
}

#[test]
fn sanitize_truncates_at_null() {
    assert_eq!(sanitize_filename("ok\0/evil/../../x"), seg(&["ok"]));
    assert_eq!(sanitize_filename("\0whatever"), seg(&[]));
}

#[test]
fn sanitize_drops_current_dir_markers() {
    assert_eq!(sanitize_filename("./a/./b/."), seg(&["a", "b"]));
}

#[test]
fn sanitize_all_markers_gives_empty() {
    assert_eq!(sanitize_filename(""), seg(&[]));
    assert_eq!(sanitize_filename(".."), seg(&[]));
    assert_eq!(sanitize_filename("/../.."), seg(&[]));
}

#[test]
fn sanitize_splits_on_backslashes_too() {
    assert_eq!(sanitize_filename("..\\..\\x"), seg(&["x"]));
    assert_eq!(sanitize_filename("dir\\file.txt"), seg(&["dir", "file.txt"]));
    assert_eq!(sanitize_filename("a\\b/c"), seg(&["a", "b", "c"]));
}

#[test]
fn sanitize_drops_drive_markers() {
    assert_eq!(sanitize_filename("C:\\evil.txt"), seg(&["evil.txt"]));
    assert_eq!(sanitize_filename("C:evil.txt"), seg(&[]));
    assert_eq!(sanitize_filename("C:/also/gone"), seg(&["also", "gone"]));
}

#[test]
fn sanitize_keeps_dot_bearing_names() {
    assert_eq!(sanitize_filename("protobuf-3.5.1/js"), seg(&["protobuf-3.5.1", "js"]));
    assert_eq!(sanitize_filename("...three"), seg(&["...three"]));
}
