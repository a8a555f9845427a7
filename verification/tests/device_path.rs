use device_network::device::DevicePath;

#[test]
fn path_round_trip_plain() {
    let path = DevicePath::from("a/b/c");
    assert_eq!(path.path, vec!["a", "b", "c"]);
    assert_eq!(path.to_string(), "a/b/c");
}

#[test]
fn path_round_trip_drops_surplus_separators() {
    let path = DevicePath::from("/a//b/");
    assert_eq!(path.path, vec!["a", "b"]);
    assert_eq!(path.to_string(), "a/b");
}

#[test]
fn path_of_examples() {
    assert_eq!(
        DevicePath::from("main/net3/term1").path,
        vec!["main", "net3", "term1"]
    );
    assert_eq!(DevicePath::from("/main").path, vec!["main"]);
    assert_eq!(DevicePath::from("/main").to_string(), "main");
}

#[test]
fn empty_and_separator_only_strings_have_no_names() {
    assert_eq!(DevicePath::from("").path, Vec::<String>::new());
    assert_eq!(DevicePath::from("/").path, Vec::<String>::new());
    assert_eq!(DevicePath::from("////").path, Vec::<String>::new());
    assert_eq!(DevicePath::from("").to_string(), "");
    assert_eq!(DevicePath::from("///").to_string(), "");
}

#[test]
fn single_name_is_written_without_separator() {
    let path = DevicePath {
        path: vec!["main".to_string()],
    };
    assert_eq!(path.to_string(), "main");
    assert_eq!(DevicePath::from("main"), path);
}

#[test]
fn names_may_hold_any_other_character() {
    let path = DevicePath::from("net 3/t\u{e9}rm-1/\u{4e2d}\u{6587}");
    assert_eq!(path.path, vec!["net 3", "t\u{e9}rm-1", "\u{4e2d}\u{6587}"]);
    assert_eq!(path.to_string(), "net 3/t\u{e9}rm-1/\u{4e2d}\u{6587}");
}

#[test]
fn written_path_reads_back() {
    let path = DevicePath {
        path: vec!["x".to_string(), "yy".to_string(), "zzz".to_string()],
    };
    let written = path.to_string();
    assert_eq!(written, "x/yy/zzz");
    assert_eq!(DevicePath::from(written.as_str()), path);
}

#[test]
fn into_reads_a_path() {
    let path: DevicePath = "a//b".into();
    assert_eq!(path.path, vec!["a", "b"]);
    assert_eq!(path.clone(), path);
}
