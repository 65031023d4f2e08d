use k7z::error::K7zError;
use k7z::format::default_unpack_target;
use k7z::join::safe_join;
use k7z::zip_archive::normalize_name;

#[test]
fn safe_join_appends_each_normal_component() {
    assert_eq!(safe_join("out", "a/b").unwrap(), "out/a/b");
    assert_eq!(safe_join("out/", "a").unwrap(), "out/a");
    assert_eq!(safe_join("", "a").unwrap(), "a");
    assert_eq!(safe_join(".", "x").unwrap(), "./x");
    assert_eq!(safe_join("/", "etc").unwrap(), "/etc");
}

#[test]
fn safe_join_skips_current_dir_and_empty_segments() {
    assert_eq!(safe_join("out", "./a/./b/").unwrap(), "out/a/b");
    assert_eq!(safe_join("out", "a//b").unwrap(), "out/a/b");
    assert_eq!(safe_join("out", "").unwrap(), "out");
    assert_eq!(safe_join("out", ".").unwrap(), "out");
}

#[test]
fn safe_join_refuses_absolute_paths() {
    match safe_join("out", "/etc/passwd") {
        Err(K7zError::PathTraversal(s)) => assert_eq!(s, "/etc/passwd"),
        other => panic!("unexpected {other:?}"),
    }
}

#[test]
fn safe_join_refuses_parent_components() {
    match safe_join("out", "../x") {
        Err(K7zError::PathTraversal(s)) => assert_eq!(s, "../x"),
        other => panic!("unexpected {other:?}"),
    }
    assert!(safe_join("out", "a/../b").is_err());
    assert!(safe_join("out", "a/..").is_err());
}

#[test]
fn safe_join_result_stays_under_base() {
    for rel in ["a", "a/b/c", "./a", "a/./b", "x//y/"] {
        let out = safe_join("/data/out", rel).unwrap();
        assert!(out.starts_with("/data/out/"));
        assert!(!out.contains(".."));
    }
}

#[test]
fn normalize_name_keeps_nested_names() {
    assert_eq!(normalize_name("/tmp", "/tmp/abc").unwrap(), "abc");
    assert_eq!(normalize_name("/", "/abc/def").unwrap(), "abc/def");
    assert_eq!(normalize_name("/tmp/", "/tmp/x/y/").unwrap(), "x/y");
}

#[test]
fn normalize_name_turns_backslashes_into_slashes() {
    assert_eq!(normalize_name("/tmp", "/tmp/a\\b").unwrap(), "a/b");
}

#[test]
fn normalize_name_refuses_paths_outside_base() {
    match normalize_name("/tmp", "/other/x") {
        Err(K7zError::InvalidInput(s)) => assert_eq!(s, "/other/x"),
        other => panic!("unexpected {other:?}"),
    }
    assert!(normalize_name("/tmp/abc", "/tmp").is_err());
    assert!(normalize_name("/tmp", "/tmpx/a").is_err());
}

#[test]
fn normalize_name_refuses_the_base_itself() {
    match normalize_name("/tmp", "/tmp") {
        Err(K7zError::InvalidInput(s)) => assert_eq!(s, "/tmp"),
        other => panic!("unexpected {other:?}"),
    }
}

#[test]
fn default_unpack_target_is_the_file_stem() {
    assert_eq!(default_unpack_target("/x/data.bin.zst").unwrap(), "data.bin");
    assert_eq!(default_unpack_target("stream.zst").unwrap(), "stream");
    assert_eq!(default_unpack_target(".hidden").unwrap(), ".hidden");
    assert_eq!(default_unpack_target("noext").unwrap(), "noext");
    assert_eq!(default_unpack_target("a.").unwrap(), "a");
}

#[test]
fn default_unpack_target_needs_a_file_name() {
    match default_unpack_target("/") {
        Err(K7zError::InvalidInput(s)) => assert_eq!(s, "/"),
        other => panic!("unexpected {other:?}"),
    }
    assert!(default_unpack_target("a/..").is_err());
    assert!(default_unpack_target("").is_err());
}

#[test]
fn fuzz_paths_map_bytes_to_characters() {
    assert_eq!(k7z::fuzz::detect_format::path_from_bytes(&[0, 1, 2, 3, 10]), "./-d.");
    assert_eq!(k7z::fuzz::safe_join::path_from_bytes(&[0, 1, 2, 3, 4]), "./_-e");
    assert_eq!(k7z::fuzz::detect_format::path_from_bytes(&[7u8; 300]).len(), 256);
}
