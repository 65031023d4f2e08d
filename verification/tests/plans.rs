use std::io::Write;
use k7z::zip_archive::{zip_walk_step, ZipAddition};
use k7z::error::K7zError;
use k7z::format::{ArchiveFormat, OverwriteMode};
use k7z::plan::{pack, PackPlan, SourceKind, TarCompression};
use k7z::sizes::{calculate_input_size, count_files_and_dirs, count_inputs, FsEntry, SourceWalk, WalkKind};
use k7z::types::{BenchRequest, PackRequest, UnpackRequest};
use k7z::unpack::{
    empty_report, record_entry, sevenz_entry_action, tar_entry_action, tar_entry_destination,
    zip_entry_action, zip_entry_destination, zst_unpack_action, zst_unpack_target, EntryAction,
};

fn request(format: ArchiveFormat, sources: &[&str], level: Option<u32>, password: Option<&str>) -> PackRequest {
    PackRequest {
        sources: sources.iter().map(|s| s.to_string()).collect(),
        output: "out".to_string(),
        format,
        level,
        solid: false,
        password: password.map(|p| p.to_string()),
    }
}

fn invalid_input(r: Result<PackPlan, K7zError>) -> String {
    match r {
        Err(K7zError::InvalidInput(s)) => s,
        other => panic!("unexpected {other:?}"),
    }
}

#[test]
fn sevenz_plan_caps_the_level_and_encrypts_with_a_password() {
    let r = pack(&request(ArchiveFormat::SevenZ, &["a"], Some(12), Some("pw")), &vec![SourceKind::File]);
    match r {
        Ok(PackPlan::SevenZ { level, encrypt }) => {
            assert_eq!(level, 9);
            assert!(encrypt);
        }
        other => panic!("unexpected {other:?}"),
    }
    match pack(&request(ArchiveFormat::SevenZ, &["a"], None, None), &vec![SourceKind::Dir]) {
        Ok(PackPlan::SevenZ { level, encrypt }) => {
            assert_eq!(level, 6);
            assert!(!encrypt);
        }
        other => panic!("unexpected {other:?}"),
    }
}

#[test]
fn packing_needs_a_source() {
    let msg = "at least one source path is required";
    assert_eq!(invalid_input(pack(&request(ArchiveFormat::SevenZ, &[], None, None), &vec![])), msg);
    assert_eq!(invalid_input(pack(&request(ArchiveFormat::Zip, &[], None, None), &vec![])), msg);
    assert_eq!(invalid_input(pack(&request(ArchiveFormat::TarGz, &[], None, None), &vec![])), msg);
}

#[test]
fn packing_names_the_first_missing_source() {
    let r = pack(
        &request(ArchiveFormat::Zip, &["a", "b", "c"], None, None),
        &vec![SourceKind::File, SourceKind::Missing, SourceKind::Missing],
    );
    assert_eq!(invalid_input(r), "source does not exist: b");
}

#[test]
fn zip_plan_stores_at_level_zero() {
    match pack(&request(ArchiveFormat::Zip, &["a"], Some(0), None), &vec![SourceKind::File]) {
        Ok(PackPlan::Zip { stored }) => assert!(stored),
        other => panic!("unexpected {other:?}"),
    }
    match pack(&request(ArchiveFormat::Zip, &["a"], Some(5), None), &vec![SourceKind::File]) {
        Ok(PackPlan::Zip { stored }) => assert!(!stored),
        other => panic!("unexpected {other:?}"),
    }
}

#[test]
fn only_7z_takes_a_password() {
    let pw = Some("secret");
    assert_eq!(
        invalid_input(pack(&request(ArchiveFormat::Zip, &["a"], None, pw), &vec![SourceKind::File])),
        "zip encryption is not implemented yet"
    );
    assert_eq!(
        invalid_input(pack(&request(ArchiveFormat::Tar, &["a"], None, pw), &vec![SourceKind::File])),
        "tar encryption is not supported in this version"
    );
    assert_eq!(
        invalid_input(pack(&request(ArchiveFormat::Zst, &["a"], None, pw), &vec![SourceKind::File])),
        "zstd stream encryption is not supported in this version"
    );
}

#[test]
fn tar_plan_names_sources_after_their_file_names() {
    let r = pack(
        &request(ArchiveFormat::TarZst, &["/data/dir", "notes.txt"], Some(19), None),
        &vec![SourceKind::Dir, SourceKind::File],
    );
    match r {
        Ok(PackPlan::Tar { compression, names }) => {
            assert_eq!(compression, TarCompression::Zstd(19));
            assert_eq!(names, vec!["dir".to_string(), "notes.txt".to_string()]);
        }
        other => panic!("unexpected {other:?}"),
    }
    match pack(&request(ArchiveFormat::TarGz, &["a"], Some(20), None), &vec![SourceKind::File]) {
        Ok(PackPlan::Tar { compression, .. }) => assert_eq!(compression, TarCompression::Gzip(9)),
        other => panic!("unexpected {other:?}"),
    }
    match pack(&request(ArchiveFormat::TarXz, &["a"], None, None), &vec![SourceKind::File]) {
        Ok(PackPlan::Tar { compression, .. }) => assert_eq!(compression, TarCompression::Xz(6)),
        other => panic!("unexpected {other:?}"),
    }
    match pack(&request(ArchiveFormat::Tar, &["a"], None, None), &vec![SourceKind::File]) {
        Ok(PackPlan::Tar { compression, .. }) => assert_eq!(compression, TarCompression::Plain),
        other => panic!("unexpected {other:?}"),
    }
}

#[test]
fn tar_refuses_a_source_without_a_file_name() {
    let r = pack(&request(ArchiveFormat::Tar, &["/"], None, None), &vec![SourceKind::Dir]);
    assert_eq!(invalid_input(r), "/");
}

#[test]
fn zst_needs_exactly_one_file() {
    assert_eq!(
        invalid_input(pack(&request(ArchiveFormat::Zst, &["a", "b"], None, None), &vec![SourceKind::File, SourceKind::File])),
        ".zst format requires exactly one source file"
    );
    assert_eq!(
        invalid_input(pack(&request(ArchiveFormat::Zst, &["d"], None, None), &vec![SourceKind::Dir])),
        ".zst format supports file input only"
    );
    match pack(&request(ArchiveFormat::Zst, &["f"], None, None), &vec![SourceKind::File]) {
        Ok(PackPlan::Zst { level }) => assert_eq!(level, 3),
        other => panic!("unexpected {other:?}"),
    }
}

fn unpack_request(archive: &str, overwrite: OverwriteMode) -> UnpackRequest {
    UnpackRequest { archive: archive.to_string(), output_dir: "out".to_string(), overwrite, password: None }
}

#[test]
fn unpacking_dispatches_on_the_archive_name() {
    assert_eq!(k7z::plan::unpack(&unpack_request("a.tar.xz", OverwriteMode::Always)).unwrap(), ArchiveFormat::TarXz);
    assert!(k7z::plan::unpack(&unpack_request("a.rar", OverwriteMode::Always)).is_err());
}

#[test]
fn tar_links_are_refused() {
    match tar_entry_destination("out", "link", b'2') {
        Err(K7zError::InvalidInput(s)) => assert_eq!(s, "unsupported tar entry type for safety: link"),
        other => panic!("unexpected {other:?}"),
    }
    assert!(tar_entry_destination("out", "hard", b'1').is_err());
    assert_eq!(tar_entry_destination("out", "a/b", b'0').unwrap(), "out/a/b");
    assert!(tar_entry_destination("out", "../evil", b'0').is_err());
}

#[test]
fn tar_actions_follow_the_overwrite_mode() {
    assert_eq!(tar_entry_action(b'0', "d", false, OverwriteMode::Ask).unwrap(), EntryAction::WriteFile);
    assert_eq!(tar_entry_action(b'5', "d", false, OverwriteMode::Ask).unwrap(), EntryAction::CreateDir);
    assert_eq!(tar_entry_action(b'3', "d", false, OverwriteMode::Ask).unwrap(), EntryAction::Skip);
    assert_eq!(tar_entry_action(b'0', "d", true, OverwriteMode::Never).unwrap(), EntryAction::Skip);
    assert_eq!(tar_entry_action(b'0', "d", true, OverwriteMode::Always).unwrap(), EntryAction::WriteFile);
    match tar_entry_action(b'5', "d", true, OverwriteMode::Ask) {
        Err(K7zError::AlreadyExists(s)) => assert_eq!(s, "d"),
        other => panic!("unexpected {other:?}"),
    }
}

#[test]
fn zip_entries_go_where_the_reader_encloses_them() {
    assert_eq!(zip_entry_destination("out", "a/b").unwrap(), "out/a/b");
    assert_eq!(zip_entry_destination("out/", "a/../b").unwrap(), "out/a/../b");
    assert_eq!(zip_entry_destination("/out", "./a/./b").unwrap(), "/out/./a/./b");
    for bad in ["../x", "a/../../x", "/etc/passwd", "a\0b", "..", "/"] {
        match zip_entry_destination("out", bad) {
            Err(K7zError::PathTraversal(s)) => assert_eq!(s, bad),
            other => panic!("unexpected {other:?}"),
        }
    }
    assert_eq!(zip_entry_action(true, "d", true, OverwriteMode::Ask).unwrap(), EntryAction::CreateDir);
    assert_eq!(zip_entry_action(false, "d", true, OverwriteMode::Never).unwrap(), EntryAction::Skip);
    assert!(zip_entry_action(false, "d", true, OverwriteMode::Ask).is_err());
}

#[test]
fn sevenz_refuses_existing_files_when_asked() {
    match sevenz_entry_action(false, "out/f", true, OverwriteMode::Ask) {
        Err(K7zError::Other(s)) => assert_eq!(s, "destination exists: out/f"),
        other => panic!("unexpected {other:?}"),
    }
    assert_eq!(sevenz_entry_action(false, "out/f", false, OverwriteMode::Ask).unwrap(), EntryAction::WriteFile);
}

#[test]
fn zst_unpacks_to_the_archive_stem() {
    assert_eq!(zst_unpack_target(&unpack_request("/in/data.bin.zst", OverwriteMode::Always)).unwrap(), "out/data.bin");
    assert!(zst_unpack_target(&unpack_request("/", OverwriteMode::Always)).is_err());
    assert_eq!(zst_unpack_action("t", true, OverwriteMode::Never).unwrap(), EntryAction::Skip);
    assert!(zst_unpack_action("t", true, OverwriteMode::Ask).is_err());
}

#[test]
fn unpack_reports_count_entries_and_saturate_bytes() {
    let mut r = empty_report("out");
    record_entry(&mut r, EntryAction::CreateDir, 0);
    record_entry(&mut r, EntryAction::WriteFile, 10);
    record_entry(&mut r, EntryAction::Skip, 99);
    assert_eq!(r.entries, 2);
    assert_eq!(r.bytes_out, 10);
    record_entry(&mut r, EntryAction::WriteFile, u64::MAX);
    assert_eq!(r.bytes_out, u64::MAX);
    assert_eq!(r.output_dir, "out");
}

#[test]
fn bench_requests_are_checked() {
    let mut req = BenchRequest {
        source: "src".to_string(),
        format: ArchiveFormat::Zip,
        level: Some(6),
        iterations: 0,
        warmup_iterations: 1,
        solid: false,
        password: None,
    };
    match k7z::bench::bench_check(&req, false) {
        Err(K7zError::InvalidInput(s)) => assert_eq!(s, "source does not exist: src"),
        other => panic!("unexpected {other:?}"),
    }
    match k7z::bench::bench_check(&req, true) {
        Err(K7zError::InvalidInput(s)) => assert_eq!(s, "iterations must be greater than 0"),
        other => panic!("unexpected {other:?}"),
    }
    req.iterations = 2;
    assert!(k7z::bench::bench_check(&req, true).is_ok());
    assert_eq!(k7z::bench::bench_archive_path(&req, "/r", 0), "/r/bench-1.zip");
    assert_eq!(k7z::bench::bench_archive_path(&req, "/r/", 41), "/r/bench-42.zip");
    let p = k7z::bench::bench_pack_request(&req, "/r/bench-1.zip".to_string());
    assert_eq!(p.sources, vec!["src".to_string()]);
    assert_eq!(p.output, "/r/bench-1.zip");
    assert_eq!(p.level, Some(6));
}

#[test]
fn input_sizes_add_up_file_lengths_with_saturation() {
    let entries = vec![
        FsEntry { is_file: true, len: 5 },
        FsEntry { is_file: false, len: 100 },
        FsEntry { is_file: true, len: 7 },
    ];
    assert_eq!(calculate_input_size(&entries), 12);
    let big = vec![FsEntry { is_file: true, len: u64::MAX }, FsEntry { is_file: true, len: 1 }];
    assert_eq!(calculate_input_size(&big), u64::MAX);
    assert_eq!(calculate_input_size(&vec![]), 0);
    let kinds = vec![WalkKind::Dir, WalkKind::File, WalkKind::Symlink, WalkKind::Other, WalkKind::File];
    assert_eq!(count_files_and_dirs(&kinds), 3);
}

#[test]
fn inputs_count_file_sources_once_and_walked_entries_otherwise() {
    let sources = vec![
        SourceWalk { is_file: true, kinds: vec![] },
        SourceWalk { is_file: false, kinds: vec![WalkKind::Dir, WalkKind::File, WalkKind::Symlink] },
        SourceWalk { is_file: false, kinds: vec![WalkKind::Other] },
        SourceWalk { is_file: true, kinds: vec![WalkKind::Dir] },
    ];
    assert_eq!(count_inputs(&sources), 4);
    assert_eq!(count_inputs(&vec![]), 0);
}

#[test]
fn zip_enclosed_names_agree_with_the_zip_reader() {
    let names = ["a/b", "a/../b", "a/../../b", "../x", "/etc/passwd", "./a", "a/./b/..", "x\0y", "a//b/", ".."];
    let mut writer = zip::ZipWriter::new(std::io::Cursor::new(Vec::new()));
    for name in names {
        writer.start_file(name, zip::write::FileOptions::default()).unwrap();
        writer.write_all(b"x").unwrap();
    }
    let data = writer.finish().unwrap().into_inner();
    let mut archive = zip::ZipArchive::new(std::io::Cursor::new(data)).unwrap();
    for i in 0..archive.len() {
        let entry = archive.by_index(i).unwrap();
        let ours = zip_entry_destination("out", entry.name()).is_ok();
        assert_eq!(ours, entry.enclosed_name().is_some(), "{}", entry.name());
    }
}

#[test]
fn zip_walk_names_directories_with_a_slash_and_counts_each_addition_once() {
    match zip_walk_step(WalkKind::Dir, "d".to_string(), 3) {
        (ZipAddition::Directory(n), 4) => assert_eq!(n, "d/"),
        other => panic!("unexpected {other:?}"),
    }
    match zip_walk_step(WalkKind::File, "d/a.txt".to_string(), 4) {
        (ZipAddition::File(n), 5) => assert_eq!(n, "d/a.txt"),
        other => panic!("unexpected {other:?}"),
    }
    assert!(matches!(zip_walk_step(WalkKind::Symlink, "l".to_string(), 5), (ZipAddition::Nothing, 5)));
    assert!(matches!(zip_walk_step(WalkKind::Other, "p".to_string(), 0), (ZipAddition::Nothing, 0)));
}

#[test]
fn tar_sources_add_one_entry_or_every_walked_path() {
    assert_eq!(k7z::sizes::add_source_entries(2, false, 99), 3);
    assert_eq!(k7z::sizes::add_source_entries(2, true, 5), 7);
    assert_eq!(k7z::sizes::add_source_entries(0, true, 0), 0);
}
