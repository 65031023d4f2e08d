use k7z::format::{detect_format_from_path, ArchiveFormat, OverwriteMode};
use k7z::join::safe_join;
use k7z::sizes::{calculate_input_size, FsEntry};
use k7z::types::{BenchRequest, UnpackRequest};

const ALL: [ArchiveFormat; 7] = [
    ArchiveFormat::SevenZ,
    ArchiveFormat::Zip,
    ArchiveFormat::Tar,
    ArchiveFormat::TarGz,
    ArchiveFormat::TarXz,
    ArchiveFormat::TarZst,
    ArchiveFormat::Zst,
];

#[test]
fn bench_archives_are_detected_again() {
    for format in ALL {
        let req = BenchRequest {
            source: "s".to_string(),
            format,
            level: None,
            iterations: 1,
            warmup_iterations: 0,
            solid: false,
            password: None,
        };
        for i in [0u32, 9, 99, u32::MAX - 1] {
            let path = k7z::bench::bench_archive_path(&req, "/tmp/measure", i);
            assert_eq!(detect_format_from_path(&path), Some(format));
        }
    }
}

#[test]
fn detection_ignores_case() {
    for p in ["X.TAR.GZ", "dir/Photo.ZiP", "A.Tzst", "x.7Z", "Notes.TXT", "/Data/B.Tar"] {
        assert_eq!(detect_format_from_path(p), detect_format_from_path(&p.to_ascii_lowercase()));
    }
}

#[test]
fn zst_tar_stem_reads_as_tar_zst() {
    assert_eq!(detect_format_from_path("a.tar.zst"), Some(ArchiveFormat::TarZst));
}

#[test]
fn listed_zst_name_is_the_unpacked_file() {
    let req = UnpackRequest {
        archive: "/in/data.bin.zst".to_string(),
        output_dir: "/out".to_string(),
        overwrite: OverwriteMode::Always,
        password: None,
    };
    let name = k7z::zstd_stream::list_name(&req.archive);
    let target = k7z::unpack::zst_unpack_target(&req).unwrap();
    assert_eq!(target, safe_join(&req.output_dir, &name).unwrap());
}

#[test]
fn stripping_the_base_undoes_joining() {
    for (base, name) in [("/tmp", "a.txt"), ("/", "etc"), ("/data/out/", "x y"), (".", "f")] {
        let joined = safe_join(base, name).unwrap();
        assert_eq!(k7z::zip_archive::normalize_name(base, &joined).unwrap(), name);
    }
}

#[test]
fn saturating_totals_do_not_depend_on_grouping() {
    let r1 = k7z::types::PackReport { archive: String::new(), entries: 1, bytes_in: u64::MAX - 1, bytes_out: 5 };
    let r2 = k7z::types::PackReport { archive: String::new(), entries: 1, bytes_in: 10, bytes_out: 6 };
    let t = k7z::sizes::add_pack_totals(k7z::sizes::add_pack_totals((0, 0), &r1), &r2);
    assert_eq!(t, (u64::MAX, 11));
    let direct = k7z::sizes::add_pack_totals((0, 0), &k7z::types::PackReport { archive: String::new(), entries: 1, bytes_in: u64::MAX, bytes_out: 11 });
    assert_eq!(t, direct);
}

#[test]
fn input_size_of_joined_lists_is_the_saturated_sum() {
    let a = vec![FsEntry { is_file: true, len: 10 }, FsEntry { is_file: false, len: 3 }];
    let b = vec![FsEntry { is_file: true, len: u64::MAX - 4 }];
    let c = vec![FsEntry { is_file: true, len: 2 }];
    for (x, y) in [(&a, &c), (&a, &b), (&b, &c), (&c, &c)] {
        let joined: Vec<FsEntry> = x.iter().chain(y.iter()).copied().collect();
        assert_eq!(calculate_input_size(&joined), calculate_input_size(x).saturating_add(calculate_input_size(y)));
    }
    assert_eq!(calculate_input_size(&Vec::new()), 0);
}

#[test]
fn joining_in_two_steps_is_joining_the_joined_path() {
    let cases = [
        ("/out", "a/b", "c"),
        ("/out/", "./a/", "b/./c"),
        ("out", "", "x"),
        ("/out", "a", "../x"),
        ("/out", "../a", "b"),
        ("/out", "a", "/etc"),
        ("", "a//b", "."),
    ];
    for (base, r1, r2) in cases {
        let joined = std::path::Path::new(r1).join(r2);
        let one = safe_join(base, joined.to_str().unwrap()).ok();
        let two = safe_join(base, r1).ok().and_then(|p| safe_join(&p, r2).ok());
        assert_eq!(one, two, "{base} {r1} {r2}");
    }
    assert_eq!(safe_join("/out", "a/b/c").unwrap(), "/out/a/b/c");
}

#[test]
fn zip_destinations_stay_under_the_output_directory() {
    for name in ["a/b", "a/../b", "./x/./y/..", "a//b/", "a/b/../../c"] {
        let dest = k7z::unpack::zip_entry_destination("/out", name).unwrap();
        let mut depth = 0i64;
        let rest = dest.strip_prefix("/out/").unwrap();
        for part in std::path::Path::new(rest).components() {
            match part {
                std::path::Component::Normal(_) => depth += 1,
                std::path::Component::ParentDir => depth -= 1,
                _ => {}
            }
            assert!(depth >= 0, "{name}");
        }
    }
}

#[test]
fn sevenz_test_counts_what_list_lists() {
    let mut writer = sevenz_rust2::ArchiveWriter::new(std::io::Cursor::new(Vec::new())).unwrap();
    writer.push_archive_entry(sevenz_rust2::ArchiveEntry::new_file("a.txt"), Some(&b"aaa"[..])).unwrap();
    writer.push_archive_entry(sevenz_rust2::ArchiveEntry::new_directory("d"), None::<&[u8]>).unwrap();
    writer.push_archive_entry(sevenz_rust2::ArchiveEntry::new_file("empty"), Some(&b""[..])).unwrap();
    let data = writer.finish().unwrap().into_inner();
    let listed = k7z::sevenz::list_from_reader(&data, None).unwrap().entries.len();
    assert_eq!(listed, 3);
    assert_eq!(k7z::sevenz::test(&data, None).unwrap().entries_checked, listed);
}
