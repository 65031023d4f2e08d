use std::io::{Cursor, Write};

use k7z::error::K7zError;
use k7z::format::ArchiveFormat;
use k7z::types::{EntryMetadata, ListReport, PackReport, TestReport, UnpackReport};
use sevenz_rust2::encoder_options::{AesEncoderOptions, Lzma2Options};

fn sample_tar() -> Vec<u8> {
    let mut builder = tar::Builder::new(Vec::new());
    let mut header = tar::Header::new_gnu();
    header.set_entry_type(tar::EntryType::Directory);
    header.set_size(0);
    header.set_mode(0o755);
    header.set_cksum();
    builder.append_data(&mut header, "dir/", &b""[..]).unwrap();
    let mut header = tar::Header::new_gnu();
    header.set_size(5);
    header.set_mode(0o644);
    header.set_cksum();
    builder.append_data(&mut header, "dir/hello.txt", &b"hello"[..]).unwrap();
    builder.into_inner().unwrap()
}

#[test]
fn zstd_listing_reports_the_decompressed_size() {
    let data = zstd::stream::encode_all(&b"hello zstd"[..], 3).unwrap();
    let report = k7z::zstd_stream::list_from_reader(&data, "stream", Some(data.len() as u64)).unwrap();
    assert_eq!(report.entries.len(), 1);
    let e = &report.entries[0];
    assert_eq!(e.path, "stream");
    assert!(!e.is_dir);
    assert_eq!(e.size, 10);
    assert_eq!(e.compressed_size, Some(data.len() as u64));
    assert_eq!(k7z::zstd_stream::test_from_reader(&data).unwrap().entries_checked, 1);
}

#[test]
fn zstd_garbage_is_an_io_error() {
    match k7z::zstd_stream::test_from_reader(b"garbage") {
        Err(K7zError::Io(_)) => {}
        other => panic!("unexpected {other:?}"),
    }
}

#[test]
fn zstd_list_name_is_the_stem_or_stream() {
    assert_eq!(k7z::zstd_stream::list_name("/a/file.bin.zst"), "file.bin");
    assert_eq!(k7z::zstd_stream::list_name("/"), "stream");
}

#[test]
fn tar_listing_shows_directories_with_size_zero() {
    let data = sample_tar();
    let report = k7z::tar_archive::list_from_reader(&data).unwrap();
    assert_eq!(report.entries.len(), 2);
    assert_eq!(report.entries[0].path, "dir/");
    assert!(report.entries[0].is_dir);
    assert_eq!(report.entries[0].size, 0);
    assert_eq!(report.entries[1].path, "dir/hello.txt");
    assert!(!report.entries[1].is_dir);
    assert_eq!(report.entries[1].size, 5);
    assert_eq!(report.entries[1].compressed_size, None);
    assert_eq!(k7z::tar_archive::test(ArchiveFormat::Tar, &data).unwrap().entries_checked, 2);
}

#[test]
fn compressed_tars_are_listed_through_their_compression() {
    let tar_bytes = sample_tar();
    let mut gz = flate2::write::GzEncoder::new(Vec::new(), flate2::Compression::new(6));
    gz.write_all(&tar_bytes).unwrap();
    let gz = gz.finish().unwrap();
    assert_eq!(k7z::tar_archive::list(ArchiveFormat::TarGz, &gz).unwrap().entries.len(), 2);

    let mut xz = xz2::write::XzEncoder::new(Vec::new(), 6);
    xz.write_all(&tar_bytes).unwrap();
    let xz = xz.finish().unwrap();
    assert_eq!(k7z::tar_archive::list(ArchiveFormat::TarXz, &xz).unwrap().entries.len(), 2);

    let zst = zstd::stream::encode_all(&tar_bytes[..], 3).unwrap();
    assert_eq!(k7z::tar_archive::test(ArchiveFormat::TarZst, &zst).unwrap().entries_checked, 2);

    assert!(k7z::tar_archive::list(ArchiveFormat::TarGz, &tar_bytes).is_err());
}

#[test]
fn tar_backend_refuses_other_formats() {
    match k7z::tar_archive::list(ArchiveFormat::Zip, b"") {
        Err(K7zError::UnsupportedFormat(s)) => assert_eq!(s, "zip"),
        other => panic!("unexpected {other:?}"),
    }
}

fn sample_zip() -> Vec<u8> {
    let mut writer = zip::ZipWriter::new(Cursor::new(Vec::new()));
    let options = zip::write::FileOptions::default();
    writer.add_directory("d/", options).unwrap();
    writer.start_file("d/a.txt", options).unwrap();
    writer.write_all(b"zip-content").unwrap();
    writer.finish().unwrap().into_inner()
}

#[test]
fn zip_listing_shows_names_sizes_and_compressed_sizes() {
    let data = sample_zip();
    let report = k7z::zip_archive::list_from_reader(&data).unwrap();
    assert_eq!(report.entries.len(), 2);
    assert_eq!(report.entries[0].path, "d/");
    assert!(report.entries[0].is_dir);
    assert_eq!(report.entries[1].path, "d/a.txt");
    assert_eq!(report.entries[1].size, 11);
    assert!(report.entries[1].compressed_size.is_some());
    assert_eq!(k7z::zip_archive::test(&data).unwrap().entries_checked, 2);
}

#[test]
fn zip_garbage_is_a_zip_error() {
    match k7z::zip_archive::list_from_reader(b"not-a-zip") {
        Err(K7zError::Other(s)) => assert!(s.starts_with("zip error: ")),
        other => panic!("unexpected {other:?}"),
    }
}

fn sample_7z(password: Option<&str>) -> Vec<u8> {
    let mut writer = sevenz_rust2::ArchiveWriter::new(Cursor::new(Vec::new())).unwrap();
    if let Some(pw) = password {
        writer.set_content_methods(vec![
            AesEncoderOptions::new(sevenz_rust2::Password::from(pw)).into(),
            Lzma2Options::from_level(6).into(),
        ]);
        writer.set_encrypt_header(true);
    } else {
        writer.set_encrypt_header(false);
    }
    writer
        .push_archive_entry(sevenz_rust2::ArchiveEntry::new_file("plain.txt"), Some(&b"sevenz-content"[..]))
        .unwrap();
    writer.finish().unwrap().into_inner()
}

#[test]
fn sevenz_listing_shows_each_file() {
    let data = sample_7z(None);
    let report = k7z::sevenz::list_from_reader(&data, None).unwrap();
    assert_eq!(report.entries.len(), 1);
    assert_eq!(report.entries[0].path, "plain.txt");
    assert!(!report.entries[0].is_dir);
    assert_eq!(report.entries[0].size, 14);
    let empty_pw = k7z::sevenz::list_from_reader(&data, Some("")).unwrap();
    assert_eq!(empty_pw.entries.len(), 1);
}

#[test]
fn encrypted_7z_needs_its_password() {
    let data = sample_7z(Some("secret"));
    let report = k7z::sevenz::list_from_reader(&data, Some("secret")).unwrap();
    assert_eq!(report.entries[0].path, "plain.txt");
    match k7z::sevenz::list_from_reader(&data, None) {
        Err(K7zError::Other(s)) => assert!(s.starts_with("7z error: ")),
        other => panic!("unexpected {other:?}"),
    }
}

#[test]
fn passwords_are_used_only_when_not_empty() {
    assert!(k7z::sevenz::password_from(Some("")).is_empty());
    assert_eq!(k7z::sevenz::password_from(Some("ab")).as_slice().len(), 4);
}

#[test]
fn report_lines_show_counts_in_decimal() {
    let pack = PackReport { archive: "a.zip".to_string(), entries: 3, bytes_in: 1024, bytes_out: 10 };
    assert_eq!(k7z::report::pack_line(&pack), "packed 3 entries -> a.zip (1024 bytes -> 10 bytes)");
    let unpack = UnpackReport { output_dir: "out".to_string(), entries: 0, bytes_out: 0 };
    assert_eq!(k7z::report::unpack_line(&unpack), "unpacked 0 entries into out (0 bytes)");
    assert_eq!(k7z::report::test_line(&TestReport { entries_checked: 12 }), "test passed: checked 12 entries");
    let list = ListReport {
        entries: vec![
            EntryMetadata { path: "d".to_string(), is_dir: true, size: 0, compressed_size: None },
            EntryMetadata { path: "f".to_string(), is_dir: false, size: 18446744073709551615, compressed_size: Some(7) },
        ],
    };
    assert_eq!(
        k7z::report::list_lines(&list),
        vec!["dir \td\t0 bytes".to_string(), "file\tf\t18446744073709551615 bytes\t7 bytes".to_string()]
    );
    assert_eq!(k7z::text::decimal_string(1234567890), "1234567890");
}

#[test]
fn sevenz_test_counts_each_entry() {
    let data = sample_7z(None);
    assert_eq!(k7z::sevenz::test(&data, None).unwrap().entries_checked, 1);
    assert_eq!(k7z::sevenz::test(&data, Some("")).unwrap().entries_checked, 1);
}

#[test]
fn encrypted_7z_test_needs_its_password() {
    let data = sample_7z(Some("secret"));
    assert_eq!(k7z::sevenz::test(&data, Some("secret")).unwrap().entries_checked, 1);
    match k7z::sevenz::test(&data, None) {
        Err(K7zError::Other(s)) => assert!(s.starts_with("7z error: ")),
        other => panic!("unexpected {other:?}"),
    }
}

#[test]
fn sevenz_test_refuses_garbage() {
    match k7z::sevenz::test(b"not-a-7z", None) {
        Err(K7zError::Other(s)) => assert!(s.starts_with("7z error: ")),
        other => panic!("unexpected {other:?}"),
    }
}

#[test]
fn tar_test_counts_what_list_lists() {
    let tar_bytes = sample_tar();
    let mut gz = flate2::write::GzEncoder::new(Vec::new(), flate2::Compression::new(6));
    gz.write_all(&tar_bytes).unwrap();
    let gz = gz.finish().unwrap();
    for (format, data) in [(ArchiveFormat::Tar, tar_bytes.clone()), (ArchiveFormat::TarGz, gz)] {
        let listed = k7z::tar_archive::list(format, &data).unwrap().entries.len();
        let checked = k7z::tar_archive::test(format, &data).unwrap().entries_checked;
        assert_eq!(listed, checked);
    }
    let zip = sample_zip();
    let listed = k7z::zip_archive::list_from_reader(&zip).unwrap().entries.len();
    assert_eq!(k7z::zip_archive::test(&zip).unwrap().entries_checked, listed);
}

#[test]
fn gzip_tar_is_read_only_as_far_as_the_tar_needs() {
    let tar_bytes = sample_tar();
    let mut gz = flate2::write::GzEncoder::new(Vec::new(), flate2::Compression::new(6));
    gz.write_all(&tar_bytes).unwrap();
    let mut gz = gz.finish().unwrap();
    gz.extend_from_slice(b"trailing bytes after the gzip member");
    assert_eq!(k7z::tar_archive::list(ArchiveFormat::TarGz, &gz).unwrap().entries.len(), 2);
    assert_eq!(k7z::tar_archive::test(ArchiveFormat::TarGz, &gz).unwrap().entries_checked, 2);
}

#[test]
fn truncated_tar_fails_both_list_and_test() {
    let tar_bytes = sample_tar();
    let cut = &tar_bytes[..512 + 512 + 2];
    assert!(k7z::tar_archive::list(ArchiveFormat::Tar, cut).is_err());
    match k7z::tar_archive::test(ArchiveFormat::Tar, cut) {
        Err(K7zError::Io(_)) => {}
        other => panic!("unexpected {other:?}"),
    }
}
