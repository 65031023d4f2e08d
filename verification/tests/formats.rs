use k7z::error::K7zError;
use k7z::format::{
    detect_archive_format, detect_format_from_path, extension_for, pack_format, parse_format,
    ArchiveFormat,
};

const ALL: [ArchiveFormat; 7] = [
    ArchiveFormat::SevenZ,
    ArchiveFormat::Zip,
    ArchiveFormat::Tar,
    ArchiveFormat::TarGz,
    ArchiveFormat::TarXz,
    ArchiveFormat::TarZst,
    ArchiveFormat::Zst,
];

#[test]
fn format_names_are_cli_style() {
    let names: Vec<&str> = ALL.iter().map(|f| f.as_str()).collect();
    assert_eq!(names, vec!["7z", "zip", "tar", "tar.gz", "tar.xz", "tar.zst", "zst"]);
    for f in ALL {
        assert_eq!(extension_for(f), f.as_str());
    }
}

#[test]
fn every_format_name_parses_back() {
    for f in ALL {
        assert_eq!(parse_format(f.as_str()).unwrap(), f);
        assert_eq!(f.as_str().parse::<ArchiveFormat>().unwrap(), f);
    }
}

#[test]
fn parsing_ignores_case_and_accepts_short_names() {
    assert_eq!(parse_format("ZIP").unwrap(), ArchiveFormat::Zip);
    assert_eq!(parse_format("TgZ").unwrap(), ArchiveFormat::TarGz);
    assert_eq!(parse_format("txz").unwrap(), ArchiveFormat::TarXz);
    assert_eq!(parse_format("TZST").unwrap(), ArchiveFormat::TarZst);
    assert_eq!(parse_format("Tar.Zst").unwrap(), ArchiveFormat::TarZst);
}

#[test]
fn unknown_format_names_are_refused() {
    match parse_format("rar") {
        Err(K7zError::UnsupportedFormat(s)) => assert_eq!(s, "rar"),
        other => panic!("unexpected {other:?}"),
    }
    assert!(parse_format("").is_err());
    assert!(parse_format("targz").is_err());
}

#[test]
fn detection_reads_compound_suffixes() {
    assert_eq!(detect_format_from_path("a.tar.gz"), Some(ArchiveFormat::TarGz));
    assert_eq!(detect_format_from_path("/x/A.TGZ"), Some(ArchiveFormat::TarGz));
    assert_eq!(detect_format_from_path("x.tar.xz"), Some(ArchiveFormat::TarXz));
    assert_eq!(detect_format_from_path("x.txz"), Some(ArchiveFormat::TarXz));
    assert_eq!(detect_format_from_path("x.tar.zst"), Some(ArchiveFormat::TarZst));
    assert_eq!(detect_format_from_path("dir/x.tzst"), Some(ArchiveFormat::TarZst));
}

#[test]
fn detection_reads_single_extensions() {
    assert_eq!(detect_format_from_path("x.7z"), Some(ArchiveFormat::SevenZ));
    assert_eq!(detect_format_from_path("x.ZIP"), Some(ArchiveFormat::Zip));
    assert_eq!(detect_format_from_path("/a/b/x.tar"), Some(ArchiveFormat::Tar));
    assert_eq!(detect_format_from_path("file.bin.zst"), Some(ArchiveFormat::Zst));
    assert_eq!(detect_format_from_path("x.zip/"), Some(ArchiveFormat::Zip));
}

#[test]
fn detection_needs_a_file_name_and_an_extension() {
    assert_eq!(detect_format_from_path("/tmp/"), None);
    assert_eq!(detect_format_from_path(".zip"), None);
    assert_eq!(detect_format_from_path("dir/.."), None);
    assert_eq!(detect_format_from_path("a.unknown"), None);
    assert_eq!(detect_format_from_path("file"), None);
    assert_eq!(detect_format_from_path(""), None);
    assert_eq!(detect_format_from_path("/"), None);
}

#[test]
fn archives_named_after_their_format_are_detected() {
    for f in ALL {
        let path = format!("/bench/bench-1.{}", extension_for(f));
        assert_eq!(detect_format_from_path(&path), Some(f));
    }
    assert_eq!(detect_format_from_path("a.tar.zst"), Some(ArchiveFormat::TarZst));
}

#[test]
fn undetectable_archives_are_refused_with_their_path() {
    match detect_archive_format("/tmp/archive.unknown") {
        Err(K7zError::UnsupportedFormat(s)) => {
            assert_eq!(s, "cannot infer archive format from path /tmp/archive.unknown")
        }
        other => panic!("unexpected {other:?}"),
    }
    assert_eq!(detect_archive_format("x.zip").unwrap(), ArchiveFormat::Zip);
}

#[test]
fn pack_format_prefers_the_named_format() {
    assert_eq!(pack_format(Some("zip"), "out.7z").unwrap(), ArchiveFormat::Zip);
    assert_eq!(pack_format(None, "out.7z").unwrap(), ArchiveFormat::SevenZ);
    match pack_format(None, "out.bin") {
        Err(K7zError::UnsupportedFormat(s)) => assert_eq!(s, "cannot infer archive format from out.bin"),
        other => panic!("unexpected {other:?}"),
    }
    assert!(pack_format(Some("rar"), "out.zip").is_err());
}

#[test]
fn error_messages_carry_a_prefix() {
    assert_eq!(K7zError::Io("boom".to_string()).message(), "i/o error: boom");
    assert_eq!(K7zError::UnsupportedFormat("rar".to_string()).message(), "unsupported format: rar");
    assert_eq!(K7zError::InvalidInput("x".to_string()).message(), "invalid input: x");
    assert_eq!(K7zError::PathTraversal("../a".to_string()).message(), "unsafe archive path: ../a");
    assert_eq!(K7zError::AlreadyExists("f".to_string()).message(), "entry already exists: f");
    assert_eq!(K7zError::Other("plain".to_string()).message(), "plain");
}
