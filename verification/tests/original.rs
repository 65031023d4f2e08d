use k7z::crypto::SecretString;
use k7z::format::detect_archive_format;
use k7z::sevenz::password_from;
use k7z::zip_archive::normalize_name;

#[test]
fn normalize_name_uses_forward_slashes() {
    let root = String::from("/tmp");
    let file = String::from("/tmp/abc/def.txt");
    let name = normalize_name(&root, &file).expect("name");
    assert_eq!(name, "abc/def.txt");
}

#[test]
fn unknown_extension_is_rejected() {
    let path = "/tmp/archive.unknown";
    assert!(detect_archive_format(path).is_err());
}

#[test]
fn secret_round_trip() {
    let secret = SecretString::new("p@ss");
    assert_eq!(secret.as_str(), "p@ss");
}

#[test]
fn empty_password_is_default() {
    assert!(password_from(None).is_empty());
}

#[test]
fn non_empty_password_is_used() {
    assert!(!password_from(Some("abc")).is_empty());
}

#[test]
fn list_from_reader_rejects_invalid_tar() {
    let cursor = b"not-a-tar".to_vec();
    assert!(k7z::tar_archive::list_from_reader(&cursor).is_err());
}

#[test]
fn list_from_reader_rejects_invalid_zip() {
    let cursor = b"not-a-zip".to_vec();
    assert!(k7z::zip_archive::list_from_reader(&cursor).is_err());
}

#[test]
fn list_from_reader_rejects_invalid_zstd() {
    let cursor = b"not-a-zstd-stream".to_vec();
    assert!(k7z::zstd_stream::list_from_reader(&cursor, "stream", None).is_err());
}

#[test]
fn secret_clones_and_converts_keep_the_text() {
    let secret = SecretString::from("hunter2".to_string());
    assert_eq!(secret.as_str(), "hunter2");
    let copy = secret.clone();
    assert_eq!(copy.as_str(), "hunter2");
}

#[test]
fn passwords_are_utf16_little_endian() {
    assert_eq!(password_from(Some("ab")).as_slice(), &[0x61, 0, 0x62, 0]);
    assert_eq!(password_from(Some("\u{1F600}")).as_slice(), &[0x3D, 0xD8, 0x00, 0xDE]);
}
