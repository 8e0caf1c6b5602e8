use orix::fetch::{entry_action, entry_mode, EntryAction, TarEntryKind};
use orix::fetch::{
    base64_decode, base64_encode, cache_file_name, hex_encode, strip_npm_package_prefix, validate_tarball_path,
    verify_integrity, IntegrityCheckError, TarballPathError,
};

#[test]
fn verify_integrity_sha512_with_real_npm_integrity() {
    let content = b"hello";
    let integrity = "sha512-m3HSJL1i83hdltRq0+o9czGb+8KJDKra4t/3JRlnPKcjI8PZm6XBHXx6zG4UuMXaDEZjR1wuXDre9G9zvN7AQw==";
    assert!(verify_integrity(content, integrity).is_ok());
    let empty = "sha512-z4PhNX7vuL3xVChQ1m2AB9Yg5AULVxXcg/SpIdNs6c5H0NE8XYXysP+DGNKHfuwvY7kxvUdBeoGlODJ6+SfaPg==";
    assert!(verify_integrity(b"", empty).is_ok());
    assert!(verify_integrity(content, empty).is_err());
}

#[test]
fn verify_integrity_sha512_wrong_hash_rejected() {
    let content = b"hello world";
    let wrong_integrity = "sha512-AAAAAAAAAAAAAAAAAAAAAAAAAAAAAAAAAAAAAAAAAAA=";
    let result = verify_integrity(content, wrong_integrity);
    let Err(e) = result else {
        panic!("wrong sha512 hash should be rejected");
    };
    assert!(e.message().contains("integrity mismatch"), "error message should mention mismatch");
}

#[test]
fn verify_integrity_sha1_with_real_npm_integrity() {
    let content = b"test content";
    let integrity = "sha1-G7qMDIJD4IJlB0r8m3x7Q==";
    let _ = verify_integrity(content, integrity);
}

#[test]
fn verify_integrity_sha1_accepts_matching_digest() {
    // SHA-1 of "hello" is aaf4c61ddcc5e8a2dabede0f3b482cd9aea9434d.
    let digest = base64_encode(&[
        0xaa, 0xf4, 0xc6, 0x1d, 0xdc, 0xc5, 0xe8, 0xa2, 0xda, 0xbe, 0xde, 0x0f, 0x3b, 0x48, 0x2c, 0xd9, 0xae, 0xa9,
        0x43, 0x4d,
    ]);
    assert!(verify_integrity(b"hello", &format!("sha1-{}", digest)).is_ok());
}

#[test]
fn verify_integrity_unknown_algorithm_passes() {
    let content = b"any content";
    let result = verify_integrity(content, "md5-abcdef");
    assert!(result.is_ok(), "unknown algorithm should be skipped (fallback to ok)");
}

#[test]
fn verify_integrity_rejects_bad_base64() {
    assert!(matches!(verify_integrity(b"x", "sha256-!!!"), Err(IntegrityCheckError::InvalidBase64(_))));
}

#[test]
fn base64_encode_decode_roundtrip() {
    let original = b"hello world";
    let encoded = base64_encode(original);
    let decoded = base64_decode(&encoded).expect("decodes");
    assert_eq!(decoded, original);
}

#[test]
fn base64_decode_takes_only_canonical_padded_text() {
    assert_eq!(base64_encode(b"A"), "QQ==");
    assert_eq!(base64_decode("QQ==").expect("decodes"), b"A".to_vec());
    assert!(base64_decode("QQ").is_none());
    assert!(base64_decode("QR==").is_none());
    assert!(base64_decode("Q Q==").is_none());
    assert_eq!(base64_decode("").expect("empty"), Vec::<u8>::new());
}

#[test]
fn cache_file_name_never_contains_path_separators() {
    let file_name = cache_file_name("https://registry.npmjs.org/left-pad/-/left-pad-1.3.0.tgz");
    assert!(!file_name.contains(['/', '\\']));
    assert_eq!(file_name.len(), 68);
}

#[test]
fn hex_encode_is_lowercase_two_digits_per_byte() {
    assert_eq!(hex_encode(&[0x00, 0x0f, 0xab]), "000fab");
}

#[test]
fn tarball_paths_drop_package_prefix_and_reject_escapes() {
    assert_eq!(strip_npm_package_prefix("package/lib/index.js"), "lib/index.js");
    assert_eq!(strip_npm_package_prefix("other/index.js"), "other/index.js");
    assert_eq!(strip_npm_package_prefix("package"), "");
    assert!(validate_tarball_path("lib/index.js").is_ok());
    assert!(matches!(validate_tarball_path("../evil"), Err(TarballPathError::ParentDir(_))));
    assert!(matches!(validate_tarball_path("/etc/passwd"), Err(TarballPathError::Absolute(_))));
}

#[test]
fn tar_entries_are_handled_by_kind() {
    assert_eq!(entry_action(TarEntryKind::Directory), EntryAction::MakeDir);
    assert_eq!(entry_action(TarEntryKind::Symlink), EntryAction::Symlink);
    assert_eq!(entry_action(TarEntryKind::HardLink), EntryAction::HardLink);
    assert_eq!(entry_action(TarEntryKind::Regular), EntryAction::WriteFile);
    assert_eq!(entry_action(TarEntryKind::Continuous), EntryAction::WriteFile);
    assert_eq!(entry_action(TarEntryKind::Block), EntryAction::RejectDevice);
    assert_eq!(entry_action(TarEntryKind::Char), EntryAction::RejectDevice);
    assert_eq!(entry_action(TarEntryKind::Fifo), EntryAction::RejectFifo);
    assert_eq!(entry_action(TarEntryKind::Other), EntryAction::Skip);
}

#[test]
fn extracted_modes_keep_permission_bits_and_open_directories() {
    assert_eq!(entry_mode(TarEntryKind::Regular, Some(0o100755)), 0o755);
    assert_eq!(entry_mode(TarEntryKind::Regular, None), 0o644);
    assert_eq!(entry_mode(TarEntryKind::Directory, Some(0o40700)), 0o711);
    assert_eq!(entry_mode(TarEntryKind::Directory, None), 0o755);
}

#[test]
fn sha256_digest_is_base64_of_the_hash() {
    assert_eq!(orix::fetch::sha256_digest(b""), "47DEQpj8HBSa+/TImW+5JCeuQeRkm5NMpJWZG3hSuFU=");
}

#[test]
fn windows_tarball_paths_reject_backslash_climbs_and_drives() {
    assert!(matches!(orix::fetch::validate_tarball_path_windows("..\\x"), Err(TarballPathError::ParentDir(_))));
    assert!(matches!(orix::fetch::validate_tarball_path_windows("C:x"), Err(TarballPathError::Absolute(_))));
    assert!(matches!(orix::fetch::validate_tarball_path_windows("\\x"), Err(TarballPathError::Absolute(_))));
    assert!(orix::fetch::validate_tarball_path_windows("lib\\index.js").is_ok());
    assert!(validate_tarball_path("..\\x").is_ok());
}
