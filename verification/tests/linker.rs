use orix::paths::{cmd_compatible_path, is_bare_drive_path, package_path_in_node_modules, path_starts_with_lexically, volume_root};

#[test]
fn is_bare_drive_path_detects_drive_letter_only() {
    assert!(is_bare_drive_path("D:"));
    assert!(is_bare_drive_path("d:\\"));
    assert!(!is_bare_drive_path("D:\\workspace\\proj"));
}

#[test]
fn windows_cmd_compatible_path_strips_verbatim_prefixes() {
    assert_eq!(cmd_compatible_path(r"\\?\D:\workspace\project"), r"D:\workspace\project");
    assert_eq!(cmd_compatible_path(r"\\?\UNC\server\share\project"), r"\\server\share\project");
}

#[test]
fn scoped_packages_live_two_directories_deep() {
    assert_eq!(package_path_in_node_modules("node_modules", "@scope/pkg"), "node_modules/@scope/pkg");
    assert_eq!(package_path_in_node_modules("node_modules/", "react"), "node_modules/react");
}

#[test]
fn lexical_prefix_compares_normal_components() {
    assert!(path_starts_with_lexically("/a/./b/c", "/a/b"));
    assert!(!path_starts_with_lexically("/a/bc", "/a/b"));
}

#[test]
fn volume_root_takes_drive_and_separator() {
    assert_eq!(volume_root(r"D:\x"), Some(r"D:\".to_string()));
    assert_eq!(volume_root("D:x"), Some("D:".to_string()));
    assert_eq!(volume_root("/usr"), None);
}
