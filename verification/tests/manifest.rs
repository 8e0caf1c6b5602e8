use orix::manifest::{BinField, Manifest};
use orix::strmap::StrMap;

#[test]
fn test_bin_field_shorthand() {
    let shorthand = BinField::Shorthand("./bin/cli.js".into());
    let entries = shorthand.entries("my-pkg");
    assert_eq!(entries, vec![("my-pkg".to_string(), "./bin/cli.js".to_string())]);
}

#[test]
fn test_bin_field_map() {
    let mut m = StrMap::new();
    m.insert("tool-a".to_string(), "./bin/a.js".to_string());
    m.insert("tool-b".to_string(), "./bin/b.js".to_string());
    let map = BinField::Commands(m);
    let entries = map.entries("my-pkg");
    assert_eq!(entries.len(), 2);
    assert!(entries.iter().any(|(k, _)| k == "tool-a"));
    assert!(entries.iter().any(|(k, _)| k == "tool-b"));
}

#[test]
fn default_manifest_has_no_dependencies_or_bins() {
    let m = Manifest::default();
    assert!(!m.has_dependencies());
    assert!(m.bin.is_empty());
    assert!(m.name_as_pkg_name().is_none());
    assert!(m.version_as_version().is_none());
}

#[test]
fn resolve_bin_joins_entry_onto_package_root() {
    let mut m = Manifest::default();
    m.name = Some("my-pkg".to_string());
    m.version = Some("v1.2.3".to_string());
    m.bin = BinField::Shorthand("./bin/cli.js".to_string());
    assert_eq!(m.resolve_bin("my-pkg", "/pkgs/my-pkg"), Some("/pkgs/my-pkg/./bin/cli.js".to_string()));
    assert_eq!(m.resolve_bin("other", "/pkgs/my-pkg"), None);
    assert_eq!(m.version_as_version().map(|v| v.to_text()), Some("1.2.3".to_string()));
    m.dev_dependencies.insert("vite".to_string(), "^5".to_string());
    assert!(m.has_dependencies());
}
