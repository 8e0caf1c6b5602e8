use orix::paths::{normalize_name, normalize_path_for_lockfile, relative_path};

#[test]
fn empty_name_falls_back_to_world() {
    assert_eq!(normalize_name("  "), "world");
}

#[test]
fn normalize_path_for_lockfile_uses_forward_slashes() {
    let path = "packages/app/package.json";
    assert_eq!(normalize_path_for_lockfile(path), "packages/app/package.json");
}

#[test]
fn relative_path_moves_between_sibling_directories() {
    let from = "node_modules/.orix/a";
    let to = "node_modules/.orix/b/pkg";
    assert_eq!(relative_path(from, to), "../b/pkg");
}

#[test]
fn normalize_name_trims_surrounding_whitespace() {
    assert_eq!(normalize_name("  orix \n"), "orix");
}

#[test]
fn relative_path_of_same_directory_is_dot() {
    assert_eq!(relative_path("a/b", "a/./b/"), ".");
}

#[test]
fn normalize_path_for_lockfile_keeps_leading_dot_and_parents() {
    assert_eq!(normalize_path_for_lockfile("./a//../b/"), "./a/../b");
    assert_eq!(normalize_path_for_lockfile("/abs/x"), "abs/x");
}
