use orix::binplan::{
    cmd_shim_text, direct_package_bin_names, expected_bin_shims, file_name, flat_bin_name, marker_is_current,
    package_bin_links, ps1_shim_text, replace_char, shim_target_ok, LINK_PROTOCOL_VERSION,
};
use orix::cache::{
    disk_cache_paths, disk_entry_expired, escape_cache_name, metadata_root, registry_namespace, PackumentCache,
    PACKUMENT_CACHE_TTL_MS,
};
use orix::client::{decode_failure, response_verdict, RegistryError, ResponseVerdict};
use orix::importplan::{after_link_failure, import_plan, LinkFailure};
use orix::link::{resolves_to_drive_root_only, LayoutReport};
use orix::manifest::BinField;
use orix::name::PackageName;
use orix::package::PackageId;
use orix::registry::{Directories, Dist, PackageMetadata, Packument};
use orix::store::{content_hash_for_entry, is_orphaned, referenced_content_hashes, unreferenced_packages, IntegrityMeta};
use orix::strmap::StrMap;
use orix::version::Version;
use sha2::Digest;

fn id(name: &str, version: &str) -> PackageId {
    PackageId::new(PackageName::new(name.to_string()), Version::parse(version).expect("version"))
}

fn make_packument(name: &str) -> Packument {
    let mut versions = StrMap::new();
    versions.insert(
        "1.0.0".to_string(),
        PackageMetadata {
            name: name.to_string(),
            version: "1.0.0".to_string(),
            dependencies: StrMap::new(),
            dev_dependencies: StrMap::new(),
            optional_dependencies: StrMap::new(),
            peer_dependencies: StrMap::new(),
            peer_dependencies_meta: StrMap::new(),
            engines: None,
            os: Vec::new(),
            cpu: Vec::new(),
            dist: Some(Dist {
                tarball: format!("https://registry.npmjs.org/{}/-/{}-1.0.0.tgz", name, name),
                integrity: Some(format!("sha512-{}", name)),
                shasum: None,
            }),
            optional: false,
            deprecated: None,
            bin: StrMap::new(),
            directories: Directories::default(),
            has_shrinkwrap: false,
            has_install_script: false,
            bundle_dependencies: Vec::new(),
            scripts: StrMap::new(),
            homepage: None,
            description: None,
            license: None,
            keywords: Vec::new(),
        },
    );
    let mut dist_tags = StrMap::new();
    dist_tags.insert("latest".to_string(), "1.0.0".to_string());
    Packument { name: name.to_string(), versions, dist_tags }
}

#[test]
fn file_name_takes_the_last_normal_component() {
    assert_eq!(file_name("@antfu/eslint-config").as_deref(), Some("eslint-config"));
    assert_eq!(file_name("./x/.").as_deref(), Some("x"));
    assert_eq!(file_name("tool").as_deref(), Some("tool"));
    assert_eq!(file_name("a/.."), None);
    assert_eq!(file_name("/"), None);
    assert_eq!(file_name(""), None);
}

#[test]
fn scoped_bin_names_are_flattened() {
    assert_eq!(flat_bin_name("@antfu/eslint-config"), "eslint-config");
    assert_eq!(flat_bin_name("rollup"), "rollup");
    assert_eq!(flat_bin_name(".."), "..");
}

#[test]
fn package_bin_links_name_the_shorthand_after_the_package() {
    let links = package_bin_links("@antfu/eslint-config", &BinField::Shorthand("./bin/index.mjs".to_string()));
    assert_eq!(links.len(), 1);
    assert_eq!(links[0].name, "@antfu/eslint-config");
    assert_eq!(links[0].flat_name, "eslint-config");
    assert_eq!(links[0].path, "./bin/index.mjs");
    assert!(package_bin_links("", &BinField::Shorthand("./bin/index.mjs".to_string())).is_empty());
}

#[test]
fn package_bin_links_skip_entries_without_a_name_or_path() {
    let mut m = StrMap::new();
    m.insert("rollup".to_string(), "./bin/index.mjs".to_string());
    m.insert("broken".to_string(), String::new());
    m.insert(String::new(), "./bin/x.js".to_string());
    let links = package_bin_links("rollup", &BinField::Commands(m));
    assert_eq!(links.len(), 1);
    assert_eq!(links[0].name, "rollup");
    assert_eq!(links[0].path, "./bin/index.mjs");
}

#[test]
fn direct_package_bin_names_follow_the_bin_field() {
    let mut m = StrMap::new();
    m.insert("tool-b".to_string(), "./b.js".to_string());
    m.insert("tool-a".to_string(), "./a.js".to_string());
    assert_eq!(direct_package_bin_names(&Some("pkg".to_string()), &BinField::Commands(m)), vec!["tool-a", "tool-b"]);
    assert_eq!(direct_package_bin_names(&Some("pkg".to_string()), &BinField::Shorthand("./cli.js".to_string())), vec!["pkg"]);
    assert!(direct_package_bin_names(&None, &BinField::Shorthand("./cli.js".to_string())).is_empty());
    assert!(direct_package_bin_names(&Some("pkg".to_string()), &BinField::Empty).is_empty());
}

#[test]
fn expected_bin_shims_depend_on_the_platform() {
    assert_eq!(
        expected_bin_shims("node_modules/.bin", "@antfu/eslint-config", true),
        vec!["node_modules/.bin/eslint-config.cmd", "node_modules/.bin/eslint-config.ps1"]
    );
    assert_eq!(expected_bin_shims("node_modules/.bin", "rollup", false), vec!["node_modules/.bin/rollup"]);
}

#[test]
fn shims_into_the_virtual_store_must_reach_a_package() {
    assert!(!shim_target_ok("/p/store/.orix/rollup@4.0.0/bin/rollup", "/p/store/.orix"));
    assert!(shim_target_ok("/p/node_modules/.orix/rollup@4.0.0/node_modules/rollup/bin/x", "/p/node_modules/.orix"));
    assert!(shim_target_ok("/usr/bin/node", "/p/node_modules/.orix"));
}

#[test]
fn layout_marker_must_match_hash_and_protocol() {
    assert_eq!(LINK_PROTOCOL_VERSION, 2);
    assert!(marker_is_current("same-graph", 2, "same-graph"));
    assert!(!marker_is_current("same-graph", 1, "same-graph"));
    assert!(!marker_is_current("other", 2, "same-graph"));
}

#[test]
fn windows_shims_run_the_binary_with_node() {
    let target = "C:/proj/node_modules/.orix/rollup@4.0.0/node_modules/rollup/bin/index.mjs";
    let cmd = cmd_shim_text(target);
    assert!(cmd.starts_with("@ECHO off\r\n"));
    assert!(cmd.contains("basedir=%~dp0"));
    assert!(cmd.contains("SET \"_prog=node\"\r\n"));
    assert!(cmd.ends_with("\"%_prog%\" \"C:\\proj\\node_modules\\.orix\\rollup@4.0.0\\node_modules\\rollup\\bin\\index.mjs\" %*\r\n"));
    let ps1 = ps1_shim_text("C:\\proj\\bin\\index.mjs");
    assert!(ps1.contains("& $exe 'C:/proj/bin/index.mjs' @args\n"));
    assert!(ps1.contains("& node 'C:/proj/bin/index.mjs' @args\n"));
    assert_eq!(replace_char("a/b/c", '/', '\\'), "a\\b\\c");
}

#[test]
fn import_plan_makes_directories_first_and_package_json_last() {
    let files: Vec<(String, String)> = vec![
        ("package.json".to_string(), "h1".to_string()),
        ("lib/a/b.js".to_string(), "h2".to_string()),
        ("lib/c.js".to_string(), "h3".to_string()),
        ("index.js".to_string(), "h4".to_string()),
        ("lib/a/d.js".to_string(), "h5".to_string()),
    ];
    let plan = import_plan(&files);
    assert_eq!(plan.dirs, vec![vec!["lib".to_string()], vec!["lib".to_string(), "a".to_string()]]);
    assert_eq!(plan.files, vec!["lib/a/b.js", "lib/c.js", "index.js", "lib/a/d.js"]);
    assert!(plan.package_json);
    let plan = import_plan(&vec![("index.js".to_string(), "h".to_string())]);
    assert!(plan.dirs.is_empty());
    assert!(!plan.package_json);
}

#[test]
fn failed_hard_links_fall_back_to_copies() {
    let step = after_link_failure(LinkFailure::CrossesDevices);
    assert!(step.copy && step.copy_from_now_on);
    let step = after_link_failure(LinkFailure::PermissionDenied);
    assert!(step.copy && !step.copy_from_now_on);
    let step = after_link_failure(LinkFailure::NotFound);
    assert!(step.copy && !step.copy_from_now_on);
    let step = after_link_failure(LinkFailure::Other);
    assert!(!step.copy && !step.copy_from_now_on);
}

#[test]
fn layout_report_words_each_problem() {
    let mut report = LayoutReport::default();
    assert!(report.is_ok());
    report.record_missing_root("/p/node_modules");
    report.record_missing_direct("/p/node_modules/react");
    report.record_missing_shim("rollup", "/p/node_modules/.bin/rollup");
    report.record_link("/l", "D:", true, false);
    report.record_link("/m", "/gone", false, false);
    report.record_link("/n", "/here", false, true);
    assert_eq!(
        report.broken,
        vec![
            "missing /p/node_modules",
            "missing direct dependency /p/node_modules/react",
            "missing bin shim for rollup: /p/node_modules/.bin/rollup",
            "unsafe directory link /l -> D: (bare drive root)",
            "broken symlink /m -> /gone",
        ]
    );
    assert!(!report.is_ok());
    assert!(report.warnings.is_empty());
}

#[test]
fn drive_roots_are_unsafe_link_targets() {
    assert!(resolves_to_drive_root_only("D:", &None, false));
    assert!(resolves_to_drive_root_only("D:\\", &None, false));
    assert!(resolves_to_drive_root_only("/x", &Some("/".to_string()), true));
    assert!(resolves_to_drive_root_only("/x", &Some("/x/file".to_string()), false));
    assert!(!resolves_to_drive_root_only("/x", &Some("/x".to_string()), true));
    assert!(!resolves_to_drive_root_only("/x", &None, false));
}

#[test]
fn response_status_decides_what_happens_next() {
    assert_eq!(response_verdict(304), ResponseVerdict::NotModified);
    assert_eq!(response_verdict(404), ResponseVerdict::NotFound);
    assert_eq!(response_verdict(500), ResponseVerdict::Failed(500));
    assert_eq!(response_verdict(301), ResponseVerdict::Failed(301));
    assert_eq!(response_verdict(199), ResponseVerdict::Failed(199));
    assert_eq!(response_verdict(200), ResponseVerdict::Parse);
    assert_eq!(response_verdict(299), ResponseVerdict::Parse);
}

#[test]
fn undecodable_packuments_are_reported_with_their_context() {
    match decode_failure("https://r/x", "expected value", &None, b"<html>") {
        RegistryError::Other(m) => assert_eq!(
            m,
            "failed to decode packument JSON from https://r/x: expected value; content-type: <unknown>; body prefix: <html>"
        ),
        other => panic!("unexpected {:?}", other),
    }
    match decode_failure("u", "e", &Some("text/html".to_string()), b"a\nb") {
        RegistryError::Other(m) => assert_eq!(m, "failed to decode packument JSON from u: e; content-type: text/html; body prefix: a\\nb"),
        other => panic!("unexpected {:?}", other),
    }
}

#[test]
fn prune_removes_packages_no_reference_shares_a_key_with() {
    let all = vec![id("a", "1.0.0"), id("b", "2.0.0"), id("a", "2.0.0")];
    let referenced = vec![id("a", "1.0.0")];
    let gone = unreferenced_packages(&all, &referenced);
    let keys: Vec<String> = gone.iter().map(|p| p.key()).collect();
    assert_eq!(keys, vec!["b@2.0.0", "a@2.0.0"]);
    assert!(unreferenced_packages(&all, &all).is_empty());
}

#[test]
fn orphaned_content_files_are_those_no_record_names() {
    let meta = IntegrityMeta {
        name: "a".to_string(),
        version: "1.0.0".to_string(),
        integrity: String::new(),
        files: vec![("index.js".to_string(), "sha256:abcdef".to_string()), ("b.js".to_string(), "123456".to_string())],
        depnodes: Vec::new(),
    };
    let kept = referenced_content_hashes(&vec![meta]);
    assert_eq!(kept.len(), 2);
    assert_eq!(content_hash_for_entry("ab/cdef").as_deref(), Some("abcdef"));
    assert_eq!(content_hash_for_entry("abcdef"), None);
    assert_eq!(content_hash_for_entry("a/b/c"), None);
    assert!(!is_orphaned("ab/cdef", &kept));
    assert!(!is_orphaned("12/3456", &kept));
    assert!(is_orphaned("ff/0000", &kept));
    assert!(!is_orphaned("stray", &kept));
}

#[test]
fn cache_stores_and_retrieves_packument() {
    let mut cache = PackumentCache::new();
    cache.insert("test-pkg".to_string(), make_packument("test-pkg"), 0, PACKUMENT_CACHE_TTL_MS);
    let cached = cache.get("test-pkg", 1);
    assert!(cached.is_some());
    assert_eq!(cached.map(|p| p.name.as_str()), Some("test-pkg"));
    assert!(cache.get("test-pkg", PACKUMENT_CACHE_TTL_MS).is_none());
}

#[test]
fn cache_returns_none_for_missing_entry() {
    let mut cache = PackumentCache::new();
    assert!(cache.get("nonexistent", 0).is_none());
}

#[test]
fn cache_evict_expired_removes_timed_out_entries() {
    let mut cache = PackumentCache::new();
    cache.insert("keep-pkg".to_string(), make_packument("keep"), 0, PACKUMENT_CACHE_TTL_MS);
    cache.insert("remove-pkg".to_string(), make_packument("remove"), 0, PACKUMENT_CACHE_TTL_MS);
    cache.evict_expired(1);
    assert!(cache.get("keep-pkg", 1).is_some());
    assert!(cache.get("remove-pkg", 1).is_some());
    cache.clear();
    assert!(cache.get("keep-pkg", 1).is_none());
}

#[test]
fn cache_drops_entries_once_they_expire() {
    let mut cache = PackumentCache::new();
    cache.insert("keep-pkg".to_string(), make_packument("keep"), 0, PACKUMENT_CACHE_TTL_MS);
    cache.insert("remove-pkg".to_string(), make_packument("remove"), 0, 10);
    cache.evict_expired(10);
    assert_eq!(cache.len(), 1);
    assert!(cache.peek("keep-pkg", 10).is_some());
    assert!(cache.get("keep-pkg", PACKUMENT_CACHE_TTL_MS).is_none());
    assert!(cache.is_empty());
    cache.insert("a".to_string(), make_packument("a"), 0, 5);
    cache.evict_if_expired("a", 4);
    assert_eq!(cache.len(), 1);
}

#[test]
fn cache_clear_removes_all_entries() {
    let mut cache = PackumentCache::new();
    cache.insert("pkg-a".to_string(), make_packument("a"), 0, PACKUMENT_CACHE_TTL_MS);
    cache.insert("pkg-b".to_string(), make_packument("b"), 0, PACKUMENT_CACHE_TTL_MS);
    cache.clear();
    assert!(cache.get("pkg-a", 0).is_none());
    assert!(cache.get("pkg-b", 0).is_none());
}

#[test]
fn cache_remove_deletes_specific_entry() {
    let mut cache = PackumentCache::new();
    cache.insert("keep-pkg".to_string(), make_packument("keep"), 0, PACKUMENT_CACHE_TTL_MS);
    cache.insert("remove-pkg".to_string(), make_packument("remove"), 0, PACKUMENT_CACHE_TTL_MS);
    cache.remove("remove-pkg");
    assert!(cache.get("keep-pkg", 0).is_some());
    assert!(cache.get("remove-pkg", 0).is_none());
}

#[test]
fn disk_entries_go_stale_after_an_hour() {
    assert!(!disk_entry_expired(1000, 1000, 0));
    assert!(!disk_entry_expired(1000, 4600, 0));
    assert!(disk_entry_expired(1000, 4600, 1));
    assert!(disk_entry_expired(1000, 4601, 0));
    assert!(disk_entry_expired(1000, 999, 999_999_999));
}

#[test]
fn disk_cache_files_are_named_by_registry_and_escaped_name() {
    assert_eq!(escape_cache_name("@scope/pkg"), "%40scope~2fpkg");
    assert_eq!(escape_cache_name("left-pad"), "left-pad");
    assert_eq!(registry_namespace(&None), "default");
    let url = "https://registry.npmjs.org/";
    let full = hex::encode(sha2::Sha256::digest(url.as_bytes()));
    assert_eq!(registry_namespace(&Some(url.to_string())), full[..16].to_string());
    let (data, meta) = disk_cache_paths("/c/metadata", &None, "@s/p");
    assert_eq!(data, "/c/metadata/default/%40s~2fp.json");
    assert_eq!(meta, "/c/metadata/default/%40s~2fp.meta.json");
    assert_eq!(metadata_root("/c"), "/c/metadata");
}

#[test]
fn content_files_are_read_back_as_their_hash() {
    let layout = orix::store::StoreLayout::new("/s");
    let hash = "abcdef0123";
    let path = layout.file_path(hash);
    assert_eq!(path, "/s/v1/files/sha256/ab/cdef0123");
    let rel = path.strip_prefix(&format!("{}/", layout.files_root)).expect("below the files root");
    assert_eq!(content_hash_for_entry(rel).as_deref(), Some(hash));
}

#[test]
fn modes_keep_permission_bits_and_open_binaries() {
    assert_eq!(orix::store::permission_bits(0o100755), 0o755);
    assert_eq!(orix::binplan::executable_mode(0o100644), Some(0o755));
    assert_eq!(orix::binplan::executable_mode(0o100744), None);
}
