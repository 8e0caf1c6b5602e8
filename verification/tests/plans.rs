use orix::fetch::FetchReport;
use orix::fetchplan::{
    bypass_cache, download_step, extract_attempts, fetch_decision, record_fetch_outcome, retry_after_extract_failure,
    tarball_source, CachedTarball, DownloadOutcome, DownloadStep, FetchSkip, TarballSource,
};
use orix::store::{integrity_record, store_link_fallback};
use orix::importplan::LinkFailure;
use orix::graph::{DependencyGraph, ResolvedPackage};
use orix::linkplan::{
    dependency_link_key, dependency_links, direct_name_to_key, expected_keys, links_global_bins, name_to_key, prune_scoped_entry,
    prune_virtual_entry, prune_virtual_scoped_entry, top_level_entry, TopLevelEntry,
};
use orix::manifest::{Engines, Manifest};
use orix::name::PackageName;
use orix::package::PackageId;
use orix::resolve::{workspace_package, ResolverState};
use orix::patch::{
    apply_hunks, file_patch_paths, hunks_applicable, parse_patches, patched_file_text, text_lines, Hunk, HunkLine, PatchError,
};
use orix::store::{expected_hash, VerifyReport};
use orix::version::Version;

fn package(name: &str, version: &str) -> ResolvedPackage {
    ResolvedPackage {
        id: PackageId::new(PackageName::new(name.to_string()), Version::parse(version).expect("version")),
        integrity: format!("sha512-{}", version),
        tarball: format!("https://registry.npmjs.org/{}/-/{}-{}.tgz", name, name, version),
        dependencies: Vec::new(),
        dev_dependencies: Vec::new(),
        optional_dependencies: Vec::new(),
        peer_dependencies: Vec::new(),
        engines: None,
        os: Vec::new(),
        cpu: Vec::new(),
        depnodes: Vec::new(),
        patch: None,
    }
}

#[test]
fn fetch_decision_skips_workspace_platform_and_store_hits() {
    let mut ws = package("local", "1.0.0");
    ws.tarball = String::new();
    assert!(matches!(fetch_decision(&ws, "linux", "x64", false, false), Some(FetchSkip::Workspace)));

    let mut mac_only = package("fsevents", "2.3.3");
    mac_only.os = vec!["darwin".to_string()];
    assert!(matches!(fetch_decision(&mac_only, "linux", "x64", false, false), Some(FetchSkip::Platform(_))));

    let plain = package("react", "18.2.0");
    assert!(matches!(fetch_decision(&plain, "linux", "x64", false, true), Some(FetchSkip::StoreHit)));
    assert!(fetch_decision(&plain, "linux", "x64", true, true).is_none());
    assert!(fetch_decision(&plain, "linux", "x64", false, false).is_none());
}

#[test]
fn extraction_retries_only_online() {
    assert_eq!(extract_attempts(true), 1);
    assert_eq!(extract_attempts(false), 2);
    assert!(retry_after_extract_failure(false, 0));
    assert!(!retry_after_extract_failure(false, 1));
    assert!(!retry_after_extract_failure(true, 0));
    assert!(bypass_cache(false, 1));
    assert!(!bypass_cache(false, 0));
    assert!(bypass_cache(true, 0));
}

#[test]
fn fetch_outcomes_add_up_to_a_report() {
    let mut report = FetchReport::default();
    record_fetch_outcome(&mut report, Ok(()));
    record_fetch_outcome(&mut report, Err("boom".to_string()));
    record_fetch_outcome(&mut report, Ok(()));
    assert_eq!(report.success, 2);
    assert_eq!(report.failures, vec!["boom".to_string()]);
}

#[test]
fn link_keys_follow_graph_order_and_direct_dependencies() {
    let mut graph = DependencyGraph::new();
    graph.insert(package("react", "17.0.2"));
    graph.insert(package("react", "18.2.0"));
    graph.insert(package("lodash", "4.17.21"));

    let names = name_to_key(&graph);
    assert_eq!(names.get("react").map(|s| s.as_str()), Some("react@18.2.0"));
    assert_eq!(names.get("lodash").map(|s| s.as_str()), Some("lodash@4.17.21"));

    let direct = direct_name_to_key(&graph, &vec!["react".to_string()]);
    assert!(direct.get("lodash").is_none());
    let react18 = package("react", "18.2.0");
    let react17 = package("react", "17.0.2");
    assert!(links_global_bins(&direct, &react18));
    assert!(!links_global_bins(&direct, &react17));

    let react = PackageName::new("react".to_string());
    assert_eq!(dependency_link_key(&graph, &names, &react, "^17.0.0").as_deref(), Some("react@17.0.2"));
    assert_eq!(dependency_link_key(&graph, &names, &react, "^19.0.0").as_deref(), Some("react@18.2.0"));
    let missing = PackageName::new("vue".to_string());
    assert!(dependency_link_key(&graph, &names, &missing, "^3").is_none());
}

#[test]
fn dependency_links_follow_request_order() {
    let mut app = package("app", "1.0.0");
    app.dependencies.push((PackageName::new("react".to_string()), "^17.0.0".to_string()));
    app.optional_dependencies.push((PackageName::new("vue".to_string()), "^3".to_string()));
    app.peer_dependencies.push((PackageName::new("lodash".to_string()), "^4".to_string()));
    let mut graph = DependencyGraph::new();
    graph.insert(app);
    graph.insert(package("react", "17.0.2"));
    graph.insert(package("lodash", "4.17.21"));
    let names = name_to_key(&graph);
    let plan = dependency_links(&graph, &names);
    assert_eq!(plan.len(), 3);
    assert_eq!(plan[0], vec![Some("react@17.0.2".to_string()), None, Some("lodash@4.17.21".to_string())]);
    assert!(plan[1].is_empty());
}

#[test]
fn stale_layout_entries_are_recognized() {
    let mut graph = DependencyGraph::new();
    graph.insert(package("react", "18.2.0"));
    let expected = expected_keys(&graph);
    assert!(!prune_virtual_entry("react@18.2.0", true, &expected));
    assert!(prune_virtual_entry("react@17.0.2", true, &expected));
    assert!(!prune_virtual_entry("react@17.0.2", false, &expected));
    assert!(!prune_virtual_entry("metadata.json", true, &expected));

    let direct = vec!["react".to_string(), "@scope/pkg".to_string()];
    assert_eq!(top_level_entry(".bin", true, &direct), TopLevelEntry::Keep);
    assert_eq!(top_level_entry(".orix", true, &direct), TopLevelEntry::Keep);
    assert_eq!(top_level_entry("@scope", true, &direct), TopLevelEntry::Scope);
    assert_eq!(top_level_entry("@scope", false, &direct), TopLevelEntry::Keep);
    assert_eq!(top_level_entry("react", true, &direct), TopLevelEntry::Keep);
    assert_eq!(top_level_entry("left-pad", true, &direct), TopLevelEntry::Remove);
    assert!(!prune_scoped_entry("@scope", "pkg", &direct));
    assert!(prune_scoped_entry("@scope", "old", &direct));
}

#[test]
fn manifest_requests_skip_answered_ones() {
    let mut manifest = Manifest::default();
    manifest.dependencies.insert("react".to_string(), "^18".to_string());
    manifest.dev_dependencies.insert("vite".to_string(), "^5".to_string());
    manifest.optional_dependencies.insert("fsevents".to_string(), "^2".to_string());
    let mut state = ResolverState::new();
    state.record_resolved_package(
        PackageName::new("React".to_string()),
        "^18".to_string(),
        PackageId::new(PackageName::new("react".to_string()), Version::parse("18.2.0").expect("v")),
    );
    let requests: Vec<(String, String)> = state
        .manifest_requests(&manifest)
        .iter()
        .map(|(n, r)| (n.as_str().to_string(), r.clone()))
        .collect();
    assert_eq!(
        requests,
        vec![("vite".to_string(), "^5".to_string()), ("fsevents".to_string(), "^2".to_string())]
    );
}

#[test]
fn workspace_package_has_no_tarball_and_defaults_version() {
    let mut manifest = Manifest::default();
    manifest.dependencies.insert("react".to_string(), "^18".to_string());
    manifest.engines = Some(Engines { node: Some(">=18".to_string()) });
    let name = PackageName::new("app".to_string());
    let p = workspace_package(&name, &manifest);
    assert_eq!(p.id.key(), "app@0.0.0");
    assert!(p.tarball.is_empty());
    assert_eq!(p.engines.as_deref(), Some(">=18"));
    assert_eq!(p.dependencies.len(), 1);
    manifest.version = Some("v1.2.3".to_string());
    assert_eq!(workspace_package(&name, &manifest).id.key(), "app@1.2.3");
}

#[test]
fn store_verification_reports_missing_and_corrupted_files() {
    assert_eq!(expected_hash("sha256:abcd"), "abcd");
    assert_eq!(expected_hash("sha256:sha256:ab"), "ab");
    assert_eq!(expected_hash("abcd"), "abcd");

    let mut report = VerifyReport::default();
    report.record_package();
    report.record_file_check("a@1.0.0", "index.js", "aa", Some("aa"), Some("aa"));
    assert!(report.is_ok());
    report.record_file_check("a@1.0.0", "gone.js", "bb", None, Some("bb"));
    report.record_file_check("a@1.0.0", "bad.js", "cc", Some("xx"), None);
    report.record_unreadable("b@2.0.0", "bad json");
    assert_eq!(report.packages_checked, 2);
    assert_eq!(report.files_checked, 3);
    assert_eq!(
        report.missing,
        vec!["a@1.0.0: missing package file gone.js".to_string(), "a@1.0.0: missing content file sha256:cc".to_string()]
    );
    assert_eq!(
        report.corrupted,
        vec!["a@1.0.0: package file bad.js hash mismatch".to_string(), "b@2.0.0: bad json".to_string()]
    );
    assert!(!report.is_ok());
}

fn lines(v: &[&str]) -> Vec<String> {
    v.iter().map(|s| s.to_string()).collect()
}

#[test]
fn text_lines_split_like_str_lines() {
    assert_eq!(text_lines("a\nb\r\nc"), lines(&["a", "b", "c"]));
    assert_eq!(text_lines("a\n"), lines(&["a"]));
    assert_eq!(text_lines(""), Vec::<String>::new());
    assert_eq!(text_lines("\n"), lines(&[""]));
    assert_eq!(text_lines("a\r"), lines(&["a\r"]));
}

#[test]
fn apply_hunks_replaces_lines_and_keeps_the_rest() {
    let old = lines(&["one", "two", "three", "four"]);
    let hunks = vec![Hunk {
        old_start: 2,
        lines: vec![
            HunkLine::Context("two".to_string()),
            HunkLine::Remove("three".to_string()),
            HunkLine::Add("THREE".to_string()),
        ],
    }];
    assert!(hunks_applicable(&old, &hunks));
    assert_eq!(apply_hunks(&old, &hunks), "one\ntwo\nTHREE\nfour\n");

    let new_file = vec![Hunk { old_start: 0, lines: vec![HunkLine::Add("fresh".to_string())] }];
    assert_eq!(apply_hunks(&Vec::new(), &new_file), "fresh\n");
}

#[test]
fn hunks_past_an_overrun_end_are_not_applicable() {
    let old = lines(&["a"]);
    let hunks = vec![
        Hunk { old_start: 1, lines: vec![HunkLine::Remove("a".to_string()), HunkLine::Remove("b".to_string())] },
        Hunk { old_start: 5, lines: vec![HunkLine::Add("c".to_string())] },
    ];
    assert!(!hunks_applicable(&old, &hunks));
    let huge = vec![Hunk { old_start: u64::MAX, lines: vec![HunkLine::Add("x".to_string())] }];
    assert!(!hunks_applicable(&old, &huge));
}

#[test]
fn tarball_source_prefers_verified_then_intact_copies() {
    assert_eq!(tarball_source(false, false, true, CachedTarball::Missing), TarballSource::Verified);
    assert_eq!(tarball_source(true, false, true, CachedTarball::Missing), TarballSource::Download { discard: false });
    assert_eq!(tarball_source(false, false, false, CachedTarball::Intact), TarballSource::Disk);
    assert_eq!(tarball_source(false, false, false, CachedTarball::Corrupt), TarballSource::Download { discard: true });
    assert_eq!(tarball_source(true, false, false, CachedTarball::Corrupt), TarballSource::Download { discard: false });
    assert_eq!(tarball_source(false, true, false, CachedTarball::Intact), TarballSource::Disk);
    assert_eq!(tarball_source(true, true, true, CachedTarball::Intact), TarballSource::Disk);
    assert_eq!(tarball_source(false, true, false, CachedTarball::Corrupt), TarballSource::OfflineCorrupt);
    assert_eq!(tarball_source(false, true, false, CachedTarball::Missing), TarballSource::OfflineMissing);
}

#[test]
fn tarball_downloads_are_retried_three_times() {
    assert_eq!(download_step(0, DownloadOutcome::Verified), DownloadStep::Done);
    assert_eq!(download_step(0, DownloadOutcome::Failed), DownloadStep::RetryAfter(500));
    assert_eq!(download_step(1, DownloadOutcome::Failed), DownloadStep::RetryAfter(1000));
    assert_eq!(download_step(2, DownloadOutcome::Failed), DownloadStep::GiveUp);
    assert_eq!(download_step(1, DownloadOutcome::IntegrityMismatch), DownloadStep::RetryNow);
    assert_eq!(download_step(2, DownloadOutcome::IntegrityMismatch), DownloadStep::GiveUp);
}

#[test]
fn integrity_records_prefix_hashes_and_normalize_separators() {
    let pkg = PackageId::new(PackageName::new("left-pad".to_string()), Version::parse("1.3.0").expect("version"));
    let files = vec![("lib\\index.js".to_string(), "abc".to_string()), ("package.json".to_string(), "def".to_string())];
    let meta = integrity_record(&pkg, &files, vec!["dep@1.0.0".to_string()], &Some("sha512-x".to_string()));
    assert_eq!(meta.name, "left-pad");
    assert_eq!(meta.version, "1.3.0");
    assert_eq!(meta.integrity, "sha512-x");
    assert_eq!(meta.files, vec![("lib/index.js".to_string(), "sha256:abc".to_string()), ("package.json".to_string(), "sha256:def".to_string())]);
    assert_eq!(meta.depnodes, vec!["dep@1.0.0"]);
    assert_eq!(integrity_record(&pkg, &Vec::new(), Vec::new(), &None).integrity, "");
    assert!(store_link_fallback(LinkFailure::CrossesDevices));
    assert!(store_link_fallback(LinkFailure::NotFound));
    assert!(!store_link_fallback(LinkFailure::Other));
}

#[test]
fn merged_graphs_hold_both_sides() {
    let mut a = DependencyGraph::new();
    a.insert(package("react", "18.2.0"));
    let mut b = DependencyGraph::new();
    b.insert(package("scheduler", "0.23.0"));
    b.insert(package("react", "18.2.0"));
    a.merge(b);
    assert_eq!(a.len(), 2);
    let keys: Vec<String> = a.packages().iter().map(|p| p.id.key()).collect();
    assert!(keys.contains(&"react@18.2.0".to_string()));
    assert!(keys.contains(&"scheduler@0.23.0".to_string()));
}

#[test]
fn store_layout_places_integrity_records_beside_package_files() {
    let layout = orix::store::StoreLayout::new("/s");
    let pkg = PackageId::new(PackageName::new("left-pad".to_string()), Version::parse("1.3.0").expect("version"));
    assert_eq!(layout.package_path(&pkg), "/s/v1/packages/left-pad@1.3.0");
    assert_eq!(layout.integrity_path(&pkg), "/s/v1/packages/left-pad@1.3.0/integrity.json");
}

#[test]
fn open_does_not_append_store_version_twice() {
    let versioned_root = "/tmp/orix-test/store/v1";
    let layout = orix::store::StoreLayout::new(versioned_root);
    assert_eq!(layout.root, versioned_root);
    assert_eq!(layout.packages_root, "/tmp/orix-test/store/v1/packages");
    let unversioned = orix::store::StoreLayout::new("/tmp/orix-test/store");
    assert_eq!(unversioned.root, "/tmp/orix-test/store/v1");
}

#[test]
fn scoped_packages_of_the_graph_stay_in_the_virtual_store() {
    let mut graph = DependencyGraph::new();
    graph.insert(package("@scope/pkg", "1.0.0"));
    let expected = expected_keys(&graph);
    assert!(!prune_virtual_entry("@scope", true, &expected));
    assert!(!prune_virtual_scoped_entry("@scope", "pkg@1.0.0", true, &expected));
    assert!(prune_virtual_scoped_entry("@scope", "pkg@0.9.0", true, &expected));
    assert!(prune_virtual_scoped_entry("@other", "pkg@1.0.0", true, &expected));
    assert!(!prune_virtual_scoped_entry("@scope", "pkg@0.9.0", false, &expected));
}

#[test]
fn patch_files_are_parsed_and_applied() {
    let text = "--- a/index.js\n+++ b/index.js\n@@ -1,2 +1,2 @@\n keep\n-old\n+new\n";
    let patches = parse_patches(text).expect("patch parses");
    assert_eq!(patches.len(), 1);
    let p = &patches[0];
    assert_eq!(p.old_path, "a/index.js");
    assert_eq!(p.new_path, "b/index.js");
    assert_eq!(p.hunks.len(), 1);
    assert_eq!(p.hunks[0].old_start, 1);
    assert!(matches!(&p.hunks[0].lines[0], HunkLine::Context(s) if s == "keep"));
    assert!(matches!(&p.hunks[0].lines[1], HunkLine::Remove(s) if s == "old"));
    assert!(matches!(&p.hunks[0].lines[2], HunkLine::Add(s) if s == "new"));
    assert_eq!(patched_file_text("keep\nold\ntail\n", p).as_deref(), Some("keep\nnew\ntail\n"));
    assert_eq!(file_patch_paths("/tmp/pkg", p), ("/tmp/pkg/a/index.js".to_string(), "/tmp/pkg/b/index.js".to_string()));
    assert_eq!(parse_patches("no diff here").err(), Some(PatchError::Invalid));
}

#[test]
fn patch_texts_the_parser_cannot_finish_are_invalid() {
    let tail = "--- a/x\n+++ b/x\n@@ -1 +1 @@\n-a\n+b\ntrailing words\n";
    assert_eq!(parse_patches(tail).err(), Some(PatchError::Invalid));
    let unterminated = "--- a/x\n+++ b/x\n@@ -1 +1 @@\n-a\n+b";
    assert_eq!(parse_patches(unterminated).err(), Some(PatchError::Invalid));
    let huge = "--- a/x\n+++ b/x\n@@ -99999999999999999999999 +1 @@\n-a\n+b\n";
    assert_eq!(parse_patches(huge).err(), Some(PatchError::Invalid));
    assert_eq!(parse_patches("").err(), Some(PatchError::Invalid));
}

#[test]
fn git_style_patch_files_with_several_files_parse() {
    let text = "diff --git a/x b/x\nindex 1..2 100644\n--- a/x\n+++ b/x\n@@ -1 +1 @@\n-a\n+b\n\\ No newline at end of file\ndiff --git a/y b/y\n--- a/y\n+++ b/y\n@@ -1,2 +1,2 @@\n k\r\n-c\r\n+d\r\n";
    let patches = parse_patches(text).expect("patch parses");
    assert_eq!(patches.len(), 2);
    assert_eq!(patches[0].new_path, "b/x");
    assert_eq!(patches[1].old_path, "a/y");
    assert_eq!(patches[1].hunks[0].lines.len(), 3);
    assert!(matches!(&patches[1].hunks[0].lines[2], HunkLine::Add(s) if s == "d"));
}

#[test]
fn store_and_cache_hits_are_counted() {
    let mut report = FetchReport::default();
    orix::fetchplan::record_store_hit(&mut report);
    orix::fetchplan::record_cache_hit(&mut report);
    orix::fetchplan::record_cache_hit(&mut report);
    assert_eq!(report.store_hits, 1);
    assert_eq!(report.cached, 2);
    assert_eq!(report.success, 0);
    assert!(report.failures.is_empty());
}
