use orix::constraint::{ConstraintKind, VersionConstraint};
use orix::name::PackageName;
use orix::package::PackageId;
use orix::registry::{select_version, Directories, Dist, PackageMetadata, Packument, PeerDepMeta};
use orix::resolve::{
    collect_required_peer_deps, fetch_name, parse_package_spec, task_result, ResolveTaskResult, ResolverState,
    TaskError,
};
use orix::strmap::StrMap;
use orix::version::Version;

fn metadata(name: &str, version: &str, integrity: &str) -> PackageMetadata {
    PackageMetadata {
        name: name.to_string(),
        version: version.to_string(),
        dependencies: StrMap::new(),
        dev_dependencies: StrMap::new(),
        optional_dependencies: StrMap::new(),
        peer_dependencies: StrMap::new(),
        peer_dependencies_meta: StrMap::new(),
        engines: None,
        os: Vec::new(),
        cpu: Vec::new(),
        dist: Some(Dist {
            tarball: format!("https://registry.npmjs.org/{}/-/{}-{}.tgz", name, name, version),
            integrity: Some(integrity.to_string()),
            shasum: None,
        }),
        optional: false,
        deprecated: None,
        bin: StrMap::new(),
        directories: Directories::default(),
        has_shrinkwrap: false,
        has_install_script: false,
        bundle_dependencies: Vec::new(),
        scripts: StrMap::new(),
        homepage: None,
        description: None,
        license: None,
        keywords: Vec::new(),
    }
}

fn packument() -> Packument {
    let mut versions = StrMap::new();
    for (version, integrity) in [
        ("1.0.0", "sha512-1.0.0"),
        ("1.2.0", "sha512-1.2.0"),
        ("1.3.0", "sha512-1.3.0"),
        ("2.0.0", "sha512-2.0.0"),
    ] {
        versions.insert(version.to_string(), metadata("demo", version, integrity));
    }
    let mut dist_tags = StrMap::new();
    dist_tags.insert("latest".to_string(), "2.0.0".to_string());
    dist_tags.insert("next".to_string(), "1.3.0".to_string());
    Packument { name: "demo".to_string(), versions, dist_tags }
}

fn select(raw: &str) -> String {
    let constraint = VersionConstraint::parse(raw).expect("constraint");
    select_version(&packument(), &constraint).expect("selected").to_text()
}

fn name(s: &str) -> PackageName {
    PackageName::new(s.to_string())
}

fn id(n: &str, v: &str) -> PackageId {
    PackageId::new(name(n), Version::parse(v).expect("version"))
}

#[test]
fn test_parse_package_spec() {
    let (n, constraint) = parse_package_spec("react@^18.2.0").expect("spec");
    assert_eq!(n.as_str(), "react");
    assert!(matches!(constraint.kind, ConstraintKind::Range(_)));

    let (n, constraint) = parse_package_spec("lodash").expect("spec");
    assert_eq!(n.as_str(), "lodash");
    assert!(matches!(constraint.kind, ConstraintKind::Range(_)));
}

#[test]
fn parse_package_spec_supports_scoped_packages() {
    let (n, constraint) = parse_package_spec("@scope/pkg").expect("spec");
    assert_eq!(n.as_str(), "@scope/pkg");
    assert!(matches!(constraint.kind, ConstraintKind::Range(_)));

    let (n, constraint) = parse_package_spec("@scope/pkg@1.2.3").expect("spec");
    assert_eq!(n.as_str(), "@scope/pkg");
    assert!(matches!(constraint.kind, ConstraintKind::Exact(_)));

    let (n, constraint) = parse_package_spec("@scope/pkg@next").expect("spec");
    assert_eq!(n.as_str(), "@scope/pkg");
    assert!(matches!(constraint.kind, ConstraintKind::Tag(tag) if tag == "next"));
}

#[test]
fn parse_package_spec_keeps_trailing_at_in_name() {
    let (n, constraint) = parse_package_spec("  react@  ").expect("spec");
    assert_eq!(n.as_str(), "react@");
    assert_eq!(constraint.raw, "*");
    let (n, _) = parse_package_spec("@scope").expect("spec");
    assert_eq!(n.as_str(), "@scope");
}

#[test]
fn resolver_select_version_returns_exact_version() {
    assert_eq!(select("1.2.0"), "1.2.0");
}

#[test]
fn resolver_select_version_returns_highest_matching_range() {
    assert_eq!(select("^1.0.0"), "1.3.0");
}

#[test]
fn resolver_select_version_returns_highest_matching_or_range() {
    assert_eq!(select("^1.0.0 || ^2.0.0"), "2.0.0");
}

#[test]
fn resolver_select_version_supports_npm_alias_constraint() {
    assert_eq!(select("npm:demo@^1.0.0"), "1.3.0");
}

#[test]
fn resolver_select_version_uses_latest_dist_tag() {
    assert_eq!(select("latest"), "2.0.0");
}

#[test]
fn resolver_select_version_uses_named_dist_tag() {
    assert_eq!(select("next"), "1.3.0");
}

#[test]
fn resolver_select_version_errors_when_range_has_no_match() {
    let constraint = VersionConstraint::parse("^3.0.0").expect("constraint");
    assert!(select_version(&packument(), &constraint).is_err());
}

#[test]
fn mod_select_version_returns_exact_version() {
    assert_eq!(select("1.2.0"), "1.2.0");
}

#[test]
fn mod_select_version_returns_highest_matching_range() {
    assert_eq!(select("^1.0.0"), "1.3.0");
}

#[test]
fn mod_select_version_returns_highest_matching_or_range() {
    assert_eq!(select("^1.0.0 || ^2.0.0"), "2.0.0");
}

#[test]
fn mod_select_version_supports_npm_alias_constraint() {
    assert_eq!(select("npm:demo@^1.0.0"), "1.3.0");
}

#[test]
fn mod_select_version_uses_latest_dist_tag() {
    assert_eq!(select("latest"), "2.0.0");
}

#[test]
fn mod_select_version_uses_named_dist_tag() {
    assert_eq!(select("next"), "1.3.0");
}

#[test]
fn mod_select_version_errors_when_range_has_no_match() {
    let constraint = VersionConstraint::parse("^3.0.0").expect("constraint");
    assert!(select_version(&packument(), &constraint).is_err());
}

fn vite_metadata() -> PackageMetadata {
    let mut md = metadata("vite", "8.0.13", "");
    md.dist = Some(Dist {
        tarball: "https://registry.npmjs.org/vite/-/vite-8.0.13.tgz".to_string(),
        integrity: None,
        shasum: None,
    });
    md.peer_dependencies.insert("esbuild".to_string(), "^0.28.0".to_string());
    md.peer_dependencies.insert("rollup".to_string(), "^4.0.0".to_string());
    md.peer_dependencies_meta.insert("esbuild".to_string(), PeerDepMeta { optional: true });
    md
}

fn pair_texts(v: &[(PackageName, String)]) -> Vec<(String, String)> {
    v.iter().map(|(n, r)| (n.as_str().to_string(), r.clone())).collect()
}

#[test]
fn resolver_collect_required_peer_deps_skips_optional_peer_meta() {
    let peers = collect_required_peer_deps(&vite_metadata());
    assert_eq!(pair_texts(&peers), vec![("rollup".to_string(), "^4.0.0".to_string())]);
}

#[test]
fn mod_collect_required_peer_deps_skips_optional_peer_meta() {
    let peers = collect_required_peer_deps(&vite_metadata());
    assert_eq!(pair_texts(&peers), vec![("rollup".to_string(), "^4.0.0".to_string())]);
}

#[test]
fn record_resolved_package_rejects_duplicate_package_id() {
    let pkg_id = id("postcss", "8.5.15");
    let mut state = ResolverState::new();
    assert!(state.schedule(&name("postcss"), &VersionConstraint::parse("^8.4.0").expect("range")));
    assert!(state.schedule(&name("postcss"), &VersionConstraint::parse("^8.5.0").expect("range")));
    state.discovered = 2;

    assert!(state.record_resolved_package(name("postcss"), "^8.4.0".to_string(), pkg_id.clone()));
    assert!(!state.record_resolved_package(name("postcss"), "^8.5.0".to_string(), pkg_id.clone()));

    let memo = state.memo_get(&name("postcss"), "^8.5.0").expect("memoized");
    assert_eq!(memo.key(), pkg_id.key());
    assert_eq!(state.in_flight_len(), 0);
}

#[test]
fn in_flight_len_counts_distinct_requests() {
    let mut state = ResolverState::new();
    assert_eq!(state.in_flight_len(), 0);
    assert!(state.schedule(&name("postcss"), &VersionConstraint::parse("^8.4.0").expect("range")));
    assert!(state.schedule(&name("postcss"), &VersionConstraint::parse("^8.5.0").expect("range")));
    assert!(!state.schedule(&name("postcss"), &VersionConstraint::parse("^8.4.0").expect("range")));
    assert_eq!(state.in_flight_len(), 2);
    assert!(state.record_resolved_package(name("postcss"), "^8.4.0".to_string(), id("postcss", "8.5.15")));
    assert_eq!(state.in_flight_len(), 1);
}

fn plugin_task() -> ResolveTaskResult {
    ResolveTaskResult {
        pkg_id: id("plugin", "1.0.0"),
        constraint: "1.0.0".to_string(),
        resolve_peer_dependencies: true,
        deps: vec![(name("regular"), "^1.0.0".to_string())],
        opt_deps: vec![(name("optional"), "^1.0.0".to_string())],
        peer_deps: vec![(name("peer"), "^1.0.0".to_string())],
        tarball: "https://registry.example/plugin.tgz".to_string(),
        integrity: String::new(),
        engines: None,
        os: Vec::new(),
        cpu: Vec::new(),
        patch: None,
    }
}

#[test]
fn resolved_package_does_not_link_peer_dependencies_as_children() {
    let resolved = plugin_task().into_resolved_package();
    assert_eq!(resolved.depnodes, vec!["regular", "optional"]);
    assert_eq!(resolved.peer_dependencies.len(), 1);
}

#[test]
fn find_resolved_matching_package_reuses_compatible_version() {
    let pkg_id = id("semver", "7.8.0");
    let mut state = ResolverState::new();
    state.record_resolved_package(name("semver"), "7.8.0".to_string(), pkg_id.clone());

    let found = state
        .find_resolved_matching_package(&name("semver"), &VersionConstraint::parse("^7.0.0").expect("range"))
        .expect("reused");
    assert_eq!(found.key(), pkg_id.key());
    assert!(state
        .find_resolved_matching_package(&name("semver"), &VersionConstraint::parse("^6.0.0").expect("range"))
        .is_none());
}

#[test]
fn schedule_skips_known_requests_and_reuses_resolved_packages() {
    let mut state = ResolverState::new();
    let range = VersionConstraint::parse("^7.0.0").expect("range");
    assert!(state.schedule(&name("semver"), &range));
    assert!(state.in_flight_contains(&name("semver"), "^7.0.0"));
    assert!(!state.schedule(&name("semver"), &range));
    state.record_resolved_package(name("semver"), "^7.0.0".to_string(), id("semver", "7.8.0"));
    assert!(!state.schedule(&name("SEMVER"), &range));

    let other = VersionConstraint::parse("^7.5.0").expect("range");
    assert!(!state.schedule(&name("semver"), &other));
    assert_eq!(state.memo_get(&name("semver"), "^7.5.0").expect("reused").key(), "semver@7.8.0");
    assert_eq!(state.in_flight_len(), 0);
}

#[test]
fn complete_queues_unseen_dependencies_and_reports_progress() {
    let mut state = ResolverState::new();
    let exact = VersionConstraint::parse("1.0.0").expect("exact");
    assert!(state.schedule(&name("plugin"), &exact));
    assert!(state.schedule(&name("regular"), &VersionConstraint::parse("^1.0.0").expect("range")));
    state.discovered = 2;

    let outcome = state.complete(plugin_task());
    assert!(outcome.new_package);
    assert_eq!(
        pair_texts(&outcome.queued),
        vec![("optional".to_string(), "^1.0.0".to_string()), ("peer".to_string(), "^1.0.0".to_string())]
    );
    assert_eq!(state.discovered, 4);
    assert_eq!(state.resolved, 1);
    let progress = outcome.progress.expect("progress");
    assert_eq!(progress.id.key(), "plugin@1.0.0");
    assert_eq!(progress.discovered, 4);
    assert_eq!(progress.resolved, 1);
    assert_eq!(state.graph.len(), 1);

    let again = state.complete(plugin_task());
    assert!(!again.new_package);
    assert!(again.queued.is_empty());
    assert!(again.progress.is_none());
    assert_eq!(state.resolved, 1);
}

#[test]
fn progress_events_count_up_with_distinct_packages() {
    let mut state = ResolverState::new();
    let mut second = plugin_task();
    second.pkg_id = id("regular", "1.2.0");
    second.constraint = "^1.0.0".to_string();
    second.deps = Vec::new();
    second.opt_deps = Vec::new();
    second.peer_deps = Vec::new();
    let first = state.complete(plugin_task()).progress.expect("first event");
    assert!(state.complete(plugin_task()).progress.is_none());
    let next = state.complete(second).progress.expect("second event");
    assert_eq!((first.resolved, next.resolved), (1, 2));
    assert_ne!(first.id.key(), next.id.key());
    assert_eq!(state.resolved, 2);
}

#[test]
fn task_result_reads_selected_version_metadata() {
    let mut p = packument();
    let mut md = metadata("demo", "1.3.0", "sha512-x");
    md.dependencies.insert("dep".to_string(), "^2".to_string());
    md.dist.as_mut().expect("dist").integrity = None;
    md.dist.as_mut().expect("dist").shasum = Some("abc".to_string());
    p.versions.insert("1.3.0".to_string(), md);

    let t = task_result(&name("demo"), &VersionConstraint::parse("^1").expect("range"), false, &p).expect("task");
    assert_eq!(t.pkg_id.key(), "demo@1.3.0");
    assert_eq!(t.integrity, "abc");
    assert_eq!(pair_texts(&t.deps), vec![("dep".to_string(), "^2".to_string())]);
    assert_eq!(t.tarball, "https://registry.npmjs.org/demo/-/demo-1.3.0.tgz");
    assert!(t.patch.is_none());

    p.versions.insert("1.3.0".to_string(), {
        let mut m = metadata("demo", "1.3.0", "x");
        m.dist = None;
        m
    });
    assert!(matches!(
        task_result(&name("demo"), &VersionConstraint::parse("^1").expect("range"), false, &p),
        Err(TaskError::NoDist { .. })
    ));
    assert!(matches!(
        task_result(&name("demo"), &VersionConstraint::parse("9.9.9").expect("exact"), false, &p),
        Err(TaskError::VersionNotInPackument(v)) if v == "9.9.9"
    ));
    assert!(matches!(
        task_result(&name("demo"), &VersionConstraint::parse("^5").expect("range"), false, &p),
        Err(TaskError::Select(_))
    ));
}

#[test]
fn fetch_name_follows_alias() {
    let alias = VersionConstraint::parse("npm:real@^1").expect("alias");
    assert_eq!(fetch_name(&name("alias"), &alias).as_str(), "real");
    let plain = VersionConstraint::parse("^1").expect("range");
    assert_eq!(fetch_name(&name("plain"), &plain).as_str(), "plain");
}
