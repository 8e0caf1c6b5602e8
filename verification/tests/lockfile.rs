use orix::lockfile::{ImporterLock, Lockfile, PackageLock, PackageResolution, ResolvedDep, LOCKFILE_VERSION};
use orix::graph::{DependencyGraph, ResolvedPackage};
use orix::lockgraph::resolve_from_lockfile_packages;
use orix::name::PackageName;
use orix::package::PackageId;
use orix::version::Version;
use orix::manifest::Manifest;
use orix::referenced::package_key_name;
use orix::strmap::StrMap;

fn resolved_dep(version: &str, specifier: &str) -> ResolvedDep {
    ResolvedDep {
        version: version.to_string(),
        specifier: specifier.to_string(),
        id: None,
        dev: None,
        optional: None,
        engines: None,
        os: None,
        cpu: None,
        dependencies: StrMap::new(),
        optional_dependencies: StrMap::new(),
        peer_dependencies: StrMap::new(),
    }
}

fn bare_package(resolution: Option<PackageResolution>) -> PackageLock {
    PackageLock {
        id: None,
        local: None,
        integrity: None,
        name: None,
        version: None,
        resolution,
        dependencies: StrMap::new(),
        optional_dependencies: StrMap::new(),
        peer_dependencies: StrMap::new(),
        engines: None,
        os: None,
        cpu: None,
    }
}

fn package_lock(name: &str, version: &str, integrity: &str) -> PackageLock {
    let mut p = bare_package(Some(PackageResolution {
        tarball: Some(format!("https://registry.npmjs.org/{}/-/{}-{}.tgz", name, name, version)),
        integrity: Some(integrity.to_string()),
        resolution_type: None,
        path: None,
    }));
    p.id = Some(format!("registry.npmjs.org/{}/{}", name, version));
    p.integrity = Some(integrity.to_string());
    p.name = Some(name.to_string());
    p.version = Some(version.to_string());
    p
}

#[test]
fn frozen_validation_accepts_matching_dependency_groups() {
    let mut manifest = Manifest::default();
    manifest.dependencies.insert("react".to_string(), "^18.2.0".to_string());
    manifest.dev_dependencies.insert("vite".to_string(), "^5.0.0".to_string());
    manifest.optional_dependencies.insert("fsevents".to_string(), "^2.3.3".to_string());

    let mut importer = ImporterLock::default();
    importer.dependencies.insert("react".to_string(), resolved_dep("18.2.0", "^18.2.0"));
    importer.dev_dependencies.insert("vite".to_string(), resolved_dep("5.0.0", "^5.0.0"));
    importer.optional_dependencies.insert("fsevents".to_string(), resolved_dep("2.3.3", "^2.3.3"));

    let mut lockfile = Lockfile::empty();
    lockfile.importers.insert(".".to_string(), importer);

    assert!(lockfile.validate_frozen(&manifest, ".").is_ok());
}

#[test]
fn frozen_validation_rejects_changed_specifier() {
    let mut manifest = Manifest::default();
    manifest.dependencies.insert("react".to_string(), "^19.0.0".to_string());

    let mut importer = ImporterLock::default();
    importer.dependencies.insert("react".to_string(), resolved_dep("18.2.0", "^18.2.0"));

    let mut lockfile = Lockfile::empty();
    lockfile.importers.insert(".".to_string(), importer);

    let result = lockfile.validate_frozen(&manifest, ".");
    assert!(matches!(result, Err(error) if error.message().contains("specifier")));
}

#[test]
fn frozen_validation_rejects_stale_locked_dependency() {
    let manifest = Manifest::default();

    let mut importer = ImporterLock::default();
    importer.dependencies.insert("react".to_string(), resolved_dep("18.2.0", "^18.2.0"));

    let mut lockfile = Lockfile::empty();
    lockfile.importers.insert(".".to_string(), importer);

    let result = lockfile.validate_frozen(&manifest, ".");
    assert!(matches!(result, Err(error) if error.message().contains("not declared")));
}

#[test]
fn diff_reports_added_removed_changed_and_importer_specifiers() {
    let mut old = Lockfile::empty();
    old.packages.insert("/react@18.2.0".to_string(), package_lock("react", "18.2.0", "sha512-old"));
    old.packages.insert("/vite@5.0.0".to_string(), package_lock("vite", "5.0.0", "sha512-vite"));
    let mut old_importer = ImporterLock::default();
    old_importer.specifiers.insert("react".to_string(), "^18.0.0".to_string());
    old.importers.insert(".".to_string(), old_importer);

    let mut new = Lockfile::empty();
    new.packages.insert("/react@18.2.0".to_string(), package_lock("react", "18.2.0", "sha512-new"));
    new.packages.insert("/lodash@4.17.21".to_string(), package_lock("lodash", "4.17.21", "sha512-lodash"));
    let mut new_importer = ImporterLock::default();
    new_importer.specifiers.insert("react".to_string(), "^18.2.0".to_string());
    new.importers.insert(".".to_string(), new_importer);

    let diff = Lockfile::diff(&old, &new);

    assert_eq!(diff.added, vec!["/lodash@4.17.21"]);
    assert_eq!(diff.removed, vec!["/vite@5.0.0"]);
    assert_eq!(diff.changed, vec!["/react@18.2.0"]);
    assert_eq!(diff.importers_changed, vec!["."]);
    assert!(Lockfile::diff_has_changes(&diff));
}

#[test]
fn diff_has_changes_true_for_importers_only() {
    let mut old = Lockfile::empty();
    let mut old_importer = ImporterLock::default();
    old_importer.specifiers.insert("react".to_string(), "^18.0.0".to_string());
    old.importers.insert(".".to_string(), old_importer);

    let mut new = Lockfile::empty();
    let mut new_importer = ImporterLock::default();
    new_importer.specifiers.insert("react".to_string(), "^19.0.0".to_string());
    new.importers.insert(".".to_string(), new_importer);

    let diff = Lockfile::diff(&old, &new);
    assert!(diff.added.is_empty());
    assert!(diff.removed.is_empty());
    assert!(diff.changed.is_empty());
    assert_eq!(diff.importers_changed, vec!["."]);
    assert!(Lockfile::diff_has_changes(&diff));
}

#[test]
fn diff_of_identical_lockfiles_is_empty() {
    let mut a = Lockfile::empty();
    a.packages.insert("/react@18.2.0".to_string(), package_lock("react", "18.2.0", "sha512-x"));
    let mut b = Lockfile::empty();
    b.packages.insert("/react@18.2.0".to_string(), package_lock("react", "18.2.0", "sha512-x"));
    let diff = Lockfile::diff(&a, &b);
    assert!(!Lockfile::diff_has_changes(&diff));
}

#[test]
fn validate_frozen_rejects_specifier_change_disables_fast_path() {
    let mut manifest = Manifest::default();
    manifest.dependencies.insert("react".to_string(), "^19.0.0".to_string());

    let mut importer = ImporterLock::default();
    importer.dependencies.insert("react".to_string(), resolved_dep("18.2.0", "^18.2.0"));
    importer.specifiers.insert("react".to_string(), "^18.2.0".to_string());

    let mut lockfile = Lockfile::empty();
    lockfile.importers.insert(".".to_string(), importer);

    assert!(lockfile.validate(&manifest, ".").is_ok());
    assert!(lockfile.validate_frozen(&manifest, ".").is_err());
}

#[test]
fn validate_reports_version_and_missing_importer() {
    let manifest = Manifest::default();
    let mut lockfile = Lockfile::empty();
    assert!(lockfile.validate(&manifest, ".").is_err());
    lockfile.version = 3;
    let err = lockfile.validate(&manifest, ".").unwrap_err();
    assert_eq!(err.message(), "Lockfile version 3 is not supported by this orix version (expected 4)");
    assert_eq!(LOCKFILE_VERSION, 4);
}

#[test]
fn frozen_validation_reports_missing_lock_entry() {
    let mut manifest = Manifest::default();
    manifest.dev_dependencies.insert("vite".to_string(), "^5.0.0".to_string());
    let mut lockfile = Lockfile::empty();
    lockfile.importers.insert(".".to_string(), ImporterLock::default());
    let err = lockfile.validate_frozen(&manifest, ".").unwrap_err();
    assert_eq!(
        err.message(),
        "Lockfile mismatch: 'vite' is declared in devDependencies for importer '.' but not in lockfile"
    );
}

#[test]
fn retain_only_referenced_packages_removes_unused_entries() {
    let mut lockfile = Lockfile::empty();
    let mut react = bare_package(None);
    react.id = Some("registry.npmjs.org/react/18.2.0".to_string());
    react.integrity = Some("sha512-react".to_string());
    react.name = Some("react".to_string());
    react.version = Some("18.2.0".to_string());
    lockfile.packages.insert("/react@18.2.0".to_string(), react);
    let mut vite = bare_package(None);
    vite.id = Some("registry.npmjs.org/vite/5.0.0".to_string());
    vite.integrity = Some("sha512-vite".to_string());
    vite.name = Some("vite".to_string());
    vite.version = Some("5.0.0".to_string());
    lockfile.packages.insert("/vite@5.0.0".to_string(), vite);

    let mut importer = ImporterLock::default();
    let mut dep = resolved_dep("18.2.0", "^18.0.0");
    dep.id = Some("registry.npmjs.org/react/18.2.0".to_string());
    dep.dev = Some(false);
    dep.optional = Some(false);
    importer.dependencies.insert("react".to_string(), dep);
    lockfile.importers.insert(".".to_string(), importer);

    let removed = lockfile.retain_only_referenced_packages();

    assert_eq!(removed, 1);
    assert!(lockfile.packages.contains_key("/react@18.2.0"));
    assert!(!lockfile.packages.contains_key("/vite@5.0.0"));
}

#[test]
fn retain_follows_snapshot_dependencies_transitively() {
    let mut lockfile = Lockfile::empty();
    for key in ["/a@1.0.0", "/b@1.0.0", "/c@1.0.0", "/d@1.0.0"] {
        lockfile.packages.insert(key.to_string(), bare_package(None));
    }
    let mut snap_a = orix::lockfile::SnapshotLock::default();
    snap_a.dependencies.insert("b".to_string(), "1.0.0".to_string());
    lockfile.snapshots.insert("/a@1.0.0".to_string(), snap_a);
    let mut snap_b = orix::lockfile::SnapshotLock::default();
    snap_b.peer_dependencies.insert("c".to_string(), "1.0.0".to_string());
    lockfile.snapshots.insert("/b@1.0.0".to_string(), snap_b);
    lockfile.snapshots.insert("/d@1.0.0".to_string(), orix::lockfile::SnapshotLock::default());
    lockfile.snapshots.insert("/local".to_string(), orix::lockfile::SnapshotLock::default());
    let mut importer = ImporterLock::default();
    importer.dev_dependencies.insert("a".to_string(), resolved_dep("1.0.0", "^1"));
    lockfile.importers.insert(".".to_string(), importer);

    let removed = lockfile.retain_only_referenced_packages();
    assert_eq!(removed, 1);
    assert!(lockfile.packages.contains_key("/c@1.0.0"));
    assert!(!lockfile.packages.contains_key("/d@1.0.0"));
    assert!(!lockfile.snapshots.contains_key("/d@1.0.0"));
    assert!(lockfile.snapshots.contains_key("/local"));
}

#[test]
fn retaining_twice_removes_nothing_the_second_time() {
    let mut lockfile = Lockfile::empty();
    for key in ["/a@1.0.0", "/b@1.0.0", "/d@1.0.0"] {
        lockfile.packages.insert(key.to_string(), bare_package(None));
    }
    let mut snap_a = orix::lockfile::SnapshotLock::default();
    snap_a.dependencies.insert("b".to_string(), "1.0.0".to_string());
    lockfile.snapshots.insert("/a@1.0.0".to_string(), snap_a);
    let mut importer = ImporterLock::default();
    importer.dependencies.insert("a".to_string(), resolved_dep("1.0.0", "^1"));
    lockfile.importers.insert(".".to_string(), importer);

    assert_eq!(lockfile.retain_only_referenced_packages(), 1);
    assert_eq!(lockfile.retain_only_referenced_packages(), 0);
    assert!(lockfile.packages.contains_key("/a@1.0.0"));
    assert!(lockfile.packages.contains_key("/b@1.0.0"));
}

#[test]
fn package_key_name_takes_text_before_last_at() {
    assert_eq!(package_key_name("/@babel/core@7.0.0"), Some("@babel/core".to_string()));
    assert_eq!(package_key_name("/@7.0.0"), None);
    assert_eq!(package_key_name("nover"), None);
}

#[test]
fn package_ids_parse_keys_and_report_bad_ones() {
    let mut lockfile = Lockfile::empty();
    lockfile.packages.insert("/@scope/pkg@1.2.3".to_string(), bare_package(None));
    let ids = lockfile.package_ids().expect("ids");
    assert_eq!(ids.len(), 1);
    assert_eq!(ids[0].key(), "@scope/pkg@1.2.3");
    lockfile.packages.insert("/broken".to_string(), bare_package(None));
    assert!(lockfile.package_ids().is_err());
}

#[test]
fn resolve_from_lockfile_packages_builds_graph() {
    let mut packages = StrMap::new();
    let mut react = bare_package(Some(PackageResolution {
        tarball: Some("https://registry.npmjs.org/react/-/react-18.2.0.tgz".to_string()),
        integrity: Some("sha512-abc".to_string()),
        resolution_type: None,
        path: None,
    }));
    react.dependencies.insert("scheduler".to_string(), "0.23.0".to_string());
    react.optional_dependencies.insert("fsevents".to_string(), "2.3.3".to_string());
    react.peer_dependencies.insert("esbuild".to_string(), ">=0.18.0".to_string());
    packages.insert("/react@18.2.0".to_string(), react);
    packages.insert(
        "/scheduler@0.23.0".to_string(),
        bare_package(Some(PackageResolution {
            tarball: Some("https://registry.npmjs.org/scheduler/-/scheduler-0.23.0.tgz".to_string()),
            integrity: Some("sha512-xyz".to_string()),
            resolution_type: None,
            path: None,
        })),
    );

    let graph = resolve_from_lockfile_packages(&packages);

    assert_eq!(graph.len(), 2);
    let pkg_ids: Vec<String> = graph.packages().iter().map(|p| p.id.key()).collect();
    assert!(pkg_ids.iter().any(|k| k.contains("react@18.2.0")), "expected react@18.2.0 in {:?}", pkg_ids);
    assert!(pkg_ids.iter().any(|k| k.contains("scheduler@0.23.0")), "expected scheduler@0.23.0 in {:?}", pkg_ids);
    assert!(graph.packages().iter().any(|pkg| {
        pkg.id.name.as_str() == "react"
            && pkg.peer_dependencies.iter().any(|(name, range)| name.as_str() == "esbuild" && range == ">=0.18.0")
    }));
}

#[test]
fn resolve_from_lockfile_packages_skips_packages_without_tarball() {
    let mut packages = StrMap::new();
    packages.insert(
        "/react@18.2.0".to_string(),
        bare_package(Some(PackageResolution {
            tarball: Some("https://registry.npmjs.org/react.tgz".to_string()),
            integrity: None,
            resolution_type: None,
            path: None,
        })),
    );
    packages.insert(
        "/vite@5.0.0".to_string(),
        bare_package(Some(PackageResolution { tarball: None, integrity: None, resolution_type: None, path: None })),
    );

    let graph = resolve_from_lockfile_packages(&packages);

    assert_eq!(graph.len(), 1);
    assert!(graph.packages().iter().any(|p| p.id.name.as_str() == "react"));
    assert!(!graph.packages().iter().any(|p| p.id.name.as_str() == "vite"));
}

fn resolved_package(name: &str, version: &str) -> ResolvedPackage {
    ResolvedPackage {
        id: PackageId::new(PackageName::new(name.to_string()), Version::parse(version).expect("version")),
        integrity: format!("sha512-{}", version),
        tarball: format!("https://registry.npmjs.org/{}/-/{}-{}.tgz", name, name, version),
        dependencies: Vec::new(),
        dev_dependencies: Vec::new(),
        optional_dependencies: Vec::new(),
        peer_dependencies: Vec::new(),
        engines: None,
        os: Vec::new(),
        cpu: Vec::new(),
        depnodes: Vec::new(),
        patch: None,
    }
}

#[test]
fn update_writes_importer_specifiers() {
    let mut manifest = Manifest::default();
    manifest.dependencies.insert("react".to_string(), "^18.2.0".to_string());
    manifest.dev_dependencies.insert("vite".to_string(), "^5.0.0".to_string());
    manifest.optional_dependencies.insert("fsevents".to_string(), "^2.3.3".to_string());

    let mut graph = DependencyGraph::new();
    graph.insert(resolved_package("react", "18.2.0"));
    graph.insert(resolved_package("vite", "5.0.0"));
    graph.insert(resolved_package("fsevents", "2.3.3"));

    let lockfile = Lockfile::empty().update(&manifest, &graph, ".");
    let importer = lockfile.importers.get(".").expect("missing root importer");

    assert_eq!(importer.specifiers.get("react"), Some(&"^18.2.0".to_string()));
    assert_eq!(importer.specifiers.get("vite"), Some(&"^5.0.0".to_string()));
    assert_eq!(importer.specifiers.get("fsevents"), Some(&"^2.3.3".to_string()));
}

#[test]
fn update_writes_packages_snapshots_and_locked_versions() {
    let mut manifest = Manifest::default();
    manifest.dependencies.insert("react".to_string(), "^18.2.0".to_string());
    manifest.dev_dependencies.insert("missing".to_string(), "^1.0.0".to_string());

    let mut react = resolved_package("react", "18.2.0");
    react.dependencies.push((PackageName::new("loose-envify".to_string()), "^1.0.0".to_string()));
    react.dependencies.push((PackageName::new("loose-envify".to_string()), "^1.1.0".to_string()));
    react.os.push("linux".to_string());
    let mut graph = DependencyGraph::new();
    graph.insert(react);
    graph.insert(resolved_package("loose-envify", "1.4.0"));

    let mut base = Lockfile::empty();
    base.packages.insert("/old@1.0.0".to_string(), package_lock("old", "1.0.0", "sha512-old"));
    let lockfile = base.update(&manifest, &graph, ".");

    assert_eq!(lockfile.version, LOCKFILE_VERSION);
    let importer = lockfile.importers.get(".").expect("root importer");
    let dep = importer.dependencies.get("react").expect("react locked");
    assert_eq!(dep.version, "18.2.0");
    assert_eq!(dep.specifier, "^18.2.0");
    assert!(importer.dev_dependencies.get("missing").is_none());
    assert_eq!(importer.specifiers.get("missing"), Some(&"^1.0.0".to_string()));

    assert!(lockfile.packages.contains_key("/old@1.0.0"));
    let entry = lockfile.packages.get("/react@18.2.0").expect("react entry");
    assert_eq!(entry.id.as_deref(), Some("registry.npmjs.org/react/18.2.0"));
    assert_eq!(entry.version.as_deref(), Some("18.2.0"));
    assert_eq!(entry.os, Some(vec!["linux".to_string()]));
    assert_eq!(entry.cpu, None);
    assert!(lockfile.packages.contains_key("/loose-envify@1.4.0"));

    let snapshot = lockfile.snapshots.get("/react@18.2.0").expect("react snapshot");
    assert_eq!(snapshot.dependencies.get("loose-envify"), Some(&"^1.1.0".to_string()));
    let hash = lockfile.graph_hash.expect("graph hash");
    assert_eq!(hash.len(), 64);
}
