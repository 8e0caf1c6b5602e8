use orix::lockfile::LOCKFILE_VERSION;
use orix::pnpm::{
    extract_name_from_key, extract_version_from_key, normalize_package_key, PnpmImporter, PnpmLockfile,
    PnpmLockfileVersion, PnpmPackage, PnpmResolution, PnpmResolvedDep, PnpmVersionScalar,
};
use orix::strmap::StrMap;

#[test]
fn test_pnpm_lockfile_version_parsing() {
    let v6 = PnpmLockfileVersion::from_scalar(&PnpmVersionScalar::Integer(6));
    assert!(matches!(v6, PnpmLockfileVersion::V6));
    let v9 = PnpmLockfileVersion::from_scalar(&PnpmVersionScalar::Integer(9));
    assert!(matches!(v9, PnpmLockfileVersion::V9));
    let v6str = PnpmLockfileVersion::from_scalar(&PnpmVersionScalar::Text("6.0".to_string()));
    assert!(matches!(v6str, PnpmLockfileVersion::V6));
    let v9str = PnpmLockfileVersion::from_scalar(&PnpmVersionScalar::Text("9.1".to_string()));
    assert!(matches!(v9str, PnpmLockfileVersion::V9));
}

#[test]
fn unknown_pnpm_versions_keep_their_text() {
    assert_eq!(
        PnpmLockfileVersion::from_scalar(&PnpmVersionScalar::Integer(-5)),
        PnpmLockfileVersion::Unknown("-5".to_string())
    );
    assert_eq!(
        PnpmLockfileVersion::from_scalar(&PnpmVersionScalar::Text("5.4".to_string())),
        PnpmLockfileVersion::Unknown("5.4".to_string())
    );
    assert_eq!(
        PnpmLockfileVersion::from_scalar(&PnpmVersionScalar::Other),
        PnpmLockfileVersion::Unknown("unknown".to_string())
    );
}

#[test]
fn test_normalize_package_key_simple() {
    assert_eq!(normalize_package_key("lodash@4.17.21"), "/lodash@4.17.21");
    assert_eq!(normalize_package_key("/react@18.2.0"), "/react@18.2.0");
}

#[test]
fn test_normalize_package_key_scoped() {
    assert_eq!(normalize_package_key("@babel/core@7.24.0"), "/@babel/core@7.24.0");
}

#[test]
fn test_normalize_package_key_with_node_modules() {
    assert_eq!(normalize_package_key("/node_modules/lodash@4.17.21"), "/lodash@4.17.21");
}

#[test]
fn test_normalize_package_key_with_peer_suffix() {
    assert_eq!(
        normalize_package_key("/react-dom@18.2.0(react@18.2.0)"),
        "/react-dom@18.2.0(react@18.2.0)"
    );
}

#[test]
fn test_extract_name_from_key() {
    assert_eq!(extract_name_from_key("/lodash@4.17.21"), Some("lodash".to_string()));
    assert_eq!(extract_name_from_key("/@babel/core@7.24.0"), Some("@babel/core".to_string()));
    assert_eq!(extract_name_from_key("/@version"), None);
}

#[test]
fn test_extract_version_from_key() {
    assert_eq!(extract_version_from_key("/lodash@4.17.21"), Some("4.17.21".to_string()));
    assert_eq!(extract_version_from_key("/@babel/core@7.24.0"), Some("7.24.0".to_string()));
    assert_eq!(extract_version_from_key("/lodash@"), None);
}

#[test]
fn test_into_orix_lockfile_v9() {
    let mut specifiers = StrMap::new();
    specifiers.insert("react".to_string(), "^18.0.0".to_string());
    let mut dependencies = StrMap::new();
    dependencies.insert(
        "react".to_string(),
        PnpmResolvedDep {
            version: "18.2.0".to_string(),
            specifier: Some("^18.0.0".to_string()),
            optional: None,
            engines: None,
            os: None,
            cpu: None,
            dev: None,
        },
    );
    let mut importers = StrMap::new();
    importers.insert(
        ".".to_string(),
        PnpmImporter {
            dependencies,
            dev_dependencies: StrMap::new(),
            optional_dependencies: StrMap::new(),
            specifiers,
        },
    );
    let mut pkg_deps = StrMap::new();
    pkg_deps.insert("scheduler".to_string(), "0.23.0".to_string());
    let mut packages = StrMap::new();
    packages.insert(
        "/react@18.2.0".to_string(),
        PnpmPackage {
            resolution: PnpmResolution {
                tarball: Some("https://registry.npmjs.org/react/-/react-18.2.0.tgz".to_string()),
                integrity: Some("sha512-abc".to_string()),
                path: None,
                dir: None,
            },
            peer_dependencies: StrMap::new(),
            peer_dependencies_meta: StrMap::new(),
            dependencies: pkg_deps,
            optional_dependencies: StrMap::new(),
            transitive_peer_dependencies: Vec::new(),
            engines: None,
            os: Vec::new(),
            cpu: Vec::new(),
            has_no_peer_dependencies: None,
        },
    );
    let pnpm = PnpmLockfile {
        lockfile_version: PnpmVersionScalar::Integer(9),
        importers,
        packages,
        snapshots: StrMap::new(),
        patched_dependencies: StrMap::new(),
    };
    assert!(pnpm.is_supported());
    let orix = pnpm.into_orix_lockfile();

    assert_eq!(orix.version, LOCKFILE_VERSION);
    assert!(orix.importers.contains_key("."));
    assert!(orix.packages.contains_key("/react@18.2.0"));

    let importer = orix.importers.get(".").expect("missing root importer");
    assert_eq!(importer.specifiers.get("react"), Some(&"^18.0.0".to_string()));
    let dep = importer.dependencies.get("react").expect("react");
    assert_eq!(dep.version, "18.2.0");
    assert_eq!(dep.specifier, "^18.0.0");
    assert_eq!(dep.id, Some("/react@18.2.0".to_string()));
    assert_eq!(dep.dev, Some(false));
    assert_eq!(dep.optional, Some(false));
    assert_eq!(dep.engines, None);
    assert_eq!(dep.os, None);
    assert_eq!(dep.cpu, None);
    assert!(dep.dependencies.is_empty());
    assert!(dep.optional_dependencies.is_empty());
    let pkg = orix.packages.get("/react@18.2.0").expect("package");
    assert_eq!(pkg.name, Some("react".to_string()));
    assert_eq!(pkg.version, Some("18.2.0".to_string()));
}
