use orix::constraint::{ConstraintKind, VersionConstraint};
use orix::integrity::{Integrity, IntegrityAlgorithm, IntegrityError};
use orix::graph::ResolverDiagnostic;
use orix::name::{PackageName, PackageNameError};
use orix::package::{encoded_package_name, PackageId};
use orix::peer::{PackageInstanceId, PeerContext};
use orix::version::Version;
use orix::platform::{check_platform_compatibility, cpu_identifier, os_identifier, PlatformMismatch};

#[test]
fn version_constraint_parse_treats_bare_non_semver_as_dist_tag() {
    let constraint = VersionConstraint::parse("next").expect("constraint");
    assert!(matches!(constraint.kind, ConstraintKind::Tag(tag) if tag == "next"));
}

#[test]
fn version_constraint_parse_treats_npm_x_range_as_range() {
    let constraint = VersionConstraint::parse("1.6.x").expect("constraint");
    assert!(matches!(constraint.kind, ConstraintKind::Range(_)));
}

#[test]
fn version_constraint_parse_treats_npm_or_range_as_any_range() {
    let constraint = VersionConstraint::parse("^9.0.3 || ^10.1.2").expect("constraint");
    assert!(matches!(constraint.kind, ConstraintKind::AnyRange(ranges) if ranges.len() == 2));
}

#[test]
fn version_constraint_parse_normalizes_spaced_comparator_range() {
    let constraint = VersionConstraint::parse(">= 2.1.2 < 3.0.0").expect("constraint");
    assert!(matches!(constraint.kind, ConstraintKind::Range(_)));
}

#[test]
fn version_constraint_parse_supports_npm_hyphen_range() {
    let constraint = VersionConstraint::parse("0.81 - 0.85").expect("constraint");
    assert!(matches!(constraint.kind, ConstraintKind::Range(_)));
}

#[test]
fn version_constraint_parse_supports_npm_hyphen_x_range() {
    let constraint = VersionConstraint::parse("7.x - 11.x").expect("constraint");
    assert!(matches!(constraint.kind, ConstraintKind::Range(_)));
}

#[test]
fn version_constraint_parse_supports_v_prefixed_exact_version() {
    let constraint = VersionConstraint::parse("v0.5.0").expect("constraint");
    assert!(matches!(constraint.kind, ConstraintKind::Exact(version) if version.to_text() == "0.5.0"));
}

#[test]
fn version_constraint_parse_supports_npm_alias() {
    let constraint = VersionConstraint::parse("npm:wrap-ansi@^7.0.0").expect("constraint");
    assert!(matches!(constraint.kind, ConstraintKind::Alias { package, .. } if package.as_str() == "wrap-ansi"));
}

#[test]
fn package_name_parse_preserves_scoped_name_case() {
    let name = PackageName::parse("@Scope/Package").expect("name");
    assert_eq!(name.as_str(), "@Scope/Package");
    assert_eq!(name.scope(), Some("Scope"));
    assert_eq!(name.unscoped(), "Package");
}

#[test]
fn package_name_parse_preserves_legacy_uppercase_names() {
    let name = PackageName::parse("JSONStream").expect("name");
    assert_eq!(name.as_str(), "JSONStream");
}

#[test]
fn package_name_parse_rejects_path_like_names() {
    let result = PackageName::parse("../pkg");
    assert!(matches!(result, Err(PackageNameError::InvalidCharacter(_))));
}

#[test]
fn integrity_parse_returns_strongest_digest() {
    let integrity = Integrity::parse("sha1-abc sha512-def").expect("integrity");
    assert_eq!(
        integrity.strongest().map(|digest| digest.algorithm),
        Some(IntegrityAlgorithm::Sha512)
    );
}

#[test]
fn integrity_parse_rejects_unknown_algorithm() {
    let result = Integrity::parse("md5-abc");
    assert!(matches!(
        result,
        Err(IntegrityError::UnsupportedAlgorithm(algorithm)) if algorithm == "md5"
    ));
}

#[test]
fn integrity_parse_rejects_empty_and_digestless_parts() {
    assert!(matches!(Integrity::parse("   "), Err(IntegrityError::Empty)));
    assert!(matches!(Integrity::parse("sha512-"), Err(IntegrityError::InvalidDigest(_))));
}

#[test]
fn package_name_parse_reports_empty_and_bad_scope() {
    assert!(matches!(PackageName::parse("  "), Err(PackageNameError::EmptyName)));
    assert!(PackageName::parse("@scope").is_err());
}

#[test]
fn platform_check_accepts_empty_and_matching_lists() {
    let none: Vec<String> = Vec::new();
    assert!(check_platform_compatibility(&none, &none, "linux", "x64").is_none());
    let os = vec!["darwin".to_string(), "linux".to_string()];
    let cpu = vec!["x64".to_string()];
    assert!(check_platform_compatibility(&os, &cpu, "linux", "x86_64").is_none());
}

#[test]
fn platform_check_reports_os_before_cpu() {
    let os = vec!["win32".to_string()];
    let cpu = vec!["arm64".to_string()];
    match check_platform_compatibility(&os, &cpu, "linux", "x64") {
        Some(PlatformMismatch::Os { package_supports, current }) => {
            assert_eq!(package_supports, vec!["win32".to_string()]);
            assert_eq!(current, "linux");
        }
        other => panic!("unexpected verdict {:?}", other),
    }
    let any_os: Vec<String> = vec!["!win32".to_string()];
    match check_platform_compatibility(&any_os, &cpu, "linux", "x64") {
        Some(PlatformMismatch::Cpu { current, .. }) => assert_eq!(current, "x64"),
        other => panic!("unexpected verdict {:?}", other),
    }
}

#[test]
fn cpu_identifier_maps_rust_architectures() {
    assert_eq!(cpu_identifier("x86_64"), "x64");
    assert_eq!(cpu_identifier("aarch64"), "arm64");
    assert_eq!(cpu_identifier("riscv64"), "riscv64");
}

fn pkg(name: &str, version: &str) -> PackageId {
    PackageId::new(PackageName::new(name.to_string()), Version::parse(version).expect("version"))
}

#[test]
fn peer_context_key_generates_sorted_suffix() {
    let mut ctx = PeerContext::default();
    ctx.insert(PackageName::new("lodash".to_string()), pkg("lodash", "4.17.21"));
    ctx.insert(PackageName::new("react".to_string()), pkg("react", "18.2.0"));
    let key = ctx.key();
    assert!(key.contains("(lodash@4.17.21)"));
    assert!(key.contains("(react@18.2.0)"));
}

#[test]
fn peer_context_key_empty_when_no_peers() {
    let ctx = PeerContext::default();
    assert!(ctx.is_empty());
    assert_eq!(ctx.key(), "");
}

#[test]
fn package_instance_id_key_includes_peer_suffix() {
    let mut ctx = PeerContext::default();
    ctx.insert(PackageName::new("react".to_string()), pkg("react", "18.2.0"));
    let instance = PackageInstanceId::new(pkg("react-dom", "18.2.0"), ctx);
    let key = instance.key();
    assert!(key.contains("react-dom@18.2.0"));
    assert!(key.contains("react@18.2.0"));
}

#[test]
fn resolver_diagnostic_display_formats_missing_peer() {
    let diag = ResolverDiagnostic::MissingPeer {
        requester: pkg("react-dom", "18.2.0"),
        peer_name: PackageName::new("react".to_string()),
        range: VersionConstraint::parse("^18.0.0").expect("range"),
    };
    let msg = diag.message();
    assert!(msg.contains("unmet peer dependency"));
    assert!(msg.contains("react-dom@18.2.0"));
    assert!(msg.contains("^18.0.0"));
}

#[test]
fn resolver_diagnostic_display_formats_peer_conflict() {
    let diag = ResolverDiagnostic::PeerVersionConflict {
        requester: pkg("react-dom", "18.2.0"),
        peer_name: PackageName::new("react".to_string()),
        requested_range: VersionConstraint::parse("^18.0.0").expect("range"),
        found_version: Version::parse("17.0.2").expect("version"),
    };
    let msg = diag.message();
    assert!(msg.contains("version conflict"));
    assert!(msg.contains("found"));
    assert!(msg.contains("17.0.2"));
}

#[test]
fn peer_context_key_sorts_by_name_and_merges_case() {
    let mut ctx = PeerContext::default();
    ctx.insert(PackageName::new("react".to_string()), pkg("react", "18.2.0"));
    ctx.insert(PackageName::new("lodash".to_string()), pkg("lodash", "4.17.21"));
    ctx.insert(PackageName::new("Zed".to_string()), pkg("Zed", "1.0.0"));
    assert_eq!(ctx.key(), "(lodash@4.17.21)(react@18.2.0)(Zed@1.0.0)");
    ctx.insert(PackageName::new("ZED".to_string()), pkg("ZED", "2.0.0"));
    assert_eq!(ctx.key(), "(lodash@4.17.21)(react@18.2.0)(ZED@2.0.0)");
    assert!(!ctx.is_empty());
}

#[test]
fn package_instance_without_peers_drops_suffix() {
    let mut ctx = PeerContext::default();
    ctx.insert(PackageName::new("react".to_string()), pkg("react", "18.2.0"));
    let instance = PackageInstanceId::new(pkg("react-dom", "18.2.0"), ctx);
    assert_eq!(instance.key(), "react-dom@18.2.0(react@18.2.0)");
    let bare = instance.without_peers();
    assert_eq!(bare.key(), "react-dom@18.2.0");
    assert!(bare.peer_context.is_empty());
}

#[test]
fn resolver_diagnostic_messages_have_exact_text() {
    let missing = ResolverDiagnostic::MissingPeer {
        requester: pkg("react-dom", "18.2.0"),
        peer_name: PackageName::new("react".to_string()),
        range: VersionConstraint::parse("^18.0.0").expect("range"),
    };
    assert_eq!(
        missing.message(),
        "warning: unmet peer dependency\n  react-dom@18.2.0 requires react@^18.0.0\nhint: install the required peer dependency"
    );
    let optional = ResolverDiagnostic::OptionalPeerMissing {
        requester: pkg("a", "1.0.0"),
        peer_name: PackageName::new("b".to_string()),
        range: VersionConstraint::parse("^2").expect("range"),
    };
    assert_eq!(optional.message(), "info: optional peer not found\n  a@1.0.0 prefers b@^2 (optional)");
    let conflict = ResolverDiagnostic::PeerVersionConflict {
        requester: pkg("a", "1.0.0"),
        peer_name: PackageName::new("b".to_string()),
        requested_range: VersionConstraint::parse("^2").expect("range"),
        found_version: Version::parse("1.5.0").expect("version"),
    };
    assert_eq!(
        conflict.message(),
        "warning: peer dependency version conflict\n  a@1.0.0 requires b@^2\n  found b@1.5.0\nhint: update b to satisfy the range, or install a compatible a@1.0.0 version"
    );
}

#[test]
fn registry_paths_escape_scope_and_use_unscoped_tarball_name() {
    assert_eq!(encoded_package_name(&PackageName::new("@scope/pkg".to_string())), "@scope%2fpkg");
    assert_eq!(encoded_package_name(&PackageName::new("JSONStream".to_string())), "JSONStream");
    assert_eq!(pkg("@scope/pkg", "1.2.3").tarball_path(), "@scope/pkg/-/pkg-1.2.3.tgz");
    assert_eq!(pkg("react", "18.2.0").tarball_path(), "react/-/react-18.2.0.tgz");
}

#[test]
fn platform_mismatch_message_lists_supported_platforms() {
    let m = check_platform_compatibility(&vec!["darwin".to_string()], &Vec::new(), "linux", "x64").expect("mismatch");
    assert_eq!(m.message(), "OS mismatch: package requires one of [\"darwin\"], current is 'linux'");
    let c = check_platform_compatibility(&Vec::new(), &vec!["arm64".to_string()], "linux", "x64").expect("mismatch");
    assert_eq!(c.message(), "CPU mismatch: package requires one of [\"arm64\"], current is 'x64'");
}

#[test]
fn constraint_kind_predicates() {
    assert!(VersionConstraint::parse("1.2.3").expect("constraint").is_exact());
    assert!(!VersionConstraint::parse("^1.2.3").expect("constraint").is_exact());
    assert!(VersionConstraint::parse("patch:pkg@1.0.0#./patches/pkg.patch").expect("constraint").is_patch());
    assert!(!VersionConstraint::parse("latest").expect("constraint").is_patch());
}

#[test]
fn peer_suffix_is_sorted_by_package_name() {
    let mut ctx = PeerContext::default();
    ctx.insert(PackageName::new("a-b".to_string()), PackageId::new(PackageName::new("a-b".to_string()), Version::parse("1.0.0").expect("version")));
    ctx.insert(PackageName::new("a".to_string()), PackageId::new(PackageName::new("a".to_string()), Version::parse("1.0.0").expect("version")));
    assert_eq!(ctx.key(), "(a@1.0.0)(a-b@1.0.0)");
}

#[test]
fn os_identifiers_follow_npm() {
    assert_eq!(os_identifier("macos"), "darwin");
    assert_eq!(os_identifier("windows"), "win32");
    assert_eq!(os_identifier("linux"), "linux");
}

#[test]
fn package_names_convert_from_strings() {
    let n = PackageName::from("react".to_string());
    assert_eq!(n.as_str(), "react");
}

#[test]
fn package_metadata_url_encodes_scoped_package_slash() {
    let name = PackageName::parse("@scope/pkg").expect("name");
    let url = orix::urls::package_metadata_url("https://registry.npmjs.org", &name).expect("url");
    assert_eq!(url, "https://registry.npmjs.org/@scope%2fpkg");
}

#[test]
fn package_metadata_url_preserves_legacy_uppercase_names() {
    let name = PackageName::parse("JSONStream").expect("name");
    let url = orix::urls::package_metadata_url("https://registry.npmjs.org", &name).expect("url");
    assert_eq!(url, "https://registry.npmjs.org/JSONStream");
}

#[test]
fn default_tarball_url_uses_unscoped_tarball_name() {
    let id = PackageId::new(PackageName::parse("@scope/pkg").expect("name"), Version::parse("1.2.3").expect("version"));
    let url = orix::urls::default_tarball_url("https://registry.npmjs.org/", &id).expect("url");
    assert_eq!(url, "https://registry.npmjs.org/@scope/pkg/-/pkg-1.2.3.tgz");
}

#[test]
fn registry_paths_gain_a_trailing_slash() {
    assert_eq!(orix::urls::registry_base("https://r.example/npm").as_deref(), Some("https://r.example/npm/"));
    assert_eq!(orix::urls::registry_base("https://r.example/npm/").as_deref(), Some("https://r.example/npm/"));
    let name = PackageName::parse("left-pad").expect("name");
    assert_eq!(orix::urls::package_metadata_url("https://r.example/npm", &name).as_deref(), Some("https://r.example/npm/left-pad"));
    assert_eq!(orix::urls::package_metadata_url("not a url", &name), None);
}
