//! Search hits, package metadata and lookup failures.
use nixman_core::packages::query::{
    eval_failure, extract_homepage, extract_license, package_not_found, package_of_hit, package_of_meta,
    packages_named, search_result, MetaValue, SearchEntry,
};
use nixman_core::packages::types::{PackageError, PackageSource};

fn entry(path: &str, pname: Option<&str>) -> SearchEntry {
    SearchEntry {
        attr_path: path.to_string(),
        pname: pname.map(|p| p.to_string()),
        version: Some("1.0".to_string()),
        description: None,
    }
}

#[test]
fn hit_names() {
    assert_eq!(package_of_hit(&entry("legacyPackages.x86_64-linux.firefox", Some("firefox-bin"))).name, "firefox-bin");
    assert_eq!(package_of_hit(&entry("legacyPackages.x86_64-linux.firefox", Some(""))).name, "firefox");
    assert_eq!(package_of_hit(&entry("legacyPackages.x86_64-linux.git", None)).name, "git");
    let p = package_of_hit(&entry("vim", None));
    assert_eq!(p.name, "vim");
    assert_eq!(p.version, "1.0");
    assert_eq!(p.description, "");
    assert_eq!(p.source, PackageSource::System);
}

#[test]
fn search_result_counts() {
    let r = search_result("fire", &vec![entry("a.b", None), entry("c", Some("d"))]);
    assert_eq!(r.query, "fire");
    assert_eq!(r.total, 2);
    assert_eq!(r.packages[0].name, "b");
    assert_eq!(r.packages[1].name, "d");
}

#[test]
fn installed_names_become_packages() {
    let ps = packages_named(&vec!["vim".to_string(), "git".to_string()]);
    assert_eq!(ps.len(), 2);
    assert_eq!(ps[1].name, "git");
    assert!(ps[0].homepage.is_none());
}

#[test]
fn homepage_and_license() {
    assert_eq!(extract_homepage(&MetaValue::Str("https://a".into())), Some("https://a".to_string()));
    assert_eq!(
        extract_homepage(&MetaValue::Array(vec![MetaValue::Str("https://b".into()), MetaValue::Other])),
        Some("https://b".to_string())
    );
    assert_eq!(extract_homepage(&MetaValue::Array(vec![])), None);
    let obj = MetaValue::Object(vec![
        ("fullName".to_string(), MetaValue::Str("MIT License".into())),
        ("spdxId".to_string(), MetaValue::Str("MIT".into())),
    ]);
    assert_eq!(extract_license(&obj), Some("MIT".to_string()));
    let obj = MetaValue::Object(vec![("fullName".to_string(), MetaValue::Str("Unfree".into()))]);
    assert_eq!(extract_license(&obj), Some("Unfree".to_string()));
    let obj = MetaValue::Object(vec![("spdxId".to_string(), MetaValue::Other), ("fullName".to_string(), MetaValue::Str("X".into()))]);
    assert_eq!(extract_license(&obj), None);
    let arr = MetaValue::Array(vec![MetaValue::Object(vec![("spdxId".to_string(), MetaValue::Str("GPL-3.0".into()))])]);
    assert_eq!(extract_license(&arr), Some("GPL-3.0".to_string()));
    let p = package_of_meta("hello", Some("greets".into()), Some(MetaValue::Str("https://h".into())), None);
    assert_eq!(p.description, "greets");
    assert_eq!(p.homepage, Some("https://h".to_string()));
    assert_eq!(p.license, None);
    assert_eq!(p.version, "");
}

#[test]
fn lookup_failures() {
    match eval_failure("nope", "error: flake 'nixpkgs' does not provide attribute 'nope'") {
        PackageError::NotFound(n) => assert_eq!(n, "nope"),
        other => panic!("unexpected {:?}", other),
    }
    match eval_failure("x", "error: network down") {
        PackageError::NixCommandFailed(m) => assert_eq!(m, "error: network down"),
        other => panic!("unexpected {:?}", other),
    }
    match package_not_found("firefx", "error: does not provide attribute\n       Did you mean firefox?\n") {
        PackageError::NotFound(m) => assert_eq!(m, format!("Package 'firefx' not found in nixpkgs. {}", "       Did you mean firefox?")),
        other => panic!("unexpected {:?}", other),
    }
    match package_not_found("zz", "error: something else") {
        PackageError::NotFound(m) => assert_eq!(
            m,
            "Package 'zz' not found in nixpkgs. Check the attribute name with 'nix search nixpkgs <name>'."
        ),
        other => panic!("unexpected {:?}", other),
    }
}
