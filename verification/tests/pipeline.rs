use ccpm_build::builder::build_one;
use ccpm_build::codec::{decode_package, encode_package};
use ccpm_build::digest::content_digest;
use ccpm_build::index::{Index, Version};
use ccpm_build::manifest::{parse_package_manifest, PackageBase, PackageManifest};
use ccpm_build::package::{File, Package};
use ccpm_build::validate_dir_path;
use ccpm_build::Error;

fn base(authors: Vec<&str>, maintainers: Vec<&str>, license: &str) -> PackageBase {
    PackageBase {
        description: "d".to_string(),
        license: license.to_string(),
        authors: authors.into_iter().map(|s| s.to_string()).collect(),
        maintainers: maintainers.into_iter().map(|s| s.to_string()).collect(),
    }
}

fn manifest(authors: Vec<&str>, maintainers: Vec<&str>, license: &str) -> PackageManifest {
    PackageManifest {
        base: base(authors, maintainers, license),
        version: "1.0".to_string(),
        dependencies: Vec::new(),
    }
}

#[test]
fn verify_accepts_valid_manifest() {
    assert!(manifest(vec!["a"], vec!["m"], "MIT").verify().is_ok());
    assert!(manifest(vec!["a"], vec!["m"], "MIT OR Apache-2.0").verify().is_ok());
}

#[test]
fn verify_rejects_missing_authors() {
    let r = manifest(vec![], vec!["m"], "MIT").verify();
    assert!(matches!(r, Err(Error::MissingAuthors)));
}

#[test]
fn verify_rejects_missing_maintainers() {
    let r = manifest(vec!["a"], vec![], "MIT").verify();
    assert!(matches!(r, Err(Error::MissingMaintainers)));
}

#[test]
fn verify_rejects_invalid_license() {
    let r = manifest(vec!["a"], vec!["m"], "NOT A LICENSE !!!").verify();
    assert!(matches!(r, Err(Error::InvalidLicenseId(_))));
}

#[test]
fn digest_is_sha256_hex() {
    assert_eq!(
        content_digest(""),
        "e3b0c44298fc1c149afbf4c8996fb92427ae41e4649b934ca495991b7852b855"
    );
    assert_eq!(
        content_digest("abc"),
        "ba7816bf8f01cfea414140de5dae2223b00361a396177a9cb410ff61f20015ad"
    );
}

#[test]
fn file_digest_is_digest_of_stored_content() {
    let f = File::new("print(1)".to_string());
    assert_eq!(f.content, "print(1)");
    assert_eq!(f.digest, content_digest("print(1)"));
    assert_eq!(f.digest.len(), 64);
}

fn sample_package() -> Package {
    let m = PackageManifest {
        base: PackageBase {
            description: "quotes \" and \\ and\nnewlines\tand tabs".to_string(),
            license: "MIT".to_string(),
            authors: vec!["a1".to_string(), "a2".to_string()],
            maintainers: vec!["m1".to_string()],
        },
        version: "2.3-beta".to_string(),
        dependencies: vec!["dep-a".to_string(), "dep-b".to_string()],
    };
    let sources = vec![
        ("main.lua".to_string(), "print(\"hi\")\n".to_string()),
        ("lib/util.lua".to_string(), "return {}".to_string()),
    ];
    Package::from_sources(m, sources)
}

fn assert_packages_equal(a: &Package, b: &Package) {
    assert_eq!(a.manifest.base.description, b.manifest.base.description);
    assert_eq!(a.manifest.base.license, b.manifest.base.license);
    assert_eq!(a.manifest.base.authors, b.manifest.base.authors);
    assert_eq!(a.manifest.base.maintainers, b.manifest.base.maintainers);
    assert_eq!(a.manifest.version, b.manifest.version);
    assert_eq!(a.manifest.dependencies, b.manifest.dependencies);
    assert_eq!(a.files.len(), b.files.len());
    for (ea, eb) in a.files.iter().zip(b.files.iter()) {
        assert_eq!(ea.0, eb.0);
        assert_eq!(ea.1.content, eb.1.content);
        assert_eq!(ea.1.digest, eb.1.digest);
    }
}

#[test]
fn decode_inverts_encode() {
    let p = sample_package();
    let artifact = encode_package(&p);
    let q = decode_package(&artifact).expect("artifact decodes");
    assert_packages_equal(&p, &q);
}

#[test]
fn artifact_is_plain_text() {
    let p = sample_package();
    let artifact = encode_package(&p);
    assert!(!artifact.contains('"'));
    assert!(!artifact.contains('{'));
    assert!(artifact.is_ascii());
}

#[test]
fn decode_rejects_garbage() {
    assert!(matches!(decode_package("not base64 !!!"), Err(Error::DecodePackage)));
    assert!(matches!(decode_package("AAAA"), Err(Error::DecodePackage)));
}

#[test]
fn manifest_parses_compact_text() {
    let text = "{\"description\":\"d\",\"license\":\"MIT\",\"authors\":[\"a\"],\"maintainers\":[\"m\"],\"version\":\"1.0\",\"dependencies\":[]}";
    let m = parse_package_manifest(text).expect("parses");
    assert_eq!(m.base.description, "d");
    assert_eq!(m.base.license, "MIT");
    assert_eq!(m.base.authors, vec!["a".to_string()]);
    assert_eq!(m.base.maintainers, vec!["m".to_string()]);
    assert_eq!(m.version, "1.0");
    assert!(m.dependencies.is_empty());
}

#[test]
fn manifest_parses_pretty_printed_text() {
    let text = "{\n  \"description\": \"spaced out\",\n  \"license\": \"MIT\",\n  \"authors\": [ \"a b\" ],\n  \"maintainers\": [\"m\"],\n  \"version\": \"1.0\",\n  \"dependencies\": [\"x\", \"y\"]\n}\n";
    let m = parse_package_manifest(text).expect("parses");
    assert_eq!(m.base.description, "spaced out");
    assert_eq!(m.base.authors, vec!["a b".to_string()]);
    assert_eq!(m.dependencies, vec!["x".to_string(), "y".to_string()]);
}

#[test]
fn manifest_rejects_malformed_text() {
    assert!(matches!(parse_package_manifest(""), Err(Error::ParseManifest)));
    assert!(matches!(parse_package_manifest("{}"), Err(Error::ParseManifest)));
    assert!(matches!(
        parse_package_manifest("{\"description\":\"d\"}"),
        Err(Error::ParseManifest)
    ));
}

const WIDGET_MANIFEST: &str = "{\"description\":\"d\",\"license\":\"MIT\",\"authors\":[\"a\"],\"maintainers\":[\"m\"],\"version\":\"1.0\",\"dependencies\":[]}";

#[test]
fn build_widget_example() {
    let mut index = Index::new();
    let sources = vec![("main.lua".to_string(), "print(1)".to_string())];
    let out = build_one(&mut index, &"widget".to_string(), WIDGET_MANIFEST, sources)
        .expect("builds");
    assert_eq!(out.file_name, "widget.1.0.ccp");
    assert_eq!(index.entries.len(), 1);
    let (name, pkg) = &index.entries[0];
    assert_eq!(name, "widget");
    assert_eq!(pkg.manifest.description, "d");
    assert_eq!(pkg.manifest.license, "MIT");
    assert_eq!(pkg.manifest.authors, vec!["a".to_string()]);
    assert_eq!(pkg.manifest.maintainers, vec!["m".to_string()]);
    assert_eq!(pkg.latest_version, "1.0");
    assert_eq!(pkg.versions.len(), 1);
    assert_eq!(pkg.versions[0].0, "1.0");
    assert!(pkg.versions[0].1.dependencies.is_empty());
    // the recorded digest is the digest of the artifact text
    assert_eq!(pkg.versions[0].1.digest, content_digest(&out.artifact));
    // the artifact decodes back to the collected package
    let decoded = decode_package(&out.artifact).expect("decodes");
    assert_eq!(decoded.manifest.version, "1.0");
    assert_eq!(decoded.files.len(), 1);
    assert_eq!(decoded.files[0].0, "main.lua");
    assert_eq!(decoded.files[0].1.content, "print(1)");
    assert_eq!(decoded.files[0].1.digest, content_digest("print(1)"));
}

#[test]
fn building_twice_is_idempotent() {
    let mut index = Index::new();
    let sources = || vec![("main.lua".to_string(), "print(1)".to_string())];
    let out1 = build_one(&mut index, &"widget".to_string(), WIDGET_MANIFEST, sources())
        .expect("builds");
    let text1 = index.to_text();
    let out2 = build_one(&mut index, &"widget".to_string(), WIDGET_MANIFEST, sources())
        .expect("builds again");
    // byte-identical artifacts, unchanged digest, unchanged index text
    assert_eq!(out1.artifact, out2.artifact);
    assert_eq!(out1.file_name, out2.file_name);
    assert_eq!(index.to_text(), text1);
    assert_eq!(index.entries[0].1.versions.len(), 1);
}

#[test]
fn merge_keeps_other_versions_and_updates_latest() {
    let mut index = Index::new();
    index.merge_one(
        &"p".to_string(),
        base(vec!["a"], vec!["m"], "MIT"),
        &"1.0".to_string(),
        Version { digest: "d1".to_string(), dependencies: vec![] },
    );
    index.merge_one(
        &"p".to_string(),
        base(vec!["a"], vec!["m"], "MIT"),
        &"2.0".to_string(),
        Version { digest: "d2".to_string(), dependencies: vec!["q".to_string()] },
    );
    assert_eq!(index.entries.len(), 1);
    let pkg = &index.entries[0].1;
    assert_eq!(pkg.latest_version, "2.0");
    assert_eq!(pkg.versions.len(), 2);
    assert_eq!(pkg.versions[0].0, "1.0");
    assert_eq!(pkg.versions[0].1.digest, "d1");
    assert_eq!(pkg.versions[1].0, "2.0");
    assert_eq!(pkg.versions[1].1.digest, "d2");
    assert_eq!(pkg.versions[1].1.dependencies, vec!["q".to_string()]);
}

#[test]
fn merge_overwrites_same_version() {
    let mut index = Index::new();
    index.merge_one(
        &"p".to_string(),
        base(vec!["a"], vec!["m"], "MIT"),
        &"1.0".to_string(),
        Version { digest: "d1".to_string(), dependencies: vec![] },
    );
    index.merge_one(
        &"p".to_string(),
        base(vec!["a2"], vec!["m2"], "MIT"),
        &"1.0".to_string(),
        Version { digest: "d2".to_string(), dependencies: vec![] },
    );
    let pkg = &index.entries[0].1;
    assert_eq!(pkg.versions.len(), 1);
    assert_eq!(pkg.versions[0].1.digest, "d2");
    assert_eq!(pkg.manifest.authors, vec!["a2".to_string()]);
    assert_eq!(pkg.latest_version, "1.0");
}

#[test]
fn index_text_round_trips() {
    let mut index = Index::new();
    index.merge_one(
        &"alpha".to_string(),
        base(vec!["a"], vec!["m"], "MIT"),
        &"0.1".to_string(),
        Version { digest: "x".to_string(), dependencies: vec!["beta".to_string()] },
    );
    index.merge_one(
        &"beta".to_string(),
        base(vec!["b"], vec!["n"], "MIT"),
        &"3".to_string(),
        Version { digest: "y".to_string(), dependencies: vec![] },
    );
    let text = index.to_text();
    let back = Index::from_text(&text).expect("round trips");
    assert_eq!(back.to_text(), text);
    assert_eq!(back.entries.len(), 2);
    assert_eq!(back.entries[0].0, "alpha");
    assert_eq!(back.entries[1].0, "beta");
    assert_eq!(back.entries[0].1.versions[0].1.dependencies, vec!["beta".to_string()]);
}

#[test]
fn load_missing_index_is_empty() {
    let ix = Index::load(None).expect("empty");
    assert!(ix.entries.is_empty());
    assert_eq!(ix.to_text(), "{}");
}

#[test]
fn load_rejects_malformed_index() {
    assert!(matches!(Index::from_text("not json"), Err(Error::DeserializeIndex)));
    assert!(matches!(Index::load(Some("{\"p\":")), Err(Error::DeserializeIndex)));
    let ix = Index::load(Some("{}")).expect("empty object");
    assert!(ix.entries.is_empty());
}

#[test]
fn failed_build_leaves_index_untouched() {
    let mut index = Index::new();
    let ok_sources = vec![("a.lua".to_string(), "return 1".to_string())];
    build_one(&mut index, &"one".to_string(), WIDGET_MANIFEST, ok_sources)
        .expect("first package builds");
    let snapshot = index.to_text();
    // package two fails validation: no authors
    let bad = "{\"description\":\"d\",\"license\":\"MIT\",\"authors\":[],\"maintainers\":[\"m\"],\"version\":\"1.0\",\"dependencies\":[]}";
    let r = build_one(&mut index, &"two".to_string(), bad, vec![]);
    assert!(matches!(r, Err(Error::MissingAuthors)));
    // the index is exactly as it was before the failing package
    assert_eq!(index.to_text(), snapshot);
}

#[test]
fn empty_source_tree_builds() {
    let mut index = Index::new();
    let out = build_one(&mut index, &"empty".to_string(), WIDGET_MANIFEST, vec![])
        .expect("builds");
    let decoded = decode_package(&out.artifact).expect("decodes");
    assert!(decoded.files.is_empty());
}

#[test]
fn validate_dir_path_checks_observations() {
    assert_eq!(validate_dir_path("/tmp".to_string(), true, true), Ok("/tmp".to_string()));
    assert_eq!(
        validate_dir_path("/missing".to_string(), false, false),
        Err("directory does not exist".to_string())
    );
    assert_eq!(
        validate_dir_path("/a-file".to_string(), true, false),
        Err("directory does not exist".to_string())
    );
}
