use warehouse::catalog::CatalogId;
use warehouse::java::JavaVersion;
use warehouse::resolve::error::ResolveError;
use warehouse::resolve::java::{group_by_major, java_versions, parse_temurin_tag, resolve_java};
use warehouse::resolve::runtime::{accepted, image, resolve_runtime, runtime_versions};
use warehouse::version::Version;

#[test]
fn parses_both_temurin_tag_shapes() {
    assert_eq!(
        parse_temurin_tag("21.0.5_11-jdk"),
        Some(JavaVersion::Modern {
            major: 21,
            minor: 0,
            patch: 5,
            build: 11
        })
    );
    assert_eq!(
        parse_temurin_tag("8u422-b05"),
        Some(JavaVersion::Legacy {
            major: 8,
            patch: 422,
            build: 5
        })
    );
}

#[test]
fn ignores_tags_that_are_not_versions() {
    for tag in ["latest", "21-jdk", "jre", "21.0.5_11-jre-alpine"] {
        assert_eq!(parse_temurin_tag(tag), None, "accepted {tag:?}");
    }
}

#[test]
fn applies_per_runtime_minimums() {
    assert!(!accepted(CatalogId::Node, Version::new(10, 0, 0)));
    assert!(accepted(CatalogId::Node, Version::new(22, 1, 0)));
    assert!(!accepted(CatalogId::Python, Version::new(2, 7, 18)));
    assert!(!accepted(CatalogId::Python, Version::new(3, 2, 0)));
    assert!(accepted(CatalogId::Python, Version::new(3, 13, 1)));
    assert!(accepted(CatalogId::Rust, Version::new(1, 84, 0)));
}

#[test]
fn node_minimum_is_twelve() {
    assert!(accepted(CatalogId::Node, Version::new(12, 0, 0)));
    assert!(!accepted(CatalogId::Node, Version::new(11, 99, 99)));
    assert!(accepted(CatalogId::Python, Version::new(3, 3, 0)));
    assert!(accepted(CatalogId::Go, Version::new(0, 0, 1)));
}

#[test]
fn images_of_the_docker_hub_catalogs() {
    assert_eq!(image(CatalogId::Go), Some("golang"));
    assert_eq!(image(CatalogId::Java), Some("eclipse-temurin"));
    assert_eq!(image(CatalogId::Node), Some("node"));
    assert_eq!(image(CatalogId::Python), Some("python"));
    assert_eq!(image(CatalogId::Rust), Some("rust"));
    assert_eq!(image(CatalogId::Minecraft), None);
    assert_eq!(image(CatalogId::MinecraftProxy), None);
}

fn tags(raw: &[&str]) -> Vec<String> {
    raw.iter().map(|t| t.to_string()).collect()
}

#[test]
fn runtime_versions_are_newest_first_without_repeats() {
    let got = runtime_versions(
        CatalogId::Python,
        &tags(&["3.12.1", "latest", "3.13.0", "2.7.18", "3.12.1", "3.9-slim", "3.2.0", "3.10.4"]),
    )
    .expect("some versions");
    assert_eq!(
        got,
        vec![
            Version::new(3, 13, 0),
            Version::new(3, 12, 1),
            Version::new(3, 10, 4)
        ]
    );
}

#[test]
fn runtime_versions_without_releases_is_empty_error() {
    let err = runtime_versions(CatalogId::Node, &tags(&["latest", "10.0.0", "lts"])).unwrap_err();
    assert!(matches!(err, ResolveError::Empty { upstream: "dockerhub" }));
    assert!(err.retry_after().is_none());
}

#[test]
fn resolve_runtime_names_its_runtime() {
    let catalog = resolve_runtime(CatalogId::Rust, &tags(&["1.84.0", "1.85.1", "slim"])).unwrap();
    assert_eq!(catalog.schema, 1);
    assert_eq!(catalog.runtime, CatalogId::Rust);
    assert_eq!(catalog.versions, vec![Version::new(1, 85, 1), Version::new(1, 84, 0)]);
    assert_eq!(catalog.latest(), Some(Version::new(1, 85, 1)));
    assert!(catalog.updated_at.secs > 1_600_000_000, "stamped with the current time");
}

#[test]
fn java_versions_are_grouped_by_feature_release() {
    let list = java_versions(&tags(&[
        "21.0.5_11-jdk",
        "8u422-b05",
        "17.0.13_11",
        "21.0.4_7",
        "21.0.5_11",
        "jre",
    ]))
    .unwrap();
    assert_eq!(list.len(), 4);
    assert_eq!(list[0], JavaVersion::parse("21.0.5_11").unwrap());
    assert_eq!(list[3], JavaVersion::parse("8u422-b05").unwrap());
    let groups = group_by_major(&list);
    let majors: Vec<u16> = groups.iter().map(|g| g.major).collect();
    assert_eq!(majors, vec![21, 17, 8]);
    assert_eq!(groups[0].versions.len(), 2);
}

#[test]
fn resolve_java_without_tags_is_empty_error() {
    let err = resolve_java(&tags(&["latest", "jdk"])).unwrap_err();
    assert!(matches!(err, ResolveError::Empty { upstream: "dockerhub" }));
    let catalog = resolve_java(&tags(&["11.0.25_9", "8u432-b06"])).unwrap();
    assert_eq!(catalog.majors.len(), 2);
    assert_eq!(catalog.majors[0].major, 11);
    assert_eq!(catalog.majors[1].versions[0].to_string(), "8u432-b06");
}

#[test]
fn jdk_suffix_names_the_same_release() {
    for raw in ["17.0.13_11", "8u432-b06", "21.0.5_11"] {
        assert_eq!(
            parse_temurin_tag(&format!("{raw}-jdk")),
            JavaVersion::parse(raw).ok()
        );
        assert_eq!(parse_temurin_tag(raw), JavaVersion::parse(raw).ok());
    }
    assert_eq!(parse_temurin_tag("-jdk"), None);
}
