use std::collections::{BTreeSet, HashSet};
use warehouse::catalog::{CatalogId, UnknownCatalogId, ALL_CATALOGS};
use warehouse::document::{source_of, stored_document_fits, stored_schema_usable, Document, Source};
use warehouse::minecraft::{build_range, BuildSet, Distribution, MinecraftCatalog, MinecraftVersion};
use warehouse::runtime::RuntimeCatalog;
use warehouse::time::Timestamp;
use warehouse::version::Version;
use warehouse::SCHEMA_VERSION;

#[test]
fn catalog_names_round_trip() {
    let names = [
        "minecraft",
        "minecraft-proxy",
        "go",
        "java",
        "node",
        "python",
        "rust",
    ];
    for (id, name) in ALL_CATALOGS.iter().zip(names) {
        assert_eq!(id.as_str(), name);
        assert_eq!(CatalogId::parse(name), Ok(*id));
        assert_eq!(name.parse::<CatalogId>(), Ok(*id));
    }
}

#[test]
fn unknown_catalog_name_is_refused() {
    assert_eq!(
        CatalogId::parse("Java"),
        Err(UnknownCatalogId("Java".to_string()))
    );
    assert!(CatalogId::parse("").is_err());
    assert!(CatalogId::parse("minecraft_proxy").is_err());
}

#[test]
fn docker_hub_catalogs() {
    assert!(!CatalogId::Minecraft.uses_docker_hub());
    assert!(!CatalogId::MinecraftProxy.uses_docker_hub());
    for id in [CatalogId::Go, CatalogId::Java, CatalogId::Node, CatalogId::Python, CatalogId::Rust] {
        assert!(id.uses_docker_hub());
    }
}

#[test]
fn schema_version_is_one() {
    assert_eq!(SCHEMA_VERSION, 1);
}

#[test]
fn distribution_names_and_order() {
    let all = [
        (Distribution::Vanilla, "vanilla"),
        (Distribution::Paper, "paper"),
        (Distribution::Purpur, "purpur"),
        (Distribution::Fabric, "fabric"),
        (Distribution::Quilt, "quilt"),
        (Distribution::Forge, "forge"),
        (Distribution::Neoforge, "neoforge"),
    ];
    for (rank, (d, name)) in all.iter().enumerate() {
        assert_eq!(d.as_str(), *name);
        assert_eq!(d.rank() as usize, rank);
    }
}

#[test]
fn build_range_describes_gaps() {
    let builds: HashSet<u16> = [83, 84, 86, 88].into_iter().collect();
    let set = build_range(Some("21.4.".to_string()), &builds).expect("non-empty");
    let excluded: BTreeSet<u16> = [85, 87].into_iter().collect();
    assert_eq!(
        set,
        BuildSet::Range {
            prefix: Some("21.4.".to_string()),
            min: 83,
            max: 88,
            excluded
        }
    );
    assert!(!set.is_empty());
}

#[test]
fn build_range_of_nothing_is_none() {
    assert_eq!(build_range(None, &HashSet::new()), None);
    let single: HashSet<u16> = [u16::MAX].into_iter().collect();
    assert_eq!(
        build_range(None, &single),
        Some(BuildSet::Range {
            prefix: None,
            min: u16::MAX,
            max: u16::MAX,
            excluded: BTreeSet::new()
        })
    );
}

#[test]
fn empty_build_sets() {
    assert!(BuildSet::List { values: vec![] }.is_empty());
    assert!(!BuildSet::List {
        values: vec!["0.16.9".to_string()]
    }
    .is_empty());
    let all_excluded: BTreeSet<u16> = [1, 2, 3].into_iter().collect();
    assert!(BuildSet::Range {
        prefix: None,
        min: 1,
        max: 3,
        excluded: all_excluded
    }
    .is_empty());
    assert!(BuildSet::Range {
        prefix: None,
        min: 5,
        max: 4,
        excluded: BTreeSet::new()
    }
    .is_empty());
}

fn release(id: &str) -> MinecraftVersion {
    MinecraftVersion {
        id: id.to_string(),
        recommended_java: 21,
        data_pack: true,
        distributions: Vec::new(),
    }
}

#[test]
fn distributions_are_kept_in_catalog_order() {
    let mut v = release("1.21.4");
    let fabric = BuildSet::List {
        values: vec!["0.16.9".to_string()],
    };
    let paper = BuildSet::Range {
        prefix: None,
        min: 1,
        max: 40,
        excluded: BTreeSet::new(),
    };
    v.insert_distribution(Distribution::Fabric, fabric.clone());
    v.insert_distribution(Distribution::Paper, paper.clone());
    let order: Vec<Distribution> = v.distributions.iter().map(|(d, _)| *d).collect();
    assert_eq!(order, vec![Distribution::Paper, Distribution::Fabric]);
    let newer = BuildSet::List {
        values: vec!["0.16.10".to_string()],
    };
    v.insert_distribution(Distribution::Fabric, newer.clone());
    assert_eq!(v.distributions.len(), 2);
    assert_eq!(v.distributions[1], (Distribution::Fabric, newer));
    assert_eq!(v.distributions[0], (Distribution::Paper, paper));
}

#[test]
fn minecraft_catalog_lookups() {
    let catalog = MinecraftCatalog {
        schema: SCHEMA_VERSION,
        updated_at: Timestamp { secs: 1, nanos: 0 },
        versions: vec![release("1.21.4"), release("1.21.3")],
    };
    assert_eq!(catalog.latest().map(|v| v.id.as_str()), Some("1.21.4"));
    assert_eq!(catalog.version("1.21.3").map(|v| v.id.as_str()), Some("1.21.3"));
    assert!(catalog.version("1.21").is_none());
    let empty = MinecraftCatalog {
        schema: SCHEMA_VERSION,
        updated_at: Timestamp { secs: 1, nanos: 0 },
        versions: vec![],
    };
    assert!(empty.latest().is_none());
}

#[test]
fn documents_know_their_catalog() {
    let at = Timestamp { secs: 1_700_000_000, nanos: 5 };
    let runtime = Document::Runtime(Box::new(RuntimeCatalog {
        schema: SCHEMA_VERSION,
        runtime: CatalogId::Go,
        updated_at: at,
        versions: vec![Version::new(1, 23, 4)],
    }));
    assert_eq!(runtime.catalog(), CatalogId::Go);
    assert_eq!(runtime.updated_at(), at);
    assert!(runtime.as_runtime().is_some());
    assert!(runtime.as_minecraft().is_none());
    assert!(runtime.as_java().is_none());
    assert!(runtime.as_proxy().is_none());
    let minecraft = Document::Minecraft(Box::new(MinecraftCatalog {
        schema: SCHEMA_VERSION,
        updated_at: at,
        versions: vec![],
    }));
    assert_eq!(minecraft.catalog(), CatalogId::Minecraft);
    assert!(minecraft.as_minecraft().is_some());
}

#[test]
fn each_catalog_has_its_source() {
    assert_eq!(source_of(CatalogId::Minecraft), Source::Minecraft);
    assert_eq!(source_of(CatalogId::MinecraftProxy), Source::Proxy);
    assert_eq!(source_of(CatalogId::Java), Source::Java);
    for id in [CatalogId::Go, CatalogId::Node, CatalogId::Python, CatalogId::Rust] {
        assert_eq!(source_of(id), Source::Runtime);
    }
    for (k, id) in ALL_CATALOGS.iter().enumerate() {
        assert_eq!(id.rank(), k);
    }
}

#[test]
fn only_documents_of_this_schema_are_restored() {
    assert!(stored_schema_usable(SCHEMA_VERSION));
    assert!(!stored_schema_usable(0));
    assert!(!stored_schema_usable(2));
}

#[test]
fn stored_documents_must_belong_to_their_catalog() {
    let go = Document::Runtime(Box::new(RuntimeCatalog {
        schema: SCHEMA_VERSION,
        runtime: CatalogId::Go,
        updated_at: Timestamp { secs: 0, nanos: 0 },
        versions: vec![],
    }));
    assert!(stored_document_fits(CatalogId::Go, &go));
    assert!(!stored_document_fits(CatalogId::Node, &go));
    assert!(!stored_document_fits(CatalogId::Minecraft, &go));
}
