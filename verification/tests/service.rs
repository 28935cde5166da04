use warehouse::catalog::CatalogId;
use warehouse::digest::{etag_of, same_digest};
use warehouse::document::Document;
use warehouse::java::JavaCatalog;
use warehouse::runtime::RuntimeCatalog;
use warehouse::schedule::Status;
use warehouse::service::{
    authorize, configured, find_catalog, record_refresh, restore_held, schema_served, java_document, manifest, minecraft_document, missing, proxy_document,
    refresh_catalog, runtime_document, status_report, CatalogError, CatalogState, Held,
};
use warehouse::time::Timestamp;
use warehouse::version::Version;
use warehouse::SCHEMA_VERSION;

const EMPTY_SHA256: &str = "\"e3b0c44298fc1c149afbf4c8996fb92427ae41e4649b934ca495991b7852b855\"";
const ABC_SHA256: &str = "\"ba7816bf8f01cfea414140de5dae2223b00361a396177a9cb410ff61f20015ad\"";

fn runtime_doc(id: CatalogId, secs: i64) -> Document {
    Document::Runtime(Box::new(RuntimeCatalog {
        schema: SCHEMA_VERSION,
        runtime: id,
        updated_at: Timestamp { secs, nanos: 0 },
        versions: vec![Version::new(1, 0, 0)],
    }))
}

fn state(id: CatalogId, held: Option<Held>) -> CatalogState {
    CatalogState {
        id,
        held,
        status: Status::default(),
    }
}

#[test]
fn etag_is_quoted_sha256_hex() {
    assert_eq!(etag_of(b""), EMPTY_SHA256);
    assert_eq!(etag_of(b"abc"), ABC_SHA256);
    assert_ne!(etag_of(b"abd"), etag_of(b"abc"));
}

#[test]
fn same_digest_compares_contents() {
    assert!(same_digest(b"token", b"token"));
    assert!(!same_digest(b"token", b"tokem"));
    assert!(!same_digest(b"", b"a"));
}

#[test]
fn held_documents_carry_etag_and_time() {
    let held = Held::new(runtime_doc(CatalogId::Go, 77), b"abc");
    assert_eq!(held.etag, ABC_SHA256);
    assert_eq!(held.updated_at, Timestamp { secs: 77, nanos: 0 });
    assert_eq!(held.document.catalog(), CatalogId::Go);
}

#[test]
fn manifest_leaves_out_unresolved_catalogs() {
    let mut go = state(CatalogId::Go, Some(Held::new(runtime_doc(CatalogId::Go, 5), b"")));
    go.status.record_failure(Timestamp { secs: 6, nanos: 0 }, "dockerhub".to_string());
    let catalogs = vec![
        state(CatalogId::Node, None),
        go,
        state(CatalogId::Rust, Some(Held::new(runtime_doc(CatalogId::Rust, 9), b"abc"))),
    ];
    let m = manifest(&catalogs);
    assert_eq!(m.schema, SCHEMA_VERSION);
    assert_eq!(m.catalogs.len(), 2);
    assert_eq!(m.catalogs[0].id, CatalogId::Go);
    assert_eq!(m.catalogs[0].etag, EMPTY_SHA256);
    assert!(m.catalogs[0].stale);
    assert_eq!(m.catalogs[1].id, CatalogId::Rust);
    assert_eq!(m.catalogs[1].updated_at, Timestamp { secs: 9, nanos: 0 });
    assert!(!m.catalogs[1].stale);
    assert_eq!(missing(&catalogs), vec![CatalogId::Node]);
}

#[test]
fn every_catalog_is_in_manifest_or_missing() {
    let catalogs = vec![
        state(CatalogId::Go, None),
        state(CatalogId::Java, None),
        state(CatalogId::Rust, Some(Held::new(runtime_doc(CatalogId::Rust, 1), b"x"))),
    ];
    let m = manifest(&catalogs);
    let gone = missing(&catalogs);
    for c in &catalogs {
        let listed = m.catalogs.iter().any(|e| e.id == c.id);
        assert_eq!(listed, c.held.is_some());
        assert_eq!(gone.contains(&c.id), c.held.is_none());
    }
}

#[test]
fn status_report_mirrors_each_catalog() {
    let mut node = state(CatalogId::Node, None);
    node.status.record_failure(Timestamp { secs: 3, nanos: 0 }, "dockerhub: rate limited".to_string());
    node.status.schedule(Timestamp { secs: 63, nanos: 0 });
    let catalogs = vec![node, state(CatalogId::Go, Some(Held::new(runtime_doc(CatalogId::Go, 1), b"")))];
    let r = status_report("0.1.0".to_string(), &catalogs);
    assert_eq!(r.schema, SCHEMA_VERSION);
    assert_eq!(r.version, "0.1.0");
    assert_eq!(r.catalogs.len(), 2);
    assert_eq!(r.catalogs[0].id, Some(CatalogId::Node));
    assert!(!r.catalogs[0].resolved);
    assert!(r.catalogs[0].stale);
    assert_eq!(r.catalogs[0].consecutive_failures, 1);
    assert_eq!(r.catalogs[0].last_error.as_deref(), Some("dockerhub: rate limited"));
    assert_eq!(r.catalogs[0].next_attempt, Some(Timestamp { secs: 63, nanos: 0 }));
    assert!(r.catalogs[1].resolved);
    assert!(!r.catalogs[1].stale);
}

#[test]
fn catalog_routes_answer_by_state() {
    let catalogs = vec![
        state(CatalogId::Minecraft, None),
        state(CatalogId::Go, Some(Held::new(runtime_doc(CatalogId::Go, 1), b""))),
        state(CatalogId::Node, None),
    ];
    assert_eq!(minecraft_document(&catalogs).err(), Some(CatalogError::Unavailable));
    assert_eq!(proxy_document(&catalogs).err(), Some(CatalogError::NotFound));
    assert_eq!(java_document(&catalogs).err(), Some(CatalogError::NotFound));
    let go = runtime_document(CatalogId::Go, &catalogs).expect("resolved");
    assert_eq!(go.runtime, CatalogId::Go);
    assert_eq!(runtime_document(CatalogId::Node, &catalogs).err(), Some(CatalogError::Unavailable));
    assert_eq!(runtime_document(CatalogId::Rust, &catalogs).err(), Some(CatalogError::NotFound));
    assert_eq!(runtime_document(CatalogId::Java, &catalogs).err(), Some(CatalogError::NotFound));
    assert_eq!(
        runtime_document(CatalogId::Minecraft, &catalogs).err(),
        Some(CatalogError::NotFound)
    );
}

#[test]
fn refresh_only_for_served_catalogs() {
    let catalogs = vec![state(CatalogId::Python, None)];
    assert_eq!(refresh_catalog(&catalogs, CatalogId::Python), Ok(()));
    assert_eq!(refresh_catalog(&catalogs, CatalogId::Go), Err(CatalogError::NotFound));
    assert!(find_catalog(&catalogs, CatalogId::Go).is_none());
}

#[test]
fn bearer_token_is_required_when_set() {
    assert!(authorize(None, None));
    assert!(authorize(None, Some("Bearer anything")));
    assert!(authorize(Some("changeme"), Some("Bearer changeme")));
    assert!(!authorize(Some("changeme"), Some("Bearer changemf")));
    assert!(!authorize(Some("changeme"), Some("bearer changeme")));
    assert!(!authorize(Some("changeme"), Some("changeme")));
    assert!(!authorize(Some("changeme"), None));
    assert!(!authorize(Some("changeme"), Some("Bearer changeme ")));
}

#[test]
fn configured_catalogs_follow_catalog_order() {
    let states = configured(&[CatalogId::Rust, CatalogId::Minecraft, CatalogId::Go, CatalogId::Rust]);
    let ids: Vec<CatalogId> = states.iter().map(|s| s.id).collect();
    assert_eq!(ids, vec![CatalogId::Minecraft, CatalogId::Go, CatalogId::Rust]);
    assert!(states.iter().all(|s| s.held.is_none() && !s.status.is_stale()));
    assert!(configured(&[]).is_empty());
}

#[test]
fn failed_refresh_keeps_the_document_served() {
    let mut catalogs = vec![
        state(CatalogId::Go, Some(Held::new(runtime_doc(CatalogId::Go, 5), b"abc"))),
        state(CatalogId::Rust, None),
    ];
    let before = manifest(&catalogs);
    catalogs[0].status.record_failure(Timestamp { secs: 9, nanos: 0 }, "dockerhub returned no usable entries".to_string());
    let after = manifest(&catalogs);
    assert_eq!(after.catalogs.len(), before.catalogs.len());
    assert_eq!(after.catalogs[0].etag, before.catalogs[0].etag);
    assert_eq!(after.catalogs[0].updated_at, before.catalogs[0].updated_at);
    assert!(!before.catalogs[0].stale);
    assert!(after.catalogs[0].stale);
    let go = runtime_document(CatalogId::Go, &catalogs).expect("still served");
    assert_eq!(go.updated_at, Timestamp { secs: 5, nanos: 0 });
}

#[test]
fn documents_are_served_once_resolved() {
    let java = Document::Java(Box::new(JavaCatalog {
        schema: SCHEMA_VERSION,
        updated_at: Timestamp { secs: 4, nanos: 0 },
        majors: vec![],
    }));
    let catalogs = vec![state(CatalogId::Java, Some(Held::new(java, b"{}")))];
    let served = java_document(&catalogs).expect("resolved");
    assert_eq!(served.updated_at, Timestamp { secs: 4, nanos: 0 });
    assert_eq!(minecraft_document(&catalogs).err(), Some(CatalogError::NotFound));
    assert_eq!(minecraft_document(&[]).err(), Some(CatalogError::NotFound));
}

#[test]
fn refresh_outcomes_update_the_state() {
    let mut go = state(CatalogId::Go, None);
    record_refresh(&mut go, Timestamp { secs: 10, nanos: 0 }, Err("dockerhub returned no usable entries".to_string()));
    assert!(go.held.is_none());
    assert_eq!(go.status.consecutive_failures, 1);
    assert_eq!(go.status.last_failure, Some(Timestamp { secs: 10, nanos: 0 }));
    let held = Held::new(runtime_doc(CatalogId::Go, 20), b"abc");
    record_refresh(&mut go, Timestamp { secs: 21, nanos: 0 }, Ok(held));
    assert_eq!(go.held.as_ref().map(|h| h.etag.as_str()), Some(ABC_SHA256));
    assert_eq!(go.status.consecutive_failures, 0);
    assert_eq!(go.status.last_success, Some(Timestamp { secs: 20, nanos: 0 }));
    assert_eq!(go.status.last_failure, Some(Timestamp { secs: 10, nanos: 0 }));
    record_refresh(&mut go, Timestamp { secs: 30, nanos: 0 }, Err("x".to_string()));
    assert!(go.held.is_some());
    assert!(go.status.is_stale());

    let mut node = state(CatalogId::Node, None);
    restore_held(&mut node, Held::new(runtime_doc(CatalogId::Node, 7), b""));
    assert_eq!(node.status.last_success, Some(Timestamp { secs: 7, nanos: 0 }));
    assert!(node.held.is_some());
    assert!(!node.status.is_stale());
}

#[test]
fn only_the_served_schema_is_answered() {
    assert!(schema_served(None));
    assert!(schema_served(Some("1")));
    assert!(schema_served(Some("+01")));
    assert!(!schema_served(Some("2")));
    assert!(!schema_served(Some("0")));
    assert!(!schema_served(Some("one")));
    assert!(!schema_served(Some("")));
    assert!(!schema_served(Some("4294967297")));
}
