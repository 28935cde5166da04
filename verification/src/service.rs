//! What the service answers: the manifest, the status report, each catalog route and who
//! may call them.

use crate::catalog::{all_catalogs, catalog_rank, spec_uses_docker_hub, CatalogEntry, CatalogId, Manifest, ALL_CATALOGS};
use crate::digest::{etag_of, same_digest, sha256, spec_etag};
use crate::document::{document_updated_at, Document};
use crate::java::JavaCatalog;
use crate::minecraft::MinecraftCatalog;
use crate::proxy::ProxyCatalog;
use crate::runtime::RuntimeCatalog;
use crate::schedule::Status;
use crate::status::{CatalogStatus, StatusReport};
use crate::text::{chars_of, parse_uint, spec_parse_uint};
use crate::time::Timestamp;
use crate::SCHEMA_VERSION;
use std::sync::Arc;
use vstd::prelude::*;

verus! {

/// A catalog document as the service holds it, with its etag and build time.
#[derive(Debug, Clone)]
pub struct Held {
    pub document: Arc<Document>,
    pub etag: String,
    pub updated_at: Timestamp,
}

impl Held {
    /// Holds `document`, whose JSON encoding is `encoded`.
    pub fn new(document: Document, encoded: &[u8]) -> (h: Held)
        ensures
            *h.document == document,
            h.etag@ == spec_etag(encoded@),
            h.etag@.len() == 66,
            h.updated_at == document_updated_at(document),
    {
        let updated_at = document.updated_at();
        let etag = etag_of(encoded);
        Held { document: Arc::new(document), etag, updated_at }
    }
}

/// One configured catalog: which it is, the document held for it if any, and its
/// refresh history.
#[derive(Debug, Clone)]
pub struct CatalogState {
    pub id: CatalogId,
    pub held: Option<Held>,
    pub status: Status,
}

/// Records how a refresh at `at` went: a document built is held from now on and clears
/// the failure count; a failure, with what went wrong, keeps the document held so far.
pub fn record_refresh(state: &mut CatalogState, at: Timestamp, outcome: Result<Held, String>)
    ensures
        final(state).id == old(state).id,
        final(state).status.next_attempt == old(state).status.next_attempt,
        match outcome {
            Ok(h) => {
                &&& final(state).held == Some(h)
                &&& final(state).status.consecutive_failures == 0
                &&& final(state).status.last_error is None
                &&& final(state).status.last_success == Some(h.updated_at)
                &&& final(state).status.last_failure == old(state).status.last_failure
            },
            Err(message) => {
                &&& final(state).held == old(state).held
                &&& final(state).status.consecutive_failures == if old(state).status.consecutive_failures
                    == u32::MAX {
                    u32::MAX
                } else {
                    (old(state).status.consecutive_failures + 1) as u32
                }
                &&& final(state).status.last_failure == Some(at)
                &&& final(state).status.last_error == Some(message)
                &&& final(state).status.last_success == old(state).status.last_success
            },
        },
{
    match outcome {
        Ok(held) => {
            let updated_at = held.updated_at;
            state.held = Some(held);
            state.status.record_success(updated_at);
        },
        Err(message) => state.status.record_failure(at, message),
    }
}

/// Serves a document read back from disk: it is held, and counts as the last success;
/// the failure count stays as it was.
pub fn restore_held(state: &mut CatalogState, held: Held)
    ensures
        final(state).id == old(state).id,
        final(state).held == Some(held),
        final(state).status.last_success == Some(held.updated_at),
        final(state).status.consecutive_failures == old(state).status.consecutive_failures,
        final(state).status.last_failure == old(state).status.last_failure,
        final(state).status.last_error == old(state).status.last_error,
        final(state).status.next_attempt == old(state).status.next_attempt,
{
    let updated_at = held.updated_at;
    state.status.record_restored(updated_at);
    state.held = Some(held);
}

/// A refresh history with nothing in it yet.
pub open spec fn fresh_status(s: Status) -> bool {
    &&& s.last_success is None
    &&& s.last_failure is None
    &&& s.last_error is None
    &&& s.consecutive_failures == 0
    &&& s.next_attempt is None
}

/// The states the service starts with for the configured catalogs: each configured
/// catalog once, in the service's catalog order, holding nothing, with an empty history.
pub fn configured(ids: &[CatalogId]) -> (states: Vec<CatalogState>)
    ensures
        forall|i: int, j: int|
            0 <= i < j < states@.len() ==> catalog_rank(#[trigger] states@[i].id) < catalog_rank(
                #[trigger] states@[j].id,
            ),
        forall|id: CatalogId|
            ids@.contains(id) <==> exists|i: int| 0 <= i < states@.len() && (#[trigger] states@[i]).id == id,
        forall|i: int|
            0 <= i < states@.len() ==> (#[trigger] states@[i]).held is None && fresh_status(
                states@[i].status,
            ),
{
    let all = ALL_CATALOGS;
    assert(all@ == all_catalogs());
    let mut states: Vec<CatalogState> = Vec::new();
    let mut k: usize = 0;
    while k < 7
        invariant
            k <= 7,
            all@ == all_catalogs(),
            forall|i: int| 0 <= i < states@.len() ==> catalog_rank(#[trigger] states@[i].id) < k,
            forall|i: int, j: int|
                0 <= i < j < states@.len() ==> catalog_rank(#[trigger] states@[i].id) < catalog_rank(
                    #[trigger] states@[j].id,
                ),
            forall|id: CatalogId|
                catalog_rank(id) < k ==> (ids@.contains(id) <==> exists|i: int|
                    0 <= i < states@.len() && (#[trigger] states@[i]).id == id),
            forall|id: CatalogId|
                catalog_rank(id) >= k ==> !exists|i: int|
                    0 <= i < states@.len() && (#[trigger] states@[i]).id == id,
            forall|i: int|
                0 <= i < states@.len() ==> (#[trigger] states@[i]).held is None && fresh_status(
                    states@[i].status,
                ),
        decreases 7 - k,
    {
        let id = all[k];
        assert(catalog_rank(id) == k);
        let mut wanted = false;
        let mut j: usize = 0;
        while j < ids.len()
            invariant
                j <= ids@.len(),
                wanted <==> exists|m: int| 0 <= m < j && ids@[m] == id,
            decreases ids@.len() - j,
        {
            if ids[j] == id {
                wanted = true;
            }
            j = j + 1;
        }
        let ghost before = states@;
        if wanted {
            states.push(CatalogState { id, held: None, status: Status::default() });
            assert forall|x: CatalogId| catalog_rank(x) < k + 1 implies (ids@.contains(x) <==> exists|i: int|
                0 <= i < states@.len() && (#[trigger] states@[i]).id == x) by {
                if x == id {
                    assert(states@[states@.len() - 1].id == id);
                } else {
                    if exists|i: int| 0 <= i < states@.len() && (#[trigger] states@[i]).id == x {
                        let i = choose|i: int| 0 <= i < states@.len() && (#[trigger] states@[i]).id == x;
                        assert(i < before.len());
                        assert(before[i].id == x);
                    }
                    if exists|i: int| 0 <= i < before.len() && (#[trigger] before[i]).id == x {
                        let i = choose|i: int| 0 <= i < before.len() && (#[trigger] before[i]).id == x;
                        assert(states@[i].id == x);
                    }
                }
            }
        } else {
            assert forall|x: CatalogId| catalog_rank(x) < k + 1 implies (ids@.contains(x) <==> exists|i: int|
                0 <= i < states@.len() && (#[trigger] states@[i]).id == x) by {
                if x == id {
                    assert(!ids@.contains(x));
                }
            }
        }
        k = k + 1;
    }
    assert forall|id: CatalogId| ids@.contains(id) <==> exists|i: int| 0 <= i < states@.len() && (#[trigger] states@[i]).id == id by {
        assert(catalog_rank(id) < 7);
    }
    states
}

/// Why a catalog route cannot answer with a document.
#[derive(Debug, Clone, Copy, PartialEq, Eq, Structural)]
pub enum CatalogError {
    /// No such catalog, or this instance does not serve it.
    NotFound,
    /// The catalog exists but has not been resolved yet.
    Unavailable,
}

/// The manifest entries of the resolved catalogs, in order.
pub open spec fn manifest_entries_match(catalogs: Seq<CatalogState>, entries: Seq<CatalogEntry>) -> bool
    decreases catalogs.len(),
{
    if catalogs.len() == 0 {
        entries.len() == 0
    } else {
        match catalogs.last().held {
            Some(held) => {
                &&& entries.len() > 0
                &&& entries.last().id == catalogs.last().id
                &&& entries.last().etag@ == held.etag@
                &&& entries.last().updated_at == held.updated_at
                &&& entries.last().stale == (catalogs.last().status.consecutive_failures > 0)
                &&& manifest_entries_match(catalogs.drop_last(), entries.drop_last())
            },
            None => manifest_entries_match(catalogs.drop_last(), entries),
        }
    }
}

/// The manifest: every resolved catalog, in order, with its etag, build time and whether
/// its last refresh failed. A catalog never resolved is left out.
pub fn manifest(catalogs: &[CatalogState]) -> (m: Manifest)
    ensures
        m.schema == SCHEMA_VERSION,
        manifest_entries_match(catalogs@, m.catalogs@),
{
    let mut entries: Vec<CatalogEntry> = Vec::new();
    let mut i: usize = 0;
    assert(catalogs@.take(0) =~= Seq::<CatalogState>::empty());
    while i < catalogs.len()
        invariant
            i <= catalogs@.len(),
            manifest_entries_match(catalogs@.take(i as int), entries@),
        decreases catalogs@.len() - i,
    {
        let c = &catalogs[i];
        let ghost e0 = entries@;
        assert(catalogs@.take(i + 1).drop_last() =~= catalogs@.take(i as int));
        match &c.held {
            Some(held) => {
                entries.push(
                    CatalogEntry {
                        id: c.id,
                        etag: held.etag.clone(),
                        updated_at: held.updated_at,
                        stale: c.status.is_stale(),
                    },
                );
                assert(entries@.drop_last() =~= e0);
            },
            None => {},
        }
        i = i + 1;
    }
    assert(catalogs@.take(catalogs@.len() as int) =~= catalogs@);
    Manifest { schema: SCHEMA_VERSION, catalogs: entries }
}

/// The status the report gives for one catalog.
pub open spec fn reported_status(c: CatalogState, s: CatalogStatus) -> bool {
    &&& s.id == Some(c.id)
    &&& s.resolved == (c.held is Some)
    &&& s.stale == (c.status.consecutive_failures > 0)
    &&& s.last_success == c.status.last_success
    &&& s.last_failure == c.status.last_failure
    &&& s.last_error == c.status.last_error
    &&& s.consecutive_failures == c.status.consecutive_failures
    &&& s.next_attempt == c.status.next_attempt
}

/// The status report: every configured catalog's status, in order.
pub fn status_report(version: String, catalogs: &[CatalogState]) -> (r: StatusReport)
    ensures
        r.schema == SCHEMA_VERSION,
        r.version == version,
        r.catalogs@.len() == catalogs@.len(),
        forall|i: int| 0 <= i < catalogs@.len() ==> reported_status(catalogs@[i], #[trigger] r.catalogs@[i]),
{
    let mut out: Vec<CatalogStatus> = Vec::new();
    let mut i: usize = 0;
    while i < catalogs.len()
        invariant
            i <= catalogs@.len(),
            out@.len() == i,
            forall|j: int| 0 <= j < i ==> reported_status(catalogs@[j], #[trigger] out@[j]),
        decreases catalogs@.len() - i,
    {
        let c = &catalogs[i];
        let last_error = match &c.status.last_error {
            Some(e) => Some(e.clone()),
            None => None,
        };
        out.push(
            CatalogStatus {
                id: Some(c.id),
                resolved: c.held.is_some(),
                stale: c.status.is_stale(),
                last_success: c.status.last_success,
                last_failure: c.status.last_failure,
                last_error,
                consecutive_failures: c.status.consecutive_failures,
                next_attempt: c.status.next_attempt,
            },
        );
        i = i + 1;
    }
    StatusReport { schema: SCHEMA_VERSION, version, catalogs: out }
}

/// Position `i` holds the first configured state of catalog `id`.
pub open spec fn first_configured(catalogs: Seq<CatalogState>, id: CatalogId, i: int) -> bool {
    &&& 0 <= i < catalogs.len()
    &&& catalogs[i].id == id
    &&& forall|j: int| 0 <= j < i ==> (#[trigger] catalogs[j]).id != id
}

/// The configured catalog `id`, if this instance serves it.
pub fn find_catalog(catalogs: &[CatalogState], id: CatalogId) -> (res: Option<&CatalogState>)
    ensures
        match res {
            Some(c) => exists|i: int| first_configured(catalogs@, id, i) && catalogs@[i] == *c,
            None => forall|i: int| 0 <= i < catalogs@.len() ==> (#[trigger] catalogs@[i]).id != id,
        },
{
    let mut i: usize = 0;
    while i < catalogs.len()
        invariant
            i <= catalogs@.len(),
            forall|j: int| 0 <= j < i ==> (#[trigger] catalogs@[j]).id != id,
        decreases catalogs@.len() - i,
    {
        if catalogs[i].id == id {
            assert(first_configured(catalogs@, id, i as int));
            return Some(&catalogs[i]);
        }
        i = i + 1;
    }
    None
}

/// The document held for a catalog, if any.
pub open spec fn held_document(state: Option<CatalogState>) -> Option<Document> {
    match state {
        Some(c) => match c.held {
            Some(h) => Some(*h.document),
            None => None,
        },
        None => None,
    }
}

/// The Minecraft catalog route: `NotFound` when this instance does not serve the catalog,
/// `Unavailable` until it is resolved.
pub fn minecraft_document(catalogs: &[CatalogState]) -> (res: Result<&MinecraftCatalog, CatalogError>)
    ensures
        match res {
            Ok(c) => exists|i: int|
                first_configured(catalogs@, CatalogId::Minecraft, i) && held_document(Some(catalogs@[i]))
                    == Some(Document::Minecraft(Box::new(*c))),
            Err(CatalogError::NotFound) => forall|i: int|
                0 <= i < catalogs@.len() ==> (#[trigger] catalogs@[i]).id != CatalogId::Minecraft,
            Err(CatalogError::Unavailable) => exists|i: int|
                first_configured(catalogs@, CatalogId::Minecraft, i) && !(held_document(
                    Some(catalogs@[i]),
                ) matches Some(Document::Minecraft(_))),
        },
{
    match find_catalog(catalogs, CatalogId::Minecraft) {
        Some(c) => match &c.held {
            Some(h) => match h.document.as_minecraft() {
                Some(m) => Ok(m),
                None => Err(CatalogError::Unavailable),
            },
            None => Err(CatalogError::Unavailable),
        },
        None => Err(CatalogError::NotFound),
    }
}

/// The proxy catalog route: `NotFound` when this instance does not serve the catalog,
/// `Unavailable` until it is resolved.
pub fn proxy_document(catalogs: &[CatalogState]) -> (res: Result<&ProxyCatalog, CatalogError>)
    ensures
        match res {
            Ok(c) => exists|i: int|
                first_configured(catalogs@, CatalogId::MinecraftProxy, i) && held_document(
                    Some(catalogs@[i]),
                ) == Some(Document::Proxy(Box::new(*c))),
            Err(CatalogError::NotFound) => forall|i: int|
                0 <= i < catalogs@.len() ==> (#[trigger] catalogs@[i]).id != CatalogId::MinecraftProxy,
            Err(CatalogError::Unavailable) => exists|i: int|
                first_configured(catalogs@, CatalogId::MinecraftProxy, i) && !(held_document(
                    Some(catalogs@[i]),
                ) matches Some(Document::Proxy(_))),
        },
{
    match find_catalog(catalogs, CatalogId::MinecraftProxy) {
        Some(c) => match &c.held {
            Some(h) => match h.document.as_proxy() {
                Some(m) => Ok(m),
                None => Err(CatalogError::Unavailable),
            },
            None => Err(CatalogError::Unavailable),
        },
        None => Err(CatalogError::NotFound),
    }
}

/// The Java catalog route: `NotFound` when this instance does not serve the catalog,
/// `Unavailable` until it is resolved.
pub fn java_document(catalogs: &[CatalogState]) -> (res: Result<&JavaCatalog, CatalogError>)
    ensures
        match res {
            Ok(c) => exists|i: int|
                first_configured(catalogs@, CatalogId::Java, i) && held_document(Some(catalogs@[i]))
                    == Some(Document::Java(Box::new(*c))),
            Err(CatalogError::NotFound) => forall|i: int|
                0 <= i < catalogs@.len() ==> (#[trigger] catalogs@[i]).id != CatalogId::Java,
            Err(CatalogError::Unavailable) => exists|i: int|
                first_configured(catalogs@, CatalogId::Java, i) && !(held_document(
                    Some(catalogs@[i]),
                ) matches Some(Document::Java(_))),
        },
{
    match find_catalog(catalogs, CatalogId::Java) {
        Some(c) => match &c.held {
            Some(h) => match h.document.as_java() {
                Some(m) => Ok(m),
                None => Err(CatalogError::Unavailable),
            },
            None => Err(CatalogError::Unavailable),
        },
        None => Err(CatalogError::NotFound),
    }
}

/// A runtime catalog route: `NotFound` for anything but Go, Node, Python and Rust, and for
/// a runtime this instance does not serve; `Unavailable` until it is resolved.
pub fn runtime_document(runtime: CatalogId, catalogs: &[CatalogState]) -> (res: Result<&RuntimeCatalog, CatalogError>)
    ensures
        match res {
            Ok(r) => {
                &&& spec_uses_docker_hub(runtime)
                &&& runtime != CatalogId::Java
                &&& exists|i: int|
                    first_configured(catalogs@, runtime, i) && held_document(Some(catalogs@[i]))
                        == Some(Document::Runtime(Box::new(*r)))
            },
            Err(CatalogError::NotFound) => {
                ||| !spec_uses_docker_hub(runtime)
                ||| runtime == CatalogId::Java
                ||| forall|i: int| 0 <= i < catalogs@.len() ==> (#[trigger] catalogs@[i]).id != runtime
            },
            Err(CatalogError::Unavailable) => {
                &&& spec_uses_docker_hub(runtime)
                &&& runtime != CatalogId::Java
                &&& exists|i: int|
                    first_configured(catalogs@, runtime, i) && !(held_document(Some(catalogs@[i]))
                        matches Some(Document::Runtime(_)))
            },
        },
{
    if !runtime.uses_docker_hub() || runtime == CatalogId::Java {
        return Err(CatalogError::NotFound);
    }
    let state = match find_catalog(catalogs, runtime) {
        Some(c) => c,
        None => return Err(CatalogError::NotFound),
    };
    match &state.held {
        Some(h) => match h.document.as_runtime() {
            Some(r) => Ok(r),
            None => Err(CatalogError::Unavailable),
        },
        None => Err(CatalogError::Unavailable),
    }
}

/// A refresh request: served for a configured catalog, `NotFound` otherwise.
pub fn refresh_catalog(catalogs: &[CatalogState], id: CatalogId) -> (res: Result<(), CatalogError>)
    ensures
        res is Ok <==> exists|i: int| 0 <= i < catalogs@.len() && (#[trigger] catalogs@[i]).id == id,
        res matches Err(e) ==> e == CatalogError::NotFound,
{
    match find_catalog(catalogs, id) {
        Some(_) => Ok(()),
        None => Err(CatalogError::NotFound),
    }
}

/// The configured catalogs that hold no document yet, in order.
pub open spec fn spec_missing(catalogs: Seq<CatalogState>) -> Seq<CatalogId>
    decreases catalogs.len(),
{
    if catalogs.len() == 0 {
        Seq::empty()
    } else if catalogs.last().held is None {
        spec_missing(catalogs.drop_last()).push(catalogs.last().id)
    } else {
        spec_missing(catalogs.drop_last())
    }
}

/// The configured catalogs that hold no document yet.
pub fn missing(catalogs: &[CatalogState]) -> (ids: Vec<CatalogId>)
    ensures
        ids@ == spec_missing(catalogs@),
{
    let mut ids: Vec<CatalogId> = Vec::new();
    let mut i: usize = 0;
    assert(catalogs@.take(0) =~= Seq::<CatalogState>::empty());
    while i < catalogs.len()
        invariant
            i <= catalogs@.len(),
            ids@ == spec_missing(catalogs@.take(i as int)),
        decreases catalogs@.len() - i,
    {
        assert(catalogs@.take(i + 1).drop_last() =~= catalogs@.take(i as int));
        if catalogs[i].held.is_none() {
            ids.push(catalogs[i].id);
        }
        i = i + 1;
    }
    assert(catalogs@.take(catalogs@.len() as int) =~= catalogs@);
    ids
}

/// Whether a catalog request may be answered: one that names no schema, or names the
/// schema this instance serves as a `u32`, is; any other is answered `409 Conflict`.
pub open spec fn spec_schema_served(requested: Option<Seq<char>>) -> bool {
    match requested {
        None => true,
        Some(r) => spec_parse_uint(r, u32::MAX as nat) == Some(SCHEMA_VERSION as nat),
    }
}

/// Whether a catalog request with this `schema` query parameter may be answered.
pub fn schema_served(requested: Option<&str>) -> (ok: bool)
    ensures
        ok == spec_schema_served(
            match requested {
                Some(r) => Some(r@),
                None => None,
            },
        ),
{
    match requested {
        None => true,
        Some(r) => {
            let chars = chars_of(r);
            assert(chars@.subrange(0, chars@.len() as int) =~= r@);
            match parse_uint(chars.as_slice(), 0, chars.len(), 0xffff_ffff) {
                Some(n) => n == SCHEMA_VERSION as u64,
                None => false,
            }
        },
    }
}

/// The token a request presents: what follows `Bearer ` in its `Authorization` header,
/// or nothing.
pub open spec fn presented_token(header: Option<Seq<char>>) -> Seq<char> {
    match header {
        Some(h) => if h.len() >= 7 && h.take(7) == "Bearer "@ {
            h.skip(7)
        } else {
            Seq::empty()
        },
        None => Seq::empty(),
    }
}

/// Whether a request may pass: always when the instance sets no token; otherwise when
/// the token it presents has the same SHA-256 digest as the instance's.
pub open spec fn spec_authorized(expected: Option<Seq<char>>, header: Option<Seq<char>>) -> bool {
    match expected {
        None => true,
        Some(e) => sha256(
            vstd::utf8::encode_utf8(presented_token(header)),
        ) == sha256(vstd::utf8::encode_utf8(e)),
    }
}

/// Whether a request with this `Authorization` header may pass.
pub fn authorize(expected: Option<&str>, header: Option<&str>) -> (ok: bool)
    ensures
        ok == spec_authorized(
            match expected { Some(e) => Some(e@), None => None },
            match header { Some(h) => Some(h@), None => None },
        ),
{
    let expected = match expected {
        Some(e) => e,
        None => return true,
    };
    proof {
        reveal_strlit("Bearer ");
    }
    let presented: Vec<char> = match header {
        Some(h) => {
            let chars = chars_of(h);
            if chars.len() >= 7 && chars[0] == 'B' && chars[1] == 'e' && chars[2] == 'a' && chars[3]
                == 'r' && chars[4] == 'e' && chars[5] == 'r' && chars[6] == ' ' {
                assert(chars@.take(7) =~= "Bearer "@);
                let mut rest: Vec<char> = Vec::new();
                let mut i: usize = 7;
                while i < chars.len()
                    invariant
                        7 <= i <= chars@.len(),
                        rest@ == chars@.subrange(7, i as int),
                    decreases chars@.len() - i,
                {
                    rest.push(chars[i]);
                    i = i + 1;
                    assert(rest@ =~= chars@.subrange(7, i as int));
                }
                assert(rest@ =~= chars@.skip(7));
                rest
            } else {
                proof {
                    if chars@.len() >= 7 && chars@.take(7) == "Bearer "@ {
                        assert(chars@.take(7)[0] == 'B');
                        assert(chars@.take(7)[1] == 'e');
                        assert(chars@.take(7)[2] == 'a');
                        assert(chars@.take(7)[3] == 'r');
                        assert(chars@.take(7)[4] == 'e');
                        assert(chars@.take(7)[5] == 'r');
                        assert(chars@.take(7)[6] == ' ');
                    }
                }
                Vec::new()
            }
        },
        None => Vec::new(),
    };
    let presented_text = crate::text::string_from_chars(presented.as_slice());
    same_digest(presented_text.as_str().as_bytes(), expected.as_bytes())
}

} // verus!
