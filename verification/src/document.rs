//! A catalog document of any kind.

use crate::catalog::CatalogId;
use crate::java::JavaCatalog;
use crate::minecraft::MinecraftCatalog;
use crate::proxy::ProxyCatalog;
use crate::runtime::RuntimeCatalog;
use crate::time::Timestamp;
use vstd::prelude::*;

verus! {

/// One of the catalog documents.
#[derive(Debug, Clone)]
pub enum Document {
    Minecraft(Box<MinecraftCatalog>),
    Proxy(Box<ProxyCatalog>),
    Java(Box<JavaCatalog>),
    Runtime(Box<RuntimeCatalog>),
}

/// The catalog a document belongs to: a runtime document says which runtime it is.
pub open spec fn document_catalog(d: Document) -> CatalogId {
    match d {
        Document::Minecraft(_) => CatalogId::Minecraft,
        Document::Proxy(_) => CatalogId::MinecraftProxy,
        Document::Java(_) => CatalogId::Java,
        Document::Runtime(r) => r.runtime,
    }
}

/// When a document was built from upstream.
pub open spec fn document_updated_at(d: Document) -> Timestamp {
    match d {
        Document::Minecraft(c) => c.updated_at,
        Document::Proxy(c) => c.updated_at,
        Document::Java(c) => c.updated_at,
        Document::Runtime(c) => c.updated_at,
    }
}

impl Document {
    /// Which catalog this document belongs to.
    pub fn catalog(&self) -> (id: CatalogId)
        ensures
            id == document_catalog(*self),
    {
        match self {
            Document::Minecraft(_) => CatalogId::Minecraft,
            Document::Proxy(_) => CatalogId::MinecraftProxy,
            Document::Java(_) => CatalogId::Java,
            Document::Runtime(runtime) => runtime.runtime,
        }
    }

    /// When this document was built from upstream.
    pub fn updated_at(&self) -> (t: Timestamp)
        ensures
            t == document_updated_at(*self),
    {
        match self {
            Document::Minecraft(c) => c.updated_at,
            Document::Proxy(c) => c.updated_at,
            Document::Java(c) => c.updated_at,
            Document::Runtime(c) => c.updated_at,
        }
    }

    /// The Minecraft catalog, when this is one.
    pub fn as_minecraft(&self) -> (res: Option<&MinecraftCatalog>)
        ensures
            match *self {
                Document::Minecraft(c) => res == Some(&*c),
                _ => res is None,
            },
    {
        match self {
            Document::Minecraft(c) => Some(c),
            _ => None,
        }
    }

    /// The proxy catalog, when this is one.
    pub fn as_proxy(&self) -> (res: Option<&ProxyCatalog>)
        ensures
            match *self {
                Document::Proxy(c) => res == Some(&*c),
                _ => res is None,
            },
    {
        match self {
            Document::Proxy(c) => Some(c),
            _ => None,
        }
    }

    /// The Java catalog, when this is one.
    pub fn as_java(&self) -> (res: Option<&JavaCatalog>)
        ensures
            match *self {
                Document::Java(c) => res == Some(&*c),
                _ => res is None,
            },
    {
        match self {
            Document::Java(c) => Some(c),
            _ => None,
        }
    }

    /// The runtime catalog, when this is one.
    pub fn as_runtime(&self) -> (res: Option<&RuntimeCatalog>)
        ensures
            match *self {
                Document::Runtime(c) => res == Some(&*c),
                _ => res is None,
            },
    {
        match self {
            Document::Runtime(c) => Some(c),
            _ => None,
        }
    }
}

/// Which resolution builds a catalog's document, and so which kind of document it is.
#[derive(Debug, Clone, Copy, PartialEq, Eq, Structural)]
pub enum Source {
    /// Mojang's releases with the distributions' builds: a Minecraft document.
    Minecraft,
    /// Velocity and BungeeCord: a proxy document.
    Proxy,
    /// Temurin image tags: a Java document.
    Java,
    /// A runtime's image tags: a runtime document.
    Runtime,
}

/// The resolution that builds catalog `id`.
pub open spec fn spec_source(id: CatalogId) -> Source {
    match id {
        CatalogId::Minecraft => Source::Minecraft,
        CatalogId::MinecraftProxy => Source::Proxy,
        CatalogId::Java => Source::Java,
        CatalogId::Go | CatalogId::Node | CatalogId::Python | CatalogId::Rust => Source::Runtime,
    }
}

/// The resolution that builds catalog `id`.
pub fn source_of(id: CatalogId) -> (s: Source)
    ensures
        s == spec_source(id),
{
    match id {
        CatalogId::Minecraft => Source::Minecraft,
        CatalogId::MinecraftProxy => Source::Proxy,
        CatalogId::Java => Source::Java,
        CatalogId::Go | CatalogId::Node | CatalogId::Python | CatalogId::Rust => Source::Runtime,
    }
}

/// Whether a document persisted under schema `stored` may be restored: only one written
/// for the schema this library serves.
pub fn stored_schema_usable(stored: u32) -> (ok: bool)
    ensures
        ok == (stored == crate::SCHEMA_VERSION),
{
    stored == crate::SCHEMA_VERSION
}

/// Whether a document read back for catalog `id` belongs to that catalog.
pub fn stored_document_fits(id: CatalogId, document: &Document) -> (ok: bool)
    ensures
        ok == (document_catalog(*document) == id),
{
    document.catalog() == id
}

} // verus!
