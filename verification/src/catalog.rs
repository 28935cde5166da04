//! The catalogs an instance serves, and the manifest that lists them.

use crate::text::str_eq;
use crate::time::Timestamp;
use vstd::prelude::*;

verus! {

/// One catalog document.
#[derive(Debug, Clone, Copy, PartialEq, Eq, PartialOrd, Ord, Hash, Structural)]
pub enum CatalogId {
    Minecraft,
    MinecraftProxy,
    Go,
    Java,
    Node,
    Python,
    Rust,
}

/// Every catalog, in the order the service lists them.
pub const ALL_CATALOGS: [CatalogId; 7] = [
    CatalogId::Minecraft,
    CatalogId::MinecraftProxy,
    CatalogId::Go,
    CatalogId::Java,
    CatalogId::Node,
    CatalogId::Python,
    CatalogId::Rust,
];

/// The catalogs in the order of [`ALL_CATALOGS`].
pub open spec fn all_catalogs() -> Seq<CatalogId> {
    seq![
        CatalogId::Minecraft,
        CatalogId::MinecraftProxy,
        CatalogId::Go,
        CatalogId::Java,
        CatalogId::Node,
        CatalogId::Python,
        CatalogId::Rust,
    ]
}

/// The position of a catalog in the order the service lists them.
pub open spec fn catalog_rank(id: CatalogId) -> nat {
    match id {
        CatalogId::Minecraft => 0,
        CatalogId::MinecraftProxy => 1,
        CatalogId::Go => 2,
        CatalogId::Java => 3,
        CatalogId::Node => 4,
        CatalogId::Python => 5,
        CatalogId::Rust => 6,
    }
}

/// The name a catalog goes by in routes, files and configuration.
pub open spec fn catalog_name(id: CatalogId) -> Seq<char> {
    match id {
        CatalogId::Minecraft => "minecraft"@,
        CatalogId::MinecraftProxy => "minecraft-proxy"@,
        CatalogId::Go => "go"@,
        CatalogId::Java => "java"@,
        CatalogId::Node => "node"@,
        CatalogId::Python => "python"@,
        CatalogId::Rust => "rust"@,
    }
}

/// The catalog whose name is `s`, if any.
pub open spec fn spec_parse_catalog(s: Seq<char>) -> Option<CatalogId> {
    if exists|id: CatalogId| catalog_name(id) == s {
        Some(choose|id: CatalogId| catalog_name(id) == s)
    } else {
        None
    }
}

/// The catalogs built from Docker Hub image tags.
pub open spec fn spec_uses_docker_hub(id: CatalogId) -> bool {
    match id {
        CatalogId::Go | CatalogId::Java | CatalogId::Node | CatalogId::Python | CatalogId::Rust => true,
        CatalogId::Minecraft | CatalogId::MinecraftProxy => false,
    }
}

/// Returned when a name is not a catalog's; holds that name.
#[derive(Debug, Clone, PartialEq, Eq)]
pub struct UnknownCatalogId(pub String);

/// No two catalogs share a name.
pub proof fn lemma_catalog_names_distinct(a: CatalogId, b: CatalogId)
    ensures
        catalog_name(a) == catalog_name(b) ==> a == b,
{
    reveal_strlit("minecraft");
    reveal_strlit("minecraft-proxy");
    reveal_strlit("go");
    reveal_strlit("java");
    reveal_strlit("node");
    reveal_strlit("python");
    reveal_strlit("rust");
    if catalog_name(a) == catalog_name(b) && a != b {
        assert(catalog_name(a).len() == catalog_name(b).len());
        assert(catalog_name(a)[0] == catalog_name(b)[0]);
        assert(catalog_name(a)[1] == catalog_name(b)[1]);
    }
}

/// A catalog's name parses back to that catalog.
pub proof fn lemma_catalog_name_round_trip(id: CatalogId)
    ensures
        spec_parse_catalog(catalog_name(id)) == Some(id),
{
    let other = choose|x: CatalogId| catalog_name(x) == catalog_name(id);
    lemma_catalog_names_distinct(other, id);
}

impl CatalogId {
    /// The position of the catalog in [`ALL_CATALOGS`].
    pub fn rank(self) -> (r: usize)
        ensures
            r == catalog_rank(self),
    {
        match self {
            CatalogId::Minecraft => 0,
            CatalogId::MinecraftProxy => 1,
            CatalogId::Go => 2,
            CatalogId::Java => 3,
            CatalogId::Node => 4,
            CatalogId::Python => 5,
            CatalogId::Rust => 6,
        }
    }

    /// The catalog's name.
    pub fn as_str(self) -> (s: &'static str)
        ensures
            s@ == catalog_name(self),
    {
        match self {
            CatalogId::Minecraft => "minecraft",
            CatalogId::MinecraftProxy => "minecraft-proxy",
            CatalogId::Go => "go",
            CatalogId::Java => "java",
            CatalogId::Node => "node",
            CatalogId::Python => "python",
            CatalogId::Rust => "rust",
        }
    }

    /// Whether the catalog is built from Docker Hub image tags.
    pub fn uses_docker_hub(self) -> (b: bool)
        ensures
            b == spec_uses_docker_hub(self),
    {
        match self {
            CatalogId::Go | CatalogId::Java | CatalogId::Node | CatalogId::Python
            | CatalogId::Rust => true,
            CatalogId::Minecraft | CatalogId::MinecraftProxy => false,
        }
    }

    /// The catalog named `value`; on failure the error holds `value`.
    pub fn parse(value: &str) -> (res: Result<CatalogId, UnknownCatalogId>)
        ensures
            match res {
                Ok(id) => spec_parse_catalog(value@) == Some(id) && catalog_name(id) == value@,
                Err(e) => spec_parse_catalog(value@) is None && e.0@ == value@,
            },
    {
        let all = ALL_CATALOGS;
        assert(all@ == all_catalogs());
        let mut i: usize = 0;
        while i < 7
            invariant
                i <= 7,
                all@ == all_catalogs(),
                forall|j: int| 0 <= j < i ==> catalog_name(all_catalogs()[j]) != value@,
            decreases 7 - i,
        {
            let id = all[i];
            if str_eq(id.as_str(), value) {
                proof {
                    lemma_catalog_name_round_trip(id);
                }
                return Ok(id);
            }
            i = i + 1;
        }
        proof {
            if exists|id: CatalogId| catalog_name(id) == value@ {
                let id = choose|id: CatalogId| catalog_name(id) == value@;
                match id {
                    CatalogId::Minecraft => assert(catalog_name(all_catalogs()[0]) != value@),
                    CatalogId::MinecraftProxy => assert(catalog_name(all_catalogs()[1]) != value@),
                    CatalogId::Go => assert(catalog_name(all_catalogs()[2]) != value@),
                    CatalogId::Java => assert(catalog_name(all_catalogs()[3]) != value@),
                    CatalogId::Node => assert(catalog_name(all_catalogs()[4]) != value@),
                    CatalogId::Python => assert(catalog_name(all_catalogs()[5]) != value@),
                    CatalogId::Rust => assert(catalog_name(all_catalogs()[6]) != value@),
                }
            }
        }
        Err(UnknownCatalogId(value.to_owned()))
    }
}

impl core::str::FromStr for CatalogId {
    type Err = UnknownCatalogId;

    fn from_str(value: &str) -> (res: Result<Self, Self::Err>)
        ensures
            match res {
                Ok(id) => spec_parse_catalog(value@) == Some(id) && catalog_name(id) == value@,
                Err(e) => spec_parse_catalog(value@) is None && e.0@ == value@,
            },
    {
        CatalogId::parse(value)
    }
}

/// The manifest: every catalog this instance holds, with its etag and freshness.
#[derive(Debug, Clone)]
pub struct Manifest {
    pub schema: u32,
    pub catalogs: Vec<CatalogEntry>,
}

/// One resolved catalog as the manifest lists it.
#[derive(Debug, Clone)]
pub struct CatalogEntry {
    pub id: CatalogId,
    pub etag: String,
    pub updated_at: Timestamp,
    pub stale: bool,
}

} // verus!
