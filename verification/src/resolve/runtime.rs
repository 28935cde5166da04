//! The language runtime catalogs and the Temurin catalog, from Docker Hub image tags.

use crate::catalog::CatalogId;
use crate::java::{java_lt, java_major, parse_java_range, spec_parse_java, JavaCatalog, JavaMajor, JavaVersion};
use crate::resolve::error::ResolveError;
use crate::runtime::RuntimeCatalog;
use crate::text::chars_of;
use crate::time::{now, Timestamp};
use crate::version::{spec_parse_version, version_lt, Version};
use crate::SCHEMA_VERSION;
use vstd::prelude::*;

verus! {

/// Lowest Node major release the catalog keeps.
pub const NODE_MINIMUM_MAJOR: u16 = 12;

/// The Docker Hub image a catalog is built from.
pub open spec fn spec_image(id: CatalogId) -> Option<Seq<char>> {
    match id {
        CatalogId::Go => Some("golang"@),
        CatalogId::Java => Some("eclipse-temurin"@),
        CatalogId::Node => Some("node"@),
        CatalogId::Python => Some("python"@),
        CatalogId::Rust => Some("rust"@),
        CatalogId::Minecraft | CatalogId::MinecraftProxy => None,
    }
}

/// The Docker Hub image a catalog is built from, for the catalogs that come from there.
pub fn image(id: CatalogId) -> (res: Option<&'static str>)
    ensures
        match res {
            Some(s) => spec_image(id) == Some(s@),
            None => spec_image(id) is None,
        },
{
    match id {
        CatalogId::Go => Some("golang"),
        CatalogId::Java => Some("eclipse-temurin"),
        CatalogId::Node => Some("node"),
        CatalogId::Python => Some("python"),
        CatalogId::Rust => Some("rust"),
        CatalogId::Minecraft | CatalogId::MinecraftProxy => None,
    }
}

/// The releases a runtime catalog keeps: Node from 12 on, Python from 3.3 on, every
/// release of the others.
pub open spec fn spec_accepted(id: CatalogId, v: Version) -> bool {
    match id {
        CatalogId::Node => v.major >= NODE_MINIMUM_MAJOR,
        CatalogId::Python => v.major > 3 || (v.major == 3 && v.minor >= 3),
        _ => true,
    }
}

/// Whether a runtime catalog keeps a release.
pub fn accepted(id: CatalogId, version: Version) -> (res: bool)
    ensures
        res == spec_accepted(id, version),
{
    match id {
        CatalogId::Node => version.major >= NODE_MINIMUM_MAJOR,
        CatalogId::Python => version.major > 3 || (version.major == 3 && version.minor >= 3),
        _ => true,
    }
}

/// Each element is a newer release than every element after it.
pub open spec fn newest_first(s: Seq<Version>) -> bool {
    forall|i: int, j: int| 0 <= i < j < s.len() ==> version_lt(#[trigger] s[j], #[trigger] s[i])
}

/// The characters of each tag.
pub open spec fn tag_texts(tags: Seq<String>) -> Seq<Seq<char>> {
    tags.map_values(|t: String| t@)
}

/// The releases named by some tag that the catalog keeps.
pub open spec fn runtime_candidates(id: CatalogId, tags: Seq<Seq<char>>) -> Set<Version> {
    Set::new(
        |v: Version|
            exists|i: int|
                0 <= i < tags.len() && spec_parse_version(#[trigger] tags[i]) == Some(v)
                    && spec_accepted(id, v),
    )
}

/// Adds `v` to a newest-first list, keeping it newest first and free of repeats.
pub fn insert_newest_first(list: &mut Vec<Version>, v: Version)
    requires
        newest_first(old(list)@),
    ensures
        newest_first(final(list)@),
        final(list)@.to_set() == old(list)@.to_set().insert(v),
{
    let ghost l0 = list@;
    let mut p: usize = 0;
    while p < list.len() && v < list[p]
        invariant
            list@ == l0,
            newest_first(l0),
            p <= l0.len(),
            forall|j: int| 0 <= j < p ==> version_lt(v, #[trigger] l0[j]),
        decreases l0.len() - p,
    {
        p = p + 1;
    }
    if p < list.len() && list[p] == v {
        assert(l0.to_set().insert(v) =~= l0.to_set()) by {
            assert(l0.to_set().contains(l0[p as int]));
        }
        return;
    }
    list.insert(p, v);
    proof {
        let l1 = list@;
        assert(forall|j: int| 0 <= j < p ==> #[trigger] l1[j] == l0[j]);
        assert(forall|j: int| p < j < l1.len() ==> #[trigger] l1[j] == l0[j - 1]);
        assert(l1[p as int] == v);
        if p < l0.len() {
            assert(version_lt(l0[p as int], v));
        }
        assert forall|i: int, j: int| 0 <= i < j < l1.len() implies version_lt(
            #[trigger] l1[j],
            #[trigger] l1[i],
        ) by {
            if j < p {
            } else if j == p {
            } else if i < p {
                assert(version_lt(l0[j - 1], l0[p as int]) || j - 1 == p);
            } else if i == p {
                assert(version_lt(l0[j - 1], l0[p as int]) || j - 1 == p);
            } else {
            }
        }
        assert forall|x: Version| l1.to_set().contains(x) <==> l0.to_set().insert(v).contains(
            x,
        ) by {
            if l1.to_set().contains(x) {
                let k = choose|k: int| 0 <= k < l1.len() && l1[k] == x;
                if k < p {
                    assert(l0.to_set().contains(l0[k]));
                } else if k > p {
                    assert(l0.to_set().contains(l0[k - 1]));
                }
            }
            if l0.to_set().contains(x) {
                let k = choose|k: int| 0 <= k < l0.len() && l0[k] == x;
                if k < p {
                    assert(l1[k] == x);
                } else {
                    assert(l1[k + 1] == x);
                }
            }
            if x == v {
                assert(l1[p as int] == v);
            }
        }
        assert(l1.to_set() =~= l0.to_set().insert(v));
    }
}

/// Upstream name reported when Docker Hub gives nothing usable.
pub open spec fn dockerhub() -> Seq<char> {
    "dockerhub"@
}

/// The candidates of one more tag are those of the tags before it, plus what it names.
#[verifier::spinoff_prover]
proof fn lemma_runtime_candidates_step(id: CatalogId, tags: Seq<Seq<char>>, i: int)
    requires
        0 <= i < tags.len(),
    ensures
        runtime_candidates(id, tags.take(i + 1)) == (match spec_parse_version(tags[i]) {
            Some(v) => if spec_accepted(id, v) {
                runtime_candidates(id, tags.take(i)).insert(v)
            } else {
                runtime_candidates(id, tags.take(i))
            },
            None => runtime_candidates(id, tags.take(i)),
        }),
{
    let a = tags.take(i + 1);
    let b = tags.take(i);
    assert forall|k: int| 0 <= k < i implies a[k] == b[k] by {}
    assert(a[i] == tags[i]);
    let lhs = runtime_candidates(id, a);
    let rhs = match spec_parse_version(tags[i]) {
        Some(v) => if spec_accepted(id, v) {
            runtime_candidates(id, b).insert(v)
        } else {
            runtime_candidates(id, b)
        },
        None => runtime_candidates(id, b),
    };
    assert forall|v: Version| lhs.contains(v) <==> rhs.contains(v) by {
        if lhs.contains(v) {
            let k = choose|k: int|
                0 <= k < a.len() && spec_parse_version(#[trigger] a[k]) == Some(v)
                    && spec_accepted(id, v);
            if k < i {
                assert(spec_parse_version(b[k]) == Some(v));
            }
        }
        if runtime_candidates(id, b).contains(v) {
            let k = choose|k: int|
                0 <= k < b.len() && spec_parse_version(#[trigger] b[k]) == Some(v)
                    && spec_accepted(id, v);
            assert(spec_parse_version(a[k]) == Some(v));
        }
    }
    assert(lhs =~= rhs);
}

/// The releases named by Docker Hub tags that a runtime catalog keeps, newest first and
/// without repeats. Fails with `Empty` when no tag names a kept release.
pub fn runtime_versions(id: CatalogId, tags: &[String]) -> (res: Result<Vec<Version>, ResolveError>)
    ensures
        match res {
            Ok(v) => {
                &&& newest_first(v@)
                &&& v@.to_set() == runtime_candidates(id, tag_texts(tags@))
                &&& v@.len() > 0
            },
            Err(e) => {
                &&& e matches ResolveError::Empty { upstream } && upstream@ == dockerhub()
                &&& runtime_candidates(id, tag_texts(tags@)) == Set::<Version>::empty()
            },
        },
{
    let ghost texts = tag_texts(tags@);
    let mut list: Vec<Version> = Vec::new();
    let mut i: usize = 0;
    assert(texts.take(0) =~= Seq::<Seq<char>>::empty());
    assert(runtime_candidates(id, texts.take(0)) =~= Set::<Version>::empty());
    while i < tags.len()
        invariant
            i <= tags@.len(),
            texts == tag_texts(tags@),
            newest_first(list@),
            list@.to_set() == runtime_candidates(id, texts.take(i as int)),
        decreases tags@.len() - i,
    {
        proof {
            lemma_runtime_candidates_step(id, texts, i as int);
        }
        assert(texts[i as int] == tags@[i as int]@);
        match Version::parse(tags[i].as_str()) {
            Ok(v) => {
                if accepted(id, v) {
                    insert_newest_first(&mut list, v);
                }
            },
            Err(_) => {},
        }
        i = i + 1;
    }
    assert(texts.take(tags@.len() as int) =~= texts);
    if list.len() == 0 {
        assert(list@.to_set() =~= Set::<Version>::empty());
        proof {
            reveal_strlit("dockerhub");
        }
        return Err(ResolveError::Empty { upstream: "dockerhub" });
    }
    Ok(list)
}

/// The runtime catalog built from Docker Hub tags, stamped with the current time.
pub fn resolve_runtime(id: CatalogId, tags: &[String]) -> (res: Result<RuntimeCatalog, ResolveError>)
    ensures
        match res {
            Ok(c) => {
                &&& c.schema == SCHEMA_VERSION
                &&& c.runtime == id
                &&& newest_first(c.versions@)
                &&& c.versions@.to_set() == runtime_candidates(id, tag_texts(tags@))
                &&& c.versions@.len() > 0
            },
            Err(e) => {
                &&& e matches ResolveError::Empty { upstream } && upstream@ == dockerhub()
                &&& runtime_candidates(id, tag_texts(tags@)) == Set::<Version>::empty()
            },
        },
{
    let versions = runtime_versions(id, tags)?;
    Ok(RuntimeCatalog { schema: SCHEMA_VERSION, runtime: id, updated_at: now(), versions })
}

} // verus!
