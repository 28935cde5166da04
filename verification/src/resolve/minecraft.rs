//! The Minecraft catalog, from Mojang's version manifest and each distribution's builds.

use crate::minecraft::{
    distribution_lookup, distribution_rank, distributions_wf, BuildSet, Distribution, MinecraftCatalog,
    MinecraftVersion,
};
use crate::identifiers::{build_set_location_free, location_free, minecraft_location_free, release_location_free};
use crate::resolve::error::ResolveError;
use crate::text::{contains_str, str_eq};
use crate::time::now;
use crate::SCHEMA_VERSION;
use vstd::prelude::*;

verus! {

/// Java version recommended for the newest releases.
pub const NEWEST_JAVA: u8 = 25;

/// One entry of Mojang's version manifest: a version id and its kind (`release`,
/// `snapshot`, ...).
#[derive(Debug, Clone)]
pub struct ManifestEntry {
    pub id: String,
    pub kind: String,
}

/// The oldest release the catalog tracks.
pub open spec fn oldest_tracked() -> Seq<char> {
    "1.7.10"@
}

/// The newest release that no longer supports data packs.
pub open spec fn data_pack_floor() -> Seq<char> {
    "1.12.2"@
}

/// The last release of each Java line: from this release down, the Java it names is
/// recommended until the next threshold.
pub open spec fn spec_java_threshold(id: Seq<char>) -> Option<u8> {
    if id == "1.21.11"@ {
        Some(21)
    } else if id == "1.20.4"@ {
        Some(17)
    } else if id == "1.16.5"@ {
        Some(8)
    } else {
        None
    }
}

/// The Java a release is recommended if it is the last release of a Java line.
pub fn java_threshold(id: &str) -> (res: Option<u8>)
    ensures
        res == spec_java_threshold(id@),
{
    if str_eq(id, "1.21.11") {
        Some(21)
    } else if str_eq(id, "1.20.4") {
        Some(17)
    } else if str_eq(id, "1.16.5") {
        Some(8)
    } else {
        None
    }
}

/// The ids and kinds of the manifest's entries.
pub open spec fn manifest_texts(entries: Seq<ManifestEntry>) -> Seq<(Seq<char>, Seq<char>)> {
    entries.map_values(|e: ManifestEntry| (e.id@, e.kind@))
}

/// The releases the catalog tracks, newest first: the manifest's full releases in its
/// order, up to and including the oldest tracked release.
pub open spec fn tracked_releases(entries: Seq<(Seq<char>, Seq<char>)>) -> Seq<Seq<char>>
    decreases entries.len(),
{
    if entries.len() == 0 {
        Seq::empty()
    } else {
        let before = tracked_releases(entries.drop_last());
        if before.len() > 0 && before.last() == oldest_tracked() {
            before
        } else if entries.last().1 == "release"@ {
            before.push(entries.last().0)
        } else {
            before
        }
    }
}

/// The Java recommended for the last of `ids`: that of the nearest Java line threshold at
/// or before it, or the newest Java when there is none.
pub open spec fn recommended_java(ids: Seq<Seq<char>>) -> u8
    decreases ids.len(),
{
    if ids.len() == 0 {
        NEWEST_JAVA
    } else {
        match spec_java_threshold(ids.last()) {
            Some(java) => java,
            None => recommended_java(ids.drop_last()),
        }
    }
}

/// Whether the last of `ids` supports data packs: no release at or before it is the
/// data pack floor.
pub open spec fn supports_data_packs(ids: Seq<Seq<char>>) -> bool {
    !ids.contains(data_pack_floor())
}

/// The releases as the catalog first lists them, before distributions are attached.
pub open spec fn releases_as_listed(versions: Seq<MinecraftVersion>, ids: Seq<Seq<char>>) -> bool {
    &&& versions.len() == ids.len()
    &&& forall|k: int|
        0 <= k < ids.len() ==> {
            &&& (#[trigger] versions[k]).id@ == ids[k]
            &&& versions[k].recommended_java == recommended_java(ids.take(k + 1))
            &&& versions[k].data_pack == supports_data_packs(ids.take(k + 1))
            &&& versions[k].distributions@.len() == 0
        }
}

/// The tracked releases, newest first, each with the Java it should run on and whether it
/// supports data packs. Fails with `Empty` when the manifest lists no full release.
pub fn release_versions(entries: &[ManifestEntry]) -> (res: Result<Vec<MinecraftVersion>, ResolveError>)
    ensures
        match res {
            Ok(versions) => {
                &&& releases_as_listed(versions@, tracked_releases(manifest_texts(entries@)))
                &&& versions@.len() > 0
            },
            Err(e) => {
                &&& e matches ResolveError::Empty { upstream } && upstream@ == "mojang"@
                &&& tracked_releases(manifest_texts(entries@)).len() == 0
            },
        },
{
    let ghost texts = manifest_texts(entries@);
    let mut versions: Vec<MinecraftVersion> = Vec::new();
    let mut java: u8 = NEWEST_JAVA;
    let mut data_pack = true;
    let mut i: usize = 0;
    let mut done = false;
    assert(texts.take(0) =~= Seq::<(Seq<char>, Seq<char>)>::empty());
    while i < entries.len() && !done
        invariant
            i <= entries@.len(),
            texts == manifest_texts(entries@),
            releases_as_listed(versions@, tracked_releases(texts.take(i as int))),
            done <==> (tracked_releases(texts.take(i as int)).len() > 0
                && tracked_releases(texts.take(i as int)).last() == oldest_tracked()),
            java == recommended_java(tracked_releases(texts.take(i as int))),
            data_pack == supports_data_packs(tracked_releases(texts.take(i as int))),
        decreases entries@.len() - i,
    {
        let ghost ids0 = tracked_releases(texts.take(i as int));
        assert(texts.take(i + 1).drop_last() =~= texts.take(i as int));
        assert(texts.take(i + 1).last() == (entries@[i as int].id@, entries@[i as int].kind@));
        let entry = &entries[i];
        proof {
            reveal_strlit("release");
            reveal_strlit("1.7.10");
            reveal_strlit("1.12.2");
        }
        if str_eq(entry.kind.as_str(), "release") {
            let ghost ids1 = ids0.push(entry.id@);
            assert(tracked_releases(texts.take(i + 1)) == ids1);
            if let Some(threshold) = java_threshold(entry.id.as_str()) {
                java = threshold;
            }
            assert(ids1.drop_last() =~= ids0);
            assert(java == recommended_java(ids1));
            if str_eq(entry.id.as_str(), "1.12.2") {
                data_pack = false;
                assert(ids1.contains(data_pack_floor())) by {
                    assert(ids1[ids0.len() as int] == data_pack_floor());
                }
            } else {
                assert(ids1.contains(data_pack_floor()) == ids0.contains(data_pack_floor())) by {
                    if ids1.contains(data_pack_floor()) {
                        let k = choose|k: int| 0 <= k < ids1.len() && ids1[k] == data_pack_floor();
                        assert(k < ids0.len());
                        assert(ids0[k] == data_pack_floor());
                    }
                    if ids0.contains(data_pack_floor()) {
                        let k = choose|k: int| 0 <= k < ids0.len() && ids0[k] == data_pack_floor();
                        assert(ids1[k] == data_pack_floor());
                    }
                }
            }
            let last = str_eq(entry.id.as_str(), "1.7.10");
            let ghost v0 = versions@;
            versions.push(
                MinecraftVersion {
                    id: entry.id.clone(),
                    recommended_java: java,
                    data_pack,
                    distributions: Vec::new(),
                },
            );
            proof {
                assert forall|k: int| 0 <= k < ids1.len() implies {
                    &&& (#[trigger] versions@[k]).id@ == ids1[k]
                    &&& versions@[k].recommended_java == recommended_java(ids1.take(k + 1))
                    &&& versions@[k].data_pack == supports_data_packs(ids1.take(k + 1))
                    &&& versions@[k].distributions@.len() == 0
                } by {
                    if k < ids0.len() {
                        assert(versions@[k] == v0[k]);
                        assert(ids1.take(k + 1) =~= ids0.take(k + 1));
                    } else {
                        assert(ids1.take(k + 1) =~= ids1);
                    }
                }
            }
            if last {
                done = true;
            }
        } else {
            assert(tracked_releases(texts.take(i + 1)) == ids0);
        }
        i = i + 1;
    }
    proof {
        if i < entries@.len() {
            lemma_tracked_releases_stop(texts, i as int);
        } else {
            assert(texts.take(i as int) =~= texts);
        }
    }
    if versions.len() == 0 {
        proof {
            reveal_strlit("mojang");
        }
        return Err(ResolveError::Empty { upstream: "mojang" });
    }
    Ok(versions)
}

/// Once the oldest tracked release is listed, later entries change nothing.
proof fn lemma_tracked_releases_stop(texts: Seq<(Seq<char>, Seq<char>)>, i: int)
    requires
        0 <= i <= texts.len(),
        tracked_releases(texts.take(i)).len() > 0,
        tracked_releases(texts.take(i)).last() == oldest_tracked(),
    ensures
        tracked_releases(texts) == tracked_releases(texts.take(i)),
    decreases texts.len() - i,
{
    if i < texts.len() {
        assert(texts.take(i + 1).drop_last() =~= texts.take(i));
        lemma_tracked_releases_stop(texts, i + 1);
    } else {
        assert(texts.take(i) =~= texts);
    }
}

/// The builds listed for release `id`, when one is.
pub open spec fn builds_for(entries: Seq<(String, BuildSet)>, id: Seq<char>) -> Option<BuildSet> {
    if exists|i: int| 0 <= i < entries.len() && (#[trigger] entries[i]).0@ == id {
        let i = choose|i: int| 0 <= i < entries.len() && (#[trigger] entries[i]).0@ == id;
        Some(entries[i].1)
    } else {
        None
    }
}

/// No release is listed twice.
pub open spec fn release_ids_unique(entries: Seq<(String, BuildSet)>) -> bool {
    forall|i: int, j: int|
        0 <= i < j < entries.len() ==> (#[trigger] entries[i]).0@ != (#[trigger] entries[j]).0@
}

/// Per-distribution builds as gathered from the upstreams: each distribution at most
/// once and never Mojang's own server, each release at most once per distribution.
pub open spec fn merged_wf(merged: Seq<(Distribution, Vec<(String, BuildSet)>)>) -> bool {
    &&& forall|m: int| 0 <= m < merged.len() ==> (#[trigger] merged[m]).0 != Distribution::Vanilla
    &&& forall|m: int| 0 <= m < merged.len() ==> release_ids_unique((#[trigger] merged[m]).1@)
    &&& forall|m: int, n: int|
        0 <= m < n < merged.len() ==> (#[trigger] merged[m]).0 != (#[trigger] merged[n]).0
}

/// The builds gathered for a distribution, when its upstream answered.
pub open spec fn merged_lookup(merged: Seq<(Distribution, Vec<(String, BuildSet)>)>, d: Distribution) -> Option<
    Seq<(String, BuildSet)>,
> {
    if exists|m: int| 0 <= m < merged.len() && (#[trigger] merged[m]).0 == d {
        let m = choose|m: int| 0 <= m < merged.len() && (#[trigger] merged[m]).0 == d;
        Some(merged[m].1@)
    } else {
        None
    }
}

/// Records what one distribution's upstream gave: its builds replace any gathered before
/// for it; a failed upstream leaves the gathered builds as they were.
pub fn merge(
    target: &mut Vec<(Distribution, Vec<(String, BuildSet)>)>,
    distribution: Distribution,
    resolved: Result<Vec<(String, BuildSet)>, ResolveError>,
)
    requires
        merged_wf(old(target)@),
        distribution != Distribution::Vanilla,
        resolved matches Ok(b) ==> release_ids_unique(b@),
    ensures
        merged_wf(final(target)@),
        match resolved {
            Ok(b) => {
                &&& merged_lookup(final(target)@, distribution) == Some(b@)
                &&& forall|d: Distribution|
                    d != distribution ==> merged_lookup(final(target)@, d) == merged_lookup(
                        old(target)@,
                        d,
                    )
            },
            Err(_) => final(target)@ == old(target)@,
        },
{
    let builds = match resolved {
        Ok(builds) => builds,
        Err(_) => return,
    };
    let ghost t0 = target@;
    let mut m: usize = 0;
    while m < target.len() && target[m].0 != distribution
        invariant
            target@ == t0,
            m <= t0.len(),
            forall|j: int| 0 <= j < m ==> (#[trigger] t0[j]).0 != distribution,
        decreases t0.len() - m,
    {
        m = m + 1;
    }
    let ghost b = builds@;
    if m < target.len() {
        target.remove(m);
        target.insert(m, (distribution, builds));
        proof {
            let t1 = target@;
            assert(t1 =~= t0.update(m as int, (distribution, t1[m as int].1)));
            assert(t1[m as int].1@ == b);
            assert forall|d: Distribution| merged_lookup(t1, d) == (if d == distribution {
                Some(b)
            } else {
                merged_lookup(t0, d)
            }) by {
                if exists|n: int| 0 <= n < t1.len() && (#[trigger] t1[n]).0 == d {
                    let n = choose|n: int| 0 <= n < t1.len() && (#[trigger] t1[n]).0 == d;
                    if d == distribution {
                        if n != m {
                            assert(t0[n].0 == d);
                            assert(t0[m as int].0 == d);
                        }
                    } else {
                        assert(t0[n].0 == d);
                        let n0 = choose|n: int| 0 <= n < t0.len() && (#[trigger] t0[n]).0 == d;
                        if n0 != n {
                            assert(t0[n0].0 == t0[n].0);
                        }
                    }
                }
                if d != distribution && exists|n: int| 0 <= n < t0.len() && (#[trigger] t0[n]).0 == d {
                    let n = choose|n: int| 0 <= n < t0.len() && (#[trigger] t0[n]).0 == d;
                    assert(t1[n].0 == d);
                }
            }
        }
    } else {
        let ghost t0 = target@;
        target.push((distribution, builds));
        proof {
            let t1 = target@;
            assert(forall|n: int| 0 <= n < t0.len() ==> #[trigger] t1[n] == t0[n]);
            assert(t1[t0.len() as int].0 == distribution);
            assert forall|d: Distribution| merged_lookup(t1, d) == (if d == distribution {
                Some(b)
            } else {
                merged_lookup(t0, d)
            }) by {
                if exists|n: int| 0 <= n < t1.len() && (#[trigger] t1[n]).0 == d {
                    let n = choose|n: int| 0 <= n < t1.len() && (#[trigger] t1[n]).0 == d;
                    if d == distribution {
                        assert(n == t0.len());
                    } else {
                        assert(t0[n].0 == d);
                        let n0 = choose|n: int| 0 <= n < t0.len() && (#[trigger] t0[n]).0 == d;
                        if n0 != n {
                            assert(t0[n0].0 == t0[n].0);
                        }
                    }
                }
                if d != distribution && exists|n: int| 0 <= n < t0.len() && (#[trigger] t0[n]).0 == d {
                    let n = choose|n: int| 0 <= n < t0.len() && (#[trigger] t0[n]).0 == d;
                    assert(t1[n].0 == d);
                }
            }
        }
    }
}

/// Taking a release's entry out of a list without repeats: that release is no longer
/// listed and the others keep their builds.
proof fn lemma_builds_for_remove(l: Seq<(String, BuildSet)>, idx: int)
    requires
        release_ids_unique(l),
        0 <= idx < l.len(),
    ensures
        builds_for(l, l[idx].0@) == Some(l[idx].1),
        release_ids_unique(l.remove(idx)),
        forall|y: Seq<char>|
            #[trigger] builds_for(l.remove(idx), y) == (if y == l[idx].0@ {
                None
            } else {
                builds_for(l, y)
            }),
{
    let x = l[idx].0@;
    let r = l.remove(idx);
    assert(forall|j: int| 0 <= j < idx ==> #[trigger] r[j] == l[j]);
    assert(forall|j: int| idx <= j < r.len() ==> #[trigger] r[j] == l[j + 1]);
    let i = choose|i: int| 0 <= i < l.len() && (#[trigger] l[i]).0@ == x;
    if i != idx {
        if i < idx {
            assert(l[i].0@ != l[idx].0@);
        } else {
            assert(l[idx].0@ != l[i].0@);
        }
    }
    assert forall|a: int, b: int| 0 <= a < b < r.len() implies (#[trigger] r[a]).0@ != (
    #[trigger] r[b]).0@ by {
        let a0 = if a < idx { a } else { a + 1 };
        let b0 = if b < idx { b } else { b + 1 };
        assert(r[a] == l[a0]);
        assert(r[b] == l[b0]);
    }
    assert forall|y: Seq<char>| #[trigger] builds_for(r, y) == (if y == x {
        None
    } else {
        builds_for(l, y)
    }) by {
        if y == x {
            if exists|j: int| 0 <= j < r.len() && (#[trigger] r[j]).0@ == y {
                let j = choose|j: int| 0 <= j < r.len() && (#[trigger] r[j]).0@ == y;
                let j0 = if j < idx { j } else { j + 1 };
                assert(r[j] == l[j0]);
                if j0 < idx {
                    assert(l[j0].0@ != l[idx].0@);
                } else {
                    assert(l[idx].0@ != l[j0].0@);
                }
            }
        } else {
            if exists|j: int| 0 <= j < r.len() && (#[trigger] r[j]).0@ == y {
                let j = choose|j: int| 0 <= j < r.len() && (#[trigger] r[j]).0@ == y;
                let j0 = if j < idx { j } else { j + 1 };
                assert(r[j] == l[j0]);
                let k = choose|k: int| 0 <= k < l.len() && (#[trigger] l[k]).0@ == y;
                if k != j0 {
                    if k < j0 {
                        assert(l[k].0@ != l[j0].0@);
                    } else {
                        assert(l[j0].0@ != l[k].0@);
                    }
                }
            }
            if exists|k: int| 0 <= k < l.len() && (#[trigger] l[k]).0@ == y {
                let k = choose|k: int| 0 <= k < l.len() && (#[trigger] l[k]).0@ == y;
                assert(k != idx);
                let j = if k < idx { k } else { k - 1 };
                assert(r[j] == l[k]);
            }
        }
    }
}

/// Release `id` is listed at position `idx`, if it is listed at all.
fn find_release(entries: &Vec<(String, BuildSet)>, id: &str) -> (res: Option<usize>)
    ensures
        match res {
            Some(idx) => idx < entries@.len() && entries@[idx as int].0@ == id@,
            None => forall|i: int| 0 <= i < entries@.len() ==> (#[trigger] entries@[i]).0@ != id@,
        },
{
    let mut i: usize = 0;
    while i < entries.len()
        invariant
            i <= entries@.len(),
            forall|j: int| 0 <= j < i ==> (#[trigger] entries@[j]).0@ != id@,
        decreases entries@.len() - i,
    {
        if str_eq(entries[i].0.as_str(), id) {
            return Some(i);
        }
        i = i + 1;
    }
    None
}

/// A release listed earlier in `versions` under the same id.
pub open spec fn listed_before(versions: Seq<MinecraftVersion>, k: int, id: Seq<char>) -> bool {
    exists|j: int| 0 <= j < k && (#[trigger] versions[j]).id@ == id
}

/// The builds release `k` ends up with for distribution `d`: those gathered for it under
/// the release's id, unless an earlier release with the same id took them.
pub open spec fn attached_builds(
    versions: Seq<MinecraftVersion>,
    merged: Seq<(Distribution, Vec<(String, BuildSet)>)>,
    k: int,
    d: Distribution,
) -> Option<BuildSet> {
    if listed_before(versions, k, versions[k].id@) {
        None
    } else {
        match merged_lookup(merged, d) {
            Some(list) => builds_for(list, versions[k].id@),
            None => None,
        }
    }
}

/// Hands each release the builds gathered for it, distribution by distribution.
pub fn attach_distributions(
    versions: Vec<MinecraftVersion>,
    merged: Vec<(Distribution, Vec<(String, BuildSet)>)>,
) -> (out: Vec<MinecraftVersion>)
    requires
        merged_wf(merged@),
        forall|k: int| 0 <= k < versions@.len() ==> (#[trigger] versions@[k]).distributions@.len() == 0,
    ensures
        out@.len() == versions@.len(),
        forall|k: int|
            0 <= k < out@.len() ==> {
                &&& (#[trigger] out@[k]).id == versions@[k].id
                &&& out@[k].recommended_java == versions@[k].recommended_java
                &&& out@[k].data_pack == versions@[k].data_pack
                &&& distributions_wf(out@[k].distributions@)
                &&& forall|d: Distribution|
                    distribution_lookup(out@[k].distributions@, d) == attached_builds(
                        versions@,
                        merged@,
                        k,
                        d,
                    )
            },
{
    let ghost v0 = versions@;
    let ghost m0 = merged@;
    let mut remaining = versions;
    let mut merged = merged;
    let mut out: Vec<MinecraftVersion> = Vec::new();
    let mut k: usize = 0;
    let n = remaining.len();
    while k < n
        invariant
            n == v0.len(),
            k <= n,
            remaining@ == v0.skip(k as int),
            out@.len() == k,
            merged@.len() == m0.len(),
            merged_wf(merged@),
            forall|m: int| 0 <= m < m0.len() ==> (#[trigger] merged@[m]).0 == m0[m].0,
            forall|m: int, id: Seq<char>|
                0 <= m < m0.len() ==> #[trigger] builds_for(merged@[m].1@, id) == (if listed_before(
                    v0,
                    k as int,
                    id,
                ) {
                    None
                } else {
                    builds_for(m0[m].1@, id)
                }),
            forall|j: int|
                0 <= j < k ==> {
                    &&& (#[trigger] out@[j]).id == v0[j].id
                    &&& out@[j].recommended_java == v0[j].recommended_java
                    &&& out@[j].data_pack == v0[j].data_pack
                    &&& distributions_wf(out@[j].distributions@)
                    &&& forall|d: Distribution|
                        distribution_lookup(out@[j].distributions@, d) == attached_builds(
                            v0,
                            m0,
                            j,
                            d,
                        )
                },
            forall|j: int| 0 <= j < v0.len() ==> (#[trigger] v0[j]).distributions@.len() == 0,
            merged_wf(m0),
        decreases n - k,
    {
        assert(remaining@[0] == v0[k as int]);
        let mut v = remaining.remove(0);
        assert(remaining@ =~= v0.skip(k + 1));
        let ghost id = v.id@;
        let ghost lists = merged@;
        assert(v.distributions@ =~= Seq::<(Distribution, BuildSet)>::empty());
        let mut m: usize = 0;
        while m < merged.len()
            invariant
                n == v0.len(),
                k < n,
                v0[k as int].id@ == id,
                v.id == v0[k as int].id,
                v.recommended_java == v0[k as int].recommended_java,
                v.data_pack == v0[k as int].data_pack,
                distributions_wf(v.distributions@),
                m <= merged@.len(),
                merged@.len() == lists.len(),
                merged_wf(merged@),
                merged_wf(lists),
                forall|i: int| 0 <= i < lists.len() ==> (#[trigger] merged@[i]).0 == lists[i].0,
                forall|i: int| m <= i < lists.len() ==> #[trigger] merged@[i] == lists[i],
                forall|i: int, y: Seq<char>|
                    0 <= i < m ==> #[trigger] builds_for(merged@[i].1@, y) == (if y == id {
                        None
                    } else {
                        builds_for(lists[i].1@, y)
                    }),
                forall|d: Distribution|
                    #[trigger] distribution_lookup(v.distributions@, d) == (if exists|i: int|
                        0 <= i < m && (#[trigger] lists[i]).0 == d {
                        builds_for(lists[choose|i: int| 0 <= i < m && (#[trigger] lists[i]).0 == d].1@, id)
                    } else {
                        None
                    }),
            decreases lists.len() - m,
        {
            let ghost before = merged@;
            let (d, mut list) = merged.remove(m);
            let ghost l0 = list@;
            assert(l0 == lists[m as int].1@);
            let ghost dist0 = v.distributions@;
            match find_release(&list, v.id.as_str()) {
                Some(idx) => {
                    proof {
                        lemma_builds_for_remove(l0, idx as int);
                    }
                    let (_, set) = list.remove(idx);
                    v.insert_distribution(d, set);
                },
                None => {},
            }
            merged.insert(m, (d, list));
            proof {
                let after = merged@;
                assert(forall|i: int| 0 <= i < lists.len() && i != m ==> #[trigger] after[i] == before[i]);
                assert(after[m as int].0 == d);
                assert forall|y: Seq<char>| #[trigger] builds_for(after[m as int].1@, y) == (if y == id {
                    None
                } else {
                    builds_for(l0, y)
                }) by {}
                assert forall|dd: Distribution|
                    #[trigger] distribution_lookup(v.distributions@, dd) == (if exists|i: int|
                        0 <= i < m + 1 && (#[trigger] lists[i]).0 == dd {
                        builds_for(lists[choose|i: int| 0 <= i < m + 1 && (#[trigger] lists[i]).0 == dd].1@, id)
                    } else {
                        None
                    }) by {
                    if dd == d {
                        let c = choose|i: int| 0 <= i < m + 1 && (#[trigger] lists[i]).0 == dd;
                        if c != m {
                            assert(lists[c].0 == lists[m as int].0);
                        }
                        if !exists|i: int| 0 <= i < m && (#[trigger] lists[i]).0 == dd {
                        } else {
                            let c2 = choose|i: int| 0 <= i < m && (#[trigger] lists[i]).0 == dd;
                            assert(lists[c2].0 == lists[m as int].0);
                        }
                    } else {
                        if exists|i: int| 0 <= i < m + 1 && (#[trigger] lists[i]).0 == dd {
                            let c = choose|i: int| 0 <= i < m + 1 && (#[trigger] lists[i]).0 == dd;
                            assert(c != m);
                            let c2 = choose|i: int| 0 <= i < m && (#[trigger] lists[i]).0 == dd;
                            if c != c2 {
                                if c < c2 {
                                    assert(lists[c].0 != lists[c2].0);
                                } else {
                                    assert(lists[c2].0 != lists[c].0);
                                }
                            }
                        }
                    }
                }
            }
            m = m + 1;
        }
        proof {
            assert forall|d: Distribution|
                distribution_lookup(v.distributions@, d) == attached_builds(v0, m0, k as int, d) by {
                if exists|i: int| 0 <= i < lists.len() && (#[trigger] lists[i]).0 == d {
                    let c = choose|i: int| 0 <= i < lists.len() && (#[trigger] lists[i]).0 == d;
                    assert(m0[c].0 == d);
                    let c0 = choose|i: int| 0 <= i < m0.len() && (#[trigger] m0[i]).0 == d;
                    if c != c0 {
                        if c < c0 {
                            assert(m0[c].0 != m0[c0].0);
                        } else {
                            assert(m0[c0].0 != m0[c].0);
                        }
                    }
                    assert(builds_for(lists[c].1@, id) == (if listed_before(v0, k as int, id) {
                        None
                    } else {
                        builds_for(m0[c].1@, id)
                    }));
                } else {
                    if exists|i: int| 0 <= i < m0.len() && (#[trigger] m0[i]).0 == d {
                        let c0 = choose|i: int| 0 <= i < m0.len() && (#[trigger] m0[i]).0 == d;
                        assert(lists[c0].0 == d);
                    }
                }
            }
            assert forall|i: int, y: Seq<char>|
                0 <= i < m0.len() implies #[trigger] builds_for(merged@[i].1@, y) == (if listed_before(
                v0,
                k + 1,
                y,
            ) {
                None
            } else {
                builds_for(m0[i].1@, y)
            }) by {
                if y == id {
                    assert(v0[k as int].id@ == y);
                } else {
                    if listed_before(v0, k + 1, y) {
                        let j = choose|j: int| 0 <= j < k + 1 && (#[trigger] v0[j]).id@ == y;
                        assert(j < k);
                    }
                }
            }
        }
        out.push(v);
        k = k + 1;
    }
    out
}

/// The ids of the tracked releases, which the distributions' upstreams are asked about.
pub fn known_releases(versions: &Vec<MinecraftVersion>) -> (ids: Vec<String>)
    ensures
        ids@.len() == versions@.len(),
        forall|k: int| 0 <= k < ids@.len() ==> (#[trigger] ids@[k])@ == versions@[k].id@,
{
    let mut ids: Vec<String> = Vec::new();
    let mut i: usize = 0;
    while i < versions.len()
        invariant
            i <= versions@.len(),
            ids@.len() == i,
            forall|k: int| 0 <= k < i ==> (#[trigger] ids@[k])@ == versions@[k].id@,
        decreases versions@.len() - i,
    {
        ids.push(versions[i].id.clone());
        i = i + 1;
    }
    ids
}

/// The builds gathered from the upstreams carry only location-free texts.
pub open spec fn merged_location_free(merged: Seq<(Distribution, Vec<(String, BuildSet)>)>) -> bool {
    forall|m: int, e: int|
        0 <= m < merged.len() && 0 <= e < merged[m].1@.len() ==> build_set_location_free(
            #[trigger] merged[m].1@[e].1,
        )
}

proof fn lemma_lookup_source(merged: Seq<(Distribution, Vec<(String, BuildSet)>)>, d: Distribution)
    requires
        merged_lookup(merged, d) is Some,
    ensures
        exists|m: int| 0 <= m < merged.len() && (#[trigger] merged[m]).1@ == merged_lookup(merged, d).unwrap(),
{
}

proof fn lemma_builds_for_source(entries: Seq<(String, BuildSet)>, id: Seq<char>)
    requires
        builds_for(entries, id) is Some,
    ensures
        exists|e: int| 0 <= e < entries.len() && (#[trigger] entries[e]).1 == builds_for(entries, id).unwrap(),
{
}

/// A release that holds the builds attached to it holds only location-free builds when the
/// gathered builds are location free.
proof fn lemma_attached_location_free(
    versions: Seq<MinecraftVersion>,
    merged: Seq<(Distribution, Vec<(String, BuildSet)>)>,
    k: int,
    out: MinecraftVersion,
)
    requires
        merged_location_free(merged),
        distributions_wf(out.distributions@),
        forall|d: Distribution| distribution_lookup(out.distributions@, d) == attached_builds(versions, merged, k, d),
    ensures
        forall|i: int|
            0 <= i < out.distributions@.len() ==> build_set_location_free(#[trigger] out.distributions@[i].1),
{
    let ds = out.distributions@;
    assert forall|i: int| 0 <= i < ds.len() implies build_set_location_free(#[trigger] ds[i].1) by {
        let d = ds[i].0;
        let j = choose|j: int| 0 <= j < ds.len() && #[trigger] ds[j].0 == d;
        if j != i {
            if j < i {
                assert(distribution_rank(ds[j].0) < distribution_rank(ds[i].0));
            } else {
                assert(distribution_rank(ds[i].0) < distribution_rank(ds[j].0));
            }
        }
        assert(distribution_lookup(ds, d) == Some(ds[i].1));
        assert(attached_builds(versions, merged, k, d) == Some(ds[i].1));
        assert(!listed_before(versions, k, versions[k].id@));
        let list = merged_lookup(merged, d).unwrap();
        assert(builds_for(list, versions[k].id@) == Some(ds[i].1));
        lemma_lookup_source(merged, d);
        let m = choose|m: int| 0 <= m < merged.len() && (#[trigger] merged[m]).1@ == list;
        lemma_builds_for_source(list, versions[k].id@);
        let e = choose|e: int| 0 <= e < list.len() && (#[trigger] list[e]).1 == ds[i].1;
        assert(build_set_location_free(merged[m].1@[e].1));
    }
}

/// The Minecraft catalog: the tracked releases with the builds gathered for them,
/// stamped with the current time.
pub fn minecraft_catalog(
    versions: Vec<MinecraftVersion>,
    merged: Vec<(Distribution, Vec<(String, BuildSet)>)>,
) -> (c: MinecraftCatalog)
    requires
        merged_wf(merged@),
        forall|k: int| 0 <= k < versions@.len() ==> (#[trigger] versions@[k]).distributions@.len() == 0,
    ensures
        c.schema == SCHEMA_VERSION,
        c.versions@.len() == versions@.len(),
        forall|k: int|
            0 <= k < c.versions@.len() ==> {
                &&& (#[trigger] c.versions@[k]).id == versions@[k].id
                &&& c.versions@[k].recommended_java == versions@[k].recommended_java
                &&& c.versions@[k].data_pack == versions@[k].data_pack
                &&& distributions_wf(c.versions@[k].distributions@)
                &&& forall|d: Distribution|
                    distribution_lookup(c.versions@[k].distributions@, d) == attached_builds(
                        versions@,
                        merged@,
                        k,
                        d,
                    )
            },
        (forall|k: int| 0 <= k < versions@.len() ==> location_free((#[trigger] versions@[k]).id@))
            && merged_location_free(merged@) ==> minecraft_location_free(c),
{
    let ghost v0 = versions@;
    let ghost m0 = merged@;
    let versions = attach_distributions(versions, merged);
    proof {
        if (forall|k: int| 0 <= k < v0.len() ==> location_free((#[trigger] v0[k]).id@)) && merged_location_free(m0) {
            assert forall|k: int| 0 <= k < versions@.len() implies release_location_free(#[trigger] versions@[k]) by {
                lemma_attached_location_free(v0, m0, k, versions@[k]);
                assert(versions@[k].id == v0[k].id);
            }
        }
    }
    MinecraftCatalog { schema: SCHEMA_VERSION, updated_at: now(), versions }
}

} // verus!
