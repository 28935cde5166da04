//! The builds of each server distribution, from what its upstream lists.

use crate::minecraft::{build_range, range_builds, tight_range, BuildSet};
use crate::resolve::minecraft::{builds_for, release_ids_unique};
use crate::text::{chars_of, contains_str, find_char, split_once, str_eq, string_of_range, texts};
use crate::text::{decimal, push_decimal, string_from_chars};
use crate::version::{lemma_split_range, lemma_version_round_trip, spec_parse_version, version_text, Version};
use crate::version::{parse_u16, parse_u16_range};
use std::collections::HashSet;
use vstd::prelude::*;

verus! {

broadcast use vstd::std_specs::hash::group_hash_axioms;

/// Records the builds of release `id`, replacing any recorded for it before.
pub fn record_builds(resolved: &mut Vec<(String, BuildSet)>, id: String, set: BuildSet)
    requires
        release_ids_unique(old(resolved)@),
    ensures
        release_ids_unique(final(resolved)@),
        builds_for(final(resolved)@, id@) == Some(set),
        forall|y: Seq<char>| y != id@ ==> #[trigger] builds_for(final(resolved)@, y) == builds_for(old(resolved)@, y),
{
    let ghost r0 = resolved@;
    let ghost key = id@;
    let mut i: usize = 0;
    while i < resolved.len() && !str_eq(resolved[i].0.as_str(), id.as_str())
        invariant
            resolved@ == r0,
            i <= r0.len(),
            key == id@,
            forall|j: int| 0 <= j < i ==> (#[trigger] r0[j]).0@ != key,
        decreases r0.len() - i,
    {
        i = i + 1;
    }
    if i < resolved.len() {
        resolved.remove(i);
        resolved.insert(i, (id, set));
    } else {
        resolved.push((id, set));
    }
    proof {
        let r1 = resolved@;
        assert(r1[i as int] == (id, set));
        assert(forall|j: int| 0 <= j < r0.len() && j != i ==> #[trigger] r1[j] == r0[j]);
        assert(r1.len() == if i < r0.len() { r0.len() } else { r0.len() + 1 });
        assert forall|a: int, b: int| 0 <= a < b < r1.len() implies (#[trigger] r1[a]).0@ != (
        #[trigger] r1[b]).0@ by {
            if a == i {
                assert(r0[b].0@ != key || i == r0.len());
                if i < r0.len() {
                    assert(r0[i as int].0@ == key);
                    assert(r0[i as int].0@ != r0[b].0@);
                }
            } else if b == i {
                if i < r0.len() {
                    assert(r0[a].0@ != r0[i as int].0@);
                }
            }
        }
        let c = choose|j: int| 0 <= j < r1.len() && (#[trigger] r1[j]).0@ == key;
        if c != i {
            if c < i {
                assert(r1[c].0@ != r1[i as int].0@);
            } else {
                assert(r1[i as int].0@ != r1[c].0@);
            }
        }
        assert forall|y: Seq<char>| y != key implies #[trigger] builds_for(r1, y) == builds_for(r0, y) by {
            if exists|j: int| 0 <= j < r1.len() && (#[trigger] r1[j]).0@ == y {
                let j = choose|j: int| 0 <= j < r1.len() && (#[trigger] r1[j]).0@ == y;
                assert(j != i);
                assert(r0[j] == r1[j]);
                let j0 = choose|j: int| 0 <= j < r0.len() && (#[trigger] r0[j]).0@ == y;
                if j0 != j {
                    assert(r1[j0] == r0[j0]);
                    if j0 < j {
                        assert(r1[j0].0@ != r1[j].0@);
                    } else {
                        assert(r1[j].0@ != r1[j0].0@);
                    }
                }
            }
            if exists|j: int| 0 <= j < r0.len() && (#[trigger] r0[j]).0@ == y {
                let j = choose|j: int| 0 <= j < r0.len() && (#[trigger] r0[j]).0@ == y;
                if j == i {
                    assert(r0[i as int].0@ == key);
                }
                assert(r1[j] == r0[j]);
            }
        }
    }
}

/// Records the builds found for release `id`, when there are any; none leaves what is
/// recorded unchanged.
pub fn record_found(resolved: &mut Vec<(String, BuildSet)>, id: String, found: Option<BuildSet>)
    requires
        release_ids_unique(old(resolved)@),
    ensures
        release_ids_unique(final(resolved)@),
        match found {
            Some(set) => {
                &&& builds_for(final(resolved)@, id@) == Some(set)
                &&& forall|y: Seq<char>|
                    y != id@ ==> #[trigger] builds_for(final(resolved)@, y) == builds_for(old(resolved)@, y)
            },
            None => final(resolved)@ == old(resolved)@,
        },
{
    match found {
        Some(set) => record_builds(resolved, id, set),
        None => {},
    }
}

/// Records the loaders that a release's loader listing gave: a listing that could not be
/// read (`None`) or that lists no loader leaves what is recorded unchanged, so one
/// release's failure costs only that release.
pub fn record_loaders(resolved: &mut Vec<(String, BuildSet)>, id: String, loaders: Option<Vec<String>>)
    requires
        release_ids_unique(old(resolved)@),
    ensures
        release_ids_unique(final(resolved)@),
        match loaders {
            Some(l) => if l@.len() > 0 {
                &&& builds_for(final(resolved)@, id@) == Some(BuildSet::List { values: l })
                &&& forall|y: Seq<char>|
                    y != id@ ==> #[trigger] builds_for(final(resolved)@, y) == builds_for(old(resolved)@, y)
            } else {
                final(resolved)@ == old(resolved)@
            },
            None => final(resolved)@ == old(resolved)@,
        },
{
    match loaders {
        Some(l) => record_found(resolved, id, fabric_builds(l)),
        None => {},
    }
}

/// A build's release channel on PaperMC's API.
#[derive(Debug, Clone, Copy, PartialEq, Eq, Structural)]
pub enum Channel {
    Alpha,
    Beta,
    Stable,
    Recommended,
}

/// One build PaperMC lists for a release.
#[derive(Debug, Clone, Copy)]
pub struct PaperBuild {
    pub id: u16,
    pub channel: Channel,
}

/// The builds of a release that PaperMC publishes as stable or recommended.
pub open spec fn stable_paper_builds(builds: Seq<PaperBuild>) -> Set<u16> {
    Set::new(
        |b: u16|
            exists|i: int|
                0 <= i < builds.len() && (#[trigger] builds[i]).id == b && (builds[i].channel
                    == Channel::Stable || builds[i].channel == Channel::Recommended),
    )
}

/// A release's Paper or Velocity builds: its stable and recommended builds as a range,
/// or `None` when it has none.
pub fn paper_builds(builds: &[PaperBuild]) -> (res: Option<BuildSet>)
    ensures
        match res {
            Some(BuildSet::Range { prefix, min, max, excluded }) => {
                &&& prefix is None
                &&& range_builds(min, max, excluded@) == stable_paper_builds(builds@)
                &&& tight_range(stable_paper_builds(builds@), min, max, excluded@)
            },
            Some(BuildSet::List { .. }) => false,
            None => stable_paper_builds(builds@) == Set::<u16>::empty(),
        },
{
    let mut stable: HashSet<u16> = HashSet::new();
    let mut i: usize = 0;
    while i < builds.len()
        invariant
            i <= builds@.len(),
            stable@ == Set::new(
                |b: u16|
                    exists|j: int|
                        0 <= j < i && (#[trigger] builds@[j]).id == b && (builds@[j].channel
                            == Channel::Stable || builds@[j].channel == Channel::Recommended),
            ),
        decreases builds@.len() - i,
    {
        let build = builds[i];
        if build.channel == Channel::Stable || build.channel == Channel::Recommended {
            stable.insert(build.id);
        }
        i = i + 1;
        assert(stable@ =~= Set::new(
            |b: u16|
                exists|j: int|
                    0 <= j < i && (#[trigger] builds@[j]).id == b && (builds@[j].channel
                        == Channel::Stable || builds@[j].channel == Channel::Recommended),
        )) by {
            assert(builds@[i - 1] == build);
        }
    }
    let res = build_range(None, &stable);
    proof {
        if res is None {
            assert(stable@ =~= Set::<u16>::empty());
        }
    }
    res
}

/// The build numbers among a release's build names: each name read as a `u16`, the
/// others left out.
pub open spec fn numbered_builds(names: Seq<Seq<char>>) -> Set<u16> {
    Set::new(|b: u16| exists|i: int| 0 <= i < names.len() && parse_u16(#[trigger] names[i]) == Some(b))
}

/// A release's Purpur builds: its numbered builds as a range, or `None` when it has none.
pub fn purpur_builds(all: &[String]) -> (res: Option<BuildSet>)
    ensures
        match res {
            Some(BuildSet::Range { prefix, min, max, excluded }) => {
                &&& prefix is None
                &&& range_builds(min, max, excluded@) == numbered_builds(all@.map_values(|s: String| s@))
                &&& tight_range(numbered_builds(all@.map_values(|s: String| s@)), min, max, excluded@)
            },
            Some(BuildSet::List { .. }) => false,
            None => numbered_builds(all@.map_values(|s: String| s@)) == Set::<u16>::empty(),
        },
{
    let ghost names = all@.map_values(|s: String| s@);
    let mut builds: HashSet<u16> = HashSet::new();
    let mut i: usize = 0;
    while i < all.len()
        invariant
            i <= all@.len(),
            names == all@.map_values(|s: String| s@),
            builds@ == Set::new(
                |b: u16| exists|j: int| 0 <= j < i && parse_u16(#[trigger] names[j]) == Some(b),
            ),
        decreases all@.len() - i,
    {
        let chars = chars_of(all[i].as_str());
        assert(chars@.subrange(0, chars@.len() as int) =~= chars@);
        assert(names[i as int] == chars@);
        match parse_u16_range(chars.as_slice(), 0, chars.len()) {
            Some(b) => {
                builds.insert(b);
            },
            None => {},
        }
        i = i + 1;
        assert(builds@ =~= Set::new(
            |b: u16| exists|j: int| 0 <= j < i && parse_u16(#[trigger] names[j]) == Some(b),
        ));
    }
    let res = build_range(None, &builds);
    proof {
        if res is None {
            assert(builds@ =~= Set::<u16>::empty());
        }
    }
    res
}

/// A release's Fabric or Quilt loaders, newest first, or `None` when there are none.
pub fn fabric_builds(loaders: Vec<String>) -> (res: Option<BuildSet>)
    ensures
        match res {
            Some(BuildSet::List { values }) => values == loaders && loaders@.len() > 0,
            Some(BuildSet::Range { .. }) => false,
            None => loaders@.len() == 0,
        },
{
    if loaders.len() == 0 {
        None
    } else {
        Some(BuildSet::List { values: loaders })
    }
}

/// The loaders Forge lists for release `id`, in the order of its metadata: the part
/// after the first `-` of each version whose part before it is `id`.
pub open spec fn forge_loaders(versions: Seq<Seq<char>>, id: Seq<char>) -> Seq<Seq<char>>
    decreases versions.len(),
{
    if versions.len() == 0 {
        Seq::empty()
    } else {
        let before = forge_loaders(versions.drop_last(), id);
        match split_once(versions.last(), '-') {
            Some((release, loader)) => if release == id {
                before.push(loader)
            } else {
                before
            },
            None => before,
        }
    }
}

/// The loaders gathered under release `id`, when there are any.
pub open spec fn group_texts(groups: Seq<(String, Vec<String>)>, id: Seq<char>) -> Option<Seq<Seq<char>>> {
    if exists|g: int| 0 <= g < groups.len() && (#[trigger] groups[g]).0@ == id {
        let g = choose|g: int| 0 <= g < groups.len() && (#[trigger] groups[g]).0@ == id;
        Some(texts(groups[g].1@))
    } else {
        None
    }
}

/// No release is gathered twice.
pub open spec fn group_ids_unique(groups: Seq<(String, Vec<String>)>) -> bool {
    forall|a: int, b: int|
        0 <= a < b < groups.len() ==> (#[trigger] groups[a]).0@ != (#[trigger] groups[b]).0@
}

/// Adds `loader` to the loaders gathered under `id`.
fn gather(groups: &mut Vec<(String, Vec<String>)>, id: String, loader: String)
    requires
        group_ids_unique(old(groups)@),
    ensures
        group_ids_unique(final(groups)@),
        group_texts(final(groups)@, id@) == Some(
            match group_texts(old(groups)@, id@) {
                Some(l) => l,
                None => Seq::<Seq<char>>::empty(),
            }.push(loader@),
        ),
        forall|y: Seq<char>| y != id@ ==> #[trigger] group_texts(final(groups)@, y) == group_texts(old(groups)@, y),
{
    let ghost g0 = groups@;
    let ghost key = id@;
    let mut i: usize = 0;
    while i < groups.len() && !str_eq(groups[i].0.as_str(), id.as_str())
        invariant
            groups@ == g0,
            i <= g0.len(),
            key == id@,
            forall|j: int| 0 <= j < i ==> (#[trigger] g0[j]).0@ != key,
        decreases g0.len() - i,
    {
        i = i + 1;
    }
    let ghost prior: Seq<Seq<char>> = match group_texts(g0, key) {
        Some(l) => l,
        None => Seq::<Seq<char>>::empty(),
    };
    if i < groups.len() {
        let (_, mut list) = groups.remove(i);
        proof {
            let c = choose|g: int| 0 <= g < g0.len() && (#[trigger] g0[g]).0@ == key;
            if c != i {
                if c < i {
                    assert(g0[c].0@ != key);
                } else {
                    assert(g0[i as int].0@ != g0[c].0@);
                }
            }
            assert(texts(list@) == prior);
        }
        list.push(loader);
        groups.insert(i, (id, list));
    } else {
        proof {
            if exists|g: int| 0 <= g < g0.len() && (#[trigger] g0[g]).0@ == key {
                let c = choose|g: int| 0 <= g < g0.len() && (#[trigger] g0[g]).0@ == key;
                assert(g0[c].0@ != key);
            }
        }
        let mut list: Vec<String> = Vec::new();
        list.push(loader);
        groups.push((id, list));
    }
    proof {
        let g1 = groups@;
        assert(texts(g1[i as int].1@) =~= prior.push(loader@));
        assert(forall|j: int| 0 <= j < g0.len() && j != i ==> #[trigger] g1[j] == g0[j]);
        assert forall|a: int, b: int| 0 <= a < b < g1.len() implies (#[trigger] g1[a]).0@ != (
        #[trigger] g1[b]).0@ by {
            if a == i {
                if i < g0.len() {
                    assert(g0[i as int].0@ != g0[b].0@);
                }
            } else if b == i {
                if i < g0.len() {
                    assert(g0[a].0@ != g0[i as int].0@);
                }
            }
        }
        let c = choose|j: int| 0 <= j < g1.len() && (#[trigger] g1[j]).0@ == key;
        if c != i {
            if c < i {
                assert(g1[c].0@ != g1[i as int].0@);
            } else {
                assert(g1[i as int].0@ != g1[c].0@);
            }
        }
        assert forall|y: Seq<char>| y != key implies #[trigger] group_texts(g1, y) == group_texts(g0, y) by {
            if exists|j: int| 0 <= j < g1.len() && (#[trigger] g1[j]).0@ == y {
                let j = choose|j: int| 0 <= j < g1.len() && (#[trigger] g1[j]).0@ == y;
                assert(j != i);
                assert(g0[j] == g1[j]);
                let j0 = choose|j: int| 0 <= j < g0.len() && (#[trigger] g0[j]).0@ == y;
                if j0 != j {
                    assert(g1[j0] == g0[j0]);
                    if j0 < j {
                        assert(g1[j0].0@ != g1[j].0@);
                    } else {
                        assert(g1[j].0@ != g1[j0].0@);
                    }
                }
            }
            if exists|j: int| 0 <= j < g0.len() && (#[trigger] g0[j]).0@ == y {
                let j = choose|j: int| 0 <= j < g0.len() && (#[trigger] g0[j]).0@ == y;
                if j == i {
                    assert(g0[i as int].0@ == key);
                }
                assert(g1[j] == g0[j]);
            }
        }
    }
}

/// The strings of `list` in reverse order.
fn reversed(list: Vec<String>) -> (out: Vec<String>)
    ensures
        texts(out@) == texts(list@).reverse(),
{
    let mut list = list;
    let ghost l0 = list@;
    let mut out: Vec<String> = Vec::new();
    while list.len() > 0
        invariant
            l0.len() == list@.len() + out@.len(),
            list@ == l0.take(list@.len() as int),
            texts(out@) == texts(l0).reverse().take(out@.len() as int),
        decreases list@.len(),
    {
        let ghost n = list@.len();
        let s = list.pop().unwrap();
        assert(s == l0[n - 1]);
        out.push(s);
        assert(list@ =~= l0.take(n - 1));
        assert(texts(out@) =~= texts(l0).reverse().take(out@.len() as int));
    }
    assert(texts(out@) =~= texts(l0).reverse());
    out
}

/// Forge's loaders per tracked release, newest first: the versions in its metadata are
/// `release-loader`, listed oldest first; versions of untracked releases are left out.
pub fn forge_builds(versions: &[String], known: &[String]) -> (res: Vec<(String, BuildSet)>)
    ensures
        release_ids_unique(res@),
        forall|id: Seq<char>|
            match #[trigger] builds_for(res@, id) {
                Some(BuildSet::List { values }) => {
                    &&& texts(known@).contains(id)
                    &&& forge_loaders(texts(versions@), id).len() > 0
                    &&& texts(values@) == forge_loaders(texts(versions@), id).reverse()
                },
                Some(BuildSet::Range { .. }) => false,
                None => !texts(known@).contains(id) || forge_loaders(texts(versions@), id).len()
                    == 0,
            },
{
    let ghost vt = texts(versions@);
    let ghost kt = texts(known@);
    let mut groups: Vec<(String, Vec<String>)> = Vec::new();
    let mut i: usize = 0;
    while i < versions.len()
        invariant
            i <= versions@.len(),
            vt == texts(versions@),
            kt == texts(known@),
            group_ids_unique(groups@),
            forall|id: Seq<char>|
                #[trigger] group_texts(groups@, id) == (if kt.contains(id) && forge_loaders(
                    vt.take(i as int),
                    id,
                ).len() > 0 {
                    Some(forge_loaders(vt.take(i as int), id))
                } else {
                    None
                }),
        decreases versions@.len() - i,
    {
        let chars = chars_of(versions[i].as_str());
        let n = chars.len();
        assert(vt.take(i + 1).drop_last() =~= vt.take(i as int));
        assert(vt.take(i + 1).last() == chars@);
        assert(chars@.subrange(0, n as int) =~= chars@);
        if let Some(k) = find_char(chars.as_slice(), 0, n, '-') {
            proof {
                lemma_split_range(chars@, 0, k as int, n as int, '-');
            }
            let release = string_of_range(chars.as_slice(), 0, k);
            let loader = string_of_range(chars.as_slice(), k + 1, n);
            if contains_str(known, release.as_str()) {
                proof {
                    let j = choose|j: int| 0 <= j < known@.len() && #[trigger] known@[j]@ == release@;
                    assert(kt[j] == release@);
                }
                let ghost rid = release@;
                gather(&mut groups, release, loader);
                proof {
                    assert forall|id: Seq<char>|
                        #[trigger] group_texts(groups@, id) == (if kt.contains(id) && forge_loaders(
                            vt.take(i + 1),
                            id,
                        ).len() > 0 {
                            Some(forge_loaders(vt.take(i + 1), id))
                        } else {
                            None
                        }) by {
                        if id == rid {
                        } else {
                        }
                    }
                }
            } else {
                proof {
                    assert forall|id: Seq<char>|
                        #[trigger] group_texts(groups@, id) == (if kt.contains(id) && forge_loaders(
                            vt.take(i + 1),
                            id,
                        ).len() > 0 {
                            Some(forge_loaders(vt.take(i + 1), id))
                        } else {
                            None
                        }) by {
                        if id == release@ {
                            if kt.contains(id) {
                                let j = choose|j: int| 0 <= j < kt.len() && kt[j] == id;
                                assert(known@[j]@ == id);
                            }
                        }
                    }
                }
            }
        }
        i = i + 1;
    }
    assert(vt.take(versions@.len() as int) =~= vt);
    let mut res: Vec<(String, BuildSet)> = Vec::new();
    let ghost gs = groups@;
    let total = groups.len();
    let mut g: usize = 0;
    while groups.len() > 0
        invariant
            g + groups@.len() == gs.len(),
            gs.len() == total,
            groups@ == gs.skip(g as int),
            group_ids_unique(gs),
            res@.len() == g,
            forall|j: int| 0 <= j < g ==> (#[trigger] res@[j]).0 == gs[j].0,
            forall|j: int|
                0 <= j < g ==> match (#[trigger] res@[j]).1 {
                    BuildSet::List { values } => texts(values@) == texts(gs[j].1@).reverse(),
                    BuildSet::Range { .. } => false,
                },
        decreases groups@.len(),
    {
        assert(groups@[0] == gs[g as int]);
        let (id, list) = groups.remove(0);
        assert(groups@ =~= gs.skip(g + 1));
        let values = reversed(list);
        res.push((id, BuildSet::List { values }));
        g = g + 1;
    }
    proof {
        assert forall|a: int, b: int| 0 <= a < b < res@.len() implies (#[trigger] res@[a]).0@ != (
        #[trigger] res@[b]).0@ by {
            assert(gs[a].0@ != gs[b].0@);
        }
        assert forall|id: Seq<char>|
            match #[trigger] builds_for(res@, id) {
                Some(BuildSet::List { values }) => {
                    &&& kt.contains(id)
                    &&& forge_loaders(vt, id).len() > 0
                    &&& texts(values@) == forge_loaders(vt, id).reverse()
                },
                Some(BuildSet::Range { .. }) => false,
                None => !kt.contains(id) || forge_loaders(vt, id).len() == 0,
            } by {
            if exists|j: int| 0 <= j < res@.len() && (#[trigger] res@[j]).0@ == id {
                let j = choose|j: int| 0 <= j < res@.len() && (#[trigger] res@[j]).0@ == id;
                assert(gs[j].0@ == id);
                let c = choose|j: int| 0 <= j < gs.len() && (#[trigger] gs[j]).0@ == id;
                if c != j {
                    if c < j {
                        assert(gs[c].0@ != gs[j].0@);
                    } else {
                        assert(gs[j].0@ != gs[c].0@);
                    }
                }
                assert(group_texts(gs, id) == Some(texts(gs[j].1@)));
            } else {
                if exists|j: int| 0 <= j < gs.len() && (#[trigger] gs[j]).0@ == id {
                    let j = choose|j: int| 0 <= j < gs.len() && (#[trigger] gs[j]).0@ == id;
                    assert(res@[j].0@ == id);
                }
            }
        }
    }
    res
}

/// The three numbers of a NeoForge version `minor.patch.build`: split at the first two
/// `.`, each part a `u16`.
pub open spec fn neoforge_parts(v: Seq<char>) -> Option<(u16, u16, u16)> {
    match split_once(v, '.') {
        Some((a, r)) => match split_once(r, '.') {
            Some((b, c)) => match (parse_u16(a), parse_u16(b), parse_u16(c)) {
                (Some(minor), Some(patch), Some(build)) => Some((minor, patch, build)),
                _ => None,
            },
            None => None,
        },
        None => None,
    }
}

/// The builds NeoForge lists for the line targeting Minecraft `1.minor.patch`.
pub open spec fn neoforge_line_builds(versions: Seq<Seq<char>>, minor: u16, patch: u16) -> Set<u16> {
    Set::new(
        |b: u16|
            exists|i: int|
                0 <= i < versions.len() && neoforge_parts(#[trigger] versions[i]) == Some(
                    (minor, patch, b),
                ),
    )
}

/// The Minecraft release a NeoForge line targets: loader `21.4.x` is for `1.21.4`.
pub open spec fn neoforge_release(minor: u16, patch: u16) -> Seq<char> {
    version_text(Version { major: 1, minor, patch })
}

/// What NeoForge puts before a build number: `minor.patch.`.
pub open spec fn neoforge_prefix(minor: u16, patch: u16) -> Seq<char> {
    decimal(minor as nat) + seq!['.'] + decimal(patch as nat) + seq!['.']
}

/// The builds gathered for a line, when there are any.
pub open spec fn line_set(groups: Seq<(u16, u16, HashSet<u16>)>, minor: u16, patch: u16) -> Option<Set<u16>> {
    if exists|g: int| 0 <= g < groups.len() && (#[trigger] groups[g]).0 == minor && groups[g].1 == patch {
        let g = choose|g: int| 0 <= g < groups.len() && (#[trigger] groups[g]).0 == minor && groups[g].1 == patch;
        Some(groups[g].2@)
    } else {
        None
    }
}

/// No line is gathered twice.
pub open spec fn lines_unique(groups: Seq<(u16, u16, HashSet<u16>)>) -> bool {
    forall|a: int, b: int|
        0 <= a < b < groups.len() ==> !((#[trigger] groups[a]).0 == (#[trigger] groups[b]).0
            && groups[a].1 == groups[b].1)
}

/// The three numbers of the version at `s[..]`, if it has that shape.
fn parse_neoforge(s: &[char]) -> (res: Option<(u16, u16, u16)>)
    ensures
        res == neoforge_parts(s@),
{
    let n = s.len();
    assert(s@.subrange(0, n as int) =~= s@);
    let first = match find_char(s, 0, n, '.') {
        Some(k) => k,
        None => return None,
    };
    proof {
        lemma_split_range(s@, 0, first as int, n as int, '.');
    }
    let second = match find_char(s, first + 1, n, '.') {
        Some(k) => k,
        None => return None,
    };
    proof {
        lemma_split_range(s@, first + 1, second as int, n as int, '.');
    }
    let minor = parse_u16_range(s, 0, first);
    let patch = parse_u16_range(s, first + 1, second);
    let build = parse_u16_range(s, second + 1, n);
    match (minor, patch, build) {
        (Some(minor), Some(patch), Some(build)) => Some((minor, patch, build)),
        _ => None,
    }
}

/// Adds `build` to the builds gathered for line `minor.patch`.
fn gather_line(groups: &mut Vec<(u16, u16, HashSet<u16>)>, minor: u16, patch: u16, build: u16)
    requires
        lines_unique(old(groups)@),
    ensures
        lines_unique(final(groups)@),
        line_set(final(groups)@, minor, patch) == Some(
            match line_set(old(groups)@, minor, patch) {
                Some(s) => s,
                None => Set::<u16>::empty(),
            }.insert(build),
        ),
        forall|x: u16, y: u16|
            !(x == minor && y == patch) ==> #[trigger] line_set(final(groups)@, x, y) == line_set(
                old(groups)@,
                x,
                y,
            ),
{
    let ghost g0 = groups@;
    let mut i: usize = 0;
    while i < groups.len() && !(groups[i].0 == minor && groups[i].1 == patch)
        invariant
            groups@ == g0,
            i <= g0.len(),
            forall|j: int| 0 <= j < i ==> !((#[trigger] g0[j]).0 == minor && g0[j].1 == patch),
        decreases g0.len() - i,
    {
        i = i + 1;
    }
    let ghost prior: Set<u16> = match line_set(g0, minor, patch) {
        Some(s) => s,
        None => Set::<u16>::empty(),
    };
    if i < groups.len() {
        let (_, _, mut set) = groups.remove(i);
        proof {
            let c = choose|g: int| 0 <= g < g0.len() && (#[trigger] g0[g]).0 == minor && g0[g].1 == patch;
            if c != i {
                if c < i {
                    assert(!(g0[c].0 == minor && g0[c].1 == patch));
                } else {
                    assert(!(g0[i as int].0 == g0[c].0 && g0[i as int].1 == g0[c].1));
                }
            }
        }
        set.insert(build);
        groups.insert(i, (minor, patch, set));
    } else {
        proof {
            if exists|g: int| 0 <= g < g0.len() && (#[trigger] g0[g]).0 == minor && g0[g].1 == patch {
                let c = choose|g: int| 0 <= g < g0.len() && (#[trigger] g0[g]).0 == minor && g0[g].1 == patch;
                assert(!(g0[c].0 == minor && g0[c].1 == patch));
            }
        }
        let mut set: HashSet<u16> = HashSet::new();
        set.insert(build);
        groups.push((minor, patch, set));
    }
    proof {
        let g1 = groups@;
        assert(g1[i as int].2@ =~= prior.insert(build));
        assert(forall|j: int| 0 <= j < g0.len() && j != i ==> #[trigger] g1[j] == g0[j]);
        assert forall|a: int, b: int| 0 <= a < b < g1.len() implies !((#[trigger] g1[a]).0 == (
        #[trigger] g1[b]).0 && g1[a].1 == g1[b].1) by {
            if a == i && i < g0.len() {
                assert(!(g0[i as int].0 == g0[b].0 && g0[i as int].1 == g0[b].1));
            } else if b == i && i < g0.len() {
                assert(!(g0[a].0 == g0[i as int].0 && g0[a].1 == g0[i as int].1));
            }
        }
        let c = choose|j: int| 0 <= j < g1.len() && (#[trigger] g1[j]).0 == minor && g1[j].1 == patch;
        if c != i {
            if c < i {
                assert(!(g1[c].0 == g1[i as int].0 && g1[c].1 == g1[i as int].1));
            } else {
                assert(!(g1[i as int].0 == g1[c].0 && g1[i as int].1 == g1[c].1));
            }
        }
        assert forall|x: u16, y: u16| !(x == minor && y == patch) implies #[trigger] line_set(
            g1,
            x,
            y,
        ) == line_set(g0, x, y) by {
            if exists|j: int| 0 <= j < g1.len() && (#[trigger] g1[j]).0 == x && g1[j].1 == y {
                let j = choose|j: int| 0 <= j < g1.len() && (#[trigger] g1[j]).0 == x && g1[j].1 == y;
                assert(j != i);
                assert(g0[j] == g1[j]);
                let j0 = choose|j: int| 0 <= j < g0.len() && (#[trigger] g0[j]).0 == x && g0[j].1 == y;
                if j0 != j {
                    assert(g1[j0] == g0[j0]);
                    if j0 < j {
                        assert(!(g1[j0].0 == g1[j].0 && g1[j0].1 == g1[j].1));
                    } else {
                        assert(!(g1[j].0 == g1[j0].0 && g1[j].1 == g1[j0].1));
                    }
                }
            }
            if exists|j: int| 0 <= j < g0.len() && (#[trigger] g0[j]).0 == x && g0[j].1 == y {
                let j = choose|j: int| 0 <= j < g0.len() && (#[trigger] g0[j]).0 == x && g0[j].1 == y;
                if j == i {
                    assert(g0[i as int].0 == minor && g0[i as int].1 == patch);
                }
                assert(g1[j] == g0[j]);
            }
        }
    }
}

/// Gathering one more version adds its build to its line and leaves the other lines.
proof fn lemma_line_builds_step(versions: Seq<Seq<char>>, i: int)
    requires
        0 <= i < versions.len(),
    ensures
        forall|x: u16, y: u16|
            #[trigger] neoforge_line_builds(versions.take(i + 1), x, y) == (match neoforge_parts(
                versions[i],
            ) {
                Some((a, b, c)) => if a == x && b == y {
                    neoforge_line_builds(versions.take(i), x, y).insert(c)
                } else {
                    neoforge_line_builds(versions.take(i), x, y)
                },
                None => neoforge_line_builds(versions.take(i), x, y),
            }),
{
    let t1 = versions.take(i + 1);
    let t0 = versions.take(i);
    assert(t1[i] == versions[i]);
    assert forall|x: u16, y: u16|
        #[trigger] neoforge_line_builds(t1, x, y) == (match neoforge_parts(versions[i]) {
            Some((a, b, c)) => if a == x && b == y {
                neoforge_line_builds(t0, x, y).insert(c)
            } else {
                neoforge_line_builds(t0, x, y)
            },
            None => neoforge_line_builds(t0, x, y),
        }) by {
        let rhs = match neoforge_parts(versions[i]) {
            Some((a, b, c)) => if a == x && b == y {
                neoforge_line_builds(t0, x, y).insert(c)
            } else {
                neoforge_line_builds(t0, x, y)
            },
            None => neoforge_line_builds(t0, x, y),
        };
        assert forall|z: u16| neoforge_line_builds(t1, x, y).contains(z) <==> rhs.contains(z) by {
            if neoforge_line_builds(t1, x, y).contains(z) {
                let k = choose|k: int|
                    0 <= k < t1.len() && neoforge_parts(#[trigger] t1[k]) == Some((x, y, z));
                if k < i {
                    assert(neoforge_parts(t0[k]) == Some((x, y, z)));
                }
            }
            if neoforge_line_builds(t0, x, y).contains(z) {
                let k = choose|k: int|
                    0 <= k < t0.len() && neoforge_parts(#[trigger] t0[k]) == Some((x, y, z));
                assert(neoforge_parts(t1[k]) == Some((x, y, z)));
            }
        }
        assert(neoforge_line_builds(t1, x, y) =~= rhs);
    }
}

/// An entry made of line `line`: its release, known, and the line's builds as a range
/// prefixed with `minor.patch.`.
pub open spec fn entry_matches(entry: (String, BuildSet), line: (u16, u16, HashSet<u16>), known: Seq<Seq<char>>) -> bool {
    &&& entry.0@ == neoforge_release(line.0, line.1)
    &&& known.contains(entry.0@)
    &&& match entry.1 {
        BuildSet::Range { prefix, min, max, excluded } => {
            &&& prefix matches Some(p) && p@ == neoforge_prefix(line.0, line.1)
            &&& range_builds(min, max, excluded@) == line.2@
            &&& tight_range(line.2@, min, max, excluded@)
        },
        BuildSet::List { .. } => false,
    }
}

/// The entry of a NeoForge line whose release is tracked: its release and its builds as a
/// range prefixed with `minor.patch.`.
fn neoforge_entry(minor: u16, patch: u16, set: &HashSet<u16>, known: &[String]) -> (res: Option<(String, BuildSet)>)
    ensures
        match res {
            Some(e) => entry_matches(e, (minor, patch, *set), texts(known@)),
            None => !texts(known@).contains(neoforge_release(minor, patch)) || set@ == Set::<u16>::empty(),
        },
{
    let ghost kt = texts(known@);
    let mut release_chars: Vec<char> = Vec::new();
    release_chars.push('1');
    release_chars.push('.');
    push_decimal(&mut release_chars, minor as u64);
    release_chars.push('.');
    push_decimal(&mut release_chars, patch as u64);
    let release = string_from_chars(release_chars.as_slice());
    proof {
        assert(decimal(1) =~= seq!['1']);
        assert(release@ =~= neoforge_release(minor, patch));
    }
    if !contains_str(known, release.as_str()) {
        proof {
            if kt.contains(release@) {
                let j = choose|j: int| 0 <= j < kt.len() && kt[j] == release@;
                assert(known@[j]@ == release@);
            }
        }
        return None;
    }
    proof {
        let j = choose|j: int| 0 <= j < known@.len() && #[trigger] known@[j]@ == release@;
        assert(kt[j] == release@);
    }
    let mut prefix_chars: Vec<char> = Vec::new();
    push_decimal(&mut prefix_chars, minor as u64);
    prefix_chars.push('.');
    push_decimal(&mut prefix_chars, patch as u64);
    prefix_chars.push('.');
    let prefix = string_from_chars(prefix_chars.as_slice());
    assert(prefix@ =~= neoforge_prefix(minor, patch));
    match build_range(Some(prefix), set) {
        Some(range) => Some((release, range)),
        None => {
            assert(set@ =~= Set::<u16>::empty());
            None
        },
    }
}

/// Different lines target different releases.
proof fn lemma_neoforge_release_injective(a: u16, b: u16, c: u16, d: u16)
    ensures
        neoforge_release(a, b) == neoforge_release(c, d) ==> a == c && b == d,
{
    lemma_version_round_trip(Version { major: 1, minor: a, patch: b });
    lemma_version_round_trip(Version { major: 1, minor: c, patch: d });
}

/// NeoForge's builds per tracked release: each version `minor.patch.build` in its
/// metadata is a build of the line for Minecraft `1.minor.patch`, described as a range
/// whose prefix is `minor.patch.`. Lines of untracked releases are left out.
#[verifier::rlimit(40)]
pub fn neoforge_builds(versions: &[String], known: &[String]) -> (res: Vec<(String, BuildSet)>)
    ensures
        release_ids_unique(res@),
        forall|id: Seq<char>|
            (#[trigger] builds_for(res@, id)) is Some ==> exists|minor: u16, patch: u16|
                id == neoforge_release(minor, patch),
        forall|minor: u16, patch: u16|
            match #[trigger] builds_for(res@, neoforge_release(minor, patch)) {
                Some(BuildSet::Range { prefix, min, max, excluded }) => {
                    &&& prefix matches Some(p) && p@ == neoforge_prefix(minor, patch)
                    &&& range_builds(min, max, excluded@) == neoforge_line_builds(
                        texts(versions@),
                        minor,
                        patch,
                    )
                    &&& tight_range(neoforge_line_builds(texts(versions@), minor, patch), min, max, excluded@)
                    &&& texts(known@).contains(neoforge_release(minor, patch))
                },
                Some(BuildSet::List { .. }) => false,
                None => !texts(known@).contains(neoforge_release(minor, patch))
                    || neoforge_line_builds(texts(versions@), minor, patch) == Set::<u16>::empty(),
            },
{
    let ghost vt = texts(versions@);
    let ghost kt = texts(known@);
    let mut groups: Vec<(u16, u16, HashSet<u16>)> = Vec::new();
    let mut i: usize = 0;
    proof {
        assert forall|x: u16, y: u16| #[trigger] neoforge_line_builds(vt.take(0), x, y) == Set::<u16>::empty() by {
            assert(neoforge_line_builds(vt.take(0), x, y) =~= Set::<u16>::empty());
        }
    }
    while i < versions.len()
        invariant
            i <= versions@.len(),
            vt == texts(versions@),
            lines_unique(groups@),
            forall|x: u16, y: u16|
                #[trigger] line_set(groups@, x, y) == (if neoforge_line_builds(vt.take(i as int), x, y)
                    == Set::<u16>::empty() {
                    None
                } else {
                    Some(neoforge_line_builds(vt.take(i as int), x, y))
                }),
        decreases versions@.len() - i,
    {
        proof {
            lemma_line_builds_step(vt, i as int);
        }
        let chars = chars_of(versions[i].as_str());
        assert(vt[i as int] == chars@);
        match parse_neoforge(chars.as_slice()) {
            Some((minor, patch, build)) => {
                gather_line(&mut groups, minor, patch, build);
                proof {
                    assert forall|x: u16, y: u16|
                        #[trigger] line_set(groups@, x, y) == (if neoforge_line_builds(
                            vt.take(i + 1),
                            x,
                            y,
                        ) == Set::<u16>::empty() {
                            None
                        } else {
                            Some(neoforge_line_builds(vt.take(i + 1), x, y))
                        }) by {
                        if x == minor && y == patch {
                            assert(neoforge_line_builds(vt.take(i + 1), x, y).contains(build));
                        }
                    }
                }
            },
            None => {},
        }
        i = i + 1;
    }
    assert(vt.take(versions@.len() as int) =~= vt);
    let ghost gs = groups@;
    let total = groups.len();
    let mut res: Vec<(String, BuildSet)> = Vec::new();
    let mut g: usize = 0;
    while groups.len() > 0
        invariant
            g + groups@.len() == gs.len(),
            gs.len() == total,
            groups@ == gs.skip(g as int),
            lines_unique(gs),
            kt == texts(known@),
            forall|x: u16, y: u16|
                #[trigger] line_set(gs, x, y) == (if neoforge_line_builds(vt, x, y) == Set::<u16>::empty() {
                    None
                } else {
                    Some(neoforge_line_builds(vt, x, y))
                }),
            release_ids_unique(res@),
            forall|j: int|
                0 <= j < res@.len() ==> exists|h: int|
                    0 <= h < g && (#[trigger] res@[j]).0@ == neoforge_release(gs[h].0, gs[h].1)
                        && entry_matches(res@[j], gs[h], kt),
            forall|h: int|
                0 <= h < g && kt.contains(neoforge_release(gs[h].0, gs[h].1)) ==> exists|j: int|
                    0 <= j < res@.len() && (#[trigger] res@[j]).0@ == neoforge_release(
                        (#[trigger] gs[h]).0,
                        gs[h].1,
                    ),
        decreases groups@.len(),
    {
        assert(groups@[0] == gs[g as int]);
        let (minor, patch, set) = groups.remove(0);
        assert(groups@ =~= gs.skip(g + 1));
        proof {
            let c = choose|c: int| 0 <= c < gs.len() && (#[trigger] gs[c]).0 == minor && gs[c].1 == patch;
            if c != g {
                if c < g {
                    assert(!(gs[c].0 == gs[g as int].0 && gs[c].1 == gs[g as int].1));
                } else {
                    assert(!(gs[g as int].0 == gs[c].0 && gs[g as int].1 == gs[c].1));
                }
            }
            assert(line_set(gs, minor, patch) == Some(set@));
        }
        let ghost r_start = res@;
        match neoforge_entry(minor, patch, &set, known) {
            Some((release, range)) => {
                let ghost r0 = res@;
                proof {
                    assert forall|j: int| 0 <= j < r0.len() implies (#[trigger] r0[j]).0@ != release@ by {
                        let h = choose|h: int|
                            0 <= h < g && (#[trigger] r0[j]).0@ == neoforge_release(gs[h].0, gs[h].1)
                                && entry_matches(r0[j], gs[h], kt);
                        lemma_neoforge_release_injective(gs[h].0, gs[h].1, minor, patch);
                        if gs[h].0 == minor && gs[h].1 == patch {
                            assert(!(gs[h].0 == gs[g as int].0 && gs[h].1 == gs[g as int].1));
                        }
                    }
                }
                res.push((release, range));
                assert(res@[res@.len() - 1].0@ == neoforge_release(gs[g as int].0, gs[g as int].1));
            },
            None => {
                assert(set@ != Set::<u16>::empty());
            },
        }
        proof {
            assert(forall|j: int| 0 <= j < r_start.len() ==> #[trigger] res@[j] == r_start[j]);
            assert forall|h: int|
                0 <= h < g + 1 && kt.contains(neoforge_release(gs[h].0, gs[h].1)) implies exists|j: int|
                    0 <= j < res@.len() && (#[trigger] res@[j]).0@ == neoforge_release(
                        (#[trigger] gs[h]).0,
                        gs[h].1,
                    ) by {
                if h < g {
                    let j = choose|j: int|
                        0 <= j < r_start.len() && (#[trigger] r_start[j]).0@ == neoforge_release(
                            (#[trigger] gs[h]).0,
                            gs[h].1,
                        );
                    assert(res@[j] == r_start[j]);
                } else {
                    assert(res@.len() == r_start.len() + 1);
                    assert(res@[res@.len() - 1].0@ == neoforge_release(gs[h].0, gs[h].1));
                }
            }
        }
        g = g + 1;
    }
    proof {
        assert forall|id: Seq<char>| (#[trigger] builds_for(res@, id)) is Some implies exists|
            minor: u16,
            patch: u16,
        | id == neoforge_release(minor, patch) by {
            let j = choose|j: int| 0 <= j < res@.len() && (#[trigger] res@[j]).0@ == id;
            let h = choose|h: int|
                0 <= h < g && (#[trigger] res@[j]).0@ == neoforge_release(gs[h].0, gs[h].1)
                    && entry_matches(res@[j], gs[h], kt);
            assert(id == neoforge_release(gs[h].0, gs[h].1));
        }
        assert forall|minor: u16, patch: u16|
            match #[trigger] builds_for(res@, neoforge_release(minor, patch)) {
                Some(BuildSet::Range { prefix, min, max, excluded }) => {
                    &&& prefix matches Some(p) && p@ == neoforge_prefix(minor, patch)
                    &&& range_builds(min, max, excluded@) == neoforge_line_builds(vt, minor, patch)
                    &&& kt.contains(neoforge_release(minor, patch))
                },
                Some(BuildSet::List { .. }) => false,
                None => !kt.contains(neoforge_release(minor, patch))
                    || neoforge_line_builds(vt, minor, patch) == Set::<u16>::empty(),
            } by {
            let id = neoforge_release(minor, patch);
            if exists|j: int| 0 <= j < res@.len() && (#[trigger] res@[j]).0@ == id {
                let j = choose|j: int| 0 <= j < res@.len() && (#[trigger] res@[j]).0@ == id;
                let h = choose|h: int|
                    0 <= h < g && (#[trigger] res@[j]).0@ == neoforge_release(gs[h].0, gs[h].1)
                        && entry_matches(res@[j], gs[h], kt);
                lemma_neoforge_release_injective(gs[h].0, gs[h].1, minor, patch);
                let c = choose|c: int| 0 <= c < gs.len() && (#[trigger] gs[c]).0 == minor && gs[c].1 == patch;
                if c != h {
                    if c < h {
                        assert(!(gs[c].0 == gs[h].0 && gs[c].1 == gs[h].1));
                    } else {
                        assert(!(gs[h].0 == gs[c].0 && gs[h].1 == gs[c].1));
                    }
                }
                assert(line_set(gs, minor, patch) == Some(gs[h].2@));
            } else {
                if kt.contains(id) && neoforge_line_builds(vt, minor, patch) != Set::<u16>::empty() {
                    assert(line_set(gs, minor, patch) is Some);
                    let c = choose|c: int| 0 <= c < gs.len() && (#[trigger] gs[c]).0 == minor && gs[c].1 == patch;
                    assert(kt.contains(neoforge_release(gs[c].0, gs[c].1)));
                    let j = choose|j: int|
                        0 <= j < res@.len() && (#[trigger] res@[j]).0@ == neoforge_release(
                            (#[trigger] gs[c]).0,
                            gs[c].1,
                        );
                    assert(res@[j].0@ == id);
                }
            }
        }
    }
    res
}

} // verus!
