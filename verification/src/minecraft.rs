//! The Minecraft: Java Edition catalog.

use crate::text::str_eq;
use crate::time::Timestamp;
use std::collections::{BTreeSet, HashSet};
use vstd::prelude::*;

verus! {

broadcast use vstd::std_specs::hash::group_hash_axioms;

/// Server distributions builds are tracked for.
#[derive(Debug, Clone, Copy, PartialEq, Eq, PartialOrd, Ord, Hash, Structural)]
pub enum Distribution {
    /// Mojang's own server jar. Available for every release in the catalog and therefore
    /// never listed among a release's distributions.
    Vanilla,
    /// PaperMC's Paper.
    Paper,
    /// PurpurMC's Purpur.
    Purpur,
    /// FabricMC's loader.
    Fabric,
    /// QuiltMC's loader.
    Quilt,
    /// MinecraftForge's loader.
    Forge,
    /// NeoForged's loader.
    Neoforge,
}

/// The name a distribution goes by.
pub open spec fn distribution_name(d: Distribution) -> Seq<char> {
    match d {
        Distribution::Vanilla => "vanilla"@,
        Distribution::Paper => "paper"@,
        Distribution::Purpur => "purpur"@,
        Distribution::Fabric => "fabric"@,
        Distribution::Quilt => "quilt"@,
        Distribution::Forge => "forge"@,
        Distribution::Neoforge => "neoforge"@,
    }
}

/// The position of a distribution in the order the catalog lists them.
pub open spec fn distribution_rank(d: Distribution) -> nat {
    match d {
        Distribution::Vanilla => 0,
        Distribution::Paper => 1,
        Distribution::Purpur => 2,
        Distribution::Fabric => 3,
        Distribution::Quilt => 4,
        Distribution::Forge => 5,
        Distribution::Neoforge => 6,
    }
}

impl Distribution {
    /// The distribution's name.
    pub fn as_str(self) -> (s: &'static str)
        ensures
            s@ == distribution_name(self),
    {
        match self {
            Distribution::Vanilla => "vanilla",
            Distribution::Paper => "paper",
            Distribution::Purpur => "purpur",
            Distribution::Fabric => "fabric",
            Distribution::Quilt => "quilt",
            Distribution::Forge => "forge",
            Distribution::Neoforge => "neoforge",
        }
    }

    /// The position of the distribution in the catalog's order.
    pub fn rank(self) -> (r: u8)
        ensures
            r == distribution_rank(self),
    {
        match self {
            Distribution::Vanilla => 0,
            Distribution::Paper => 1,
            Distribution::Purpur => 2,
            Distribution::Fabric => 3,
            Distribution::Quilt => 4,
            Distribution::Forge => 5,
            Distribution::Neoforge => 6,
        }
    }
}

/// The builds or loader versions available for one distribution of one release.
#[derive(Debug, Clone, PartialEq, Eq)]
pub enum BuildSet {
    /// Every build number from `min` to `max` inclusive, except those in `excluded`.
    Range {
        /// Prepended to each build number to form the full version string, when the
        /// upstream numbers its builds within a versioned line (NeoForge does this).
        prefix: Option<String>,
        /// Lowest build number, inclusive.
        min: u16,
        /// Highest build number, inclusive.
        max: u16,
        /// Build numbers inside the range that do not exist.
        excluded: BTreeSet<u16>,
    },
    /// An explicit list of version strings, newest first.
    List {
        /// The available versions.
        values: Vec<String>,
    },
}

/// The build numbers a range stands for.
pub open spec fn range_builds(min: u16, max: u16, excluded: Set<u16>) -> Set<u16> {
    Set::new(|b: u16| min <= b && b <= max && !excluded.contains(b))
}

/// `min` to `max` less `excluded` is the tightest range for `builds`: `min` is the lowest
/// build, `max` the highest, and `excluded` exactly the numbers between them that are not
/// builds.
pub open spec fn tight_range(builds: Set<u16>, min: u16, max: u16, excluded: Set<u16>) -> bool {
    &&& builds.contains(min)
    &&& builds.contains(max)
    &&& forall|b: u16| builds.contains(b) ==> min <= b && b <= max
    &&& excluded == Set::new(|b: u16| min <= b && b <= max && !builds.contains(b))
}

/// A build set that holds no usable build.
pub open spec fn spec_build_set_empty(set: BuildSet) -> bool {
    match set {
        BuildSet::Range { min, max, excluded, .. } => forall|b: u16|
            !#[trigger] range_builds(min, max, excluded@).contains(b),
        BuildSet::List { values } => values@.len() == 0,
    }
}

/// Whether every build from `min` to `max` is in `excluded`.
fn range_is_empty(min: u16, max: u16, excluded: &BTreeSet<u16>) -> (res: bool)
    ensures
        res == forall|b: u16| !#[trigger] range_builds(min, max, excluded@).contains(b),
{
    let mut b: u32 = min as u32;
    while b <= max as u32
        invariant
            min <= b,
            b <= max as u32 + 1 || b == min,
            forall|x: u16| min <= x && x < b ==> excluded@.contains(x),
        decreases max as u32 + 1 - b,
    {
        if !excluded.contains(&(b as u16)) {
            assert(range_builds(min, max, excluded@).contains(b as u16));
            return false;
        }
        b = b + 1;
    }
    true
}

impl BuildSet {
    /// Whether the set contains no usable build at all.
    pub fn is_empty(&self) -> (res: bool)
        ensures
            res == spec_build_set_empty(*self),
    {
        match self {
            BuildSet::Range { min, max, excluded, .. } => range_is_empty(*min, *max, excluded),
            BuildSet::List { values } => values.len() == 0,
        }
    }
}

/// Lowest and highest member of a set of builds.
fn build_bounds(builds: &HashSet<u16>) -> (r: Option<(u16, u16)>)
    ensures
        match r {
            Some((lo, hi)) => {
                &&& builds@.contains(lo)
                &&& builds@.contains(hi)
                &&& forall|b: u16| builds@.contains(b) ==> lo <= b && b <= hi
            },
            None => forall|b: u16| !builds@.contains(b),
        },
{
    let mut found = false;
    let mut lo: u16 = 0;
    let mut hi: u16 = 0;
    for b in it: builds.iter()
        invariant
            it.seq().unref().to_set() == builds@,
            forall|x: u16| #[trigger]
                builds@.contains(x) ==> pending(it.seq(), it.index() as int, x) || (found && lo
                    <= x && x <= hi),
            found ==> builds@.contains(lo) && builds@.contains(hi) && lo <= hi,
    {
        proof {
            assert(it.seq().unref()[it.index() as int] == *b);
            assert(it.seq().unref().to_set().contains(*b));
        }
        let ghost f0 = found;
        let ghost l0 = lo;
        let ghost h0 = hi;
        if !found {
            found = true;
            lo = *b;
            hi = *b;
        } else if *b < lo {
            lo = *b;
        } else if *b > hi {
            hi = *b;
        }
        proof {
            assert(*it.seq()[it.index() as int] == *b);
            assert forall|x: u16| #[trigger]
                builds@.contains(x) implies pending(it.seq(), it.index() + 1, x) || (found && lo
                <= x && x <= hi) by {
                assert(pending(it.seq(), it.index() as int, x) || (f0 && l0 <= x && x <= h0));
                assert(f0 ==> lo <= l0 && h0 <= hi && found);
                if pending(it.seq(), it.index() as int, x) && !pending(
                    it.seq(),
                    it.index() + 1,
                    x,
                ) {
                    let j = choose|j: int|
                        it.index() <= j < it.seq().len() && *it.seq()[j] == x;
                    assert(j == it.index());
                }
            }
        }
    }
    if found {
        Some((lo, hi))
    } else {
        None
    }
}

/// `b` is still ahead of position `from` in `s`.
pub open spec fn pending(s: Seq<&u16>, from: int, b: u16) -> bool {
    exists|j: int| from <= j < s.len() && *s[j] == b
}

/// Describes a set of build numbers as the range from its lowest to its highest member,
/// less the numbers in between that it lacks. Gives `None` for an empty set.
pub fn build_range(prefix: Option<String>, builds: &HashSet<u16>) -> (res: Option<BuildSet>)
    ensures
        match res {
            Some(BuildSet::Range { prefix: p, min, max, excluded }) => {
                &&& p == prefix
                &&& builds@.contains(min)
                &&& builds@.contains(max)
                &&& forall|b: u16| builds@.contains(b) ==> min <= b && b <= max
                &&& excluded@ == Set::new(
                    |b: u16| min <= b && b <= max && !builds@.contains(b),
                )
                &&& range_builds(min, max, excluded@) == builds@
                &&& tight_range(builds@, min, max, excluded@)
            },
            Some(BuildSet::List { .. }) => false,
            None => forall|b: u16| !builds@.contains(b),
        },
        res matches Some(s) ==> !spec_build_set_empty(s),
{
    let (min, max) = match build_bounds(builds) {
        Some(bounds) => bounds,
        None => return None,
    };
    let mut excluded: BTreeSet<u16> = BTreeSet::new();
    let mut b: u32 = min as u32;
    while b <= max as u32
        invariant
            min <= max,
            min <= b <= max as u32 + 1,
            excluded@ == Set::new(|x: u16| min <= x && x < b && !builds@.contains(x)),
        decreases max as u32 + 1 - b,
    {
        if !builds.contains(&(b as u16)) {
            excluded.insert(b as u16);
        }
        b = b + 1;
        assert(excluded@ =~= Set::new(|x: u16| min <= x && x < b && !builds@.contains(x)));
    }
    assert(excluded@ =~= Set::new(|x: u16| min <= x && x <= max && !builds@.contains(x)));
    assert(range_builds(min, max, excluded@) =~= builds@);
    assert(range_builds(min, max, excluded@).contains(min));
    let set = BuildSet::Range { prefix, min, max, excluded };
    assert(range_builds(set->Range_min, set->Range_max, set->Range_excluded@).contains(min));
    assert(!spec_build_set_empty(set));
    Some(set)
}

/// The distributions of a release are listed in catalog order, each at most once, and
/// never Mojang's own server.
pub open spec fn distributions_wf(d: Seq<(Distribution, BuildSet)>) -> bool {
    &&& forall|i: int| 0 <= i < d.len() ==> #[trigger] d[i].0 != Distribution::Vanilla
    &&& forall|i: int, j: int|
        0 <= i < j < d.len() ==> distribution_rank(#[trigger] d[i].0) < distribution_rank(
            #[trigger] d[j].0,
        )
}

/// The build set listed for `dist`, if any.
pub open spec fn distribution_lookup(d: Seq<(Distribution, BuildSet)>, dist: Distribution) -> Option<
    BuildSet,
> {
    if exists|i: int| 0 <= i < d.len() && #[trigger] d[i].0 == dist {
        let i = choose|i: int| 0 <= i < d.len() && #[trigger] d[i].0 == dist;
        Some(d[i].1)
    } else {
        None
    }
}

/// One Minecraft release and everything known about running a server for it.
#[derive(Debug, Clone)]
pub struct MinecraftVersion {
    /// The Mojang version identifier, for example `1.21.4`.
    pub id: String,
    /// The Java major version this release is expected to run on.
    pub recommended_java: u8,
    /// Whether this release supports data packs.
    pub data_pack: bool,
    /// Available builds per distribution, in catalog order. A distribution missing here
    /// has no build for this release; Mojang's own server never appears.
    pub distributions: Vec<(Distribution, BuildSet)>,
}

impl MinecraftVersion {
    /// Records the builds of one distribution, replacing what was listed for it before.
    pub fn insert_distribution(&mut self, dist: Distribution, builds: BuildSet)
        requires
            distributions_wf(old(self).distributions@),
            dist != Distribution::Vanilla,
        ensures
            distributions_wf(final(self).distributions@),
            final(self).id == old(self).id,
            final(self).recommended_java == old(self).recommended_java,
            final(self).data_pack == old(self).data_pack,
            distribution_lookup(final(self).distributions@, dist) == Some(builds),
            forall|other: Distribution|
                other != dist ==> distribution_lookup(final(self).distributions@, other)
                    == distribution_lookup(old(self).distributions@, other),
    {
        let ghost d0 = self.distributions@;
        let rank = dist.rank();
        let mut i: usize = 0;
        while i < self.distributions.len() && self.distributions[i].0.rank() < rank
            invariant
                self.distributions@ == d0,
                distributions_wf(d0),
                i <= d0.len(),
                rank == distribution_rank(dist),
                forall|j: int| 0 <= j < i ==> distribution_rank(#[trigger] d0[j].0) < rank,
            decreases d0.len() - i,
        {
            i = i + 1;
        }
        let ghost at = i as int;
        assert(forall|j: int| 0 <= j < at ==> distribution_rank(#[trigger] d0[j].0) < rank);
        assert(at < d0.len() ==> distribution_rank(d0[at].0) >= rank);
        if i < self.distributions.len() && self.distributions[i].0.rank() == rank {
            assert(d0[at].0 == dist);
            self.distributions.set(i, (dist, builds));
            proof {
                let d1 = self.distributions@;
                assert(d1 == d0.update(at, (dist, builds)));
                assert forall|other: Distribution| other != dist implies distribution_lookup(
                    d1,
                    other,
                ) == distribution_lookup(d0, other) by {
                    if exists|k: int| 0 <= k < d0.len() && #[trigger] d0[k].0 == other {
                        let k = choose|k: int| 0 <= k < d0.len() && #[trigger] d0[k].0 == other;
                        assert(d1[k].0 == other);
                        let k1 = choose|k: int| 0 <= k < d1.len() && #[trigger] d1[k].0 == other;
                        assert(k == k1);
                    }
                    if exists|k: int| 0 <= k < d1.len() && #[trigger] d1[k].0 == other {
                        let k = choose|k: int| 0 <= k < d1.len() && #[trigger] d1[k].0 == other;
                        assert(d0[k].0 == other);
                    }
                }
                assert(d1[at].0 == dist);
                let k = choose|k: int| 0 <= k < d1.len() && #[trigger] d1[k].0 == dist;
                if k < at {
                    assert(distribution_rank(d0[k].0) < distribution_rank(d0[at].0));
                } else if k > at {
                    assert(distribution_rank(d0[at].0) < distribution_rank(d0[k].0));
                }
                assert(k == at);
                assert(distribution_lookup(d1, dist) == Some(builds));
            }
        } else {
            self.distributions.insert(i, (dist, builds));
            proof {
                let d1 = self.distributions@;
                assert(forall|j: int| at < j < d0.len() ==> distribution_rank(#[trigger] d0[j].0) > rank) by {
                    assert forall|j: int| at < j < d0.len() implies distribution_rank(#[trigger] d0[j].0) > rank by {
                        assert(distribution_rank(d0[at].0) > rank);
                    }
                }
                assert(forall|j: int| 0 <= j < at ==> #[trigger] d1[j] == d0[j]);
                assert(forall|j: int| at < j < d1.len() ==> #[trigger] d1[j] == d0[j - 1]);
                assert(d1[at] == (dist, builds));
                assert forall|other: Distribution| other != dist implies distribution_lookup(
                    d1,
                    other,
                ) == distribution_lookup(d0, other) by {
                    if exists|k: int| 0 <= k < d0.len() && #[trigger] d0[k].0 == other {
                        let k = choose|k: int| 0 <= k < d0.len() && #[trigger] d0[k].0 == other;
                        let k1 = if k < at { k } else { k + 1 };
                        assert(d1[k1].0 == other);
                        let k2 = choose|k: int| 0 <= k < d1.len() && #[trigger] d1[k].0 == other;
                        if k2 < at {
                            assert(d0[k2].0 == other);
                        } else if k2 > at {
                            assert(d0[k2 - 1].0 == other);
                        }
                    }
                    if exists|k: int| 0 <= k < d1.len() && #[trigger] d1[k].0 == other {
                        let k = choose|k: int| 0 <= k < d1.len() && #[trigger] d1[k].0 == other;
                        if k < at {
                            assert(d0[k].0 == other);
                        } else if k > at {
                            assert(d0[k - 1].0 == other);
                        }
                    }
                }
                assert(d1[at].0 == dist);
                let k = choose|k: int| 0 <= k < d1.len() && #[trigger] d1[k].0 == dist;
                if k < at {
                    assert(d1[k] == d0[k]);
                    assert(distribution_rank(d0[k].0) < rank);
                } else if k > at {
                    assert(d1[k] == d0[k - 1]);
                    assert(distribution_rank(d0[k - 1].0) > rank);
                }
                assert(distribution_lookup(d1, dist) == Some(builds));
                assert forall|x: int, y: int|
                    0 <= x < y < d1.len() implies distribution_rank(#[trigger] d1[x].0)
                    < distribution_rank(#[trigger] d1[y].0) by {
                    if y < at {
                    } else if y == at {
                    } else if x < at {
                        assert(distribution_rank(d0[y - 1].0) > rank);
                    } else if x == at {
                        assert(distribution_rank(d0[y - 1].0) > rank);
                    } else {
                        assert(distribution_rank(d0[x - 1].0) < distribution_rank(d0[y - 1].0));
                    }
                }
            }
        }
    }
}

/// The `minecraft` catalog document.
#[derive(Debug, Clone)]
pub struct MinecraftCatalog {
    /// Schema version of this document.
    pub schema: u32,
    /// When this document was built from upstream.
    pub updated_at: Timestamp,
    /// Releases, newest first. Only full releases appear.
    pub versions: Vec<MinecraftVersion>,
}

impl MinecraftCatalog {
    /// Looks up a release by its Mojang identifier: the first release with that id.
    pub fn version(&self, id: &str) -> (res: Option<&MinecraftVersion>)
        ensures
            match res {
                Some(v) => exists|i: int|
                    0 <= i < self.versions@.len() && self.versions@[i] == *v && v.id@ == id@
                        && forall|j: int| 0 <= j < i ==> self.versions@[j].id@ != id@,
                None => forall|j: int| 0 <= j < self.versions@.len() ==> self.versions@[j].id@ != id@,
            },
    {
        let mut i: usize = 0;
        while i < self.versions.len()
            invariant
                i <= self.versions@.len(),
                forall|j: int| 0 <= j < i ==> self.versions@[j].id@ != id@,
            decreases self.versions@.len() - i,
        {
            if str_eq(self.versions[i].id.as_str(), id) {
                return Some(&self.versions[i]);
            }
            i = i + 1;
        }
        None
    }

    /// The newest release, which is what a consumer should default to.
    pub fn latest(&self) -> (res: Option<&MinecraftVersion>)
        ensures
            match res {
                Some(v) => self.versions@.len() > 0 && *v == self.versions@[0],
                None => self.versions@.len() == 0,
            },
    {
        if self.versions.len() == 0 {
            None
        } else {
            Some(&self.versions[0])
        }
    }
}

} // verus!
