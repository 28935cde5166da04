//! The proxy catalog: Velocity release lines and BungeeCord builds.

use crate::minecraft::{build_range, range_builds, tight_range, BuildSet};
use crate::proxy::{ProxyCatalog, VelocityVersion};
use crate::identifiers::{build_set_location_free, location_free, proxy_location_free};
use crate::resolve::error::ResolveError;
use crate::text::str_eq;
use crate::time::now;
use crate::SCHEMA_VERSION;
use std::collections::HashSet;
use vstd::prelude::*;

verus! {

broadcast use {vstd::std_specs::hash::group_hash_axioms, vstd::seq_lib::group_to_multiset_ensures};

/// Java required by a Velocity line that does not say.
pub const DEFAULT_JAVA: u8 = 21;

/// How many BungeeCord builds the catalog keeps.
pub const MAX_BUILDS: usize = 50;

/// One Velocity line as PaperMC lists it.
#[derive(Debug, Clone)]
pub struct VelocityEntry {
    pub id: String,
    pub java: Option<u8>,
    pub builds: Vec<u16>,
}

/// The lines that have at least one build, in the order listed.
pub open spec fn lines_with_builds(entries: Seq<VelocityEntry>) -> Seq<VelocityEntry>
    decreases entries.len(),
{
    if entries.len() == 0 {
        Seq::empty()
    } else {
        let before = lines_with_builds(entries.drop_last());
        if entries.last().builds@.len() > 0 {
            before.push(entries.last())
        } else {
            before
        }
    }
}

/// A catalog line made of a listed line: same id, its Java or the default, and its builds
/// as a range.
pub open spec fn velocity_line(entry: VelocityEntry, v: VelocityVersion) -> bool {
    &&& v.id == entry.id
    &&& v.java == match entry.java {
        Some(java) => java,
        None => DEFAULT_JAVA,
    }
    &&& match v.builds {
        BuildSet::Range { prefix, min, max, excluded } => prefix is None && range_builds(
            min,
            max,
            excluded@,
        ) == entry.builds@.to_set() && tight_range(entry.builds@.to_set(), min, max, excluded@),
        BuildSet::List { .. } => false,
    }
}

/// The Velocity lines, in the order PaperMC lists them, less those without builds. Fails
/// with `Empty` when no line has a build.
pub fn velocity_versions(entries: Vec<VelocityEntry>) -> (res: Result<Vec<VelocityVersion>, ResolveError>)
    ensures
        match res {
            Ok(v) => {
                &&& v@.len() == lines_with_builds(entries@).len()
                &&& forall|k: int| 0 <= k < v@.len() ==> velocity_line(lines_with_builds(entries@)[k], #[trigger] v@[k])
                &&& v@.len() > 0
            },
            Err(e) => {
                &&& e matches ResolveError::Empty { upstream } && upstream@ == "papermc"@
                &&& lines_with_builds(entries@).len() == 0
            },
        },
        (forall|i: int| 0 <= i < entries@.len() ==> location_free((#[trigger] entries@[i]).id@))
            ==> (res matches Ok(v) ==> forall|k: int|
            0 <= k < v@.len() ==> location_free((#[trigger] v@[k]).id@) && build_set_location_free(v@[k].builds)),
{
    let ghost e0 = entries@;
    let mut entries = entries;
    let mut out: Vec<VelocityVersion> = Vec::new();
    let mut i: usize = 0;
    let n = entries.len();
    assert(e0.take(0) =~= Seq::<VelocityEntry>::empty());
    while i < n
        invariant
            n == e0.len(),
            i <= n,
            entries@ == e0.skip(i as int),
            out@.len() == lines_with_builds(e0.take(i as int)).len(),
            forall|k: int| 0 <= k < out@.len() ==> velocity_line(lines_with_builds(e0.take(i as int))[k], #[trigger] out@[k]),
        decreases n - i,
    {
        assert(entries@[0] == e0[i as int]);
        let entry = entries.remove(0);
        assert(entries@ =~= e0.skip(i + 1));
        assert(e0.take(i + 1).drop_last() =~= e0.take(i as int));
        let mut set: HashSet<u16> = HashSet::new();
        let mut j: usize = 0;
        while j < entry.builds.len()
            invariant
                j <= entry.builds@.len(),
                set@ == entry.builds@.take(j as int).to_set(),
            decreases entry.builds@.len() - j,
        {
            set.insert(entry.builds[j]);
            j = j + 1;
            assert(entry.builds@.take(j as int) =~= entry.builds@.take(j - 1).push(entry.builds@[j - 1]));
            proof {
                entry.builds@.take(j - 1).lemma_push_to_set_commute(entry.builds@[j - 1]);
            }
            assert(set@ =~= entry.builds@.take(j as int).to_set());
        }
        assert(entry.builds@.take(j as int) =~= entry.builds@);
        let java = match entry.java {
            Some(java) => java,
            None => DEFAULT_JAVA,
        };
        match build_range(None, &set) {
            Some(builds) => {
                let ghost o0 = out@;
                assert(entry.builds@.len() > 0) by {
                    if entry.builds@.len() == 0 {
                        assert(entry.builds@ =~= Seq::<u16>::empty());
                    }
                }
                out.push(VelocityVersion { id: entry.id, java, builds });
                assert(forall|k: int| 0 <= k < o0.len() ==> #[trigger] out@[k] == o0[k]);
            },
            None => {
                assert(entry.builds@.len() == 0) by {
                    if entry.builds@.len() > 0 {
                        assert(entry.builds@.to_set().contains(entry.builds@[0]));
                    }
                }
            },
        }
        i = i + 1;
    }
    assert(e0.take(n as int) =~= e0);
    if out.len() == 0 {
        proof {
            reveal_strlit("papermc");
        }
        return Err(ResolveError::Empty { upstream: "papermc" });
    }
    proof {
        if forall|i: int| 0 <= i < e0.len() ==> location_free((#[trigger] e0[i]).id@) {
            lemma_lines_location_free(e0);
            assert forall|k: int| 0 <= k < out@.len() implies location_free((#[trigger] out@[k]).id@)
                && build_set_location_free(out@[k].builds) by {
                assert(velocity_line(lines_with_builds(e0)[k], out@[k]));
            }
        }
    }
    Ok(out)
}

/// The lines kept are among the lines listed, so their ids are location free when the
/// listed ones are.
proof fn lemma_lines_location_free(entries: Seq<VelocityEntry>)
    requires
        forall|i: int| 0 <= i < entries.len() ==> location_free((#[trigger] entries[i]).id@),
    ensures
        forall|k: int|
            0 <= k < lines_with_builds(entries).len() ==> location_free(
                (#[trigger] lines_with_builds(entries)[k]).id@,
            ),
    decreases entries.len(),
{
    if entries.len() > 0 {
        let rest = entries.drop_last();
        assert forall|i: int| 0 <= i < rest.len() implies location_free((#[trigger] rest[i]).id@) by {
            assert(rest[i] == entries[i]);
        }
        lemma_lines_location_free(rest);
        assert(entries[entries.len() - 1] == entries.last());
    }
}

/// One BungeeCord build as SpigotMC's Jenkins lists it, with its result when it has one.
#[derive(Debug, Clone)]
pub struct JenkinsBuild {
    pub number: u16,
    pub result: Option<String>,
}

/// The numbers of the successful builds, in the order listed.
pub open spec fn successful_builds(builds: Seq<JenkinsBuild>) -> Seq<u16>
    decreases builds.len(),
{
    if builds.len() == 0 {
        Seq::empty()
    } else {
        let before = successful_builds(builds.drop_last());
        if builds.last().result matches Some(r) && r@ == "SUCCESS"@ {
            before.push(builds.last().number)
        } else {
            before
        }
    }
}

/// Each element is at least as large as every element after it.
pub open spec fn non_increasing(s: Seq<u16>) -> bool {
    forall|i: int, j: int| 0 <= i < j < s.len() ==> #[trigger] s[j] <= #[trigger] s[i]
}

/// Adds `x` to a non-increasing list, after the elements at least as large.
fn insert_descending(list: &mut Vec<u16>, x: u16)
    requires
        non_increasing(old(list)@),
    ensures
        non_increasing(final(list)@),
        final(list)@.to_multiset() == old(list)@.to_multiset().insert(x),
{
    let ghost l0 = list@;
    let mut p: usize = 0;
    while p < list.len() && list[p] >= x
        invariant
            list@ == l0,
            p <= l0.len(),
            forall|j: int| 0 <= j < p ==> #[trigger] l0[j] >= x,
        decreases l0.len() - p,
    {
        p = p + 1;
    }
    list.insert(p, x);
    proof {
        let l1 = list@;
        assert(l1 == l0.insert(p as int, x));
        assert(forall|j: int| 0 <= j < p ==> #[trigger] l1[j] == l0[j]);
        assert(forall|j: int| p < j < l1.len() ==> #[trigger] l1[j] == l0[j - 1]);
        assert forall|i: int, j: int| 0 <= i < j < l1.len() implies #[trigger] l1[j] <= #[trigger] l1[i] by {
            if j > p && i <= p {
                assert(l0[p as int] < x);
                assert(l0[j - 1] <= l0[p as int] || j - 1 == p);
            }
        }
    }
}

/// The most recent successful BungeeCord builds, largest first: at most `MAX_BUILDS`
/// of them. Fails with `Empty` when no build succeeded.
pub fn bungeecord_builds(builds: &[JenkinsBuild]) -> (res: Result<Vec<u16>, ResolveError>)
    ensures
        match res {
            Ok(v) => {
                &&& exists|sorted: Seq<u16>|
                    #![trigger sorted.to_multiset()]
                    sorted.to_multiset() == successful_builds(builds@).to_multiset()
                        && non_increasing(sorted) && v@ == sorted.take(
                        if sorted.len() < MAX_BUILDS { sorted.len() as int } else { MAX_BUILDS as int },
                    )
                &&& v@.len() > 0
            },
            Err(e) => {
                &&& e matches ResolveError::Empty { upstream } && upstream@ == "spigotmc"@
                &&& successful_builds(builds@).len() == 0
            },
        },
{
    let mut sorted: Vec<u16> = Vec::new();
    let mut i: usize = 0;
    proof {
        reveal_strlit("SUCCESS");
    }
    assert(builds@.take(0) =~= Seq::<JenkinsBuild>::empty());
    while i < builds.len()
        invariant
            i <= builds@.len(),
            non_increasing(sorted@),
            sorted@.to_multiset() == successful_builds(builds@.take(i as int)).to_multiset(),
        decreases builds@.len() - i,
    {
        assert(builds@.take(i + 1).drop_last() =~= builds@.take(i as int));
        let build = &builds[i];
        let success = match &build.result {
            Some(r) => str_eq(r.as_str(), "SUCCESS"),
            None => false,
        };
        if success {
            insert_descending(&mut sorted, build.number);
        }
        i = i + 1;
    }
    assert(builds@.take(builds@.len() as int) =~= builds@);
    let ghost full = sorted@;
    if sorted.len() == 0 {
        proof {
            reveal_strlit("spigotmc");
            assert(full.to_multiset().len() == 0);
        }
        return Err(ResolveError::Empty { upstream: "spigotmc" });
    }
    sorted.truncate(MAX_BUILDS);
    proof {
        assert(successful_builds(builds@).to_multiset().len() > 0);
        assert(sorted@ == full.take(if full.len() < MAX_BUILDS { full.len() as int } else { MAX_BUILDS as int }));
    }
    Ok(sorted)
}

/// The proxy catalog made of both halves, stamped with the current time.
pub fn proxy_catalog(velocity: Vec<VelocityVersion>, bungeecord: Vec<u16>) -> (c: ProxyCatalog)
    ensures
        c.schema == SCHEMA_VERSION,
        c.velocity == velocity,
        c.bungeecord == bungeecord,
        (forall|k: int|
            0 <= k < velocity@.len() ==> location_free((#[trigger] velocity@[k]).id@) && build_set_location_free(
                velocity@[k].builds,
            )) ==> proxy_location_free(c),
{
    ProxyCatalog { schema: SCHEMA_VERSION, updated_at: now(), velocity, bungeecord }
}

} // verus!
