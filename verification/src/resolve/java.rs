//! The Temurin catalog, from the `eclipse-temurin` image tags.

use crate::java::{java_lt, java_major, parse_java_range, spec_parse_java, JavaCatalog, JavaMajor, JavaVersion};
use crate::resolve::error::ResolveError;
use crate::resolve::runtime::{dockerhub, tag_texts};
use crate::text::chars_of;
use crate::time::now;
use crate::SCHEMA_VERSION;
use vstd::prelude::*;

verus! {

/// `s` with `suffix` taken off its end, when it ends with it.
pub open spec fn strip_suffix(s: Seq<char>, suffix: Seq<char>) -> Option<Seq<char>> {
    if suffix.len() <= s.len() && s.skip(s.len() - suffix.len()) == suffix {
        Some(s.take(s.len() - suffix.len()))
    } else {
        None
    }
}

/// The release an image tag names: the tag, less a trailing `-jdk`, read as a Temurin
/// release.
#[verifier::opaque]
pub open spec fn spec_temurin_tag(tag: Seq<char>) -> Option<JavaVersion> {
    match strip_suffix(tag, "-jdk"@) {
        Some(candidate) => spec_parse_java(candidate),
        None => spec_parse_java(tag),
    }
}

/// The release an image tag names, if it names one.
pub fn parse_temurin_tag(tag: &str) -> (res: Option<JavaVersion>)
    ensures
        res == spec_temurin_tag(tag@),
{
    let chars = chars_of(tag);
    let n = chars.len();
    proof {
        reveal_strlit("-jdk");
        reveal(spec_temurin_tag);
    }
    let ghost suffix = "-jdk"@;
    let end = if n >= 4 && chars[n - 4] == '-' && chars[n - 3] == 'j' && chars[n - 2] == 'd'
        && chars[n - 1] == 'k' {
        assert(chars@.skip(n - 4) =~= suffix);
        assert(chars@.subrange(0, n - 4) =~= chars@.take(n - 4));
        n - 4
    } else {
        proof {
            if suffix.len() <= chars@.len() && chars@.skip(chars@.len() - suffix.len()) == suffix {
                assert(chars@.skip(n - 4)[0] == chars@[n - 4]);
                assert(chars@.skip(n - 4)[1] == chars@[n - 3]);
                assert(chars@.skip(n - 4)[2] == chars@[n - 2]);
                assert(chars@.skip(n - 4)[3] == chars@[n - 1]);
            }
        }
        assert(chars@.subrange(0, n as int) =~= chars@);
        n
    };
    parse_java_range(chars.as_slice(), 0, end)
}

/// Releases in order from newest to oldest by their four numbers, each release once.
/// Releases whose numbers tie keep no particular order among themselves.
pub open spec fn java_newest_first(s: Seq<JavaVersion>) -> bool {
    forall|i: int, j: int|
        0 <= i < j < s.len() ==> !java_lt(#[trigger] s[i], #[trigger] s[j]) && s[i] != s[j]
}

/// The releases named by some tag.
pub open spec fn java_candidates(tags: Seq<Seq<char>>) -> Set<JavaVersion> {
    Set::new(
        |v: JavaVersion|
            exists|i: int| 0 <= i < tags.len() && spec_temurin_tag(#[trigger] tags[i]) == Some(v),
    )
}

/// Adds `v` to a newest-first list of releases, keeping it newest first and free of
/// repeats.
pub fn insert_java_newest_first(list: &mut Vec<JavaVersion>, v: JavaVersion)
    requires
        java_newest_first(old(list)@),
    ensures
        java_newest_first(final(list)@),
        final(list)@.to_set() == old(list)@.to_set().insert(v),
{
    let ghost l0 = list@;
    let mut k: usize = 0;
    while k < list.len()
        invariant
            list@ == l0,
            java_newest_first(l0),
            k <= l0.len(),
            forall|j: int| 0 <= j < k ==> #[trigger] l0[j] != v,
        decreases l0.len() - k,
    {
        if list[k] == v {
            assert(l0.to_set().insert(v) =~= l0.to_set()) by {
                assert(l0.to_set().contains(l0[k as int]));
            }
            return;
        }
        k = k + 1;
    }
    let mut p: usize = 0;
    while p < list.len() && !(list[p] < v)
        invariant
            list@ == l0,
            java_newest_first(l0),
            p <= l0.len(),
            forall|j: int| 0 <= j < p ==> !java_lt(#[trigger] l0[j], v),
        decreases l0.len() - p,
    {
        p = p + 1;
    }
    list.insert(p, v);
    proof {
        let l1 = list@;
        assert(forall|j: int| 0 <= j < p ==> #[trigger] l1[j] == l0[j]);
        assert(forall|j: int| p < j < l1.len() ==> #[trigger] l1[j] == l0[j - 1]);
        assert(l1[p as int] == v);
        assert forall|j: int| p <= j < l0.len() implies java_lt(#[trigger] l0[j], v) by {
            if j > p {
                assert(!java_lt(l0[p as int], l0[j]));
            }
        }
        assert forall|i: int, j: int| 0 <= i < j < l1.len() implies !java_lt(
            #[trigger] l1[i],
            #[trigger] l1[j],
        ) && l1[i] != l1[j] by {
            if j < p {
            } else if j == p {
            } else if i < p {
                assert(!java_lt(l0[i], l0[j - 1]));
            } else if i == p {
                assert(java_lt(l0[j - 1], v));
            } else {
            }
        }
        assert forall|x: JavaVersion| l1.to_set().contains(x) <==> l0.to_set().insert(v).contains(
            x,
        ) by {
            if l1.to_set().contains(x) {
                let k = choose|k: int| 0 <= k < l1.len() && l1[k] == x;
                if k < p {
                    assert(l0.to_set().contains(l0[k]));
                } else if k > p {
                    assert(l0.to_set().contains(l0[k - 1]));
                }
            }
            if l0.to_set().contains(x) {
                let k = choose|k: int| 0 <= k < l0.len() && l0[k] == x;
                if k < p {
                    assert(l1[k] == x);
                } else {
                    assert(l1[k + 1] == x);
                }
            }
            if x == v {
                assert(l1[p as int] == v);
            }
        }
        assert(l1.to_set() =~= l0.to_set().insert(v));
    }
}

#[verifier::spinoff_prover]
proof fn lemma_java_candidates_step(tags: Seq<Seq<char>>, i: int)
    requires
        0 <= i < tags.len(),
    ensures
        java_candidates(tags.take(i + 1)) == (match spec_temurin_tag(tags[i]) {
            Some(v) => java_candidates(tags.take(i)).insert(v),
            None => java_candidates(tags.take(i)),
        }),
{
    let a = tags.take(i + 1);
    let b = tags.take(i);
    assert(a[i] == tags[i]);
    let lhs = java_candidates(a);
    let rhs = match spec_temurin_tag(tags[i]) {
        Some(v) => java_candidates(b).insert(v),
        None => java_candidates(b),
    };
    assert forall|v: JavaVersion| lhs.contains(v) <==> rhs.contains(v) by {
        if lhs.contains(v) {
            let k = choose|k: int| 0 <= k < a.len() && spec_temurin_tag(#[trigger] a[k]) == Some(v);
            if k < i {
                assert(spec_temurin_tag(b[k]) == Some(v));
            }
        }
        if java_candidates(b).contains(v) {
            let k = choose|k: int| 0 <= k < b.len() && spec_temurin_tag(#[trigger] b[k]) == Some(v);
            assert(spec_temurin_tag(a[k]) == Some(v));
        }
    }
    assert(lhs =~= rhs);
}

/// The releases named by `eclipse-temurin` tags, newest first and each once. Fails with
/// `Empty` when no tag names a release.
pub fn java_versions(tags: &[String]) -> (res: Result<Vec<JavaVersion>, ResolveError>)
    ensures
        match res {
            Ok(v) => {
                &&& java_newest_first(v@)
                &&& v@.to_set() == java_candidates(tag_texts(tags@))
                &&& v@.len() > 0
            },
            Err(e) => {
                &&& e matches ResolveError::Empty { upstream } && upstream@ == dockerhub()
                &&& java_candidates(tag_texts(tags@)) == Set::<JavaVersion>::empty()
            },
        },
{
    let ghost texts = tag_texts(tags@);
    let mut list: Vec<JavaVersion> = Vec::new();
    let mut i: usize = 0;
    assert(texts.take(0) =~= Seq::<Seq<char>>::empty());
    assert(java_candidates(texts.take(0)) =~= Set::<JavaVersion>::empty());
    while i < tags.len()
        invariant
            i <= tags@.len(),
            texts == tag_texts(tags@),
            java_newest_first(list@),
            list@.to_set() == java_candidates(texts.take(i as int)),
        decreases tags@.len() - i,
    {
        proof {
            lemma_java_candidates_step(texts, i as int);
        }
        assert(texts[i as int] == tags@[i as int]@);
        match parse_temurin_tag(tags[i].as_str()) {
            Some(v) => insert_java_newest_first(&mut list, v),
            None => {},
        }
        i = i + 1;
    }
    assert(texts.take(tags@.len() as int) =~= texts);
    if list.len() == 0 {
        assert(list@.to_set() =~= Set::<JavaVersion>::empty());
        proof {
            reveal_strlit("dockerhub");
        }
        return Err(ResolveError::Empty { upstream: "dockerhub" });
    }
    Ok(list)
}

/// The releases of a list of feature versions, one list after the other.
pub open spec fn flatten_majors(groups: Seq<JavaMajor>) -> Seq<JavaVersion>
    decreases groups.len(),
{
    if groups.len() == 0 {
        Seq::empty()
    } else {
        flatten_majors(groups.drop_last()) + groups.last().versions@
    }
}

/// Feature versions as the catalog lists them: none empty, every release under its own
/// feature version, and feature versions strictly from newest to oldest.
pub open spec fn majors_wf(groups: Seq<JavaMajor>) -> bool {
    &&& forall|g: int| 0 <= g < groups.len() ==> #[trigger] groups[g].versions@.len() > 0
    &&& forall|g: int, k: int|
        0 <= g < groups.len() && 0 <= k < groups[g].versions@.len() ==> java_major(
            #[trigger] groups[g].versions@[k],
        ) == groups[g].major
    &&& forall|g: int, h: int|
        0 <= g < h < groups.len() ==> #[trigger] groups[h].major < #[trigger] groups[g].major
}

/// Splits a newest-first list of releases into feature versions: each run of releases
/// sharing a major becomes one entry.
pub fn group_by_major(versions: &Vec<JavaVersion>) -> (groups: Vec<JavaMajor>)
    requires
        java_newest_first(versions@),
    ensures
        majors_wf(groups@),
        flatten_majors(groups@) == versions@,
{
    let mut groups: Vec<JavaMajor> = Vec::new();
    if versions.len() == 0 {
        assert(flatten_majors(groups@) =~= versions@);
        return groups;
    }
    let mut current_major: u16 = versions[0].major();
    let mut current: Vec<JavaVersion> = Vec::new();
    current.push(versions[0]);
    let mut i: usize = 1;
    assert(versions@.take(1) =~= flatten_majors(groups@) + current@);
    while i < versions.len()
        invariant
            1 <= i <= versions@.len(),
            java_newest_first(versions@),
            majors_wf(groups@),
            current@.len() > 0,
            forall|k: int| 0 <= k < current@.len() ==> java_major(#[trigger] current@[k]) == current_major,
            forall|g: int| 0 <= g < groups@.len() ==> current_major < #[trigger] groups@[g].major,
            flatten_majors(groups@) + current@ == versions@.take(i as int),
            java_major(versions@[i - 1]) == current_major,
        decreases versions@.len() - i,
    {
        let v = versions[i];
        assert(!java_lt(versions@[i - 1], versions@[i as int]));
        let ghost before = flatten_majors(groups@) + current@;
        if v.major() == current_major {
            current.push(v);
        } else {
            let ghost g0 = groups@;
            let finished = JavaMajor { major: current_major, versions: current };
            groups.push(finished);
            proof {
                assert(groups@.drop_last() == g0);
                assert(flatten_majors(groups@) == flatten_majors(g0) + finished.versions@);
            }
            current_major = v.major();
            current = Vec::new();
            current.push(v);
        }
        i = i + 1;
        assert(versions@.take(i as int) =~= before.push(v));
        assert(flatten_majors(groups@) + current@ =~= before.push(v));
    }
    let ghost g0 = groups@;
    let ghost last = current@;
    groups.push(JavaMajor { major: current_major, versions: current });
    proof {
        assert(groups@.drop_last() == g0);
        assert(versions@.take(versions@.len() as int) =~= versions@);
    }
    groups
}

/// The Temurin catalog built from `eclipse-temurin` tags, stamped with the current time.
pub fn resolve_java(tags: &[String]) -> (res: Result<JavaCatalog, ResolveError>)
    ensures
        match res {
            Ok(c) => {
                &&& c.schema == SCHEMA_VERSION
                &&& majors_wf(c.majors@)
                &&& java_newest_first(flatten_majors(c.majors@))
                &&& flatten_majors(c.majors@).to_set() == java_candidates(tag_texts(tags@))
                &&& c.majors@.len() > 0
            },
            Err(e) => {
                &&& e matches ResolveError::Empty { upstream } && upstream@ == dockerhub()
                &&& java_candidates(tag_texts(tags@)) == Set::<JavaVersion>::empty()
            },
        },
{
    let versions = java_versions(tags)?;
    let majors = group_by_major(&versions);
    Ok(JavaCatalog { schema: SCHEMA_VERSION, updated_at: now(), majors })
}

} // verus!
