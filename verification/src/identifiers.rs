//! Catalogs carry version identifiers only: no text in a catalog names a fetchable
//! location unless an upstream put it in an identifier.

use crate::java::{java_text, lemma_java_text_chars, lemma_version_text_chars, release_char, JavaCatalog};
use crate::minecraft::{BuildSet, MinecraftCatalog, MinecraftVersion};
use crate::proxy::ProxyCatalog;
use crate::runtime::RuntimeCatalog;
use crate::resolve::builds::neoforge_prefix;
use crate::text::{decimal, is_digit, lemma_decimal};
use crate::version::version_text;
use vstd::prelude::*;

verus! {

/// `needle` occurs somewhere in `s`.
pub open spec fn occurs(s: Seq<char>, needle: Seq<char>) -> bool {
    exists|i: int| 0 <= i && i + needle.len() <= s.len() && #[trigger] s.subrange(i, i + needle.len()) == needle
}

/// The telltale parts of a fetchable location: a scheme separator, a web host, a path
/// under a common top-level domain, a registry host.
pub open spec fn location_marks() -> Seq<Seq<char>> {
    seq!["://"@, "www."@, ".com/"@, ".net/"@, ".org/"@, "docker.io"@]
}

/// A text in which no telltale part of a location occurs.
pub open spec fn location_free(s: Seq<char>) -> bool {
    forall|k: int| 0 <= k < location_marks().len() ==> !occurs(s, #[trigger] location_marks()[k])
}

/// The texts a build set carries are location free.
pub open spec fn build_set_location_free(set: BuildSet) -> bool {
    match set {
        BuildSet::Range { prefix, .. } => prefix matches Some(p) ==> location_free(p@),
        BuildSet::List { values } => forall|i: int| 0 <= i < values@.len() ==> location_free(#[trigger] values@[i]@),
    }
}

/// The texts a release carries, its id and its builds, are location free.
pub open spec fn release_location_free(v: MinecraftVersion) -> bool {
    &&& location_free(v.id@)
    &&& forall|i: int|
        0 <= i < v.distributions@.len() ==> build_set_location_free(#[trigger] v.distributions@[i].1)
}

/// Every text the Minecraft catalog carries is location free.
pub open spec fn minecraft_location_free(c: MinecraftCatalog) -> bool {
    forall|k: int| 0 <= k < c.versions@.len() ==> release_location_free(#[trigger] c.versions@[k])
}

/// Every text the proxy catalog carries is location free.
pub open spec fn proxy_location_free(c: ProxyCatalog) -> bool {
    forall|k: int|
        0 <= k < c.velocity@.len() ==> location_free((#[trigger] c.velocity@[k]).id@) && build_set_location_free(
            c.velocity@[k].builds,
        )
}

/// Every text the Java catalog is written with, its releases, is location free.
pub open spec fn java_location_free(c: JavaCatalog) -> bool {
    forall|g: int, k: int|
        0 <= g < c.majors@.len() && 0 <= k < c.majors@[g].versions@.len() ==> location_free(
            java_text(#[trigger] c.majors@[g].versions@[k]),
        )
}

/// Every text a runtime catalog is written with, its releases, is location free.
pub open spec fn runtime_location_free(c: RuntimeCatalog) -> bool {
    forall|k: int| 0 <= k < c.versions@.len() ==> location_free(version_text(#[trigger] c.versions@[k]))
}

proof fn lemma_mark_absent(s: Seq<char>, needle: Seq<char>, p: int)
    requires
        0 <= p < needle.len(),
        !release_char(needle[p]),
        forall|j: int| 0 <= j < s.len() ==> release_char(#[trigger] s[j]),
    ensures
        !occurs(s, needle),
{
    if occurs(s, needle) {
        let i = choose|i: int|
            0 <= i && i + needle.len() <= s.len() && #[trigger] s.subrange(i, i + needle.len()) == needle;
        assert(s.subrange(i, i + needle.len())[p] == s[i + p]);
    }
}

/// A text made of release characters (digits, `.`, `_`, `u`, `-`, `b`) names no location.
pub proof fn lemma_release_text_location_free(s: Seq<char>)
    requires
        forall|j: int| 0 <= j < s.len() ==> release_char(#[trigger] s[j]),
    ensures
        location_free(s),
{
    reveal_strlit("://");
    reveal_strlit("www.");
    reveal_strlit(".com/");
    reveal_strlit(".net/");
    reveal_strlit(".org/");
    reveal_strlit("docker.io");
    let m = location_marks();
    lemma_mark_absent(s, m[0], 0);
    lemma_mark_absent(s, m[1], 0);
    lemma_mark_absent(s, m[2], 1);
    lemma_mark_absent(s, m[3], 1);
    lemma_mark_absent(s, m[4], 1);
    lemma_mark_absent(s, m[5], 0);
}

/// A written runtime version names no location.
pub proof fn law_version_text_carries_no_location(v: crate::version::Version)
    ensures
        location_free(version_text(v)),
{
    lemma_version_text_chars(v);
    assert forall|j: int| 0 <= j < version_text(v).len() implies release_char(#[trigger] version_text(v)[j]) by {
        assert(is_digit(version_text(v)[j]) || version_text(v)[j] == '.');
    }
    lemma_release_text_location_free(version_text(v));
}

/// A written Temurin release names no location.
pub proof fn law_java_text_carries_no_location(v: crate::java::JavaVersion)
    ensures
        location_free(java_text(v)),
{
    lemma_java_text_chars(v);
    lemma_release_text_location_free(java_text(v));
}

/// A runtime catalog carries no location: it holds only release numbers.
pub proof fn law_runtime_catalog_carries_no_locations(c: RuntimeCatalog)
    ensures
        runtime_location_free(c),
{
    assert forall|k: int| 0 <= k < c.versions@.len() implies location_free(version_text(#[trigger] c.versions@[k])) by {
        law_version_text_carries_no_location(c.versions@[k]);
    }
}

/// The Java catalog carries no location: it holds only Temurin release numbers.
pub proof fn law_java_catalog_carries_no_locations(c: JavaCatalog)
    ensures
        java_location_free(c),
{
    assert forall|g: int, k: int|
        0 <= g < c.majors@.len() && 0 <= k < c.majors@[g].versions@.len() implies location_free(
        java_text(#[trigger] c.majors@[g].versions@[k]),
    ) by {
        law_java_text_carries_no_location(c.majors@[g].versions@[k]);
    }
}

/// The prefix of a NeoForge build range, `minor.patch.`, names no location.
pub proof fn law_neoforge_prefix_carries_no_location(minor: u16, patch: u16)
    ensures
        location_free(neoforge_prefix(minor, patch)),
{
    let a = decimal(minor as nat);
    let b = decimal(patch as nat);
    lemma_decimal(minor as nat);
    lemma_decimal(patch as nat);
    let t = neoforge_prefix(minor, patch);
    assert forall|j: int| 0 <= j < t.len() implies release_char(#[trigger] t[j]) by {
        if j < a.len() {
            assert(t[j] == a[j]);
        } else if j > a.len() && j < a.len() + 1 + b.len() {
            assert(t[j] == b[j - a.len() - 1]);
        }
    }
    lemma_release_text_location_free(t);
}

} // verus!
