//! What holds of the library as a whole: properties that span several functions or every
//! input, each stated over the spec functions the functions' own contracts use.

use crate::catalog::CatalogEntry;
use crate::digest::{hex_digit, hex_lower, lemma_hex_lower_len, sha256, spec_etag};
use crate::catalog::CatalogId;
use crate::java::{decimal_pad2, java_lt, java_text, spec_parse_java, JavaVersion};
use crate::resolve::runtime::{runtime_candidates, spec_accepted};
use crate::text::{
    all_digits, decimal, digit_char, digit_value, digits_value, first_index, is_first_at, lemma_decimal,
    is_first_pair_at, lemma_first_pair_unique, lemma_no_first, lemma_split_after, pair_at,
    spec_parse_uint, split_once, split_once_pair, unsigned_body,
};
use crate::version::{parse_u16, spec_parse_version, version_text};
use crate::resolve::java::spec_temurin_tag;
use crate::schedule::{Status, backoff_exponent, min_nanos, pow2, spec_backoff};
use crate::service::{manifest_entries_match, presented_token, spec_authorized, spec_missing, CatalogState};
use crate::time::{span_max, span_nanos, span_wf, Span};
use crate::version::{version_lt, Version};
use vstd::prelude::*;

verus! {

/// Release order on runtime versions is a strict total order: no release is older than
/// itself, it is transitive, and of two different releases one is the older.
pub proof fn law_version_order_is_total(a: Version, b: Version, c: Version)
    ensures
        !version_lt(a, a),
        version_lt(a, b) && version_lt(b, c) ==> version_lt(a, c),
        a != b ==> version_lt(a, b) || version_lt(b, a),
        version_lt(a, b) ==> !version_lt(b, a),
{
}

/// Release order on Temurin releases is transitive and asymmetric, and of two releases
/// with different numbers one is the older.
pub proof fn law_java_order_is_total(a: JavaVersion, b: JavaVersion, c: JavaVersion)
    ensures
        !java_lt(a, a),
        java_lt(a, b) && java_lt(b, c) ==> java_lt(a, c),
        java_lt(a, b) ==> !java_lt(b, a),
{
}

/// A Java 8 release sorts below every release of a later feature version.
pub proof fn law_legacy_below_modern(patch: u16, build: u16, modern: JavaVersion)
    requires
        modern matches JavaVersion::Modern { major, .. } && major > 8,
    ensures
        java_lt(JavaVersion::Legacy { major: 8, patch, build }, modern),
{
}

/// A `-jdk` image tag names the release its name without the suffix names.
pub proof fn law_jdk_suffix_ignored(release: Seq<char>)
    ensures
        spec_temurin_tag(release + "-jdk"@) == spec_parse_java(release),
{
    reveal(spec_temurin_tag);
    reveal_strlit("-jdk");
    let tag = release + "-jdk"@;
    assert(tag.skip(tag.len() - 4) =~= "-jdk"@);
    assert(tag.take(tag.len() - 4) =~= release);
}

/// The retry delay never exceeds the configured ceiling.
pub proof fn law_backoff_capped(retry_base: Span, retry_max: Span, failures: u32)
    requires
        span_wf(retry_base),
        span_wf(retry_max),
    ensures
        spec_backoff(retry_base, retry_max, failures) <= span_nanos(retry_max),
        0 <= spec_backoff(retry_base, retry_max, failures),
{
    let e = backoff_exponent(failures);
    lemma_pow2_positive(e);
    assert(span_nanos(retry_base) * pow2(e) >= 0) by (nonlinear_arith)
        requires
            span_nanos(retry_base) >= 0,
            pow2(e) >= 1,
    ;
}

/// The first failure waits the base delay (within the ceiling).
pub proof fn law_backoff_first_failure(retry_base: Span, retry_max: Span)
    requires
        span_wf(retry_base),
        span_wf(retry_max),
    ensures
        spec_backoff(retry_base, retry_max, 1) == min_nanos(span_nanos(retry_base), span_nanos(retry_max)),
{
    assert(backoff_exponent(1) == 0);
    assert(pow2(0) == 1);
    assert(span_nanos(retry_base) * pow2(0) == span_nanos(retry_base));
    assert(span_nanos(retry_base) <= span_nanos(span_max()));
}

/// More failures in a row never wait less.
pub proof fn law_backoff_monotone(retry_base: Span, retry_max: Span, fewer: u32, more: u32)
    requires
        span_wf(retry_base),
        span_wf(retry_max),
        fewer <= more,
    ensures
        spec_backoff(retry_base, retry_max, fewer) <= spec_backoff(retry_base, retry_max, more),
{
    let e1 = backoff_exponent(fewer);
    let e2 = backoff_exponent(more);
    lemma_pow2_monotone(e1, e2);
    assert(span_nanos(retry_base) * pow2(e1) <= span_nanos(retry_base) * pow2(e2)) by (nonlinear_arith)
        requires
            span_nanos(retry_base) >= 0,
            pow2(e1) <= pow2(e2),
    ;
}

/// Below the ceiling, each further failure doubles the delay.
pub proof fn law_backoff_doubles(retry_base: Span, retry_max: Span, failures: u32)
    requires
        span_wf(retry_base),
        span_wf(retry_max),
        1 <= failures <= 16,
        2 * spec_backoff(retry_base, retry_max, failures) <= span_nanos(retry_max),
        2 * spec_backoff(retry_base, retry_max, failures) <= span_nanos(span_max()),
    ensures
        spec_backoff(retry_base, retry_max, (failures + 1) as u32) == 2 * spec_backoff(
            retry_base,
            retry_max,
            failures,
        ),
{
    let e = backoff_exponent(failures);
    assert(backoff_exponent((failures + 1) as u32) == e + 1);
    assert(pow2(e + 1) == 2 * pow2(e));
    lemma_pow2_positive(e);
    let x = span_nanos(retry_base) * pow2(e);
    assert(span_nanos(retry_base) * pow2(e + 1) == 2 * x) by (nonlinear_arith)
        requires
            pow2(e + 1) == 2 * pow2(e),
            x == span_nanos(retry_base) * pow2(e),
    ;
    assert(x >= 0) by (nonlinear_arith)
        requires
            span_nanos(retry_base) >= 0,
            pow2(e) >= 1,
            x == span_nanos(retry_base) * pow2(e),
    ;
}

/// With no token set every request passes; with one set, a request whose header is
/// `Bearer ` followed by that token passes.
pub proof fn law_bearer_token_accepted(token: Seq<char>, header: Option<Seq<char>>)
    ensures
        spec_authorized(None, header),
        spec_authorized(Some(token), Some("Bearer "@ + token)),
{
    reveal_strlit("Bearer ");
    let h = "Bearer "@ + token;
    assert(h.take(7) =~= "Bearer "@);
    assert(h.skip(7) =~= token);
    assert(presented_token(Some(h)) == token);
}

/// The manifest lists exactly the configured catalogs that hold a document, and the
/// missing list exactly those that do not: every catalog stands in one of the two, as
/// it holds a document or not.
pub proof fn law_manifest_and_missing_cover(catalogs: Seq<CatalogState>, entries: Seq<CatalogEntry>)
    requires
        manifest_entries_match(catalogs, entries),
    ensures
        forall|j: int|
            0 <= j < entries.len() ==> exists|i: int|
                0 <= i < catalogs.len() && (#[trigger] catalogs[i]).held is Some && catalogs[i].id
                    == (#[trigger] entries[j]).id,
        forall|i: int|
            0 <= i < catalogs.len() && (#[trigger] catalogs[i]).held is Some ==> exists|j: int|
                0 <= j < entries.len() && (#[trigger] entries[j]).id == catalogs[i].id,
        forall|k: int|
            0 <= k < spec_missing(catalogs).len() ==> exists|i: int|
                0 <= i < catalogs.len() && (#[trigger] catalogs[i]).held is None && catalogs[i].id
                    == #[trigger] spec_missing(catalogs)[k],
        forall|i: int|
            0 <= i < catalogs.len() && (#[trigger] catalogs[i]).held is None ==> spec_missing(
                catalogs,
            ).contains(catalogs[i].id),
{
    lemma_manifest_entries_held(catalogs, entries);
    lemma_held_in_manifest(catalogs, entries);
    lemma_missing_unheld(catalogs);
    lemma_unheld_missing(catalogs);
}

proof fn lemma_manifest_entries_held(catalogs: Seq<CatalogState>, entries: Seq<CatalogEntry>)
    requires
        manifest_entries_match(catalogs, entries),
    ensures
        forall|j: int|
            0 <= j < entries.len() ==> exists|i: int|
                0 <= i < catalogs.len() && (#[trigger] catalogs[i]).held is Some && catalogs[i].id
                    == (#[trigger] entries[j]).id,
    decreases catalogs.len(),
{
    if catalogs.len() > 0 {
        let rest = catalogs.drop_last();
        let n = catalogs.len() - 1;
        if catalogs.last().held is Some {
            let erest = entries.drop_last();
            lemma_manifest_entries_held(rest, erest);
            assert forall|j: int| 0 <= j < entries.len() implies exists|i: int|
                0 <= i < catalogs.len() && (#[trigger] catalogs[i]).held is Some && catalogs[i].id
                    == (#[trigger] entries[j]).id by {
                if j == entries.len() - 1 {
                    assert(catalogs[n] == catalogs.last());
                } else {
                    assert(entries[j] == erest[j]);
                    let i = choose|i: int|
                        0 <= i < rest.len() && (#[trigger] rest[i]).held is Some && rest[i].id
                            == (#[trigger] erest[j]).id;
                    assert(catalogs[i] == rest[i]);
                }
            }
        } else {
            lemma_manifest_entries_held(rest, entries);
            assert forall|j: int| 0 <= j < entries.len() implies exists|i: int|
                0 <= i < catalogs.len() && (#[trigger] catalogs[i]).held is Some && catalogs[i].id
                    == (#[trigger] entries[j]).id by {
                let i = choose|i: int|
                    0 <= i < rest.len() && (#[trigger] rest[i]).held is Some && rest[i].id
                        == (#[trigger] entries[j]).id;
                assert(catalogs[i] == rest[i]);
            }
        }
    }
}

proof fn lemma_held_in_manifest(catalogs: Seq<CatalogState>, entries: Seq<CatalogEntry>)
    requires
        manifest_entries_match(catalogs, entries),
    ensures
        forall|i: int|
            0 <= i < catalogs.len() && (#[trigger] catalogs[i]).held is Some ==> exists|j: int|
                0 <= j < entries.len() && (#[trigger] entries[j]).id == catalogs[i].id,
    decreases catalogs.len(),
{
    if catalogs.len() > 0 {
        let rest = catalogs.drop_last();
        let n = catalogs.len() - 1;
        if catalogs.last().held is Some {
            let erest = entries.drop_last();
            lemma_held_in_manifest(rest, erest);
            assert forall|i: int| 0 <= i < catalogs.len() && (#[trigger] catalogs[i]).held is Some implies exists|j: int|
                0 <= j < entries.len() && (#[trigger] entries[j]).id == catalogs[i].id by {
                if i == n {
                    assert(entries[entries.len() - 1] == entries.last());
                } else {
                    assert(catalogs[i] == rest[i]);
                    let j = choose|j: int| 0 <= j < erest.len() && (#[trigger] erest[j]).id == rest[i].id;
                    assert(entries[j] == erest[j]);
                }
            }
        } else {
            lemma_held_in_manifest(rest, entries);
            assert forall|i: int| 0 <= i < catalogs.len() && (#[trigger] catalogs[i]).held is Some implies exists|j: int|
                0 <= j < entries.len() && (#[trigger] entries[j]).id == catalogs[i].id by {
                assert(i != n);
                assert(catalogs[i] == rest[i]);
            }
        }
    }
}

proof fn lemma_missing_unheld(catalogs: Seq<CatalogState>)
    ensures
        forall|k: int|
            0 <= k < spec_missing(catalogs).len() ==> exists|i: int|
                0 <= i < catalogs.len() && (#[trigger] catalogs[i]).held is None && catalogs[i].id
                    == #[trigger] spec_missing(catalogs)[k],
    decreases catalogs.len(),
{
    if catalogs.len() > 0 {
        let rest = catalogs.drop_last();
        let n = catalogs.len() - 1;
        let m = spec_missing(rest);
        lemma_missing_unheld(rest);
        assert forall|k: int| 0 <= k < spec_missing(catalogs).len() implies exists|i: int|
            0 <= i < catalogs.len() && (#[trigger] catalogs[i]).held is None && catalogs[i].id
                == #[trigger] spec_missing(catalogs)[k] by {
            if k == m.len() {
                assert(catalogs[n] == catalogs.last());
            } else {
                assert(spec_missing(catalogs)[k] == m[k]);
                let i = choose|i: int|
                    0 <= i < rest.len() && (#[trigger] rest[i]).held is None && rest[i].id == #[trigger] m[k];
                assert(catalogs[i] == rest[i]);
            }
        }
    }
}

proof fn lemma_unheld_missing(catalogs: Seq<CatalogState>)
    ensures
        forall|i: int|
            0 <= i < catalogs.len() && (#[trigger] catalogs[i]).held is None ==> spec_missing(
                catalogs,
            ).contains(catalogs[i].id),
    decreases catalogs.len(),
{
    if catalogs.len() > 0 {
        let rest = catalogs.drop_last();
        let n = catalogs.len() - 1;
        let m = spec_missing(rest);
        lemma_unheld_missing(rest);
        assert forall|i: int| 0 <= i < catalogs.len() && (#[trigger] catalogs[i]).held is None implies spec_missing(
            catalogs,
        ).contains(catalogs[i].id) by {
            if i == n {
                assert(spec_missing(catalogs)[m.len() as int] == catalogs.last().id);
            } else {
                assert(catalogs[i] == rest[i]);
                assert(m.contains(rest[i].id));
                let k = choose|k: int| 0 <= k < m.len() && m[k] == rest[i].id;
                assert(spec_missing(catalogs)[k] == m[k]);
            }
        }
    }
}

/// A failed refresh keeps the catalog's document served: the manifest lists the same
/// catalogs with the same etags and build times as before, and marks the catalog whose
/// refresh failed stale.
pub proof fn law_failed_refresh_keeps_serving(
    catalogs: Seq<CatalogState>,
    k: int,
    failed: Status,
    before: Seq<CatalogEntry>,
    after: Seq<CatalogEntry>,
)
    requires
        0 <= k < catalogs.len(),
        failed.consecutive_failures > 0,
        manifest_entries_match(catalogs, before),
        manifest_entries_match(
            catalogs.update(k, CatalogState { id: catalogs[k].id, held: catalogs[k].held, status: failed }),
            after,
        ),
    ensures
        after.len() == before.len(),
        forall|j: int|
            0 <= j < after.len() ==> {
                &&& (#[trigger] after[j]).id == before[j].id
                &&& after[j].etag@ == before[j].etag@
                &&& after[j].updated_at == before[j].updated_at
            },
        catalogs[k].held is Some ==> exists|j: int|
            0 <= j < after.len() && (#[trigger] after[j]).id == catalogs[k].id && after[j].stale,
{
    let updated = catalogs.update(k, CatalogState { id: catalogs[k].id, held: catalogs[k].held, status: failed });
    lemma_same_documents_same_entries(catalogs, updated, before, after);
    if catalogs[k].held is Some {
        lemma_stale_entry_listed(updated, k, after);
    }
}

proof fn lemma_same_documents_same_entries(
    a: Seq<CatalogState>,
    b: Seq<CatalogState>,
    ea: Seq<CatalogEntry>,
    eb: Seq<CatalogEntry>,
)
    requires
        a.len() == b.len(),
        forall|i: int| 0 <= i < a.len() ==> (#[trigger] a[i]).id == b[i].id && a[i].held == b[i].held,
        manifest_entries_match(a, ea),
        manifest_entries_match(b, eb),
    ensures
        ea.len() == eb.len(),
        forall|j: int|
            0 <= j < ea.len() ==> {
                &&& (#[trigger] eb[j]).id == ea[j].id
                &&& eb[j].etag@ == ea[j].etag@
                &&& eb[j].updated_at == ea[j].updated_at
            },
    decreases a.len(),
{
    if a.len() > 0 {
        let n = a.len() - 1;
        assert(a[n] == a.last() && b[n] == b.last());
        assert forall|i: int| 0 <= i < a.drop_last().len() implies (#[trigger] a.drop_last()[i]).id
            == b.drop_last()[i].id && a.drop_last()[i].held == b.drop_last()[i].held by {
            assert(a.drop_last()[i] == a[i]);
            assert(b.drop_last()[i] == b[i]);
        }
        if a.last().held is Some {
            lemma_same_documents_same_entries(a.drop_last(), b.drop_last(), ea.drop_last(), eb.drop_last());
            assert forall|j: int| 0 <= j < ea.len() implies {
                &&& (#[trigger] eb[j]).id == ea[j].id
                &&& eb[j].etag@ == ea[j].etag@
                &&& eb[j].updated_at == ea[j].updated_at
            } by {
                if j < ea.len() - 1 {
                    assert(ea[j] == ea.drop_last()[j]);
                    assert(eb[j] == eb.drop_last()[j]);
                } else {
                    assert(ea[j] == ea.last());
                    assert(eb[j] == eb.last());
                }
            }
        } else {
            lemma_same_documents_same_entries(a.drop_last(), b.drop_last(), ea, eb);
        }
    }
}

proof fn lemma_stale_entry_listed(catalogs: Seq<CatalogState>, k: int, entries: Seq<CatalogEntry>)
    requires
        0 <= k < catalogs.len(),
        catalogs[k].held is Some,
        catalogs[k].status.consecutive_failures > 0,
        manifest_entries_match(catalogs, entries),
    ensures
        exists|j: int|
            0 <= j < entries.len() && (#[trigger] entries[j]).id == catalogs[k].id && entries[j].stale,
    decreases catalogs.len(),
{
    let n = catalogs.len() - 1;
    if k == n {
        assert(catalogs[n] == catalogs.last());
        assert(entries[entries.len() - 1] == entries.last());
    } else {
        let rest = catalogs.drop_last();
        assert(rest[k] == catalogs[k]);
        let erest = if catalogs.last().held is Some {
            entries.drop_last()
        } else {
            entries
        };
        lemma_stale_entry_listed(rest, k, erest);
        let j = choose|j: int|
            0 <= j < erest.len() && (#[trigger] erest[j]).id == rest[k].id && erest[j].stale;
        assert(entries[j] == erest[j]);
    }
}

/// Two documents get the same etag exactly when their encodings have the same SHA-256
/// digest, so an unchanged etag means unchanged content as far as the digest tells.
pub proof fn law_etag_tracks_digest(a: Seq<u8>, b: Seq<u8>)
    ensures
        spec_etag(a) == spec_etag(b) <==> sha256(a) == sha256(b),
{
    if spec_etag(a) == spec_etag(b) {
        let ha = hex_lower(sha256(a));
        let hb = hex_lower(sha256(b));
        lemma_hex_lower_len(sha256(a));
        lemma_hex_lower_len(sha256(b));
        assert(spec_etag(a).len() == ha.len() + 2);
        assert(spec_etag(b).len() == hb.len() + 2);
        assert(spec_etag(a).subrange(1, ha.len() + 1int) =~= ha);
        assert(spec_etag(b).subrange(1, hb.len() + 1int) =~= hb);
        assert(ha =~= hb);
        lemma_hex_lower_injective(sha256(a), sha256(b));
    }
}

proof fn lemma_hex_digit_injective(m: u8, n: u8)
    requires
        m < 16,
        n < 16,
        hex_digit(m) == hex_digit(n),
    ensures
        m == n,
{
    assert(hex_digit(m) as int == if m < 10 { m + 48 } else { m + 87 });
    assert(hex_digit(n) as int == if n < 10 { n + 48 } else { n + 87 });
}

proof fn lemma_hex_lower_injective(x: Seq<u8>, y: Seq<u8>)
    requires
        hex_lower(x) == hex_lower(y),
    ensures
        x == y,
    decreases x.len(),
{
    lemma_hex_lower_len(x);
    lemma_hex_lower_len(y);
    if x.len() > 0 {
        let hx = hex_lower(x);
        let k = hx.len() - 2;
        lemma_hex_lower_len(x.drop_last());
        lemma_hex_lower_len(y.drop_last());
        assert(hx[k] == hex_digit(x.last() / 16));
        assert(hx[k] == hex_digit(y.last() / 16));
        assert(hx[k + 1] == hex_digit(x.last() % 16));
        assert(hx[k + 1] == hex_digit(y.last() % 16));
        lemma_hex_digit_injective(x.last() / 16, y.last() / 16);
        lemma_hex_digit_injective(x.last() % 16, y.last() % 16);
        assert(x.last() == y.last());
        assert(hex_lower(x.drop_last()) =~= hx.take(k));
        assert(hex_lower(y.drop_last()) =~= hx.take(k));
        lemma_hex_lower_injective(x.drop_last(), y.drop_last());
        assert(x =~= x.drop_last().push(x.last()));
        assert(y =~= y.drop_last().push(y.last()));
    } else {
        assert(x =~= y);
    }
}

proof fn lemma_pow2_positive(e: nat)
    ensures
        pow2(e) >= 1,
    decreases e,
{
    if e > 0 {
        lemma_pow2_positive((e - 1) as nat);
    }
}

proof fn lemma_pow2_monotone(a: nat, b: nat)
    requires
        a <= b,
    ensures
        pow2(a) <= pow2(b),
    decreases b,
{
    if a < b {
        lemma_pow2_monotone(a, (b - 1) as nat);
        lemma_pow2_positive((b - 1) as nat);
    }
}

/// The Node catalog keeps a release exactly when its major is 12 or more, the Python
/// catalog exactly from 3.3 on, and the Go and Rust catalogs every release.
pub proof fn law_runtime_minimums(v: Version)
    ensures
        spec_accepted(CatalogId::Node, v) <==> v.major >= 12,
        spec_accepted(CatalogId::Python, v) <==> (v.major > 3 || (v.major == 3 && v.minor >= 3)),
        spec_accepted(CatalogId::Go, v),
        spec_accepted(CatalogId::Rust, v),
{
}

/// A runtime catalog holds a release exactly when some tag names it and the runtime keeps
/// it: for Node, every release from major 12 on that a tag names.
pub proof fn law_node_catalog_keeps_from_twelve(tags: Seq<Seq<char>>, v: Version)
    ensures
        runtime_candidates(CatalogId::Node, tags).contains(v) <==> (v.major >= 12 && exists|i: int|
            0 <= i < tags.len() && spec_parse_version(#[trigger] tags[i]) == Some(v)),
{
}

/// Release order compares the major, then the minor, then the patch, each ascending.
pub proof fn law_version_order_is_lexicographic(a: Version, b: Version)
    ensures
        version_lt(a, b) <==> (a.major < b.major || (a.major == b.major && (a.minor < b.minor || (
        a.minor == b.minor && a.patch < b.patch)))),
        a.major == b.major && a.minor == b.minor ==> (version_lt(a, b) <==> a.patch < b.patch),
        a.major == b.major ==> (a.minor < b.minor ==> version_lt(a, b)),
        a.major < b.major ==> version_lt(a, b),
{
}

/// `t` is how a number `n` is written in decimal: digits that read as `n`, with no
/// leading zero unless `n` is zero itself.
pub open spec fn written_number(t: Seq<char>, n: nat) -> bool {
    &&& t.len() > 0
    &&& all_digits(t)
    &&& digits_value(t) == n
    &&& (t.len() == 1 || t[0] != '0')
}

/// `t` is how a number `n` is written with at least two digits: digits that read as `n`,
/// zero-padded to two places and no further.
pub open spec fn written_two_places(t: Seq<char>, n: nat) -> bool {
    &&& t.len() >= 2
    &&& all_digits(t)
    &&& digits_value(t) == n
    &&& (t.len() == 2 || t[0] != '0')
}

proof fn lemma_decimal_leading_digit(n: nat)
    ensures
        n > 0 ==> decimal(n)[0] != '0',
        n < 10 ==> decimal(n).len() == 1,
        n >= 10 ==> decimal(n).len() >= 2,
    decreases n,
{
    lemma_decimal(n);
    if n < 10 {
        assert(decimal(n)[0] == digit_char(n));
        assert(digit_value(digit_char(n)) == n);
    } else {
        lemma_decimal_leading_digit(n / 10);
        lemma_decimal(n / 10);
        assert(decimal(n)[0] == decimal(n / 10)[0]);
    }
}

proof fn lemma_decimal_written(n: nat)
    ensures
        written_number(decimal(n), n),
{
    lemma_decimal(n);
    lemma_decimal_leading_digit(n);
}

proof fn lemma_pad2_written(n: nat)
    ensures
        written_two_places(decimal_pad2(n), n),
{
    lemma_decimal(n);
    lemma_decimal_leading_digit(n);
    if n < 10 {
        let t = decimal_pad2(n);
        assert(t =~= seq!['0', decimal(n)[0]]);
        assert(t.drop_last() =~= seq!['0']);
        assert(seq!['0'].drop_last() =~= Seq::<char>::empty());
        assert(digits_value(Seq::<char>::empty()) == 0);
        assert(digit_value('0') == 0);
        assert(seq!['0'].last() == '0');
        assert(digits_value(seq!['0']) == 0);
        assert(decimal(n) =~= seq![decimal(n)[0]]);
        assert(decimal(n).drop_last() =~= Seq::<char>::empty());
        assert(digits_value(decimal(n)) == digit_value(decimal(n)[0]));
        assert(all_digits(t)) by {
            assert forall|i: int| 0 <= i < t.len() implies crate::text::is_digit(#[trigger] t[i]) by {
                if i == 1 {
                    assert(t[1] == decimal(n)[0]);
                }
            }
        }
    }
}

/// A runtime version is written as its three numbers in plain decimal, separated by dots.
pub proof fn law_version_written_in_decimal(v: Version)
    ensures
        exists|a: Seq<char>, b: Seq<char>, c: Seq<char>|
            version_text(v) == a + seq!['.'] + b + seq!['.'] + c && written_number(a, v.major as nat)
                && written_number(b, v.minor as nat) && written_number(c, v.patch as nat),
{
    lemma_decimal_written(v.major as nat);
    lemma_decimal_written(v.minor as nat);
    lemma_decimal_written(v.patch as nat);
    let a = decimal(v.major as nat);
    let b = decimal(v.minor as nat);
    let c = decimal(v.patch as nat);
    assert(version_text(v) == a + seq!['.'] + b + seq!['.'] + c);
}

/// A Temurin release is written as the upstream writes it: Java 9 and later as
/// `major.minor.patch_build`, each number in plain decimal with no padding; Java 8 as
/// `majoruPATCH-bBUILD`, the build padded to two digits.
pub proof fn law_java_written_as_upstream(v: JavaVersion)
    ensures
        match v {
            JavaVersion::Modern { major, minor, patch, build } => exists|
                a: Seq<char>,
                b: Seq<char>,
                c: Seq<char>,
                d: Seq<char>,
            |
                java_text(v) == a + seq!['.'] + b + seq!['.'] + c + seq!['_'] + d && written_number(
                    a,
                    major as nat,
                ) && written_number(b, minor as nat) && written_number(c, patch as nat)
                    && written_number(d, build as nat),
            JavaVersion::Legacy { major, patch, build } => exists|a: Seq<char>, p: Seq<char>, d: Seq<char>|
                java_text(v) == a + seq!['u'] + p + seq!['-', 'b'] + d && written_number(a, major as nat)
                    && written_number(p, patch as nat) && written_two_places(d, build as nat),
        },
{
    match v {
        JavaVersion::Modern { major, minor, patch, build } => {
            lemma_decimal_written(major as nat);
            lemma_decimal_written(minor as nat);
            lemma_decimal_written(patch as nat);
            lemma_decimal_written(build as nat);
            let a = decimal(major as nat);
            let b = decimal(minor as nat);
            let c = decimal(patch as nat);
            let d = decimal(build as nat);
            assert(java_text(v) =~= a + seq!['.'] + b + seq!['.'] + c + seq!['_'] + d);
        },
        JavaVersion::Legacy { major, patch, build } => {
            lemma_decimal_written(major as nat);
            lemma_decimal_written(patch as nat);
            lemma_pad2_written(build as nat);
            let a = decimal(major as nat);
            let p = decimal(patch as nat);
            let d = decimal_pad2(build as nat);
            assert(java_text(v) =~= a + seq!['u'] + p + seq!['-', 'b'] + d);
        },
    }
}

proof fn lemma_number_has_no_dot(x: Seq<char>, max: nat)
    requires
        spec_parse_uint(x, max) is Some,
    ensures
        forall|j: int| 0 <= j < x.len() ==> x[j] != '.',
{
    let body = unsigned_body(x);
    assert forall|j: int| 0 <= j < x.len() implies x[j] != '.' by {
        if x.len() > 0 && x[0] == '+' {
            if j > 0 {
                assert(x[j] == body[j - 1]);
                assert(crate::text::is_digit(body[j - 1]));
            }
        } else {
            assert(crate::text::is_digit(body[j]));
        }
    }
}

proof fn lemma_split_once_parts(s: Seq<char>, c: char)
    requires
        split_once(s, c) is Some,
    ensures
        s == split_once(s, c).unwrap().0 + seq![c] + split_once(s, c).unwrap().1,
{
    let i = choose|i: int| is_first_at(s, c, i);
    assert(first_index(s, c) == Some(i));
    assert(s =~= s.take(i) + seq![c] + s.skip(i + 1));
}

proof fn lemma_parse_u16_exact(x: Seq<char>, n: u16)
    ensures
        parse_u16(x) == Some(n) <==> spec_parse_uint(x, 0xffff) == Some(n as nat),
{
}

/// A string denotes a runtime version exactly when it is three numbers that parsing a
/// `u16` accepts, joined by two dots; each number is the version's major, minor and patch.
pub proof fn law_version_parse_exact(s: Seq<char>, v: Version)
    ensures
        spec_parse_version(s) == Some(v) <==> exists|a: Seq<char>, b: Seq<char>, c: Seq<char>|
            s == a + seq!['.'] + b + seq!['.'] + c && spec_parse_uint(a, 0xffff) == Some(v.major as nat)
                && spec_parse_uint(b, 0xffff) == Some(v.minor as nat) && spec_parse_uint(c, 0xffff)
                == Some(v.patch as nat),
{
    if spec_parse_version(s) == Some(v) {
        lemma_split_once_parts(s, '.');
        let (a, rest) = split_once(s, '.').unwrap();
        lemma_split_once_parts(rest, '.');
        let (b, c) = split_once(rest, '.').unwrap();
        lemma_parse_u16_exact(a, v.major);
        lemma_parse_u16_exact(b, v.minor);
        lemma_parse_u16_exact(c, v.patch);
        assert(s =~= a + seq!['.'] + b + seq!['.'] + c);
    }
    if exists|a: Seq<char>, b: Seq<char>, c: Seq<char>|
        s == a + seq!['.'] + b + seq!['.'] + c && spec_parse_uint(a, 0xffff) == Some(v.major as nat)
            && spec_parse_uint(b, 0xffff) == Some(v.minor as nat) && spec_parse_uint(c, 0xffff)
            == Some(v.patch as nat) {
        let (a, b, c) = choose|a: Seq<char>, b: Seq<char>, c: Seq<char>|
            s == a + seq!['.'] + b + seq!['.'] + c && spec_parse_uint(a, 0xffff) == Some(v.major as nat)
                && spec_parse_uint(b, 0xffff) == Some(v.minor as nat) && spec_parse_uint(c, 0xffff)
                == Some(v.patch as nat);
        lemma_number_has_no_dot(a, 0xffff);
        lemma_number_has_no_dot(b, 0xffff);
        lemma_number_has_no_dot(c, 0xffff);
        let rest = b + seq!['.'] + c;
        assert(s =~= a + seq!['.'] + rest);
        lemma_split_after(a, '.', rest);
        lemma_split_after(b, '.', c);
        lemma_no_first(c, '.');
        lemma_parse_u16_exact(a, v.major);
        lemma_parse_u16_exact(b, v.minor);
        lemma_parse_u16_exact(c, v.patch);
    }
}

proof fn lemma_number_chars(x: Seq<char>, max: nat, c: char)
    requires
        spec_parse_uint(x, max) is Some,
        !crate::text::is_digit(c),
        c != '+',
    ensures
        forall|j: int| 0 <= j < x.len() ==> x[j] != c,
{
    let body = unsigned_body(x);
    assert forall|j: int| 0 <= j < x.len() implies x[j] != c by {
        if x.len() > 0 && x[0] == '+' {
            if j > 0 {
                assert(x[j] == body[j - 1]);
                assert(crate::text::is_digit(body[j - 1]));
            }
        } else {
            assert(crate::text::is_digit(body[j]));
        }
    }
}

proof fn lemma_split_pair_parts(s: Seq<char>, a: char, b: char)
    requires
        split_once_pair(s, a, b) is Some,
    ensures
        s == split_once_pair(s, a, b).unwrap().0 + seq![a, b] + split_once_pair(s, a, b).unwrap().1,
{
    let i = choose|i: int| is_first_pair_at(s, a, b, i);
    assert(s =~= s.take(i) + seq![a, b] + s.skip(i + 2));
}

proof fn lemma_split_pair_after(p: Seq<char>, a: char, b: char, rest: Seq<char>)
    requires
        forall|j: int| 0 <= j < p.len() ==> p[j] != a,
    ensures
        split_once_pair(p + seq![a, b] + rest, a, b) == Some((p, rest)),
{
    let s = p + seq![a, b] + rest;
    let k = p.len() as int;
    assert(pair_at(s, a, b, k));
    assert forall|j: int| 0 <= j < k implies !#[trigger] pair_at(s, a, b, j) by {
        assert(s[j] == p[j]);
    }
    assert(is_first_pair_at(s, a, b, k));
    let i = choose|i: int| is_first_pair_at(s, a, b, i);
    lemma_first_pair_unique(s, a, b, i, k);
    assert(s.take(k) =~= p);
    assert(s.skip(k + 2) =~= rest);
}

/// `s` is `major.minor.patch_build`, each number one that parsing a `u16` accepts.
pub open spec fn modern_shape(s: Seq<char>, major: u16, minor: u16, patch: u16, build: u16) -> bool {
    exists|a: Seq<char>, b: Seq<char>, c: Seq<char>, d: Seq<char>|
        s == a + seq!['.'] + b + seq!['.'] + c + seq!['_'] + d && spec_parse_uint(a, 0xffff) == Some(
            major as nat,
        ) && spec_parse_uint(b, 0xffff) == Some(minor as nat) && spec_parse_uint(c, 0xffff) == Some(
            patch as nat,
        ) && spec_parse_uint(d, 0xffff) == Some(build as nat)
}

/// `s` is `majoruPATCH-bBUILD`, each number one that parsing a `u16` accepts.
pub open spec fn legacy_shape(s: Seq<char>, major: u16, patch: u16, build: u16) -> bool {
    exists|a: Seq<char>, p: Seq<char>, d: Seq<char>|
        s == a + seq!['u'] + p + seq!['-', 'b'] + d && spec_parse_uint(a, 0xffff) == Some(major as nat)
            && spec_parse_uint(p, 0xffff) == Some(patch as nat) && spec_parse_uint(d, 0xffff) == Some(
            build as nat,
        )
}

#[verifier::spinoff_prover]
proof fn lemma_modern_parsed_has_shape(s: Seq<char>, major: u16, minor: u16, patch: u16, build: u16)
    requires
        spec_parse_java(s) == Some(JavaVersion::Modern { major, minor, patch, build }),
    ensures
        major >= 9,
        modern_shape(s, major, minor, patch, build),
{
    lemma_split_once_parts(s, '_');
    let (head, d) = split_once(s, '_').unwrap();
    law_version_parse_exact(head, Version { major, minor, patch });
    let (a, b, c) = choose|a: Seq<char>, b: Seq<char>, c: Seq<char>|
        head == a + seq!['.'] + b + seq!['.'] + c && spec_parse_uint(a, 0xffff) == Some(major as nat)
            && spec_parse_uint(b, 0xffff) == Some(minor as nat) && spec_parse_uint(c, 0xffff) == Some(
            patch as nat,
        );
    lemma_parse_u16_exact(d, build);
    assert(s =~= a + seq!['.'] + b + seq!['.'] + c + seq!['_'] + d);
}

#[verifier::spinoff_prover]
proof fn lemma_modern_shape_parses(s: Seq<char>, major: u16, minor: u16, patch: u16, build: u16)
    requires
        major >= 9,
        modern_shape(s, major, minor, patch, build),
    ensures
        spec_parse_java(s) == Some(JavaVersion::Modern { major, minor, patch, build }),
{
    let (a, b, c, d) = choose|a: Seq<char>, b: Seq<char>, c: Seq<char>, d: Seq<char>|
        s == a + seq!['.'] + b + seq!['.'] + c + seq!['_'] + d && spec_parse_uint(a, 0xffff) == Some(
            major as nat,
        ) && spec_parse_uint(b, 0xffff) == Some(minor as nat) && spec_parse_uint(c, 0xffff) == Some(
            patch as nat,
        ) && spec_parse_uint(d, 0xffff) == Some(build as nat);
    let head = a + seq!['.'] + b + seq!['.'] + c;
    lemma_number_chars(a, 0xffff, '_');
    lemma_number_chars(b, 0xffff, '_');
    lemma_number_chars(c, 0xffff, '_');
    assert forall|j: int| 0 <= j < head.len() implies head[j] != '_' by {
        if j < a.len() {
            assert(head[j] == a[j]);
        } else if j > a.len() && j < a.len() + 1 + b.len() {
            assert(head[j] == b[j - a.len() - 1]);
        } else if j > a.len() + 1 + b.len() {
            assert(head[j] == c[j - a.len() - 2 - b.len()]);
        }
    }
    assert(s =~= head + seq!['_'] + d);
    lemma_split_after(head, '_', d);
    law_version_parse_exact(head, Version { major, minor, patch });
    lemma_parse_u16_exact(d, build);
}

#[verifier::spinoff_prover]
proof fn lemma_legacy_parsed_has_shape(s: Seq<char>, major: u16, patch: u16, build: u16)
    requires
        spec_parse_java(s) == Some(JavaVersion::Legacy { major, patch, build }),
    ensures
        major == 8,
        legacy_shape(s, major, patch, build),
{
    assert(split_once(s, '_') is None);
    lemma_split_once_parts(s, 'u');
    let (a, rest) = split_once(s, 'u').unwrap();
    lemma_split_pair_parts(rest, '-', 'b');
    let (p, d) = split_once_pair(rest, '-', 'b').unwrap();
    lemma_parse_u16_exact(a, major);
    lemma_parse_u16_exact(p, patch);
    lemma_parse_u16_exact(d, build);
    assert(s =~= a + seq!['u'] + p + seq!['-', 'b'] + d);
}

#[verifier::spinoff_prover]
proof fn lemma_legacy_shape_parses(s: Seq<char>, major: u16, patch: u16, build: u16)
    requires
        major == 8,
        legacy_shape(s, major, patch, build),
    ensures
        spec_parse_java(s) == Some(JavaVersion::Legacy { major, patch, build }),
{
    let (a, p, d) = choose|a: Seq<char>, p: Seq<char>, d: Seq<char>|
        s == a + seq!['u'] + p + seq!['-', 'b'] + d && spec_parse_uint(a, 0xffff) == Some(major as nat)
            && spec_parse_uint(p, 0xffff) == Some(patch as nat) && spec_parse_uint(d, 0xffff) == Some(
            build as nat,
        );
    lemma_number_chars(a, 0xffff, '_');
    lemma_number_chars(p, 0xffff, '_');
    lemma_number_chars(d, 0xffff, '_');
    lemma_number_chars(a, 0xffff, 'u');
    lemma_number_chars(p, 0xffff, '-');
    assert forall|j: int| 0 <= j < s.len() implies s[j] != '_' by {
        if j < a.len() {
            assert(s[j] == a[j]);
        } else if j > a.len() && j < a.len() + 1 + p.len() {
            assert(s[j] == p[j - a.len() - 1]);
        } else if j >= a.len() + 3 + p.len() {
            assert(s[j] == d[j - a.len() - 3 - p.len()]);
        }
    }
    lemma_no_first(s, '_');
    let rest = p + seq!['-', 'b'] + d;
    assert(s =~= a + seq!['u'] + rest);
    lemma_split_after(a, 'u', rest);
    lemma_split_pair_after(p, '-', 'b', d);
    lemma_parse_u16_exact(a, major);
    lemma_parse_u16_exact(p, patch);
    lemma_parse_u16_exact(d, build);
}

/// A string denotes a Temurin release exactly when it has the shape of its feature
/// version: Java 9 and later as `major.minor.patch_build`, Java 8 as `8uPATCH-bBUILD`,
/// each number one that parsing a `u16` accepts.
pub proof fn law_java_parse_exact(s: Seq<char>, v: JavaVersion)
    ensures
        spec_parse_java(s) == Some(v) <==> match v {
            JavaVersion::Modern { major, minor, patch, build } => major >= 9 && modern_shape(
                s,
                major,
                minor,
                patch,
                build,
            ),
            JavaVersion::Legacy { major, patch, build } => major == 8 && legacy_shape(
                s,
                major,
                patch,
                build,
            ),
        },
{
    match v {
        JavaVersion::Modern { major, minor, patch, build } => {
            if spec_parse_java(s) == Some(v) {
                lemma_modern_parsed_has_shape(s, major, minor, patch, build);
            }
            if major >= 9 && modern_shape(s, major, minor, patch, build) {
                lemma_modern_shape_parses(s, major, minor, patch, build);
            }
        },
        JavaVersion::Legacy { major, patch, build } => {
            if spec_parse_java(s) == Some(v) {
                lemma_legacy_parsed_has_shape(s, major, patch, build);
            }
            if major == 8 && legacy_shape(s, major, patch, build) {
                lemma_legacy_shape_parses(s, major, patch, build);
            }
        },
    }
}

} // verus!
