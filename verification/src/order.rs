//! How releases compare: the `<` and `>` of the version types.

use crate::java::{java_key, java_lt, JavaVersion};
use crate::version::{version_lt, Version};
use core::cmp::Ordering;
use vstd::prelude::*;
use vstd::std_specs::cmp::PartialOrdSpecImpl;

verus! {

/// Where `a` stands relative to `b` in release order.
pub open spec fn version_order(a: Version, b: Version) -> Ordering {
    if version_lt(a, b) {
        Ordering::Less
    } else if a == b {
        Ordering::Equal
    } else {
        Ordering::Greater
    }
}

impl PartialOrd for Version {
    fn partial_cmp(&self, other: &Version) -> (r: Option<Ordering>) {
        if self.major != other.major {
            if self.major < other.major {
                Some(Ordering::Less)
            } else {
                Some(Ordering::Greater)
            }
        } else if self.minor != other.minor {
            if self.minor < other.minor {
                Some(Ordering::Less)
            } else {
                Some(Ordering::Greater)
            }
        } else if self.patch != other.patch {
            if self.patch < other.patch {
                Some(Ordering::Less)
            } else {
                Some(Ordering::Greater)
            }
        } else {
            Some(Ordering::Equal)
        }
    }
}

impl PartialOrdSpecImpl for Version {
    open spec fn obeys_partial_cmp_spec() -> bool {
        true
    }

    open spec fn partial_cmp_spec(&self, other: &Version) -> Option<Ordering> {
        Some(version_order(*self, *other))
    }
}

/// Where `a` stands relative to `b` in release order. Two releases with the same four
/// numbers compare equal even when one is a Java 8 release and the other is not.
pub open spec fn java_order(a: JavaVersion, b: JavaVersion) -> Ordering {
    if java_lt(a, b) {
        Ordering::Less
    } else if java_lt(b, a) {
        Ordering::Greater
    } else {
        Ordering::Equal
    }
}

impl PartialOrd for JavaVersion {
    fn partial_cmp(&self, other: &JavaVersion) -> (r: Option<Ordering>) {
        let a = self.as_array();
        let b = other.as_array();
        let mut i: usize = 0;
        while i < 4
            invariant
                i <= 4,
                a@ == seq![java_key(*self).0, java_key(*self).1, java_key(*self).2, java_key(*self).3],
                b@ == seq![java_key(*other).0, java_key(*other).1, java_key(*other).2, java_key(*other).3],
                forall|j: int| 0 <= j < i ==> a@[j] == b@[j],
            decreases 4 - i,
        {
            if a[i] < b[i] {
                return Some(Ordering::Less);
            }
            if a[i] > b[i] {
                return Some(Ordering::Greater);
            }
            i = i + 1;
        }
        Some(Ordering::Equal)
    }
}

impl PartialOrdSpecImpl for JavaVersion {
    open spec fn obeys_partial_cmp_spec() -> bool {
        true
    }

    open spec fn partial_cmp_spec(&self, other: &JavaVersion) -> Option<Ordering> {
        Some(java_order(*self, *other))
    }
}

/// `partial_cmp` on runtime versions compares the major, then the minor, then the patch,
/// each ascending, and calls two versions equal exactly when all three numbers are.
pub proof fn law_version_comparison(a: Version, b: Version)
    ensures
        version_order(a, b) == Ordering::Less <==> (a.major < b.major || (a.major == b.major && (
        a.minor < b.minor || (a.minor == b.minor && a.patch < b.patch)))),
        version_order(a, b) == Ordering::Equal <==> (a.major == b.major && a.minor == b.minor
            && a.patch == b.patch),
        version_order(a, b) == Ordering::Greater <==> (b.major < a.major || (a.major == b.major && (
        b.minor < a.minor || (a.minor == b.minor && b.patch < a.patch)))),
{
}

/// `partial_cmp` on Temurin releases compares feature version, interim, update and build
/// in turn, ascending, a Java 8 release counting its interim as zero.
pub proof fn law_java_comparison(a: JavaVersion, b: JavaVersion)
    ensures
        match (a, b) {
            (
                JavaVersion::Modern { major: m1, minor: n1, patch: p1, build: b1 },
                JavaVersion::Modern { major: m2, minor: n2, patch: p2, build: b2 },
            ) => (java_order(a, b) == Ordering::Less <==> (m1 < m2 || (m1 == m2 && (n1 < n2 || (n1
                == n2 && (p1 < p2 || (p1 == p2 && b1 < b2))))))),
            (
                JavaVersion::Legacy { major: m1, patch: p1, build: b1 },
                JavaVersion::Legacy { major: m2, patch: p2, build: b2 },
            ) => (java_order(a, b) == Ordering::Less <==> (m1 < m2 || (m1 == m2 && (p1 < p2 || (p1
                == p2 && b1 < b2))))),
            (
                JavaVersion::Legacy { major: m1, patch: p1, build: b1 },
                JavaVersion::Modern { major: m2, minor: n2, patch: p2, build: b2 },
            ) => (java_order(a, b) == Ordering::Less <==> (m1 < m2 || (m1 == m2 && (0 < n2 || (n2 == 0
                && (p1 < p2 || (p1 == p2 && b1 < b2))))))),
            (
                JavaVersion::Modern { major: m1, minor: n1, patch: p1, build: b1 },
                JavaVersion::Legacy { major: m2, patch: p2, build: b2 },
            ) => (java_order(a, b) == Ordering::Less <==> (m1 < m2 || (m1 == m2 && n1 == 0 && (p1 < p2
                || (p1 == p2 && b1 < b2))))),
        },
{
}

} // verus!
