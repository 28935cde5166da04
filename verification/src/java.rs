//! The Eclipse Temurin JDK catalog.

use crate::text::{
    all_digits, chars_of, decimal, digit_char, digit_value, digits_value, find_char, find_pair,
    is_digit, is_first_pair_at, lemma_decimal, lemma_first_pair_unique, lemma_no_first,
    lemma_parse_decimal, lemma_split_after, pair_at, push_decimal, split_once, split_once_pair,
    string_from_chars,
};
use crate::time::Timestamp;
use crate::version::{
    lemma_split_range, lemma_version_round_trip, parse_u16, parse_u16_range, parse_version_range,
    spec_parse_version, version_text, Version,
};
use vstd::prelude::*;

verus! {

/// A Temurin JDK release.
///
/// Temurin publishes two version shapes: Java 9 and later use `major.minor.patch_build`
/// (`21.0.5_11`), Java 8 uses `8uPATCH-bBUILD` (`8u422-b05`).
#[derive(Debug, Clone, Copy, PartialEq, Eq, Hash, Structural)]
pub enum JavaVersion {
    /// Java 9 and later.
    Modern {
        /// Feature release, for example `21`.
        major: u16,
        /// Interim release.
        minor: u16,
        /// Update release.
        patch: u16,
        /// Temurin build number.
        build: u16,
    },
    /// Java 8.
    Legacy {
        /// Always `8`.
        major: u16,
        /// Update number.
        patch: u16,
        /// Temurin build number.
        build: u16,
    },
}

/// Returned when a string is not a recognized Temurin version; holds that string.
#[derive(Debug, Clone, PartialEq, Eq)]
pub struct ParseJavaVersionError(pub String);

/// A number written with at least two digits, zero-padded on the left.
pub open spec fn decimal_pad2(n: nat) -> Seq<char> {
    if n < 10 {
        seq!['0'] + decimal(n)
    } else {
        decimal(n)
    }
}

/// How a Temurin release is written: `major.minor.patch_build`, or
/// `majoruPATCH-bBUILD` with the build zero-padded to two digits.
pub open spec fn java_text(v: JavaVersion) -> Seq<char> {
    match v {
        JavaVersion::Modern { major, minor, patch, build } => version_text(
            Version { major, minor, patch },
        ) + seq!['_'] + decimal(build as nat),
        JavaVersion::Legacy { major, patch, build } => decimal(major as nat) + seq!['u'] + decimal(
            patch as nat,
        ) + seq!['-', 'b'] + decimal_pad2(build as nat),
    }
}

/// The Temurin release a string denotes. A string holding `_` must be
/// `major.minor.patch_build` with a major of 9 or more (Java 9 and later); any other must
/// be `8uPATCH-bBUILD` (Java 8), split at its first `u` and then at its first `-b`. Each
/// number is a `u16`.
pub open spec fn spec_parse_java(s: Seq<char>) -> Option<JavaVersion> {
    match split_once(s, '_') {
        Some((head, build)) => match (spec_parse_version(head), parse_u16(build)) {
            (Some(v), Some(build)) => {
                if v.major < 9 {
                    None
                } else {
                    Some(
                        JavaVersion::Modern {
                            major: v.major,
                            minor: v.minor,
                            patch: v.patch,
                            build,
                        },
                    )
                }
            },
            _ => None,
        },
        None => match split_once(s, 'u') {
            Some((major, rest)) => match split_once_pair(rest, '-', 'b') {
                Some((patch, build)) => match (parse_u16(major), parse_u16(patch), parse_u16(build)) {
                    (Some(major), Some(patch), Some(build)) => if major == 8 {
                        Some(JavaVersion::Legacy { major, patch, build })
                    } else {
                        None
                    },
                    _ => None,
                },
                None => None,
            },
            None => None,
        },
    }
}

/// The four numbers a release is ordered by; Java 8 has no interim release and counts
/// it as zero.
pub open spec fn java_key(v: JavaVersion) -> (u16, u16, u16, u16) {
    match v {
        JavaVersion::Modern { major, minor, patch, build } => (major, minor, patch, build),
        JavaVersion::Legacy { major, patch, build } => (major, 0, patch, build),
    }
}

/// `a` comes before `b`: their keys compared number by number.
pub open spec fn java_lt(a: JavaVersion, b: JavaVersion) -> bool {
    let (a0, a1, a2, a3) = java_key(a);
    let (b0, b1, b2, b3) = java_key(b);
    ||| a0 < b0
    ||| a0 == b0 && a1 < b1
    ||| a0 == b0 && a1 == b1 && a2 < b2
    ||| a0 == b0 && a1 == b1 && a2 == b2 && a3 < b3
}

/// The feature release number of a release.
pub open spec fn java_major(v: JavaVersion) -> u16 {
    match v {
        JavaVersion::Modern { major, .. } => major,
        JavaVersion::Legacy { major, .. } => major,
    }
}

/// A release whose shape fits its feature version: Java 9 and later in the modern shape,
/// Java 8 in the legacy one.
pub open spec fn java_writable(v: JavaVersion) -> bool {
    match v {
        JavaVersion::Modern { major, .. } => major >= 9,
        JavaVersion::Legacy { major, .. } => major == 8,
    }
}

/// Splitting `s[lo..hi]` at a found pair gives the two subranges around it.
proof fn lemma_split_pair_range(s: Seq<char>, lo: int, k: int, hi: int, a: char, b: char)
    requires
        0 <= lo <= k && k + 1 < hi <= s.len(),
        is_first_pair_at(s.subrange(lo, hi), a, b, k - lo),
    ensures
        split_once_pair(s.subrange(lo, hi), a, b) == Some(
            (s.subrange(lo, k), s.subrange(k + 2, hi)),
        ),
{
    let sub = s.subrange(lo, hi);
    let i = choose|i: int| is_first_pair_at(sub, a, b, i);
    lemma_first_pair_unique(sub, a, b, i, k - lo);
    assert(sub.take(k - lo) =~= s.subrange(lo, k));
    assert(sub.skip(k - lo + 2) =~= s.subrange(k + 2, hi));
}

/// The Temurin release that `s[lo..hi]` denotes.
pub fn parse_java_range(s: &[char], lo: usize, hi: usize) -> (res: Option<JavaVersion>)
    requires
        lo <= hi <= s@.len(),
    ensures
        res == spec_parse_java(s@.subrange(lo as int, hi as int)),
{
    match find_char(s, lo, hi, '_') {
        Some(k) => {
            proof {
                lemma_split_range(s@, lo as int, k as int, hi as int, '_');
            }
            let head = parse_version_range(s, lo, k);
            let build = parse_u16_range(s, k + 1, hi);
            match (head, build) {
                (Some(v), Some(build)) => {
                    if v.major < 9 {
                        None
                    } else {
                        Some(
                            JavaVersion::Modern {
                                major: v.major,
                                minor: v.minor,
                                patch: v.patch,
                                build,
                            },
                        )
                    }
                },
                _ => None,
            }
        },
        None => {
            let u = match find_char(s, lo, hi, 'u') {
                Some(u) => u,
                None => return None,
            };
            proof {
                lemma_split_range(s@, lo as int, u as int, hi as int, 'u');
            }
            let p = match find_pair(s, u + 1, hi, '-', 'b') {
                Some(p) => p,
                None => return None,
            };
            proof {
                lemma_split_pair_range(s@, u + 1, p as int, hi as int, '-', 'b');
            }
            let major = parse_u16_range(s, lo, u);
            let patch = parse_u16_range(s, u + 1, p);
            let build = parse_u16_range(s, p + 2, hi);
            match (major, patch, build) {
                (Some(major), Some(patch), Some(build)) => if major == 8 {
                    Some(JavaVersion::Legacy { major, patch, build })
                } else {
                    None
                },
                _ => None,
            }
        },
    }
}

impl JavaVersion {
    /// The feature release number, for example `21` or `8`.
    pub fn major(self) -> (m: u16)
        ensures
            m == java_major(self),
    {
        match self {
            JavaVersion::Modern { major, .. } => major,
            JavaVersion::Legacy { major, .. } => major,
        }
    }

    /// The four numbers this release is ordered by.
    pub fn as_array(self) -> (a: [u16; 4])
        ensures
            a@ == seq![java_key(self).0, java_key(self).1, java_key(self).2, java_key(self).3],
    {
        match self {
            JavaVersion::Modern { major, minor, patch, build } => [major, minor, patch, build],
            JavaVersion::Legacy { major, patch, build } => [major, 0, patch, build],
        }
    }

    /// Parses either Temurin shape; on failure the error holds the input.
    pub fn parse(value: &str) -> (res: Result<JavaVersion, ParseJavaVersionError>)
        ensures
            match res {
                Ok(v) => spec_parse_java(value@) == Some(v),
                Err(e) => spec_parse_java(value@) is None && e.0@ == value@,
            },
    {
        let chars = chars_of(value);
        assert(chars@.subrange(0, chars@.len() as int) =~= chars@);
        match parse_java_range(chars.as_slice(), 0, chars.len()) {
            Some(v) => Ok(v),
            None => Err(ParseJavaVersionError(value.to_owned())),
        }
    }

    /// The release as Temurin writes it.
    pub fn to_string(&self) -> (s: String)
        ensures
            s@ == java_text(*self),
    {
        let mut out: Vec<char> = Vec::new();
        match *self {
            JavaVersion::Modern { major, minor, patch, build } => {
                push_decimal(&mut out, major as u64);
                out.push('.');
                push_decimal(&mut out, minor as u64);
                out.push('.');
                push_decimal(&mut out, patch as u64);
                out.push('_');
                push_decimal(&mut out, build as u64);
            },
            JavaVersion::Legacy { major, patch, build } => {
                push_decimal(&mut out, major as u64);
                out.push('u');
                push_decimal(&mut out, patch as u64);
                out.push('-');
                out.push('b');
                if build < 10 {
                    out.push('0');
                }
                push_decimal(&mut out, build as u64);
            },
        }
        assert(out@ =~= java_text(*self));
        string_from_chars(out.as_slice())
    }
}

impl core::str::FromStr for JavaVersion {
    type Err = ParseJavaVersionError;

    fn from_str(value: &str) -> (res: Result<Self, Self::Err>)
        ensures
            match res {
                Ok(v) => spec_parse_java(value@) == Some(v),
                Err(e) => spec_parse_java(value@) is None && e.0@ == value@,
            },
    {
        JavaVersion::parse(value)
    }
}

pub proof fn lemma_version_text_chars(v: Version)
    ensures
        forall|j: int|
            0 <= j < version_text(v).len() ==> is_digit(#[trigger] version_text(v)[j])
                || version_text(v)[j] == '.',
{
    let a = decimal(v.major as nat);
    let b = decimal(v.minor as nat);
    let c = decimal(v.patch as nat);
    lemma_decimal(v.major as nat);
    lemma_decimal(v.minor as nat);
    lemma_decimal(v.patch as nat);
    let t = version_text(v);
    assert forall|j: int| 0 <= j < t.len() implies is_digit(#[trigger] t[j]) || t[j] == '.' by {
        if j < a.len() {
            assert(t[j] == a[j]);
        } else if j == a.len() {
        } else if j < a.len() + 1 + b.len() {
            assert(t[j] == b[j - a.len() - 1]);
        } else if j == a.len() + 1 + b.len() {
        } else {
            assert(t[j] == c[j - a.len() - 2 - b.len()]);
        }
    }
}

proof fn lemma_parse_pad2(n: nat)
    requires
        n <= 0xffff,
    ensures
        parse_u16(decimal_pad2(n)) == Some(n as u16),
        forall|j: int| 0 <= j < decimal_pad2(n).len() ==> is_digit(#[trigger] decimal_pad2(n)[j]),
{
    lemma_decimal(n);
    lemma_parse_decimal(n, 0xffff);
    if n < 10 {
        let p = decimal_pad2(n);
        assert(p =~= seq!['0', digit_char(n)]);
        assert(p.drop_last() =~= seq!['0']);
        assert(seq!['0'].drop_last() =~= Seq::<char>::empty());
        assert(digits_value(Seq::<char>::empty()) == 0);
        assert(digits_value(seq!['0']) == 0);
        assert(digit_value(digit_char(n)) == n);
        assert(decimal(n) =~= seq![digit_char(n)]);
        assert(all_digits(p));
    }
}

/// The characters a written release uses: digits, `.`, `_`, `u`, `-` and `b`.
pub open spec fn release_char(c: char) -> bool {
    is_digit(c) || c == '.' || c == '_' || c == 'u' || c == '-' || c == 'b'
}

/// A written release uses only release characters.
pub proof fn lemma_java_text_chars(v: JavaVersion)
    ensures
        forall|j: int| 0 <= j < java_text(v).len() ==> release_char(#[trigger] java_text(v)[j]),
{
    let t = java_text(v);
    match v {
        JavaVersion::Modern { major, minor, patch, build } => {
            let head = version_text(Version { major, minor, patch });
            let b = decimal(build as nat);
            lemma_version_text_chars(Version { major, minor, patch });
            lemma_decimal(build as nat);
            assert forall|j: int| 0 <= j < t.len() implies release_char(#[trigger] t[j]) by {
                if j < head.len() {
                    assert(t[j] == head[j]);
                } else if j > head.len() {
                    assert(t[j] == b[j - head.len() - 1]);
                }
            }
        },
        JavaVersion::Legacy { major, patch, build } => {
            let a = decimal(major as nat);
            let p = decimal(patch as nat);
            let b = decimal_pad2(build as nat);
            lemma_decimal(major as nat);
            lemma_decimal(patch as nat);
            lemma_parse_pad2(build as nat);
            assert forall|j: int| 0 <= j < t.len() implies release_char(#[trigger] t[j]) by {
                if j < a.len() {
                    assert(t[j] == a[j]);
                } else if j == a.len() {
                } else if j < a.len() + 1 + p.len() {
                    assert(t[j] == p[j - a.len() - 1]);
                } else if j < a.len() + 3 + p.len() {
                } else {
                    assert(t[j] == b[j - a.len() - 3 - p.len()]);
                }
            }
        },
    }
}

/// Writing a release out and parsing it gives the same release back, for every release
/// whose shape fits its feature version.
pub proof fn lemma_java_round_trip(v: JavaVersion)
    requires
        java_writable(v),
    ensures
        spec_parse_java(java_text(v)) == Some(v),
{
    match v {
        JavaVersion::Modern { major, minor, patch, build } => {
            let head = Version { major, minor, patch };
            lemma_version_text_chars(head);
            lemma_version_round_trip(head);
            lemma_decimal(build as nat);
            lemma_parse_decimal(build as nat, 0xffff);
            assert forall|j: int| 0 <= j < version_text(head).len() implies version_text(
                head,
            )[j] != '_' by {
                assert(is_digit(version_text(head)[j]) || version_text(head)[j] == '.');
            }
            lemma_split_after(version_text(head), '_', decimal(build as nat));
        },
        JavaVersion::Legacy { major, patch, build } => {
            let a = decimal(major as nat);
            let p = decimal(patch as nat);
            let b = decimal_pad2(build as nat);
            lemma_decimal(major as nat);
            lemma_decimal(patch as nat);
            lemma_parse_decimal(major as nat, 0xffff);
            lemma_parse_decimal(patch as nat, 0xffff);
            lemma_parse_pad2(build as nat);
            let t = java_text(v);
            let rest = p + seq!['-', 'b'] + b;
            assert(t =~= a + seq!['u'] + rest);
            assert forall|j: int| 0 <= j < t.len() implies t[j] != '_' by {
                if j < a.len() {
                    assert(t[j] == a[j]);
                    assert(is_digit(a[j]));
                } else if j == a.len() {
                } else if j < a.len() + 1 + p.len() {
                    assert(t[j] == p[j - a.len() - 1]);
                    assert(is_digit(p[j - a.len() - 1]));
                } else if j < a.len() + 3 + p.len() {
                } else {
                    assert(t[j] == b[j - a.len() - 3 - p.len()]);
                    assert(is_digit(b[j - a.len() - 3 - p.len()]));
                }
            }
            lemma_no_first(t, '_');
            assert forall|j: int| 0 <= j < a.len() implies a[j] != 'u' by {
                assert(is_digit(a[j]));
            }
            lemma_split_after(a, 'u', rest);
            let k = p.len() as int;
            assert(pair_at(rest, '-', 'b', k));
            assert forall|j: int| 0 <= j < k implies !#[trigger] pair_at(rest, '-', 'b', j) by {
                assert(rest[j] == p[j]);
                assert(is_digit(p[j]));
            }
            assert(is_first_pair_at(rest, '-', 'b', k));
            let i = choose|i: int| is_first_pair_at(rest, '-', 'b', i);
            lemma_first_pair_unique(rest, '-', 'b', i, k);
            assert(rest.take(k) =~= p);
            assert(rest.skip(k + 2) =~= b);
        },
    }
}

/// Every tracked release of one Java feature version.
#[derive(Debug, Clone)]
pub struct JavaMajor {
    /// The feature release number, for example `21`.
    pub major: u16,
    /// Releases within that feature version, newest first.
    pub versions: Vec<JavaVersion>,
}

/// The `java` catalog document.
#[derive(Debug, Clone)]
pub struct JavaCatalog {
    /// Schema version of this document.
    pub schema: u32,
    /// When this document was built from upstream.
    pub updated_at: Timestamp,
    /// Feature versions, newest first.
    pub majors: Vec<JavaMajor>,
}

impl JavaCatalog {
    /// Looks up one feature version: the first entry for `major`, if any.
    pub fn major(&self, major: u16) -> (res: Option<&JavaMajor>)
        ensures
            match res {
                Some(m) => exists|i: int|
                    0 <= i < self.majors@.len() && self.majors@[i] == *m && m.major == major
                        && forall|j: int| 0 <= j < i ==> self.majors@[j].major != major,
                None => forall|j: int|
                    0 <= j < self.majors@.len() ==> self.majors@[j].major != major,
            },
    {
        let mut i: usize = 0;
        while i < self.majors.len()
            invariant
                i <= self.majors@.len(),
                forall|j: int| 0 <= j < i ==> self.majors@[j].major != major,
            decreases self.majors@.len() - i,
        {
            if self.majors[i].major == major {
                return Some(&self.majors[i]);
            }
            i = i + 1;
        }
        None
    }
}

} // verus!
