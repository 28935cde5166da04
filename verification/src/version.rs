//! `major.minor.patch` release identifiers of the language runtimes.

use crate::text::{
    chars_of, contains_char, decimal, find_char, first_index, lemma_decimal, lemma_no_separator_in_digits,
    lemma_parse_decimal, lemma_split_after_digits, parse_uint, push_decimal, spec_parse_uint,
    split_once, string_from_chars,
};
use vstd::prelude::*;

verus! {

/// A `major.minor.patch` release identifier.
#[derive(Debug, Clone, Copy, PartialEq, Eq, Ord, Hash, Structural)]
pub struct Version {
    pub major: u16,
    pub minor: u16,
    pub patch: u16,
}

/// Returned when a string is not a `major.minor.patch` identifier; holds that string.
#[derive(Debug, Clone, PartialEq, Eq)]
pub struct ParseVersionError(pub String);

/// How a version is written: `major.minor.patch`, each in decimal.
pub open spec fn version_text(v: Version) -> Seq<char> {
    decimal(v.major as nat) + seq!['.'] + decimal(v.minor as nat) + seq!['.'] + decimal(
        v.patch as nat,
    )
}

/// `str::parse::<u16>`.
pub open spec fn parse_u16(s: Seq<char>) -> Option<u16> {
    match spec_parse_uint(s, 0xffff) {
        Some(n) => Some(n as u16),
        None => None,
    }
}

/// The version a string denotes: exactly three `.`-separated fields, each a `u16`.
pub open spec fn spec_parse_version(s: Seq<char>) -> Option<Version> {
    match split_once(s, '.') {
        Some((a, rest)) => match split_once(rest, '.') {
            Some((b, c)) => {
                if first_index(c, '.') is Some {
                    None
                } else {
                    match (parse_u16(a), parse_u16(b), parse_u16(c)) {
                        (Some(major), Some(minor), Some(patch)) => Some(
                            Version { major, minor, patch },
                        ),
                        _ => None,
                    }
                }
            },
            None => None,
        },
        None => None,
    }
}

/// `a` is an older release than `b`: compared by major, then minor, then patch.
pub open spec fn version_lt(a: Version, b: Version) -> bool {
    ||| a.major < b.major
    ||| a.major == b.major && a.minor < b.minor
    ||| a.major == b.major && a.minor == b.minor && a.patch < b.patch
}

/// Splitting `s[lo..hi]` at a found separator gives the two subranges around it.
pub proof fn lemma_split_range(s: Seq<char>, lo: int, k: int, hi: int, c: char)
    requires
        0 <= lo <= k < hi <= s.len(),
        first_index(s.subrange(lo, hi), c) == Some(k - lo),
    ensures
        split_once(s.subrange(lo, hi), c) == Some((s.subrange(lo, k), s.subrange(k + 1, hi))),
{
    assert(s.subrange(lo, hi).take(k - lo) =~= s.subrange(lo, k));
    assert(s.subrange(lo, hi).skip(k - lo + 1) =~= s.subrange(k + 1, hi));
}

/// `str::parse::<u16>` on `s[lo..hi]`.
pub fn parse_u16_range(s: &[char], lo: usize, hi: usize) -> (res: Option<u16>)
    requires
        lo <= hi <= s@.len(),
    ensures
        res == parse_u16(s@.subrange(lo as int, hi as int)),
{
    match parse_uint(s, lo, hi, 0xffff) {
        Some(n) => Some(n as u16),
        None => None,
    }
}

/// The version that `s[lo..hi]` denotes.
pub fn parse_version_range(s: &[char], lo: usize, hi: usize) -> (res: Option<Version>)
    requires
        lo <= hi <= s@.len(),
    ensures
        res == spec_parse_version(s@.subrange(lo as int, hi as int)),
{
    let ghost sub = s@.subrange(lo as int, hi as int);
    let first = match find_char(s, lo, hi, '.') {
        Some(k) => k,
        None => return None,
    };
    proof {
        lemma_split_range(s@, lo as int, first as int, hi as int, '.');
    }
    let second = match find_char(s, first + 1, hi, '.') {
        Some(k) => k,
        None => return None,
    };
    proof {
        lemma_split_range(s@, first + 1, second as int, hi as int, '.');
    }
    if contains_char(s, second + 1, hi, '.') {
        return None;
    }
    let major = parse_u16_range(s, lo, first);
    let minor = parse_u16_range(s, first + 1, second);
    let patch = parse_u16_range(s, second + 1, hi);
    match (major, minor, patch) {
        (Some(major), Some(minor), Some(patch)) => Some(Version { major, minor, patch }),
        _ => None,
    }
}

impl Version {
    /// The version `major.minor.patch`.
    pub fn new(major: u16, minor: u16, patch: u16) -> (v: Self)
        ensures
            v == (Version { major, minor, patch }),
    {
        Version { major, minor, patch }
    }

    /// Parses a `major.minor.patch` identifier; on failure the error holds the input.
    pub fn parse(value: &str) -> (res: Result<Version, ParseVersionError>)
        ensures
            match res {
                Ok(v) => spec_parse_version(value@) == Some(v),
                Err(e) => spec_parse_version(value@) is None && e.0@ == value@,
            },
    {
        let chars = chars_of(value);
        assert(chars@.subrange(0, chars@.len() as int) =~= chars@);
        match parse_version_range(chars.as_slice(), 0, chars.len()) {
            Some(v) => Ok(v),
            None => Err(ParseVersionError(value.to_owned())),
        }
    }

    /// The identifier as written: `major.minor.patch`.
    pub fn to_string(&self) -> (s: String)
        ensures
            s@ == version_text(*self),
    {
        let mut out: Vec<char> = Vec::new();
        push_decimal(&mut out, self.major as u64);
        out.push('.');
        push_decimal(&mut out, self.minor as u64);
        out.push('.');
        push_decimal(&mut out, self.patch as u64);
        assert(out@ =~= version_text(*self));
        string_from_chars(out.as_slice())
    }
}

impl core::str::FromStr for Version {
    type Err = ParseVersionError;

    fn from_str(value: &str) -> (res: Result<Self, Self::Err>)
        ensures
            match res {
                Ok(v) => spec_parse_version(value@) == Some(v),
                Err(e) => spec_parse_version(value@) is None && e.0@ == value@,
            },
    {
        Version::parse(value)
    }
}

/// Writing a version out and parsing it gives the same version back.
pub proof fn lemma_version_round_trip(v: Version)
    ensures
        spec_parse_version(version_text(v)) == Some(v),
{
    let a = decimal(v.major as nat);
    let b = decimal(v.minor as nat);
    let c = decimal(v.patch as nat);
    lemma_decimal(v.major as nat);
    lemma_decimal(v.minor as nat);
    lemma_decimal(v.patch as nat);
    let rest = b + seq!['.'] + c;
    assert(version_text(v) =~= a + seq!['.'] + rest);
    lemma_split_after_digits(a, '.', rest);
    lemma_split_after_digits(b, '.', c);
    lemma_no_separator_in_digits(c, '.');
    lemma_parse_decimal(v.major as nat, 0xffff);
    lemma_parse_decimal(v.minor as nat, 0xffff);
    lemma_parse_decimal(v.patch as nat, 0xffff);
}

} // verus!
