//! SHA-256 digests: the etag of a document and the comparison of bearer tokens.

use crate::text::{push_all, string_from_chars};
use vstd::prelude::*;

verus! {

/// The SHA-256 digest of `data`, as the `sha2` crate computes it.
pub uninterp spec fn sha256(data: Seq<u8>) -> Seq<u8>;

/// `sha2::Sha256::digest`: the digest of `data`, which the crate documents as 32 bytes
/// long. What the digest is beyond that is only named.
#[verifier::external_body]
fn sha256_digest(data: &[u8]) -> (d: Vec<u8>)
    ensures
        d@ == sha256(data@),
        d@.len() == 32,
{
    <sha2::Sha256 as sha2::Digest>::digest(data).to_vec()
}

/// The lower-case hexadecimal digit for `n < 16`.
pub open spec fn hex_digit(n: u8) -> char {
    if n < 10 {
        ((n + 48) as u8) as char
    } else {
        ((n + 87) as u8) as char
    }
}

/// Bytes written as lower-case hexadecimal, two digits per byte.
pub open spec fn hex_lower(bytes: Seq<u8>) -> Seq<char>
    decreases bytes.len(),
{
    if bytes.len() == 0 {
        Seq::empty()
    } else {
        hex_lower(bytes.drop_last()) + seq![
            hex_digit(bytes.last() / 16),
            hex_digit(bytes.last() % 16),
        ]
    }
}

/// Hexadecimal takes two characters per byte.
pub proof fn lemma_hex_lower_len(bytes: Seq<u8>)
    ensures
        hex_lower(bytes).len() == 2 * bytes.len(),
    decreases bytes.len(),
{
    if bytes.len() > 0 {
        lemma_hex_lower_len(bytes.drop_last());
    }
}

fn hex_char(n: u8) -> (c: char)
    requires
        n < 16,
    ensures
        c == hex_digit(n),
{
    match n {
        0 => '0',
        1 => '1',
        2 => '2',
        3 => '3',
        4 => '4',
        5 => '5',
        6 => '6',
        7 => '7',
        8 => '8',
        9 => '9',
        10 => 'a',
        11 => 'b',
        12 => 'c',
        13 => 'd',
        14 => 'e',
        _ => 'f',
    }
}

/// The etag of a document whose JSON encoding is `encoded`: the SHA-256 digest of the
/// encoding in lower-case hexadecimal, in double quotes.
pub open spec fn spec_etag(encoded: Seq<u8>) -> Seq<char> {
    seq!['"'] + hex_lower(sha256(encoded)) + seq!['"']
}

/// The etag of a document whose JSON encoding is `encoded`.
pub fn etag_of(encoded: &[u8]) -> (etag: String)
    ensures
        etag@ == spec_etag(encoded@),
        etag@.len() == 66,
{
    let digest = sha256_digest(encoded);
    let mut out: Vec<char> = Vec::new();
    out.push('"');
    let mut i: usize = 0;
    while i < digest.len()
        invariant
            i <= digest@.len(),
            out@ == seq!['"'] + hex_lower(digest@.take(i as int)),
        decreases digest@.len() - i,
    {
        let b = digest[i];
        out.push(hex_char(b / 16));
        out.push(hex_char(b % 16));
        i = i + 1;
        assert(digest@.take(i as int).drop_last() =~= digest@.take(i - 1));
        assert(out@ =~= seq!['"'] + hex_lower(digest@.take(i as int)));
    }
    out.push('"');
    assert(digest@.take(digest@.len() as int) =~= digest@);
    assert(out@ =~= spec_etag(encoded@));
    proof {
        lemma_hex_lower_len(digest@);
    }
    string_from_chars(out.as_slice())
}

/// Whether `a` and `b` hold the same SHA-256 digest.
pub fn same_digest(a: &[u8], b: &[u8]) -> (res: bool)
    ensures
        res == (sha256(a@) == sha256(b@)),
{
    let x = sha256_digest(a);
    let y = sha256_digest(b);
    let mut i: usize = 0;
    while i < 32
        invariant
            i <= 32,
            x@ == sha256(a@),
            y@ == sha256(b@),
            x@.len() == 32,
            y@.len() == 32,
            forall|j: int| 0 <= j < i ==> x@[j] == y@[j],
        decreases 32 - i,
    {
        if x[i] != y[i] {
            assert(x@[i as int] != y@[i as int]);
            assert(x@ != y@);
            return false;
        }
        i = i + 1;
    }
    assert(x@ =~= y@);
    true
}

} // verus!
