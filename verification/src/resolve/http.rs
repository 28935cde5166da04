//! Reading what an upstream's HTTP answer says about itself.

use crate::text::{chars_of, parse_uint, spec_parse_uint};
use crate::time::{span_nanos, span_wf, Span};
use vstd::prelude::*;

verus! {

/// How long to wait after a rate-limited answer without a readable `Retry-After`.
pub const DEFAULT_RETRY_AFTER: u64 = 60;

/// How many bytes of an unreadable answer an error message quotes.
pub const PREVIEW_LIMIT: usize = 256;

/// The seconds a `Retry-After` header asks for: its value read as a `u64`, or 60 when it
/// is missing or not a number.
pub fn retry_after_secs(value: Option<&str>) -> (secs: u64)
    ensures
        secs == match value {
            Some(v) => match spec_parse_uint(v@, u64::MAX as nat) {
                Some(n) => n as u64,
                None => DEFAULT_RETRY_AFTER,
            },
            None => DEFAULT_RETRY_AFTER,
        },
{
    match value {
        Some(v) => {
            let chars = chars_of(v);
            assert(chars@.subrange(0, chars@.len() as int) =~= v@);
            match parse_uint(chars.as_slice(), 0, chars.len(), u64::MAX) {
                Some(n) => n,
                None => DEFAULT_RETRY_AFTER,
            }
        },
        None => DEFAULT_RETRY_AFTER,
    }
}

/// What `String::from_utf8_lossy` makes of `bytes`.
pub uninterp spec fn utf8_lossy(bytes: Seq<u8>) -> Seq<char>;

/// `String::from_utf8_lossy`: the text of `bytes`, with each invalid sequence replaced;
/// valid UTF-8 comes back as the text it encodes, as the documentation says.
#[verifier::external_body]
fn decode_lossy(bytes: &[u8]) -> (s: String)
    ensures
        s@ == utf8_lossy(bytes@),
        vstd::utf8::valid_utf8(bytes@) ==> s@ == vstd::utf8::decode_utf8(bytes@),
{
    String::from_utf8_lossy(bytes).into_owned()
}

/// The opening of an answer that could not be read, for an error message: the first 256
/// bytes as text, followed by `...` when the answer is at least that long; otherwise the
/// whole answer as text.
pub open spec fn spec_preview(body: Seq<u8>) -> Seq<char> {
    if body.len() >= PREVIEW_LIMIT {
        utf8_lossy(body.take(PREVIEW_LIMIT as int)) + "..."@
    } else {
        utf8_lossy(body)
    }
}

/// The opening of an answer that could not be read, for an error message.
pub fn preview(body: &[u8]) -> (s: String)
    ensures
        s@ == spec_preview(body@),
{
    if body.len() >= PREVIEW_LIMIT {
        let mut head: Vec<u8> = Vec::new();
        let mut i: usize = 0;
        while i < PREVIEW_LIMIT
            invariant
                i <= PREVIEW_LIMIT <= body@.len(),
                head@ == body@.take(i as int),
            decreases PREVIEW_LIMIT - i,
        {
            head.push(body[i]);
            i = i + 1;
            assert(head@ =~= body@.take(i as int));
        }
        let mut text = decode_lossy(head.as_slice());
        text.append("...");
        text
    } else {
        decode_lossy(body)
    }
}

/// How long a Docker Hub read must wait: what remains of the minimum interval since the
/// previous read, or nothing when there was none or it was long enough ago.
pub fn docker_wait(min_interval: Span, since_last: Option<Span>) -> (wait: Span)
    requires
        span_wf(min_interval),
        since_last matches Some(e) ==> span_wf(e),
    ensures
        span_wf(wait),
        span_nanos(wait) == match since_last {
            Some(e) => if span_nanos(e) < span_nanos(min_interval) {
                span_nanos(min_interval) - span_nanos(e)
            } else {
                0
            },
            None => 0,
        },
{
    match since_last {
        Some(e) => min_interval.saturating_sub(e),
        None => Span::zero(),
    }
}

} // verus!
