//! Why a catalog could not be rebuilt.

use crate::text::{chars_of, decimal, push_all, push_decimal, string_from_chars};
use crate::time::Span;
use vstd::prelude::*;

verus! {

/// `reqwest::Error`, carried through as the cause of a failed request.
#[verifier::external_type_specification]
#[verifier::external_body]
pub struct ExRequestError(reqwest::Error);

/// Why an upstream's answer could not be turned into a catalog.
#[derive(Debug)]
pub enum ResolveError {
    /// The request itself failed.
    Upstream { upstream: &'static str, source: reqwest::Error },
    /// The upstream asked to be left alone for a while.
    RateLimited { upstream: &'static str, retry_after: Span },
    /// The answer could not be read.
    Malformed { upstream: &'static str, detail: String },
    /// The answer held nothing usable.
    Empty { upstream: &'static str },
}

impl ResolveError {
    /// How long the upstream asked to wait, when it rate limited the request.
    pub fn retry_after(&self) -> (res: Option<Span>)
        ensures
            match *self {
                ResolveError::RateLimited { retry_after, .. } => res == Some(retry_after),
                _ => res is None,
            },
    {
        match self {
            ResolveError::RateLimited { retry_after, .. } => Some(*retry_after),
            _ => None,
        }
    }
}

/// `<reqwest::Error as Display>::fmt`: the text reqwest gives a failed request. What it
/// says is not stated.
#[verifier::external_body]
fn request_error_text(source: &reqwest::Error) -> String {
    source.to_string()
}

impl ResolveError {
    /// What a failed refresh records: which upstream failed, and how.
    pub fn message(&self) -> (s: String)
        ensures
            match *self {
                ResolveError::Upstream { upstream, .. } => exists|t: Seq<char>|
                    s@ == upstream@ + " request failed: "@ + t,
                ResolveError::RateLimited { upstream, retry_after } => s@ == upstream@
                    + " rate limited the request; retry after "@ + decimal(retry_after.secs as nat) + "s"@,
                ResolveError::Malformed { upstream, detail } => s@ == upstream@
                    + " returned a response we could not parse: "@ + detail@,
                ResolveError::Empty { upstream } => s@ == upstream@ + " returned no usable entries"@,
            },
    {
        let mut out: Vec<char> = Vec::new();
        match self {
            ResolveError::Upstream { upstream, source } => {
                push_all(&mut out, chars_of(upstream).as_slice());
                push_all(&mut out, chars_of(" request failed: ").as_slice());
                let text = request_error_text(source);
                push_all(&mut out, chars_of(text.as_str()).as_slice());
                assert(out@ =~= upstream@ + " request failed: "@ + text@);
            },
            ResolveError::RateLimited { upstream, retry_after } => {
                push_all(&mut out, chars_of(upstream).as_slice());
                push_all(&mut out, chars_of(" rate limited the request; retry after ").as_slice());
                let secs = retry_after.secs;
                push_decimal(&mut out, secs);
                out.push('s');
                proof {
                    reveal_strlit("s");
                }
                assert(out@ =~= upstream@ + " rate limited the request; retry after "@ + decimal(secs as nat) + "s"@);
            },
            ResolveError::Malformed { upstream, detail } => {
                push_all(&mut out, chars_of(upstream).as_slice());
                push_all(&mut out, chars_of(" returned a response we could not parse: ").as_slice());
                push_all(&mut out, chars_of(detail.as_str()).as_slice());
                assert(out@ =~= upstream@ + " returned a response we could not parse: "@ + detail@);
            },
            ResolveError::Empty { upstream } => {
                push_all(&mut out, chars_of(upstream).as_slice());
                push_all(&mut out, chars_of(" returned no usable entries").as_slice());
                assert(out@ =~= upstream@ + " returned no usable entries"@);
            },
        }
        string_from_chars(out.as_slice())
    }
}

} // verus!
