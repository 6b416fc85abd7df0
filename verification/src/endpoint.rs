//! Endpoint resolution: maps a classified query to the fully-qualified
//! request URL, by pure string formatting over fixed per-kind templates.

use vstd::prelude::*;
use vstd::string::StringExecFns;
use crate::classify::{Identifier, Kind};

verus! {

/// The fixed URL template each identifier kind resolves through.
pub open spec fn url_prefix(k: Kind) -> Seq<char> {
    match k {
        Kind::Domain => "https://rdap.verisign.com/com/v1/domain/"@,
        Kind::Ip => "https://rdap.apnic.net/ip/"@,
        Kind::Asn => "https://rdap.arin.net/registry/autnum/"@,
    }
}

/// The endpoint URL for a classified query: the kind's template with the
/// normalized form substituted at the end.
pub open spec fn endpoint_url(k: Kind, normalized: Seq<char>) -> Seq<char> {
    url_prefix(k) + normalized
}

/// Formats the request URL for a classified query.
pub fn classify_to_url(kind: Kind, normalized: &str) -> (r: String)
    ensures
        r@ == endpoint_url(kind, normalized@),
{
    let mut u: String = match kind {
        Kind::Domain => String::from_str("https://rdap.verisign.com/com/v1/domain/"),
        Kind::Ip => String::from_str("https://rdap.apnic.net/ip/"),
        Kind::Asn => String::from_str("https://rdap.arin.net/registry/autnum/"),
    };
    u.append(normalized);
    u
}

/// Resolves an identifier to its endpoint URL. The URL doubles as the
/// cache lookup key, so identifiers with equal kind and normalized form
/// are indistinguishable to the cache.
pub fn resolve(id: &Identifier) -> (r: String)
    ensures
        r@ == endpoint_url(id.kind, id.normalized@),
{
    classify_to_url(id.kind, id.normalized.as_str())
}

} // verus!
