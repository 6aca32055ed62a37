//! What the HTTP interface decides: who may call it, how batch revisions
//! become entity tags, and which status a submission gets.

use vstd::prelude::*;

use crate::error::ServiceError;
use crate::text::{nat_decimal, text_equals, u64_decimal};

verus! {

/// Largest request body accepted, in bytes.
pub const REQUEST_BODY_LIMIT: usize = 8388608;

/// A caller is let in when no token is configured, or when its
/// authorization header is `Bearer ` followed by the token.
pub open spec fn authorized(expected: Option<String>, authorization: Option<Seq<char>>) -> bool {
    match expected {
        None => true,
        Some(token) => authorization == Some("Bearer "@ + token@),
    }
}

pub fn authorize(expected: &Option<String>, authorization: Option<&str>) -> (r: Result<(), ServiceError>)
    ensures
        r is Ok <==> authorized(
            *expected,
            match authorization {
                Some(h) => Some(h@),
                None => None,
            },
        ),
        r matches Err(e) ==> e is Unauthorized,
{
    match expected {
        None => Ok(()),
        Some(token) => {
            let mut wanted = String::from_str("Bearer ");
            wanted.append(token.as_str());
            match authorization {
                Some(header) => if text_equals(header, wanted.as_str()) {
                    Ok(())
                } else {
                    Err(ServiceError::Unauthorized)
                },
                None => Err(ServiceError::Unauthorized),
            }
        },
    }
}

/// The entity tag of a batch revision: the revision in double quotes.
pub open spec fn etag_text(revision: u64) -> Seq<char> {
    "\""@ + nat_decimal(revision as nat) + "\""@
}

pub fn etag(revision: u64) -> (r: String)
    ensures
        r@ == etag_text(revision),
{
    let mut r = String::from_str("\"");
    let digits = u64_decimal(revision);
    r.append(digits.as_str());
    r.append("\"");
    r
}

/// Whether a conditional request already holds the current revision.
pub fn not_modified(if_none_match: Option<&str>, revision: u64) -> (r: bool)
    ensures
        r == (if_none_match matches Some(h) && h@ == etag_text(revision)),
{
    match if_none_match {
        Some(header) => {
            let tag = etag(revision);
            text_equals(header, tag.as_str())
        },
        None => false,
    }
}

/// A submission answered from the cache is done (200); others are
/// accepted for later (202).
pub fn submission_status(fully_cached: bool) -> (r: u16)
    ensures
        r == (if fully_cached {
            200u16
        } else {
            202u16
        }),
{
    if fully_cached {
        200
    } else {
        202
    }
}

} // verus!
