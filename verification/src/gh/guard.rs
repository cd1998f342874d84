//! Guards of a route: the path must be safe to use as a file path, and the
//! request must carry the configured token.

use vstd::prelude::*;
use crate::error::STATUS_NOT_FOUND;

verus! {

/// Why a segment of a request path is not safe to use in a file path: the
/// character it must not start with, hold or end with.
#[derive(Debug, Clone, Copy, PartialEq, Eq, Structural)]
pub enum SegmentError {
    BadStart(char),
    BadChar(char),
    BadEnd(char),
}

/// The path of a request, made of segments that passed the guard.
#[derive(Debug, Clone)]
pub struct PathGuard(pub String);

/// Why a path did not pass the guard.
#[derive(Debug, Clone, Copy, PartialEq, Eq, Structural)]
pub enum PathError {
    /// The path has no segment.
    BadLen,
    /// A segment is not safe to use in a file path.
    Other(SegmentError),
}

impl PathGuard {
    /// Decides on a path from the number of its segments and from what
    /// turning them into a file path came to. A path without segments is
    /// refused whatever else is known of it; otherwise the path passes
    /// where its segments gave a file path, and fails with the error they
    /// gave.
    pub fn from_segments(
        len: usize,
        path: Result<String, SegmentError>,
    ) -> (guard: Result<PathGuard, PathError>)
        ensures
            len == 0 ==> guard == Err::<PathGuard, PathError>(PathError::BadLen),
            len > 0 ==> match path {
                Ok(p) => guard == Ok::<PathGuard, PathError>(PathGuard(p)),
                Err(e) => guard == Err::<PathGuard, PathError>(PathError::Other(e)),
            },
    {
        if len == 0 {
            return Err(PathError::BadLen);
        }
        match path {
            Ok(p) => Ok(PathGuard(p)),
            Err(e) => Err(PathError::Other(e)),
        }
    }
}

/// Proof that a request passed the token guard.
#[derive(Debug, Clone, Copy, PartialEq, Eq, Structural)]
pub struct TokenGuard;

/// Why a request did not pass the token guard.
#[derive(Debug, Clone, Copy, PartialEq, Eq, Structural)]
pub enum TokenError {
    /// The request has no `token` parameter.
    Missing,
    /// The `token` parameter could not be read or is not the configured
    /// token.
    Invalid,
}

/// What the token guard decides for a request, given the configured token
/// and the `token` parameter of the query: `None` where the query has none,
/// an error text where it could not be read.
pub open spec fn token_outcome(
    configured: Option<Seq<char>>,
    query_token: Option<Result<Seq<char>, Seq<char>>>,
) -> Result<TokenGuard, (u16, TokenError)> {
    match configured {
        None => Ok(TokenGuard),
        Some(token) => match query_token {
            Some(Ok(given)) => if given == token {
                Ok(TokenGuard)
            } else {
                Err((STATUS_NOT_FOUND, TokenError::Invalid))
            },
            Some(Err(_)) => Err((STATUS_NOT_FOUND, TokenError::Invalid)),
            None => Err((STATUS_NOT_FOUND, TokenError::Missing)),
        },
    }
}

impl TokenGuard {
    /// Guards a request by the configured token. Without a configured
    /// token every request passes. With one, the request passes where its
    /// `token` parameter is that token; every other request is answered as
    /// if the resource did not exist.
    pub fn from_request(
        configured: Option<&String>,
        query_token: Option<Result<String, String>>,
    ) -> (outcome: Result<TokenGuard, (u16, TokenError)>)
        ensures
            outcome == token_outcome(
                match configured {
                    Some(t) => Some(t@),
                    None => None,
                },
                match query_token {
                    Some(Ok(t)) => Some(Ok(t@)),
                    Some(Err(e)) => Some(Err(e@)),
                    None => None,
                },
            ),
    {
        let token = match configured {
            Some(t) => t,
            None => {
                return Ok(TokenGuard);
            },
        };
        match query_token {
            Some(Ok(given)) => {
                if given == *token {
                    Ok(TokenGuard)
                } else {
                    Err((STATUS_NOT_FOUND, TokenError::Invalid))
                }
            },
            Some(Err(_)) => Err((STATUS_NOT_FOUND, TokenError::Invalid)),
            None => Err((STATUS_NOT_FOUND, TokenError::Missing)),
        }
    }
}

} // verus!
