//! The shared-secret check on the query of a request.

use vstd::prelude::*;
use crate::error::STATUS_NOT_FOUND;
use crate::util::same_text;

verus! {

/// The name and value pairs that the query string `query` holds, in the
/// order in which it holds them; `None` where the query cannot be read.
pub uninterp spec fn query_pairs(query: Seq<char>) -> Option<Seq<(Seq<char>, Seq<char>)>>;

/// Reads the name and value pairs of a query string.
///
/// Calls `serde_urlencoded::from_str` for a vector of pairs of strings. The
/// result is what that call gives for `query`, named `query_pairs(query)`;
/// an error of the call gives `None`.
#[verifier::external_body]
pub(crate) fn parse_query(query: &str) -> (pairs: Option<Vec<(String, String)>>)
    ensures
        pairs.deep_view() == query_pairs(query@),
{
    match serde_urlencoded::from_str::<Vec<(String, String)>>(query) {
        Ok(pairs) => Some(pairs),
        Err(_) => None,
    }
}

/// The name of the query parameter that carries the token.
pub open spec fn token_name() -> Seq<char> {
    "token"@
}

/// The values of the parameters named `token` among `pairs`, in order.
pub open spec fn token_values(pairs: Seq<(Seq<char>, Seq<char>)>) -> Seq<Seq<char>> {
    pairs.filter_map(
        |pair: (Seq<char>, Seq<char>)|
            if pair.0 == token_name() {
                Some(pair.1)
            } else {
                None
            },
    )
}

/// The token that `pairs` carries: the value of the parameter named
/// `token`, where there is exactly one such parameter.
pub open spec fn sole_token(pairs: Seq<(Seq<char>, Seq<char>)>) -> Option<Seq<char>> {
    if token_values(pairs).len() == 1 {
        Some(token_values(pairs)[0])
    } else {
        None
    }
}

/// Whether a request with the query `query` carries the token `token`: the
/// query is there, can be read, and holds exactly one parameter named
/// `token`, whose value is `token`.
pub open spec fn carries_token(query: Option<Seq<char>>, token: Seq<char>) -> bool {
    match query {
        Some(q) => match query_pairs(q) {
            Some(pairs) => sole_token(pairs) == Some(token),
            None => false,
        },
        None => false,
    }
}

/// The token that `pairs` carries, if they carry exactly one.
pub fn find_token(pairs: &Vec<(String, String)>) -> (token: Option<String>)
    ensures
        token.deep_view() == sole_token(pairs.deep_view()),
{
    let ghost all = pairs.deep_view();
    let mut found: Option<usize> = None;
    let mut count: usize = 0;
    let mut i: usize = 0;
    assert(all.take(0) =~= Seq::<(Seq<char>, Seq<char>)>::empty());
    while i < pairs.len()
        invariant
            i <= pairs.len(),
            all == pairs.deep_view(),
            count == token_values(all.take(i as int)).len(),
            count <= i,
            count > 0 ==> found is Some,
            found matches Some(at) ==> at < i && count > 0 && all[at as int].1 == token_values(
                all.take(i as int),
            )[0],
        decreases pairs.len() - i,
    {
        proof {
            all.lemma_filter_map_take_succ(
                |pair: (Seq<char>, Seq<char>)|
                    if pair.0 == token_name() {
                        Some(pair.1)
                    } else {
                        None
                    },
                i as int,
            );
            assert(all[i as int] == (pairs[i as int].0@, pairs[i as int].1@));
        }
        if same_text(pairs[i].0.as_str(), "token") {
            if count == 0 {
                found = Some(i);
            }
            count += 1;
        }
        i += 1;
    }
    assert(all.take(i as int) =~= all);
    match found {
        Some(at) => if count == 1 {
            let token = pairs[at].1.clone();
            assert(all[at as int] == (pairs[at as int].0@, pairs[at as int].1@));
            Some(token)
        } else {
            None
        },
        None => None,
    }
}

/// The check of a request against the configured token.
#[derive(Debug, Clone)]
pub struct Token {
    pub token: String,
}

impl Token {
    /// The check against `token`.
    pub fn new(token: String) -> (check: Token)
        ensures
            check.token@ == token@,
    {
        Token { token }
    }

    /// Whether `pairs`, the parameters of a query, carry the token.
    pub fn accepts(&self, pairs: &Vec<(String, String)>) -> (ok: bool)
        ensures
            ok == (sole_token(pairs.deep_view()) == Some(self.token@)),
    {
        match find_token(pairs) {
            Some(token) => token == self.token,
            None => false,
        }
    }

    /// Checks the query of a request. A request that carries the token
    /// passes; every other one is answered as if the resource did not
    /// exist.
    pub fn validate(&self, query: Option<&str>) -> (result: Result<(), u16>)
        ensures
            result is Ok == carries_token(query.deep_view(), self.token@),
            result is Err ==> result == Err::<(), u16>(STATUS_NOT_FOUND),
    {
        if let Some(q) = query {
            if let Some(pairs) = parse_query(q) {
                if self.accepts(&pairs) {
                    return Ok(());
                }
            }
        }
        Err(STATUS_NOT_FOUND)
    }
}

} // verus!
