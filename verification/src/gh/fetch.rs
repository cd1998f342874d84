//! The upstream side of a request.

use vstd::prelude::*;
use vstd::string::*;
use crate::error::CustomError;

verus! {

/// The address of the object `path` on the upstream host.
pub open spec fn upstream_url(path: Seq<char>) -> Seq<char> {
    "https://raw.githubusercontent.com/"@ + path
}

/// Why a request to upstream came to nothing.
#[derive(Debug, Clone)]
pub enum FetchError {
    /// The request failed on the way: upstream could not be reached or gave
    /// no complete answer. The text describes the failure.
    Upstream(String),
}

impl View for FetchError {
    type V = Seq<char>;

    open spec fn view(&self) -> Seq<char> {
        match self {
            FetchError::Upstream(text) => text@,
        }
    }
}

/// A request to upstream for one object.
#[derive(Debug, Clone)]
pub struct Request {
    pub url: String,
}

impl Request {
    /// The request for the object `gh_path`.
    pub fn new(gh_path: &str) -> (request: Request)
        ensures
            request.url@ == upstream_url(gh_path@),
    {
        let mut url = String::from_str("https://raw.githubusercontent.com/");
        url.append(gh_path);
        Request { url }
    }

    /// What a request to upstream came to: its answer, or an internal error
    /// that carries the description of the transport failure.
    pub fn result<T>(res: Result<T, FetchError>) -> (out: Result<T, CustomError>)
        ensures
            match res {
                Ok(answer) => out == Ok::<T, CustomError>(answer),
                Err(failure) => out is Err && out->Err_0.reason@ == failure@
                    && out->Err_0.status == crate::error::STATUS_INTERNAL_SERVER_ERROR,
            },
    {
        match res {
            Ok(answer) => Ok(answer),
            Err(FetchError::Upstream(text)) => Err(CustomError::reason(text)),
        }
    }
}

} // verus!
