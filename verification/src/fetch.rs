//! Requests and responses, as far as caching looks at them.
use http::{HeaderMap, HeaderValue};
use vstd::prelude::*;

use crate::fields;
use crate::text;

verus! {

/// How a request wants to interact with the cache.
#[derive(Clone, Copy, Debug, PartialEq, Eq, Structural)]
pub enum CacheMode {
    Default,
    NoStore,
    Reload,
    NoCache,
    ForceCache,
    OnlyIfCached,
}

/// The cross-origin mode of a request.
#[derive(Clone, Copy, Debug, PartialEq, Eq, Structural)]
pub enum RequestMode {
    Navigate,
    SameOrigin,
    NoCors,
    Cors,
    WebSocket,
}

/// A request. Its current URL is `url`; `url_list` holds all that it went through, that
/// one last.
#[derive(Debug)]
pub struct Request {
    pub method: Vec<u8>,
    pub url: String,
    pub url_list: Vec<String>,
    pub headers: HeaderMap<HeaderValue>,
    pub cache_mode: CacheMode,
    pub mode: RequestMode,
}

/// Whether a byte string can be the method of a request.
pub open spec fn is_method(method: Seq<u8>) -> bool {
    &&& method.len() >= 1
    &&& forall|i: int| 0 <= i < method.len() ==> fields::is_name_byte(#[trigger] method[i])
}

/// Whether a byte string can be the method of a request.
pub fn check_method(method: &Vec<u8>) -> (r: bool)
    ensures
        r == is_method(method@),
{
    if method.len() == 0 {
        return false;
    }
    let mut i: usize = 0;
    while i < method.len()
        invariant
            i <= method@.len(),
            forall|j: int| 0 <= j < i ==> fields::is_name_byte(#[trigger] method@[j]),
        decreases method@.len() - i,
    {
        if !fields::check_name_byte(method[i]) {
            return false;
        }
        i += 1;
    }
    true
}

impl Request {
    pub open spec fn fields(&self) -> Map<Seq<u8>, Seq<Seq<u8>>> {
        fields::header_fields(self.headers)
    }

    /// Whether the request is a GET.
    pub fn is_get(&self) -> (r: bool)
        ensures
            r == (self.method@ == text::bytes("GET")),
    {
        text::same(self.method.as_slice(), "GET".as_bytes())
    }
}

} // verus!
