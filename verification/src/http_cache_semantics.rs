//! Freshness and storability of one response, decided from its header fields.
use http::{HeaderMap, HeaderValue};
use vstd::prelude::*;

use crate::directives;
use crate::directives::{
    cache_control_items, check_argument, check_flag, find_first_seconds, find_seconds,
};
use crate::fetch::{CacheMode, Request};
use crate::fields;
use crate::fields::{has_field, has_pragma_no_cache};
use crate::http_cache::policy;
use crate::text;
use crate::time::Span;

verus! {

/// The longest lifetime that is guessed from a modification date, in seconds.
pub const MAX_HEURISTIC_SECS: u64 = 86400;

/// Holds the freshness and storability decisions for one response so the rest of the
/// cache can keep its RFC 9111 logic in one place.
#[derive(Clone, Copy, Debug)]
pub struct HttpCacheSemantics {
    pub freshness_lifetime: Span,
    pub has_expires: bool,
    pub has_last_modified: bool,
    pub has_etag: bool,
    pub has_max_age: bool,
    pub has_no_cache: bool,
    pub has_no_store: bool,
    pub has_public: bool,
    pub has_pragma_no_cache: bool,
}

/// Status codes a cache may store without explicit freshness information.
/// <https://www.rfc-editor.org/rfc/rfc9110#section-15.1>
pub open spec fn cacheable_by_default(status: u16) -> bool {
    status == 200 || status == 203 || status == 204 || status == 206 || status == 300 || status
        == 301 || status == 404 || status == 405 || status == 410 || status == 414 || status == 501
}

/// Status codes a cache may store without explicit freshness information.
pub fn is_cacheable_by_default(status: u16) -> (r: bool)
    ensures
        r == cacheable_by_default(status),
{
    status == 200 || status == 203 || status == 204 || status == 206 || status == 300 || status
        == 301 || status == 404 || status == 405 || status == 410 || status == 414 || status == 501
}

pub open spec fn less(a: int, b: int) -> int {
    if a >= b {
        a - b
    } else {
        0
    }
}

/// The lifetime that the response states, before its age is taken off: the first
/// `max-age` or `s-maxage` that can be read, or else what is left until `Expires`.
/// Nothing counts as stated where neither can be read.
pub open spec fn stated_lifetime(fields: Map<Seq<u8>, Seq<Seq<u8>>>, now: Span) -> int {
    match directives::first_seconds(directives::cache_items(fields), "s-maxage", "max-age") {
        Some(secs) => secs * 1_000_000_000,
        None => if fields::present(fields, "expires") {
            match fields::expires_of(fields::field(fields, "expires")) {
                Some(secs) => less(secs * 1_000_000_000, now.total()),
                None => 0,
            }
        } else {
            0
        },
    }
}

/// The lifetime guessed from the modification date: a tenth of the time since, and a
/// day at most.
pub open spec fn guessed_lifetime(fields: Map<Seq<u8>, Seq<Seq<u8>>>, now: Span) -> int {
    if !fields::present(fields, "last-modified") {
        0
    } else {
        match fields::last_modified_of(fields::field(fields, "last-modified")) {
            Some(secs) => {
                let tenth = less(now.total(), secs * 1_000_000_000) / 10;
                if tenth <= MAX_HEURISTIC_SECS * 1_000_000_000 {
                    tenth
                } else {
                    MAX_HEURISTIC_SECS * 1_000_000_000
                }
            },
            None => 0,
        }
    }
}

/// How long a response with the given status and fields stays fresh.
pub open spec fn fresh_for(status: u16, fields: Map<Seq<u8>, Seq<Seq<u8>>>, now: Span) -> int {
    let items = directives::cache_items(fields);
    if directives::has_flag(items, "no-cache") {
        0
    } else if fields::present(fields, "expires") || directives::has_argument(items, "max-age")
        || directives::has_argument(items, "s-maxage") {
        less(stated_lifetime(fields, now), policy::age_secs(fields) * 1_000_000_000)
    } else if fields::present(fields, "last-modified") && (cacheable_by_default(status)
        || directives::has_flag(items, "public")) {
        guessed_lifetime(fields, now)
    } else {
        0
    }
}

impl HttpCacheSemantics {
    /// Whether these are the decisions for a response.
    pub open spec fn decides(
        &self,
        status: u16,
        fields: Map<Seq<u8>, Seq<Seq<u8>>>,
        now: Span,
    ) -> bool {
        let items = directives::cache_items(fields);
        &&& self.freshness_lifetime.wf()
        &&& self.freshness_lifetime.total() == fresh_for(status, fields, now)
        &&& self.has_expires == fields::present(fields, "expires")
        &&& self.has_last_modified == fields::present(fields, "last-modified")
        &&& self.has_etag == fields::present(fields, "etag")
        &&& self.has_max_age == (directives::has_argument(items, "max-age")
            || directives::has_argument(items, "s-maxage"))
        &&& self.has_no_cache == directives::has_flag(items, "no-cache")
        &&& self.has_no_store == directives::has_flag(items, "no-store")
        &&& self.has_public == directives::has_flag(items, "public")
        &&& self.has_pragma_no_cache == fields::pragma_no_cache(fields)
    }

    /// The decisions for a response that was received with the given status and
    /// header fields, at the given time.
    pub fn new(status: u16, headers: &HeaderMap<HeaderValue>, now: Span) -> (r: HttpCacheSemantics)
        requires
            now.wf(),
        ensures
            r.decides(status, fields::header_fields(*headers), now),
    {
        let has_expires: bool = has_field(headers, "expires".as_bytes());
        let has_last_modified: bool = has_field(headers, "last-modified".as_bytes());
        let has_etag: bool = has_field(headers, "etag".as_bytes());
        let pragma: bool = has_pragma_no_cache(headers);
        let age: Span = Span::from_secs(policy::find_age_secs(headers));
        let items: Vec<Vec<u8>> = cache_control_items(headers);
        let has_no_cache: bool = check_flag(&items, "no-cache");
        let has_no_store: bool = check_flag(&items, "no-store");
        let has_public: bool = check_flag(&items, "public");
        let has_max_age: bool = check_argument(&items, "max-age") || check_argument(
            &items,
            "s-maxage",
        );
        let freshness_lifetime: Span = if has_no_cache {
            Span::zero()
        } else if has_expires || has_max_age {
            let stated: Span = match find_first_seconds(&items, "s-maxage", "max-age") {
                Some(secs) => Span::from_secs(secs),
                None => if has_expires {
                    expires_freshness(headers, now)
                } else {
                    Span::zero()
                },
            };
            stated.saturating_sub(&age)
        } else if has_last_modified && (is_cacheable_by_default(status) || has_public) {
            heuristic_response_freshness(headers, now)
        } else {
            Span::zero()
        };
        HttpCacheSemantics {
            freshness_lifetime,
            has_expires,
            has_last_modified,
            has_etag,
            has_max_age,
            has_no_cache,
            has_no_store,
            has_public,
            has_pragma_no_cache: pragma,
        }
    }

    /// Whether the response may be stored.
    pub open spec fn may_cache(&self) -> bool {
        !self.has_no_store && (self.has_public || self.has_max_age || self.has_no_cache || (
        !self.has_pragma_no_cache && (self.has_expires || self.has_last_modified
            || self.has_etag)))
    }

    /// Whether the response may be stored. A `Cache-Control` field with one of
    /// `public`, `max-age` and `no-cache` settles the question on its own, and
    /// `Pragma` is then ignored.
    /// <https://www.rfc-editor.org/rfc/rfc9111#section-3>
    pub fn is_cacheable(&self) -> (r: bool)
        ensures
            r == self.may_cache(),
    {
        if self.has_no_store {
            return false;
        }
        if self.has_public || self.has_max_age || self.has_no_cache {
            return true;
        }
        if self.has_pragma_no_cache {
            return false;
        }
        self.has_expires || self.has_last_modified || self.has_etag
    }

    pub fn freshness_lifetime(&self) -> (r: Span)
        ensures
            r == self.freshness_lifetime,
    {
        self.freshness_lifetime
    }
}

fn expires_freshness(headers: &HeaderMap<HeaderValue>, now: Span) -> (r: Span)
    requires
        now.wf(),
        fields::present(fields::header_fields(*headers), "expires"),
    ensures
        r.wf(),
        r.total() == match fields::expires_of(
            fields::field(fields::header_fields(*headers), "expires"),
        ) {
            Some(secs) => less(secs * 1_000_000_000, now.total()),
            None => 0,
        },
{
    match fields::expires(headers) {
        Some(secs) => Span::from_secs(secs).saturating_sub(&now),
        None => Span::zero(),
    }
}

fn heuristic_response_freshness(headers: &HeaderMap<HeaderValue>, now: Span) -> (r: Span)
    requires
        now.wf(),
        fields::present(fields::header_fields(*headers), "last-modified"),
    ensures
        r.wf(),
        r.total() == guessed_lifetime(fields::header_fields(*headers), now),
{
    match fields::last_modified(headers) {
        Some(secs) => {
            let since: Span = now.saturating_sub(&Span::from_secs(secs));
            since.tenth().shorter(Span::from_secs(MAX_HEURISTIC_SECS))
        },
        None => Span::zero(),
    }
}

/// A response that says `no-store` is never stored, and one that says `no-cache` is
/// stale from the start.
pub proof fn law_directives_are_obeyed(
    semantics: HttpCacheSemantics,
    status: u16,
    fields: Map<Seq<u8>, Seq<Seq<u8>>>,
    now: Span,
)
    requires
        semantics.decides(status, fields, now),
    ensures
        directives::has_flag(directives::cache_items(fields), "no-store")
            ==> !semantics.may_cache(),
        directives::has_flag(directives::cache_items(fields), "no-cache")
            ==> semantics.freshness_lifetime.total() == 0,
        !fields::present(fields, "expires") && !fields::present(fields, "last-modified")
            && !fields::present(fields, "cache-control") ==> semantics.freshness_lifetime.total()
            == 0,
{
    let items = directives::cache_items(fields);
    if !fields::present(fields, "cache-control") {
        assert(fields::field(fields, "cache-control") =~= Seq::<Seq<u8>>::empty());
        assert(items =~= Seq::<Seq<u8>>::empty());
    }
}

/// Guessed freshness never exceeds a day.
pub proof fn law_guess_is_bounded(fields: Map<Seq<u8>, Seq<Seq<u8>>>, now: Span)
    ensures
        0 <= guessed_lifetime(fields, now) <= MAX_HEURISTIC_SECS * 1_000_000_000,
{
}

/// Whether the request itself demands revalidation.
pub open spec fn demands_revalidation(request: &Request) -> bool {
    let items = directives::cache_items(request.fields());
    ||| request.cache_mode == CacheMode::NoCache
    ||| request.cache_mode == CacheMode::Reload
    ||| request.cache_mode == CacheMode::NoStore
    ||| directives::has_flag(items, "no-cache")
    ||| asks_for_age_zero(items)
}

/// Whether a `max-age` of zero is among the directives.
pub open spec fn asks_for_age_zero(items: Seq<Seq<u8>>) -> bool {
    exists|i: int|
        0 <= i < items.len() && directives::seconds(#[trigger] items[i], "max-age") == Some(0u64)
}

/// Determine whether the request itself demands revalidation.
pub fn request_demands_revalidation(request: &Request) -> (r: bool)
    ensures
        r == demands_revalidation(request),
{
    if matches!(
        request.cache_mode,
        CacheMode::NoCache | CacheMode::Reload | CacheMode::NoStore
    ) {
        return true;
    }
    let items: Vec<Vec<u8>> = cache_control_items(&request.headers);
    if check_flag(&items, "no-cache") {
        return true;
    }
    let ghost all = text::views(items@);
    let mut i: usize = 0;
    while i < items.len()
        invariant
            i <= items@.len(),
            all == text::views(items@),
            all == directives::cache_items(request.fields()),
            forall|j: int|
                0 <= j < i ==> directives::seconds(#[trigger] all[j], "max-age") != Some(0u64),
        decreases items@.len() - i,
    {
        if find_seconds(items[i].as_slice(), "max-age") == Some(0u64) {
            assert(directives::seconds(all[i as int], "max-age") == Some(0u64));
            assert(asks_for_age_zero(all));
            return true;
        }
        i += 1;
    }
    assert(!asks_for_age_zero(all));
    false
}

/// A response that states how long it is fresh is so until just then: a `max-age` counts from
/// when the response was made, of which its `Age` has passed, and without one it is fresh
/// until its `Expires`.
pub proof fn law_stated_lifetime(status: u16, fields: Map<Seq<u8>, Seq<Seq<u8>>>, now: Span)
    requires
        !directives::has_flag(directives::cache_items(fields), "no-cache"),
        now.total() >= 0,
    ensures
        ({
            let items = directives::cache_items(fields);
            let stated = directives::first_seconds(items, "s-maxage", "max-age");
            let age = policy::age_secs(fields) * 1_000_000_000;
            let lifetime = fresh_for(status, fields, now);
            let limited = directives::has_argument(items, "max-age") || directives::has_argument(
                items,
                "s-maxage",
            );
            &&& lifetime >= 0
            &&& limited && stated is Some ==> (lifetime == 0 || lifetime + age == stated->0
                * 1_000_000_000)
            &&& limited && stated is Some && lifetime == 0 ==> age >= stated->0 * 1_000_000_000
            &&& stated is None && fields::present(fields, "expires") && lifetime > 0
                ==> (fields::expires_of(fields::field(fields, "expires")) matches Some(secs)
                && now.total() + age + lifetime == secs * 1_000_000_000)
            &&& stated is None && limited && !fields::present(fields, "expires") ==> lifetime == 0
        }),
{
}

/// Where nothing is stated, a tenth of the time since the last modification is guessed, up to
/// a day, and only for a response that is cacheable by its status or says that it is public.
pub proof fn law_guessed_lifetime(status: u16, fields: Map<Seq<u8>, Seq<Seq<u8>>>, now: Span)
    requires
        !directives::has_flag(directives::cache_items(fields), "no-cache"),
        !fields::present(fields, "expires"),
        !directives::has_argument(directives::cache_items(fields), "max-age"),
        !directives::has_argument(directives::cache_items(fields), "s-maxage"),
    ensures
        ({
            let lifetime = fresh_for(status, fields, now);
            let public = directives::has_flag(directives::cache_items(fields), "public");
            let modified = fields::last_modified_of(fields::field(fields, "last-modified"));
            let since = now.total() - modified->0 * 1_000_000_000;
            &&& 0 <= lifetime <= 24 * 60 * 60 * 1_000_000_000
            &&& !fields::present(fields, "last-modified") ==> lifetime == 0
            &&& !public && (status == 201 || status == 202 || status == 302 || status == 303
                || status == 304 || status == 307 || status == 308 || status == 400 || status == 401
                || status == 403 || status == 500 || status == 502 || status == 503) ==> lifetime
                == 0
            &&& fields::present(fields, "last-modified") && modified is Some && (public || status
                == 200 || status == 203 || status == 204 || status == 206 || status == 300
                || status == 301 || status == 404 || status == 405 || status == 410 || status == 414
                || status == 501) && since >= 0 ==> 10 * lifetime <= since && (since < 10 * lifetime
                + 10 || lifetime == 24 * 60 * 60 * 1_000_000_000)
        }),
{
}

/// A response may be stored only if it does not forbid it, and if it says something of how it
/// may be used: `public`, an age, `no-cache`, or, unless an old `Pragma` speaks against it,
/// an expiry or a validator.
pub proof fn law_what_may_be_cached(
    semantics: HttpCacheSemantics,
    status: u16,
    fields: Map<Seq<u8>, Seq<Seq<u8>>>,
    now: Span,
)
    requires
        semantics.decides(status, fields, now),
    ensures
        ({
            let items = directives::cache_items(fields);
            let forbids = directives::has_flag(items, "no-store");
            let speaks = directives::has_flag(items, "public") || directives::has_flag(
                items,
                "no-cache",
            ) || directives::has_argument(items, "max-age") || directives::has_argument(
                items,
                "s-maxage",
            );
            let validated = fields::present(fields, "expires") || fields::present(
                fields,
                "last-modified",
            ) || fields::present(fields, "etag");
            &&& forbids ==> !semantics.may_cache()
            &&& !forbids && speaks ==> semantics.may_cache()
            &&& !speaks && !validated ==> !semantics.may_cache()
            &&& !forbids && validated && !fields::pragma_no_cache(fields) ==> semantics.may_cache()
            &&& !speaks && fields::pragma_no_cache(fields) ==> !semantics.may_cache()
        }),
{
}

/// A request insists by a mode that goes to the network, by `no-cache`, or by a `max-age` of
/// nothing, and in no other way.
pub proof fn law_insisting(request: &Request, i: int)
    ensures
        request.cache_mode == CacheMode::NoCache || request.cache_mode == CacheMode::Reload
            || request.cache_mode == CacheMode::NoStore ==> demands_revalidation(request),
        directives::has_flag(directives::cache_items(request.fields()), "no-cache")
            ==> demands_revalidation(request),
        0 <= i < directives::cache_items(request.fields()).len() && directives::seconds(
            directives::cache_items(request.fields())[i],
            "max-age",
        ) == Some(0u64) ==> demands_revalidation(request),
        (request.cache_mode == CacheMode::Default || request.cache_mode == CacheMode::ForceCache
            || request.cache_mode == CacheMode::OnlyIfCached) && directives::cache_items(
            request.fields(),
        ).len() == 0 ==> !demands_revalidation(request),
{
}

} // verus!
