//! Cached resources, and the responses that are constructed from them.
use http::{HeaderMap, HeaderValue};
use vstd::prelude::*;

use crate::directives;
use crate::fetch::Request;
use crate::fields;
use crate::fields::{
    ask_value, byte_ranges, content_range, copy_fields, extend_fields, has_byte_range,
    vary_names, ByteBounds, CacheDirectives, ContentSpan,
};
use crate::http_cache::lookup::ValidationStatus;
use crate::http_cache_semantics;
use crate::http_cache_semantics::{request_demands_revalidation, HttpCacheSemantics};
use crate::http_cache_store;
use crate::http_cache_store::{
    copy_maybe, copy_target, copy_texts, same_maybe, BodyHandle, HandleView, StoredCachePolicy,
    StoredVariantMeta, StoredView,
};
use crate::text;
use crate::time;
use crate::time::Span;

verus! {

/// The body of a response, as far as it has arrived.
#[derive(Debug)]
pub enum ResponseBody {
    Empty,
    Receiving(Vec<u8>),
    Done(Vec<u8>),
}

pub enum BodyView {
    Empty,
    Receiving(Seq<u8>),
    Done(Seq<u8>),
}

impl ResponseBody {
    pub open spec fn view(&self) -> BodyView {
        match self {
            ResponseBody::Empty => BodyView::Empty,
            ResponseBody::Receiving(bytes) => BodyView::Receiving(bytes@),
            ResponseBody::Done(bytes) => BodyView::Done(bytes@),
        }
    }

    pub fn copy(&self) -> (r: ResponseBody)
        ensures
            r@ == self@,
    {
        match self {
            ResponseBody::Empty => ResponseBody::Empty,
            ResponseBody::Receiving(bytes) => ResponseBody::Receiving(
                text::copy_bytes(bytes.as_slice()),
            ),
            ResponseBody::Done(bytes) => ResponseBody::Done(text::copy_bytes(bytes.as_slice())),
        }
    }
}

/// A complete cached resource.
#[derive(Debug)]
pub struct CachedResource {
    /// Request headers used for Vary matching.
    pub request_headers: HeaderMap<HeaderValue>,
    /// The cached response body.
    pub body: ResponseBody,
    /// Handle for updating the persisted entry metadata.
    pub body_handle: BodyHandle,
    /// Whether the entry was aborted while being fetched.
    pub aborted: bool,
    /// Consumers waiting for the body to finish.
    pub awaiting_body: Vec<u64>,
    /// Response headers.
    pub headers: HeaderMap<HeaderValue>,
    /// Final URL after redirects.
    pub final_url: String,
    /// MIME type / subtype.
    pub content_type: Option<String>,
    /// Character set.
    pub charset: Option<String>,
    /// Cache policy snapshot for freshness and revalidation.
    pub cache_semantics: HttpCacheSemantics,
    /// Redirect target recorded on the response.
    pub location_url: Option<Result<String, String>>,
    /// Cached HTTP status, if the response has one.
    pub status: Option<u16>,
    /// Stable body length used for cache weighting.
    pub body_len: usize,
    /// URL chain for the cached response.
    pub url_list: Vec<String>,
    /// Freshness lifetime.
    pub expires: Span,
    /// Stale-while-revalidate window.
    pub stale_while_revalidate: Span,
    /// Whether a revalidation in the background is on its way.
    pub revalidating: bool,
    /// When the resource was validated last.
    pub last_validated: Span,
}

pub struct ResourceView {
    pub request: Map<Seq<u8>, Seq<Seq<u8>>>,
    pub body: BodyView,
    pub handle: HandleView,
    pub aborted: bool,
    pub awaiting: Seq<u64>,
    pub fields: Map<Seq<u8>, Seq<Seq<u8>>>,
    pub final_url: Seq<char>,
    pub content_type: Option<Seq<char>>,
    pub charset: Option<Seq<char>>,
    pub semantics: HttpCacheSemantics,
    pub location_url: Option<Result<Seq<char>, Seq<char>>>,
    pub status: Option<u16>,
    pub body_len: usize,
    pub url_list: Seq<Seq<char>>,
    pub expires: Span,
    pub stale_while_revalidate: Span,
    pub revalidating: bool,
    pub last_validated: Span,
}

impl CachedResource {
    pub open spec fn view(&self) -> ResourceView {
        ResourceView {
            request: fields::header_fields(self.request_headers),
            body: self.body@,
            handle: self.body_handle@,
            aborted: self.aborted,
            awaiting: self.awaiting_body@,
            fields: fields::header_fields(self.headers),
            final_url: self.final_url@,
            content_type: http_cache_store::maybe(self.content_type),
            charset: http_cache_store::maybe(self.charset),
            semantics: self.cache_semantics,
            location_url: http_cache_store::target(self.location_url),
            status: self.status,
            body_len: self.body_len,
            url_list: http_cache_store::texts(self.url_list@),
            expires: self.expires,
            stale_while_revalidate: self.stale_while_revalidate,
            revalidating: self.revalidating,
            last_validated: self.last_validated,
        }
    }

    /// Return the cached body length.
    pub fn body_len(&self) -> (r: usize)
        ensures
            r == self@.body_len,
    {
        self.body_len
    }

    /// Return the cached body.
    pub fn body(&self) -> (r: &ResponseBody)
        ensures
            r@ == self@.body,
    {
        &self.body
    }

    /// Return the response final URL.
    pub fn final_url(&self) -> (r: String)
        ensures
            r@ == self@.final_url,
    {
        self.final_url.clone()
    }

    /// Return the cached HTTP status.
    pub fn status(&self) -> (r: Option<u16>)
        ensures
            r == self@.status,
    {
        self.status
    }

    /// Update the final URL.
    pub fn set_final_url(&mut self, final_url: String)
        ensures
            final(self)@ == (ResourceView { final_url: final_url@, ..old(self)@ }),
    {
        self.final_url = final_url;
    }

    /// Update the cached HTTP status.
    pub fn set_status(&mut self, status: Option<u16>)
        ensures
            final(self)@ == (ResourceView { status, ..old(self)@ }),
    {
        self.status = status;
    }
}

/// Whether every time in a resource is one.
pub open spec fn timed(resource: ResourceView) -> bool {
    &&& resource.expires.wf()
    &&& resource.stale_while_revalidate.wf()
    &&& resource.last_validated.wf()
}

/// The resources in a list.
pub open spec fn resources(list: Seq<CachedResource>) -> Seq<ResourceView> {
    Seq::new(list.len(), |i: int| list[i]@)
}

/// The code that caching decisions are made by. There is none of a response that
/// failed; the decisions only look at it where there is a modification date.
pub open spec fn code_of(status: Option<u16>) -> u16 {
    match status {
        Some(code) => code,
        None => 0,
    }
}

/// Whether a resource is the one that a stored variant becomes with the given body.
pub open spec fn revives(
    resource: ResourceView,
    meta: StoredView,
    body: BodyView,
    handle: HandleView,
    now: Span,
    instant: Span,
) -> bool {
    &&& resource.semantics.decides(code_of(meta.status), meta.response, now)
    &&& resource == (ResourceView {
        request: meta.request,
        body,
        handle,
        aborted: false,
        awaiting: seq![],
        fields: meta.response,
        final_url: meta.final_url,
        content_type: meta.content_type,
        charset: meta.charset,
        semantics: resource.semantics,
        location_url: meta.location_url,
        status: meta.status,
        body_len: meta.body_len,
        url_list: meta.url_list,
        expires: meta.expires,
        stale_while_revalidate: meta.stale_while_revalidate,
        revalidating: false,
        last_validated: instant,
    })
}

impl StoredVariantMeta {
    /// The live resource of a stored variant with the given body, at a given time.
    pub fn into_cached_resource(
        self,
        body: ResponseBody,
        body_handle: BodyHandle,
        now: Span,
        instant: Span,
    ) -> (r: CachedResource)
        requires
            now.wf(),
            fields::present(self@.response, "last-modified") ==> self@.status is Some,
        ensures
            revives(r@, self@, body@, body_handle@, now, instant),
    {
        let code: u16 = match self.status {
            Some(code) => code,
            None => 0,
        };
        let cache_semantics: HttpCacheSemantics = HttpCacheSemantics::new(
            code,
            &self.response_headers,
            now,
        );
        let r: CachedResource = CachedResource {
            request_headers: self.request_headers,
            body,
            body_handle,
            aborted: false,
            awaiting_body: Vec::new(),
            headers: self.response_headers,
            final_url: self.final_url,
            content_type: self.content_type,
            charset: self.charset,
            cache_semantics,
            location_url: self.location_url,
            status: self.status,
            body_len: self.body_len,
            url_list: self.url_list,
            expires: self.expires,
            stale_while_revalidate: self.stale_while_revalidate,
            revalidating: false,
            last_validated: instant,
        };
        assert(r@.awaiting =~= seq![]);
        r
    }
}

/// The metadata that a live resource is stored with.
pub open spec fn meta_of(resource: ResourceView) -> StoredView {
    StoredView {
        request: resource.request,
        response: resource.fields,
        final_url: resource.final_url,
        content_type: resource.content_type,
        charset: resource.charset,
        status: resource.status,
        cache_policy: StoredCachePolicy {
            cacheable: resource.semantics.may_cache(),
            freshness_lifetime: resource.semantics.freshness_lifetime,
        },
        location_url: resource.location_url,
        body_len: resource.body_len,
        url_list: resource.url_list,
        expires: resource.expires,
        stale_while_revalidate: resource.stale_while_revalidate,
    }
}

/// The metadata that a live resource is stored with.
pub fn stored_meta_from_cached_resource(resource: &CachedResource) -> (r: StoredVariantMeta)
    ensures
        r@ == meta_of(resource@),
{
    StoredVariantMeta {
        request_headers: copy_fields(&resource.request_headers),
        response_headers: copy_fields(&resource.headers),
        final_url: resource.final_url.clone(),
        content_type: copy_maybe(&resource.content_type),
        charset: copy_maybe(&resource.charset),
        status: resource.status,
        cache_policy: StoredCachePolicy::from_semantics(&resource.cache_semantics),
        location_url: copy_target(&resource.location_url),
        body_len: resource.body_len,
        url_list: copy_texts(&resource.url_list),
        expires: resource.expires,
        stale_while_revalidate: resource.stale_while_revalidate,
    }
}

/// A stored variant that becomes a live resource is stored with the same metadata
/// again, but for the policy summary, which is decided anew.
pub proof fn law_stored_again(
    resource: ResourceView,
    meta: StoredView,
    body: BodyView,
    handle: HandleView,
    now: Span,
    instant: Span,
)
    requires
        revives(resource, meta, body, handle, now, instant),
    ensures
        meta_of(resource) == (StoredView {
            cache_policy: meta_of(resource).cache_policy,
            ..meta
        }),
{
}

/// A lifetime as the directives of a request adjust it, both in nanoseconds: `max-stale`
/// makes it longer, `max-age` ends it at a given age, `min-fresh` ends it early, and
/// `no-cache` or `no-store` at once. There is none where adding would leave the range of
/// times.
/// <https://tools.ietf.org/html/rfc7234#section-5.2.1>
pub open spec fn adjusted(expires: int, directives: Option<CacheDirectives>) -> Option<int> {
    match directives {
        None => Some(expires),
        Some(d) => match (d.max_stale, d.max_age, d.min_fresh) {
            (Some(secs), _, _) => if expires + secs * 1_000_000_000 <= time::max_total() {
                Some(expires + secs * 1_000_000_000)
            } else {
                None
            },
            (None, Some(secs), _) => if expires <= secs * 1_000_000_000 {
                Some(expires)
            } else {
                Some(secs * 1_000_000_000)
            },
            (None, None, Some(secs)) => Some(
                http_cache_semantics::less(expires, secs * 1_000_000_000),
            ),
            (None, None, None) => if d.no_cache || d.no_store {
                Some(0)
            } else {
                Some(expires)
            },
        },
    }
}

/// Adjust a lifetime by the directives of a request.
pub fn adjust_expiry(expires: Span, directives: Option<CacheDirectives>) -> (r: Option<Span>)
    requires
        expires.wf(),
    ensures
        match adjusted(expires.total(), directives) {
            Some(total) => r matches Some(span) && span.wf() && span.total() == total,
            None => r is None,
        },
{
    let directives: CacheDirectives = match directives {
        None => return Some(expires),
        Some(directives) => directives,
    };
    match directives.max_stale {
        Some(secs) => return expires.checked_add(&Span::from_secs(secs)),
        None => {},
    }
    match directives.max_age {
        Some(secs) => {
            let limit: Span = Span::from_secs(secs);
            return if limit.is_less(&expires) {
                Some(limit)
            } else {
                Some(expires)
            };
        },
        None => {},
    }
    match directives.min_fresh {
        Some(secs) => return Some(expires.saturating_sub(&Span::from_secs(secs))),
        None => {},
    }
    if directives.no_cache || directives.no_store {
        Some(Span::zero())
    } else {
        Some(expires)
    }
}

/// Request Cache-Control Directives
/// <https://tools.ietf.org/html/rfc7234#section-5.2.1>
pub fn get_expiry_adjustment_from_request_headers(request: &Request, expires: Span) -> (r: Option<
    Span,
>)
    requires
        expires.wf(),
    ensures
        match adjusted(expires.total(), fields::directives(request.fields())) {
            Some(total) => r matches Some(span) && span.wf() && span.total() == total,
            None => r is None,
        },
{
    adjust_expiry(expires, fields::cache_control(&request.headers))
}

/// How a resource of the given age stands, if its adjusted lifetime is `lifetime`.
pub open spec fn status_at(
    since_validated: int,
    lifetime: int,
    window: int,
    insists: bool,
) -> ValidationStatus {
    if lifetime > since_validated {
        ValidationStatus::Valid
    } else {
        ValidationStatus::Stale {
            revalidate_in_background: since_validated - lifetime <= window && window > 0
                && !insists,
        }
    }
}

/// A request that names a `max-age` takes a fresh resource that is younger than that, and
/// no other one without validation.
pub proof fn law_max_age_limits_the_age(
    since_validated: int,
    expires: int,
    directives: CacheDirectives,
    window: int,
    insists: bool,
)
    requires
        directives.max_stale is None,
        directives.max_age is Some,
    ensures
        adjusted(expires, Some(directives)) matches Some(lifetime) && (status_at(
            since_validated,
            lifetime,
            window,
            insists,
        ) == ValidationStatus::Valid <==> since_validated < expires && since_validated
            < directives.max_age->0 * 1_000_000_000),
{
}

/// How a resource stands.
/// - fresh: return immediately, no validation.
/// - stale:
///    - within the stale-while-revalidate window: return immediately and revalidate in
///      the background
///    - beyond the stale-while-revalidate window: synchronous validation is required.
pub fn validation_status(
    since_validated: Span,
    lifetime: Span,
    window: Span,
    insists: bool,
) -> (r: ValidationStatus)
    requires
        since_validated.wf(),
        lifetime.wf(),
        window.wf(),
    ensures
        r == status_at(since_validated.total(), lifetime.total(), window.total(), insists),
{
    if since_validated.is_less(&lifetime) {
        return ValidationStatus::Valid;
    }
    let stale_for: Span = since_validated.saturating_sub(&lifetime);
    ValidationStatus::Stale {
        revalidate_in_background: !window.is_less(&stale_for) && !window.is_zero() && !insists,
    }
}

/// A response, as far as caching looks at it.
#[derive(Debug)]
pub struct Response {
    pub final_url: String,
    pub headers: HeaderMap<HeaderValue>,
    pub body: ResponseBody,
    pub location_url: Option<Result<String, String>>,
    pub status: Option<u16>,
    pub url_list: Vec<String>,
}

/// Wrapper around a cached response, including information on re-validation needs.
#[derive(Debug)]
pub struct CachedResponse {
    /// The response constructed from the cached resource.
    pub response: Response,
    /// Whether the stored response is fresh or stale.
    pub validation_status: ValidationStatus,
    /// Which resource it was constructed from; a background revalidation is noted
    /// there.
    pub resource: usize,
}

/// Whether a response was constructed from a resource, with a status and body of its
/// own.
pub open spec fn is_constructed(
    r: CachedResponse,
    request: &Request,
    resource: ResourceView,
    index: int,
    status: Option<u16>,
    body: BodyView,
    instant: Span,
) -> bool {
    &&& r.response.final_url@ == resource.final_url
    &&& fields::header_fields(r.response.headers) == resource.fields
    &&& r.response.body@ == body
    &&& http_cache_store::target(r.response.location_url) == resource.location_url
    &&& r.response.status == status
    &&& http_cache_store::texts(r.response.url_list@) == resource.url_list
    &&& r.validation_status == standing(request, resource, instant)
    &&& r.resource == index
}

/// How a resource stands to a request at a given time.
pub open spec fn standing(
    request: &Request,
    resource: ResourceView,
    instant: Span,
) -> ValidationStatus {
    status_at(
        http_cache_semantics::less(instant.total(), resource.last_validated.total()),
        adjusted(resource.expires.total(), fields::directives(request.fields()))->0,
        resource.stale_while_revalidate.total(),
        http_cache_semantics::demands_revalidation(request),
    )
}

/// Whether the lifetime of a resource can be adjusted to a request.
pub open spec fn adjustable(request: &Request, resource: ResourceView) -> bool {
    adjusted(resource.expires.total(), fields::directives(request.fields())) is Some
}

/// Create a response from a request and a resource, with the given status and body.
fn create_cached_response(
    request: &Request,
    resource: &CachedResource,
    index: usize,
    status: Option<u16>,
    body: ResponseBody,
    instant: Span,
) -> (r: Option<CachedResponse>)
    requires
        timed(resource@),
        instant.wf(),
    ensures
        r is Some == adjustable(request, resource@),
        r matches Some(response) ==> is_constructed(
            response,
            request,
            resource@,
            index as int,
            status,
            body@,
            instant,
        ),
{
    let lifetime: Span = match get_expiry_adjustment_from_request_headers(
        request,
        resource.expires,
    ) {
        Some(lifetime) => lifetime,
        None => return None,
    };
    let since: Span = instant.saturating_sub(&resource.last_validated);
    let insists: bool = request_demands_revalidation(request);
    Some(
        CachedResponse {
            response: Response {
                final_url: resource.final_url.clone(),
                headers: copy_fields(&resource.headers),
                body,
                location_url: copy_target(&resource.location_url),
                status,
                url_list: copy_texts(&resource.url_list),
            },
            validation_status: validation_status(
                since,
                lifetime,
                resource.stale_while_revalidate,
                insists,
            ),
            resource: index,
        },
    )
}

/// The bytes from `start` up to and without `end`, where there are that many.
pub open spec fn slice(bytes: Seq<u8>, start: int, end: int) -> Option<Seq<u8>> {
    if 0 <= start <= end <= bytes.len() {
        Some(bytes.subrange(start, end))
    } else {
        None
    }
}

/// What a complete body gives of the first of the ranges that can be satisfied.
pub open spec fn complete_part(body: BodyView, ranges: Seq<ByteBounds>) -> Option<Seq<u8>> {
    match body {
        BodyView::Done(bytes) => if ranges.len() == 0 {
            None
        } else {
            match (ranges[0].start, ranges[0].end) {
                (Some(start), Some(end)) => if end == u64::MAX {
                    None
                } else {
                    slice(bytes, start as int, end + 1)
                },
                (Some(start), None) => slice(bytes, start as int, bytes.len() as int),
                _ => None,
            }
        },
        _ => None,
    }
}

/// Take the first of the ranges that can be satisfied out of a complete body.
pub fn take_complete(body: &ResponseBody, ranges: &Vec<ByteBounds>) -> (r: Option<Vec<u8>>)
    ensures
        match complete_part(body@, ranges@) {
            Some(part) => r matches Some(bytes) && bytes@ == part,
            None => r is None,
        },
{
    let bytes: &Vec<u8> = match body {
        ResponseBody::Done(bytes) => bytes,
        _ => return None,
    };
    if ranges.len() == 0 {
        return None;
    }
    let len: u64 = bytes.len() as u64;
    match (ranges[0].start, ranges[0].end) {
        (Some(start), Some(end)) => {
            if end >= len || start > end + 1 {
                return None;
            }
            Some(text::copy_range(bytes.as_slice(), start as usize, (end + 1) as usize))
        },
        (Some(start), None) => {
            if start > len {
                return None;
            }
            Some(text::copy_range(bytes.as_slice(), start as usize, bytes.len()))
        },
        _ => None,
    }
}

/// What a partial body gives of the first of the ranges that can be satisfied, if
/// `span` says which part of the resource it holds. A range without an end is only
/// answered by a part that reaches to the end of the resource.
pub open spec fn partial_part(
    body: BodyView,
    span: ContentSpan,
    ranges: Seq<ByteBounds>,
) -> Option<Seq<u8>> {
    match (body, span.range, span.total) {
        (BodyView::Done(bytes), Some(held), Some(total)) => if total == 0 || ranges.len() == 0 {
            None
        } else {
            match (ranges[0].start, ranges[0].end) {
                (Some(start), Some(end)) => if held.0 <= start && held.0 <= end <= held.1 {
                    slice(bytes, start - held.0, end - held.0 + 1)
                } else {
                    None
                },
                (Some(start), None) => if held.0 <= start && held.1 == total - 1 && bytes.len()
                    - (start - held.0) + start >= total - 1 {
                    slice(bytes, start - held.0, bytes.len() as int)
                } else {
                    None
                },
                _ => None,
            }
        },
        _ => None,
    }
}

/// Take the first of the ranges that can be satisfied out of a partial body.
pub fn take_partial(body: &ResponseBody, span: ContentSpan, ranges: &Vec<ByteBounds>) -> (r: Option<
    Vec<u8>,
>)
    ensures
        match partial_part(body@, span, ranges@) {
            Some(part) => r matches Some(bytes) && bytes@ == part,
            None => r is None,
        },
{
    let bytes: &Vec<u8> = match body {
        ResponseBody::Done(bytes) => bytes,
        _ => return None,
    };
    let (held, total): ((u64, u64), u64) = match (span.range, span.total) {
        (Some(held), Some(total)) => (held, total),
        _ => return None,
    };
    if total == 0 || ranges.len() == 0 {
        return None;
    }
    let len: u64 = bytes.len() as u64;
    match (ranges[0].start, ranges[0].end) {
        (Some(start), Some(end)) => {
            if held.0 > start || held.1 < end || end < held.0 {
                return None;
            }
            let from: u64 = start - held.0;
            let last: u64 = end - held.0;
            if last >= len || from > last + 1 {
                return None;
            }
            Some(text::copy_range(bytes.as_slice(), from as usize, (last + 1) as usize))
        },
        (Some(start), None) => {
            if held.0 > start || held.1 != total - 1 {
                return None;
            }
            let from: u64 = start - held.0;
            if from > len {
                return None;
            }
            let reach: u128 = (len - from) as u128 + start as u128;
            if reach < (total - 1) as u128 {
                return None;
            }
            Some(text::copy_range(bytes.as_slice(), from as usize, bytes.len()))
        },
        _ => None,
    }
}

/// Whether a resource is a candidate for a request: it was not aborted, and its
/// `Vary` field does not tell the two requests apart.
/// <https://tools.ietf.org/html/rfc7234#section-4.1>
pub open spec fn is_candidate(
    request: Map<Seq<u8>, Seq<Seq<u8>>>,
    resource: ResourceView,
) -> bool {
    !resource.aborted && (fields::present(resource.fields, "vary") ==> selects(
        request,
        resource.request,
        fields::vary_names_of(fields::field(resource.fields, "vary")),
    ))
}

/// Whether a stored request matches another one in the fields with the given names.
pub open spec fn selects(
    request: Map<Seq<u8>, Seq<Seq<u8>>>,
    stored: Map<Seq<u8>, Seq<Seq<u8>>>,
    names: Seq<Seq<u8>>,
) -> bool {
    !names.contains(text::bytes("*")) && forall|i: int|
        0 <= i < names.len() ==> same_field(request, stored, #[trigger] names[i])
}

/// Whether a field does not tell two requests apart: both have the same first value,
/// or the stored request lacks it.
pub open spec fn same_field(
    request: Map<Seq<u8>, Seq<Seq<u8>>>,
    stored: Map<Seq<u8>, Seq<Seq<u8>>>,
    name: Seq<u8>,
) -> bool {
    fields::asked(stored, name) is None || fields::asked(stored, name) == fields::asked(
        request,
        name,
    )
}

/// Calculating secondary keys with `Vary`.
pub fn check_selects(
    request: &HeaderMap<HeaderValue>,
    stored: &HeaderMap<HeaderValue>,
    names: &Vec<Vec<u8>>,
) -> (r: bool)
    ensures
        r == selects(
            fields::header_fields(*request),
            fields::header_fields(*stored),
            text::views(names@),
        ),
{
    if text::contains(names, "*".as_bytes()) {
        return false;
    }
    let ghost views = text::views(names@);
    let mut i: usize = 0;
    while i < names.len()
        invariant
            i <= names@.len(),
            views == text::views(names@),
            forall|j: int|
                0 <= j < i ==> same_field(
                    fields::header_fields(*request),
                    fields::header_fields(*stored),
                    #[trigger] views[j],
                ),
        decreases names@.len() - i,
    {
        assert(views[i as int] == names@[i as int]@);
        let original: Option<Vec<u8>> = ask_value(stored, names[i].as_slice());
        if original.is_some() {
            let current: Option<Vec<u8>> = ask_value(request, names[i].as_slice());
            if !same_maybe(&original, &current) {
                return false;
            }
        }
        i += 1;
    }
    true
}

fn check_candidate(request: &HeaderMap<HeaderValue>, resource: &CachedResource) -> (r: bool)
    ensures
        r == is_candidate(fields::header_fields(*request), resource@),
{
    if resource.aborted {
        return false;
    }
    match vary_names(&resource.headers) {
        Some(names) => check_selects(request, &resource.request_headers, &names),
        None => true,
    }
}

/// Which of the first `n` resources are candidates for a request.
pub open spec fn candidates(
    request: Map<Seq<u8>, Seq<Seq<u8>>>,
    all: Seq<ResourceView>,
    n: int,
) -> Seq<int>
    decreases n,
{
    if n <= 0 {
        seq![]
    } else if is_candidate(request, all[n - 1]) {
        candidates(request, all, n - 1).push(n - 1)
    } else {
        candidates(request, all, n - 1)
    }
}

pub open spec fn indices(list: Seq<usize>) -> Seq<int> {
    Seq::new(list.len(), |i: int| list[i] as int)
}

proof fn lemma_candidates(request: Map<Seq<u8>, Seq<Seq<u8>>>, all: Seq<ResourceView>, n: int)
    requires
        0 <= n <= all.len(),
    ensures
        forall|i: int|
            0 <= i < candidates(request, all, n).len() ==> 0 <= (#[trigger] candidates(
                request,
                all,
                n,
            )[i]) < n && is_candidate(request, all[candidates(request, all, n)[i]]),
    decreases n,
{
    if n > 0 {
        lemma_candidates(request, all, n - 1);
        let before = candidates(request, all, n - 1);
        let after = candidates(request, all, n);
        assert forall|i: int| 0 <= i < after.len() implies 0 <= (#[trigger] after[i]) < n
            && is_candidate(request, all[after[i]]) by {
            if i < before.len() {
                assert(after[i] == before[i]);
            }
        }
    }
}

fn find_candidates(request: &HeaderMap<HeaderValue>, list: &Vec<CachedResource>) -> (r: Vec<usize>)
    ensures
        indices(r@) == candidates(
            fields::header_fields(*request),
            resources(list@),
            list@.len() as int,
        ),
{
    let mut r: Vec<usize> = Vec::new();
    let ghost all = resources(list@);
    let mut i: usize = 0;
    assert(indices(r@) =~= seq![]);
    while i < list.len()
        invariant
            i <= list@.len(),
            all == resources(list@),
            indices(r@) == candidates(fields::header_fields(*request), all, i as int),
        decreases list@.len() - i,
    {
        let ghost before = indices(r@);
        assert(all[i as int] == list@[i as int]@);
        if check_candidate(request, &list[i]) {
            r.push(i);
            assert(indices(r@) =~= before.push(i as int));
        }
        i += 1;
    }
    r
}

/// The part that a resource gives of a range request, if it holds the whole of it.
pub open spec fn whole_answer(
    request: Map<Seq<u8>, Seq<Seq<u8>>>,
    resource: ResourceView,
) -> Option<Seq<u8>> {
    complete_part(
        resource.body,
        fields::requested(
            request,
            match resource.body {
                BodyView::Done(bytes) => bytes.len() as u64,
                _ => 0,
            },
        ),
    )
}

/// The part that a resource gives of a range request, if it holds a part itself.
pub open spec fn partial_answer(
    request: Map<Seq<u8>, Seq<Seq<u8>>>,
    resource: ResourceView,
) -> Option<Seq<u8>> {
    match fields::content_span(resource.fields) {
        Some(span) => match span.total {
            Some(total) => if total == 0 {
                None
            } else {
                partial_part(resource.body, span, fields::requested(request, total))
            },
            None => None,
        },
        None => None,
    }
}

/// The first of some resources with a status, or the number of them if none has it.
pub open spec fn first_with(all: Seq<ResourceView>, among: Seq<int>, status: u16) -> int
    decreases among.len(),
{
    if among.len() == 0 {
        0
    } else {
        let before = first_with(all, among.drop_last(), status);
        if before < among.len() - 1 || all[among.last()].status == Some(status) {
            before
        } else {
            among.len() as int
        }
    }
}

proof fn lemma_first_with(all: Seq<ResourceView>, among: Seq<int>, status: u16)
    ensures
        0 <= first_with(all, among, status) <= among.len(),
        first_with(all, among, status) < among.len() ==> all[among[first_with(
            all,
            among,
            status,
        )]].status == Some(status),
        forall|i: int|
            0 <= i < first_with(all, among, status) ==> all[#[trigger] among[i]].status != Some(
                status,
            ),
    decreases among.len(),
{
    if among.len() > 0 {
        lemma_first_with(all, among.drop_last(), status);
        assert forall|i: int| 0 <= i < first_with(all, among, status) implies all[#[trigger] among[i]].status
            != Some(status) by {
            if i < among.len() - 1 {
                assert(among.drop_last()[i] == among[i]);
            }
        }
    }
}

/// Whether a partial resource answers a range request.
pub open spec fn answers_partially(request: &Request, resource: ResourceView) -> bool {
    resource.status == Some(206u16) && adjustable(request, resource) && partial_answer(
        request.fields(),
        resource,
    ) is Some
}

/// The first of some resources that answers a range request partially.
pub open spec fn first_partial(request: &Request, all: Seq<ResourceView>, among: Seq<int>) -> int
    decreases among.len(),
{
    if among.len() == 0 {
        0
    } else {
        let before = first_partial(request, all, among.drop_last());
        if before < among.len() - 1 || answers_partially(request, all[among.last()]) {
            before
        } else {
            among.len() as int
        }
    }
}

proof fn lemma_first_partial(request: &Request, all: Seq<ResourceView>, among: Seq<int>)
    ensures
        0 <= first_partial(request, all, among) <= among.len(),
        first_partial(request, all, among) < among.len() ==> answers_partially(
            request,
            all[among[first_partial(request, all, among)]],
        ),
        forall|i: int|
            0 <= i < first_partial(request, all, among) ==> !answers_partially(
                request,
                all[#[trigger] among[i]],
            ),
    decreases among.len(),
{
    if among.len() > 0 {
        lemma_first_partial(request, all, among.drop_last());
        assert forall|i: int| 0 <= i < first_partial(request, all, among) implies !answers_partially(
            request,
            all[#[trigger] among[i]],
        ) by {
            if i < among.len() - 1 {
                assert(among.drop_last()[i] == among[i]);
            }
        }
    }
}

/// Which resource answers a range request, and with which bytes. A complete one among
/// the candidates decides alone; else the first partial one that can does.
pub open spec fn range_answer(request: &Request, all: Seq<ResourceView>, among: Seq<int>) -> Option<
    (int, Seq<u8>),
> {
    let complete = first_with(all, among, 200);
    let partial = first_partial(request, all, among);
    if complete < among.len() {
        match whole_answer(request.fields(), all[among[complete]]) {
            Some(bytes) => if adjustable(request, all[among[complete]]) {
                Some((among[complete], bytes))
            } else {
                None
            },
            None => None,
        }
    } else if partial < among.len() {
        Some((among[partial], partial_answer(request.fields(), all[among[partial]])->0))
    } else {
        None
    }
}

/// Whether a list of places lies in a list of resources.
pub open spec fn lies_in(among: Seq<int>, len: nat) -> bool {
    forall|i: int| 0 <= i < among.len() ==> 0 <= #[trigger] among[i] < len
}

fn answer_range_from_partial(
    request: &Request,
    resource: &CachedResource,
    index: usize,
    instant: Span,
) -> (r: Option<CachedResponse>)
    requires
        fields::asks_for_range(request.fields()),
        timed(resource@),
        instant.wf(),
    ensures
        r is Some == answers_partially(request, resource@),
        r matches Some(response) ==> is_constructed(
            response,
            request,
            resource@,
            index as int,
            Some(206u16),
            BodyView::Done(partial_answer(request.fields(), resource@)->0),
            instant,
        ),
{
    if resource.status != Some(206u16) {
        return None;
    }
    let span: ContentSpan = match content_range(&resource.headers) {
        Some(span) => span,
        None => return None,
    };
    let total: u64 = match span.total {
        Some(total) => total,
        None => return None,
    };
    if total == 0 {
        return None;
    }
    let ranges: Vec<ByteBounds> = byte_ranges(&request.headers, total);
    match take_partial(&resource.body, span, &ranges) {
        Some(bytes) => create_cached_response(
            request,
            resource,
            index,
            Some(206),
            ResponseBody::Done(bytes),
            instant,
        ),
        None => None,
    }
}

/// Support for range requests <https://tools.ietf.org/html/rfc7233>.
///
/// A complete resource gives the first range that can be satisfied of its body. When
/// there is none among the candidates, the first partial one that holds the range
/// does. Nothing answers where no range can be satisfied.
pub fn handle_range_request(
    request: &Request,
    list: &Vec<CachedResource>,
    among: &Vec<usize>,
    instant: Span,
) -> (r: Option<CachedResponse>)
    requires
        fields::asks_for_range(request.fields()),
        forall|i: int| 0 <= i < list@.len() ==> timed((#[trigger] list@[i])@),
        lies_in(indices(among@), list@.len()),
        instant.wf(),
    ensures
        match range_answer(request, resources(list@), indices(among@)) {
            Some(answer) => r matches Some(response) && is_constructed(
                response,
                request,
                resources(list@)[answer.0],
                answer.0,
                Some(206u16),
                BodyView::Done(answer.1),
                instant,
            ),
            None => r is None,
        },
        r matches Some(cached) ==> cached.resource < list@.len(),
{
    let ghost all = resources(list@);
    let ghost places = indices(among@);
    let mut i: usize = 0;
    proof {
        lemma_first_with(all, places, 200);
        lemma_first_partial(request, all, places);
    }
    while i < among.len()
        invariant
            i <= first_with(all, places, 200) <= among@.len(),
            all == resources(list@),
            places == indices(among@),
            lies_in(places, list@.len()),
            first_with(all, places, 200) < places.len() ==> all[places[first_with(
                all,
                places,
                200,
            )]].status == Some(200u16),
            forall|k: int|
                0 <= k < first_with(all, places, 200) ==> all[#[trigger] places[k]].status
                    != Some(200u16),
            fields::asks_for_range(request.fields()),
            forall|k: int| 0 <= k < list@.len() ==> timed((#[trigger] list@[k])@),
            instant.wf(),
        decreases among@.len() - i,
    {
        let index: usize = among[i];
        assert(places[i as int] == index);
        assert(all[index as int] == list@[index as int]@);
        if list[index].status == Some(200u16) {
            let resource: &CachedResource = &list[index];
            let len: u64 = match &resource.body {
                ResponseBody::Done(bytes) => bytes.len() as u64,
                _ => 0,
            };
            let ranges: Vec<ByteBounds> = byte_ranges(&request.headers, len);
            return match take_complete(&resource.body, &ranges) {
                Some(bytes) => create_cached_response(
                    request,
                    resource,
                    index,
                    Some(206),
                    ResponseBody::Done(bytes),
                    instant,
                ),
                None => None,
            };
        }
        i += 1;
    }
    let mut j: usize = 0;
    while j < among.len()
        invariant
            j <= first_partial(request, all, places) <= among@.len(),
            first_with(all, places, 200) == places.len(),
            all == resources(list@),
            places == indices(among@),
            lies_in(places, list@.len()),
            first_partial(request, all, places) < places.len() ==> answers_partially(
                request,
                all[places[first_partial(request, all, places)]],
            ),
            forall|k: int|
                0 <= k < first_partial(request, all, places) ==> !answers_partially(
                    request,
                    all[#[trigger] places[k]],
                ),
            fields::asks_for_range(request.fields()),
            forall|k: int| 0 <= k < list@.len() ==> timed((#[trigger] list@[k])@),
            instant.wf(),
        decreases among@.len() - j,
    {
        let index: usize = among[j];
        assert(places[j as int] == index);
        assert(all[index as int] == list@[index as int]@);
        let answer: Option<CachedResponse> = answer_range_from_partial(
            request,
            &list[index],
            index,
            instant,
        );
        if answer.is_some() {
            return answer;
        }
        j += 1;
    }
    None
}

/// Whether a resource answers a request for the whole.
pub open spec fn answers_whole(request: &Request, resource: ResourceView) -> bool {
    &&& is_candidate(request.fields(), resource)
    &&& resource.status is Some
    &&& resource.status != Some(206u16)
    &&& adjustable(request, resource)
}

/// The last of the first `n` resources that answers a request for the whole.
pub open spec fn last_whole(request: &Request, all: Seq<ResourceView>, n: int) -> Option<int>
    decreases n,
{
    if n <= 0 {
        None
    } else if answers_whole(request, all[n - 1]) {
        Some(n - 1)
    } else {
        last_whole(request, all, n - 1)
    }
}

/// Whether a request may be answered from the cache at all.
pub open spec fn may_answer(request: &Request, disabled: bool) -> bool {
    !disabled && request.method@ == text::bytes("GET")
}

/// Whether a response is what a request is answered with.
pub open spec fn is_answer(
    r: Option<CachedResponse>,
    request: &Request,
    all: Seq<ResourceView>,
    disabled: bool,
    instant: Span,
) -> bool {
    if !may_answer(request, disabled) {
        r is None
    } else if fields::asks_for_range(request.fields()) {
        match range_answer(request, all, candidates(request.fields(), all, all.len() as int)) {
            Some(answer) => r matches Some(response) && is_constructed(
                response,
                request,
                all[answer.0],
                answer.0,
                Some(206u16),
                BodyView::Done(answer.1),
                instant,
            ),
            None => r is None,
        }
    } else {
        match last_whole(request, all, all.len() as int) {
            Some(i) => r matches Some(response) && is_constructed(
                response,
                request,
                all[i],
                i,
                all[i].status,
                all[i].body,
                instant,
            ),
            None => r is None,
        }
    }
}

/// Which resource a consumer of a response has to wait for: the one that the response
/// was constructed from, where its body is still arriving.
pub open spec fn awaited(r: Option<CachedResponse>) -> Option<int> {
    match r {
        Some(cached) => match cached.response.body@ {
            BodyView::Receiving(_) => Some(cached.resource as int),
            _ => None,
        },
        None => None,
    }
}

/// The resources once a consumer waits for the body of one of them.
pub open spec fn with_consumer(
    all: Seq<ResourceView>,
    place: Option<int>,
    consumer: u64,
) -> Seq<ResourceView> {
    match place {
        Some(i) => all.update(
            i,
            ResourceView { awaiting: all[i].awaiting.push(consumer), ..all[i] },
        ),
        None => all,
    }
}

/// Constructing Responses from Caches.
/// <https://tools.ietf.org/html/rfc7234#section-4>
///
/// Only GET requests are answered. A request for the whole is answered from the
/// resource that was stored last among those that match, and never from a partial
/// one. Where the body of that resource is still arriving, `consumer` is told when it
/// is complete.
pub fn construct_response(
    request: &Request,
    list: &mut Vec<CachedResource>,
    disabled: bool,
    consumer: u64,
    instant: Span,
) -> (r: Option<CachedResponse>)
    requires
        forall|i: int| 0 <= i < old(list)@.len() ==> timed((#[trigger] old(list)@[i])@),
        instant.wf(),
    ensures
        is_answer(r, request, resources(old(list)@), disabled, instant),
        r matches Some(cached) ==> cached.resource < old(list)@.len(),
        resources(final(list)@) == with_consumer(resources(old(list)@), awaited(r), consumer),
{
    if disabled || !request.is_get() {
        return None;
    }
    let ghost all = resources(list@);
    if has_byte_range(&request.headers) {
        let among: Vec<usize> = find_candidates(&request.headers, list);
        proof {
            lemma_candidates(request.fields(), all, all.len() as int);
            let places = indices(among@);
            assert forall|i: int| 0 <= i < places.len() implies 0 <= #[trigger] places[i]
                < list@.len() by {}
        }
        return handle_range_request(request, list, &among, instant);
    }
    let mut n: usize = list.len();
    while n > 0
        invariant
            n <= list@.len(),
            *list == *old(list),
            all == resources(list@),
            last_whole(request, all, all.len() as int) == last_whole(request, all, n as int),
            forall|i: int| 0 <= i < list@.len() ==> timed((#[trigger] list@[i])@),
            instant.wf(),
            may_answer(request, disabled),
            !fields::asks_for_range(request.fields()),
        decreases n,
    {
        n -= 1;
        let resource: &CachedResource = &list[n];
        assert(all[n as int] == resource@);
        let is_whole: bool = match resource.status {
            Some(code) => code != 206,
            None => false,
        };
        if is_whole && check_candidate(&request.headers, resource) {
            let response: Option<CachedResponse> = create_cached_response(
                request,
                resource,
                n,
                resource.status,
                resource.body.copy(),
                instant,
            );
            if response.is_some() {
                let receiving: bool = matches!(resource.body, ResponseBody::Receiving(_));
                if receiving {
                    await_body(list, n, consumer);
                }
                return response;
            }
        }
    }
    None
}

/// Let a consumer wait for the body of a resource.
fn await_body(list: &mut Vec<CachedResource>, i: usize, consumer: u64)
    requires
        i < old(list)@.len(),
    ensures
        resources(final(list)@) == with_consumer(resources(old(list)@), Some(i as int), consumer),
{
    let ghost before = resources(list@);
    let resource: &mut CachedResource = &mut list[i];
    resource.awaiting_body.push(consumer);
    assert(resources(list@) =~= with_consumer(before, Some(i as int), consumer));
}

/// A partial response never answers a request for the whole resource.
pub proof fn law_partial_never_answers_whole(
    r: Option<CachedResponse>,
    request: &Request,
    all: Seq<ResourceView>,
    disabled: bool,
    instant: Span,
)
    requires
        is_answer(r, request, all, disabled, instant),
        !fields::asks_for_range(request.fields()),
        r is Some,
    ensures
        r->0.response.status != Some(206u16),
        0 <= r->0.resource < all.len(),
        !all[r->0.resource as int].aborted,
{
    lemma_last_whole(request, all, all.len() as int);
}

proof fn lemma_last_whole(request: &Request, all: Seq<ResourceView>, n: int)
    requires
        0 <= n <= all.len(),
    ensures
        last_whole(request, all, n) matches Some(i) ==> 0 <= i < n && answers_whole(
            request,
            all[i],
        ),
    decreases n,
{
    if n > 0 {
        lemma_last_whole(request, all, n - 1);
    }
}

/// What is sent for a range is a part of the body of the resource that answers.
pub proof fn law_range_is_a_part(
    request: &Request,
    all: Seq<ResourceView>,
    among: Seq<int>,
)
    requires
        range_answer(request, all, among) is Some,
    ensures
        ({
            let answer = range_answer(request, all, among)->0;
            &&& all[answer.0].body is Done
            &&& exists|start: int, end: int|
                #![trigger slice(all[answer.0].body->Done_0, start, end)]
                slice(all[answer.0].body->Done_0, start, end) == Some(answer.1)
        }),
{
    lemma_first_partial(request, all, among);
    let answer = range_answer(request, all, among)->0;
    let resource = all[answer.0];
    let complete = first_with(all, among, 200);
    if complete < among.len() {
        let bytes = resource.body->Done_0;
        let ranges = fields::requested(request.fields(), bytes.len() as u64);
        let start = ranges[0].start->0;
        match ranges[0].end {
            Some(end) => {
                assert(slice(bytes, start as int, end + 1) == Some(answer.1));
            },
            None => {
                assert(slice(bytes, start as int, bytes.len() as int) == Some(answer.1));
            },
        }
    } else {
        let bytes = resource.body->Done_0;
        let span = fields::content_span(resource.fields)->0;
        let total = span.total->0;
        let held = span.range->0;
        let ranges = fields::requested(request.fields(), total);
        let start = ranges[0].start->0;
        match ranges[0].end {
            Some(end) => {
                assert(slice(bytes, start - held.0, end - held.0 + 1) == Some(answer.1));
            },
            None => {
                assert(slice(bytes, start - held.0, bytes.len() as int) == Some(answer.1));
            },
        }
    }
}

/// Whether the response to a revalidation of `before` is `r`, and `after` is what the
/// resource then is. `status` and `body` are those of the response.
pub open spec fn is_refreshed(
    r: Response,
    before: ResourceView,
    after: ResourceView,
    from_304: Map<Seq<u8>, Seq<Seq<u8>>>,
    status: Option<u16>,
    body: BodyView,
    now: Span,
    instant: Span,
) -> bool {
    let merged = before.fields.union_prefer_right(from_304);
    &&& r.final_url@ == before.final_url
    &&& fields::header_fields(r.headers) == merged
    &&& r.body@ == body
    &&& r.status == status
    &&& http_cache_store::texts(r.url_list@) == before.url_list
    &&& after.semantics.decides(code_of(status), merged, now)
    &&& after == (ResourceView {
        awaiting: after.awaiting,
        fields: merged,
        semantics: after.semantics,
        expires: after.semantics.freshness_lifetime,
        stale_while_revalidate: Span { secs: directives::stale_window(merged), nanos: 0 },
        last_validated: instant,
        ..before
    })
}

/// Freshening Stored Responses upon Validation.
/// <https://tools.ietf.org/html/rfc7234#section-4.3.4>
///
/// The headers of a 304 update those of the first resource, which the response is
/// constructed from. Where its body is still arriving and the whole is asked for,
/// `consumer` is told when it is complete. There is no response, and nothing is
/// updated, where a range is asked for that the resource does not answer.
pub fn refresh(
    request: &Request,
    headers: HeaderMap<HeaderValue>,
    list: &mut Vec<CachedResource>,
    consumer: u64,
    now: Span,
    instant: Span,
) -> (r: Option<Response>)
    requires
        forall|i: int| 0 <= i < old(list)@.len() ==> timed((#[trigger] old(list)@[i])@),
        now.wf(),
        instant.wf(),
        fields::header_fields(headers).dom().finite(),
        old(list)@.len() > 0 ==> {
            &&& fields::has_room(
                old(list)@[0]@.fields,
                fields::header_fields(headers).dom().len() as int,
            )
            &&& !fields::asks_for_range(request.fields()) && fields::present(
                old(list)@[0]@.fields.union_prefer_right(fields::header_fields(headers)),
                "last-modified",
            ) ==> old(list)@[0]@.status is Some
        },
    ensures
        final(list)@.len() == old(list)@.len(),
        forall|i: int| 1 <= i < old(list)@.len() ==> final(list)@[i] == old(list)@[i],
        if old(list)@.len() == 0 {
            r is None
        } else if fields::asks_for_range(request.fields()) {
            match range_answer(request, resources(old(list)@), seq![0int]) {
                Some(answer) => r matches Some(response) && is_refreshed(
                    response,
                    old(list)@[0]@,
                    final(list)@[0]@,
                    fields::header_fields(headers),
                    Some(206u16),
                    BodyView::Done(answer.1),
                    now,
                    instant,
                ) && final(list)@[0]@.awaiting == old(list)@[0]@.awaiting,
                None => r is None && final(list)@ == old(list)@,
            }
        } else {
            &&& r matches Some(response) && is_refreshed(
                response,
                old(list)@[0]@,
                final(list)@[0]@,
                fields::header_fields(headers),
                old(list)@[0]@.status,
                old(list)@[0]@.body,
                now,
                instant,
            )
            &&& final(list)@[0]@.awaiting == if old(list)@[0]@.body is Receiving {
                old(list)@[0]@.awaiting.push(consumer)
            } else {
                old(list)@[0]@.awaiting
            }
        },
{
    if list.len() == 0 {
        return None;
    }
    let ghost all = resources(list@);
    assert(all[0] == list@[0]@);
    let mut constructed: Response = if has_byte_range(&request.headers) {
        let mut among: Vec<usize> = Vec::new();
        among.push(0);
        assert(indices(among@) =~= seq![0int]);
        match handle_range_request(request, list, &among, instant) {
            Some(cached) => {
                proof {
                    lemma_first_with(all, seq![0int], 200);
                    lemma_first_partial(request, all, seq![0int]);
                }
                cached.response
            },
            None => return None,
        }
    } else {
        let receiving: bool = matches!(list[0].body, ResponseBody::Receiving(_));
        let response: Response = Response {
            final_url: list[0].final_url.clone(),
            headers: copy_fields(&list[0].headers),
            body: list[0].body.copy(),
            location_url: None,
            status: list[0].status,
            url_list: copy_texts(&list[0].url_list),
        };
        if receiving {
            let resource: &mut CachedResource = &mut list[0];
            resource.awaiting_body.push(consumer);
        }
        response
    };
    let code: u16 = match constructed.status {
        Some(code) => code,
        None => 0,
    };
    let resource: &mut CachedResource = &mut list[0];
    extend_fields(&mut resource.headers, headers);
    constructed.headers = copy_fields(&resource.headers);
    resource.cache_semantics = HttpCacheSemantics::new(code, &constructed.headers, now);
    resource.expires = resource.cache_semantics.freshness_lifetime();
    resource.stale_while_revalidate = Span::from_secs(
        directives::find_stale_window(&constructed.headers),
    );
    resource.last_validated = instant;
    Some(constructed)
}

/// The resources once none of them is fresh.
pub open spec fn expired(all: Seq<ResourceView>) -> Seq<ResourceView> {
    Seq::new(
        all.len(),
        |i: int| ResourceView { expires: Span { secs: 0, nanos: 0 }, ..all[i] },
    )
}

/// Let no resource be fresh.
pub fn invalidate_cached_resources(list: &mut Vec<CachedResource>)
    ensures
        resources(final(list)@) == expired(resources(old(list)@)),
{
    let ghost before = resources(list@);
    let mut i: usize = 0;
    while i < list.len()
        invariant
            i <= list@.len(),
            list@.len() == before.len(),
            forall|j: int| 0 <= j < i ==> (#[trigger] list@[j])@ == expired(before)[j],
            forall|j: int| i <= j < list@.len() ==> (#[trigger] list@[j])@ == before[j],
        decreases list@.len() - i,
    {
        let resource: &mut CachedResource = &mut list[i];
        resource.expires = Span::zero();
        i += 1;
    }
    assert(resources(list@) =~= expired(before));
}

/// A resource that was invalidated is never served as fresh, unless the request
/// accepts stale responses.
pub proof fn law_invalidated_is_stale(request: &Request, all: Seq<ResourceView>, i: int, instant: Span)
    requires
        0 <= i < all.len(),
        adjustable(request, expired(all)[i]),
        fields::directives(request.fields()) matches Some(d) ==> d.max_stale is None,
    ensures
        standing(request, expired(all)[i], instant) is Stale,
{
}

/// What the directives of a request make of the lifetime of a stored response. `max-stale`
/// lets it be used for so much longer, `min-fresh` asks that it stay fresh for so long yet,
/// and a request that has neither of these nor `max-age` but says `no-cache` or `no-store`
/// finds nothing fresh. A request without directives leaves the lifetime as it is.
pub proof fn law_directives_move_the_lifetime(
    since_validated: int,
    expires: int,
    directives: Option<CacheDirectives>,
    window: int,
    insists: bool,
)
    requires
        0 <= since_validated,
        0 <= expires,
    ensures
        ({
            let lifetime = adjusted(expires, directives);
            let valid = lifetime is Some && status_at(
                since_validated,
                lifetime->0,
                window,
                insists,
            ) == ValidationStatus::Valid;
            match directives {
                None => lifetime is Some && (valid <==> since_validated < expires),
                Some(d) => {
                    &&& d.max_stale matches Some(secs) ==> (valid ==> since_validated - secs
                        * 1_000_000_000 < expires)
                    &&& d.max_stale matches Some(secs) ==> (lifetime is Some && since_validated
                        - secs * 1_000_000_000 < expires ==> valid)
                    &&& d.max_stale is None ==> lifetime is Some
                    &&& d.max_stale is None && d.max_age is None && d.min_fresh is Some ==> (valid
                        <==> since_validated + d.min_fresh->0 * 1_000_000_000 < expires)
                    &&& d.max_stale is None && d.max_age is None && d.min_fresh is None && (
                    d.no_cache || d.no_store) ==> !valid
                    &&& d.max_stale is None && d.max_age is None && d.min_fresh is None
                        && !d.no_cache && !d.no_store ==> (valid <==> since_validated < expires)
                },
            }
        }),
{
}

/// A stored response is valid while its lifetime lasts. Once it is stale it is revalidated in
/// the background exactly if it has a window, is not stale for longer than that, and the
/// request does not insist.
pub proof fn law_stale_status(since_validated: int, lifetime: int, window: int, insists: bool)
    ensures
        match status_at(since_validated, lifetime, window, insists) {
            ValidationStatus::Valid => since_validated < lifetime,
            ValidationStatus::Stale { revalidate_in_background } => {
                &&& since_validated >= lifetime
                &&& since_validated > lifetime + window ==> !revalidate_in_background
                &&& insists ==> !revalidate_in_background
                &&& window <= 0 ==> !revalidate_in_background
                &&& since_validated <= lifetime + window && !insists && window > 0
                    ==> revalidate_in_background
            },
        },
{
}

/// What a complete body gives for a range are the bytes at the places that it names, from
/// the first to the last of them, and to the end where it names no last one. A range that
/// lies in the body is given.
pub proof fn law_part_of_a_complete_body(bytes: Seq<u8>, ranges: Seq<ByteBounds>, i: int)
    requires
        ranges.len() > 0,
        bytes.len() < u64::MAX,
    ensures
        ({
            let part = complete_part(BodyView::Done(bytes), ranges);
            let bounds = ranges[0];
            &&& bounds.start is None ==> part is None
            &&& match (bounds.start, bounds.end) {
                (Some(start), Some(end)) => start <= end < bytes.len() ==> part is Some
                    && part->0.len() == end - start + 1 && (0 <= i < part->0.len() ==> part->0[i]
                    == bytes[start + i]),
                (Some(start), None) => start < bytes.len() ==> part is Some && part->0.len()
                    == bytes.len() - start && (0 <= i < part->0.len() ==> part->0[i] == bytes[start
                    + i]),
                _ => true,
            }
            &&& bounds.start matches Some(start) ==> (start > bytes.len() ==> part is None)
            &&& bounds.end matches Some(end) ==> (end >= bytes.len() ==> part is None)
        }),
{
}

/// What a partial body gives for a range are the bytes of the resource at the places that
/// the range names, and it gives them only where it holds them.
pub proof fn law_part_of_a_partial_body(
    bytes: Seq<u8>,
    span: ContentSpan,
    held: (u64, u64),
    ranges: Seq<ByteBounds>,
    resource: Seq<u8>,
    i: int,
)
    requires
        ranges.len() > 0,
        span.range == Some(held),
        held.0 + bytes.len() <= resource.len(),
        forall|j: int|
            0 <= j < bytes.len() ==> #[trigger] bytes[j] == resource[held.0 + j],
    ensures
        partial_part(BodyView::Done(bytes), span, ranges) matches Some(part) ==> {
            &&& ranges[0].start matches Some(start)
            &&& held.0 <= start
            &&& 0 <= i < part.len() ==> part[i] == resource[start + i]
            &&& ranges[0].end matches Some(end) ==> part.len() == end - start + 1 && end
                <= held.1
            &&& ranges[0].end is None ==> start + part.len() == held.0 + bytes.len()
        },
        match (ranges[0].start, ranges[0].end, span.total) {
            (Some(start), Some(end), Some(total)) => total > 0 && held.0 <= start <= end
                <= held.1 && end < held.0 + bytes.len() ==> partial_part(
                BodyView::Done(bytes),
                span,
                ranges,
            ) is Some,
            (Some(start), None, Some(total)) => total > 0 && held.0 <= start
                && held.1 == total - 1 && start <= held.0 + bytes.len()
                && held.0 + bytes.len() >= total ==> partial_part(
                BodyView::Done(bytes),
                span,
                ranges,
            ) is Some,
            _ => true,
        },
{
    if let Some(part) = partial_part(BodyView::Done(bytes), span, ranges) {
        let from = ranges[0].start->0 - held.0;
        if 0 <= i < part.len() {
            assert(part[i] == bytes[from + i]);
        }
    }
}

/// The candidates for a request are the resources that were not aborted and that its fields
/// select, each once and in the order in which they are held.
pub proof fn law_candidates(request: Map<Seq<u8>, Seq<Seq<u8>>>, all: Seq<ResourceView>, n: int)
    requires
        0 <= n <= all.len(),
    ensures
        forall|k: int|
            candidates(request, all, n).contains(k) <==> 0 <= k < n && !(
            #[trigger] all[k]).aborted && (fields::present(all[k].fields, "vary") ==> selects(
                request,
                all[k].request,
                fields::vary_names_of(fields::field(all[k].fields, "vary")),
            )),
        forall|i: int, j: int|
            0 <= i < j < candidates(request, all, n).len() ==> candidates(request, all, n)[i]
                < candidates(request, all, n)[j],
    decreases n,
{
    if n > 0 {
        law_candidates(request, all, n - 1);
        let before = candidates(request, all, n - 1);
        let now = candidates(request, all, n);
        assert forall|k: int|
            now.contains(k) <==> 0 <= k < n && !(#[trigger] all[k]).aborted && (fields::present(
                all[k].fields,
                "vary",
            ) ==> selects(
                request,
                all[k].request,
                fields::vary_names_of(fields::field(all[k].fields, "vary")),
            )) by {
            if now.contains(k) {
                let m = choose|m: int| 0 <= m < now.len() && now[m] == k;
                if m < before.len() {
                    assert(before[m] == k);
                    assert(before.contains(k));
                }
            }
            if before.contains(k) {
                let m = choose|m: int| 0 <= m < before.len() && before[m] == k;
                assert(now[m] == k);
            }
            if k == n - 1 && is_candidate(request, all[k]) {
                assert(now[now.len() - 1] == k);
            }
        }
        assert forall|i: int, j: int| 0 <= i < j < now.len() implies now[i] < now[j] by {
            assert(now[i] == before[i]);
            if j < before.len() {
                assert(now[j] == before[j]);
            } else {
                assert(before.contains(before[i]));
                assert(!all[before[i]].aborted);
            }
        }
    }
}

/// A stored response is selected by the fields that it varies by: a request that has other
/// values for one of them is not answered with it, nor is any request where it varies by
/// everything. One that varies by nothing is selected by every request.
pub proof fn law_vary(
    request: Map<Seq<u8>, Seq<Seq<u8>>>,
    stored: Map<Seq<u8>, Seq<Seq<u8>>>,
    names: Seq<Seq<u8>>,
    i: int,
)
    ensures
        names.len() == 0 ==> selects(request, stored, names),
        names.contains(text::bytes("*")) ==> !selects(request, stored, names),
        0 <= i < names.len() && fields::asked(stored, names[i]) is Some && fields::asked(
            stored,
            names[i],
        ) != fields::asked(request, names[i]) ==> !selects(request, stored, names),
        !names.contains(text::bytes("*")) ==> selects(stored, stored, names),
{
    if 0 <= i < names.len() && fields::asked(stored, names[i]) is Some && fields::asked(
        stored,
        names[i],
    ) != fields::asked(request, names[i]) {
        assert(!same_field(request, stored, names[i]));
    }
}

/// A request without a range is answered with the newest resource that may answer it: a
/// complete one that it selects. It is answered whenever there is one.
pub proof fn law_newest_answers(
    r: Option<CachedResponse>,
    request: &Request,
    all: Seq<ResourceView>,
    instant: Span,
    i: int,
)
    requires
        is_answer(r, request, all, false, instant),
        request.method@ == text::bytes("GET"),
        !fields::asks_for_range(request.fields()),
        0 <= i < all.len(),
        is_candidate(request.fields(), all[i]),
        all[i].status is Some && all[i].status != Some(206u16),
        adjustable(request, all[i]),
    ensures
        r matches Some(response) && response.resource >= i && response.resource < all.len()
            && is_candidate(request.fields(), all[response.resource as int])
            && response.response.body@ == all[response.resource as int].body
            && response.response.status == all[response.resource as int].status
            && fields::header_fields(response.response.headers) == all[response.resource as
            int].fields && response.response.final_url@ == all[response.resource as int].final_url,
{
    lemma_newest_whole(request, all, all.len() as int, i);
}

proof fn lemma_newest_whole(request: &Request, all: Seq<ResourceView>, n: int, i: int)
    requires
        0 <= i < n <= all.len(),
        answers_whole(request, all[i]),
    ensures
        last_whole(request, all, n) matches Some(k) && i <= k < n && answers_whole(request, all[k]),
    decreases n,
{
    if !answers_whole(request, all[n - 1]) {
        lemma_newest_whole(request, all, n - 1, i);
    }
}

/// The first of some resources with a status is just that: it has the status, and none
/// before it has. Where none has, the place is the one after the last.
pub proof fn law_first_with_a_status(all: Seq<ResourceView>, among: Seq<int>, status: u16, i: int)
    ensures
        ({
            let k = first_with(all, among, status);
            &&& 0 <= k <= among.len()
            &&& k < among.len() ==> all[among[k]].status == Some(status)
            &&& 0 <= i < k ==> all[among[i]].status != Some(status)
        }),
    decreases among.len(),
{
    if among.len() > 0 {
        let front = among.drop_last();
        law_first_with_a_status(all, front, status, i);
        assert(forall|j: int| 0 <= j < front.len() ==> front[j] == among[j]);
    }
}

/// The first of some resources that has what a range request asks for is just that.
pub proof fn law_first_partial(request: &Request, all: Seq<ResourceView>, among: Seq<int>, i: int)
    ensures
        ({
            let k = first_partial(request, all, among);
            &&& 0 <= k <= among.len()
            &&& k < among.len() ==> all[among[k]].status == Some(206u16) && partial_answer(
                request.fields(),
                all[among[k]],
            ) is Some
            &&& 0 <= i < k ==> all[among[i]].status != Some(206u16) || partial_answer(
                request.fields(),
                all[among[i]],
            ) is None || !adjustable(request, all[among[i]])
        }),
    decreases among.len(),
{
    if among.len() > 0 {
        let front = among.drop_last();
        law_first_partial(request, all, front, i);
        assert(forall|j: int| 0 <= j < front.len() ==> front[j] == among[j]);
    }
}

/// A range request is answered from a complete resource if there is one, and from a partial
/// one only where there is none.
pub proof fn law_complete_comes_first(
    request: &Request,
    all: Seq<ResourceView>,
    among: Seq<int>,
    i: int,
)
    requires
        0 <= i < among.len(),
    ensures
        range_answer(request, all, among) matches Some(answer) ==> (all[among[i]].status == Some(
            200u16,
        ) ==> all[answer.0].status == Some(200u16)) && (all[answer.0].status == Some(200u16)
            || all[answer.0].status == Some(206u16)) && adjustable(request, all[answer.0]),
        answers_partially(request, all[among[i]]) && (forall|j: int|
            0 <= j < among.len() ==> all[#[trigger] among[j]].status != Some(200u16))
            ==> range_answer(request, all, among) is Some,
{
    law_first_with_a_status(all, among, 200, i);
    law_first_partial(request, all, among, i);
    lemma_first_partial(request, all, among);
    let complete = first_with(all, among, 200);
    if complete < among.len() {
        assert(all[among[complete]].status == Some(200u16));
    }
}

/// Whoever is answered with a body that is still being received is told when it is complete,
/// and nothing else changes by answering.
pub proof fn law_only_receivers_wait(
    all: Seq<ResourceView>,
    r: Option<CachedResponse>,
    consumer: u64,
    i: int,
)
    requires
        0 <= i < all.len(),
        r matches Some(cached) ==> cached.resource < all.len(),
    ensures
        ({
            let after = with_consumer(all, awaited(r), consumer);
            let waits = match r {
                Some(cached) => cached.resource == i && cached.response.body@ is Receiving,
                None => false,
            };
            &&& after.len() == all.len()
            &&& waits ==> after[i].awaiting == all[i].awaiting.push(consumer)
            &&& !waits ==> after[i] == all[i]
            &&& after[i].body == all[i].body && after[i].fields == all[i].fields
        }),
{
}

/// A confirmed resource has every field that the confirmation has, as it is there, and its
/// other fields as they were. It keeps its body, its address and its status, and is as fresh
/// as the merged fields make it.
pub proof fn law_confirmed_fields(
    r: Response,
    before: ResourceView,
    after: ResourceView,
    from_304: Map<Seq<u8>, Seq<Seq<u8>>>,
    status: Option<u16>,
    body: BodyView,
    now: Span,
    instant: Span,
    name: Seq<u8>,
)
    requires
        is_refreshed(r, before, after, from_304, status, body, now, instant),
    ensures
        from_304.contains_key(name) ==> after.fields.contains_key(name) && after.fields[name]
            == from_304[name],
        !from_304.contains_key(name) ==> after.fields.contains_key(name)
            == before.fields.contains_key(name) && (before.fields.contains_key(name)
            ==> after.fields[name] == before.fields[name]),
        fields::header_fields(r.headers) == after.fields,
        after.body == before.body,
        after.status == before.status,
        after.final_url == before.final_url,
        after.request == before.request,
        after.last_validated == instant,
        after.expires == after.semantics.freshness_lifetime,
{
}

/// A range of a complete resource is answered with the bytes of its body that the request
/// names.
pub proof fn law_range_of_a_complete_resource(
    request: Map<Seq<u8>, Seq<Seq<u8>>>,
    resource: ResourceView,
    bytes: Seq<u8>,
    start: u64,
    end: u64,
    i: int,
)
    requires
        resource.body == BodyView::Done(bytes),
        bytes.len() < u64::MAX,
        fields::requested(request, bytes.len() as u64) == seq![
            ByteBounds { start: Some(start), end: Some(end) },
        ],
        start <= end < bytes.len(),
    ensures
        whole_answer(request, resource) matches Some(part) && part.len() == end - start + 1 && (0
            <= i < part.len() ==> part[i] == bytes[start + i]),
{
    law_part_of_a_complete_body(bytes, fields::requested(request, bytes.len() as u64), i);
}

/// A disabled cache answers nothing, and only `GET` is ever answered.
pub proof fn law_who_is_answered(
    r: Option<CachedResponse>,
    request: &Request,
    all: Seq<ResourceView>,
    disabled: bool,
    instant: Span,
)
    requires
        is_answer(r, request, all, disabled, instant),
    ensures
        r is Some ==> !disabled && request.method@ == text::bytes("GET"),
        all.len() == 0 ==> r is None,
        r matches Some(cached) ==> cached.validation_status == standing(
            request,
            all[cached.resource as int],
            instant,
        ),
{
    if all.len() == 0 {
        assert(candidates(request.fields(), all, 0).len() == 0);
    }
}

/// A resource that was stored and brought back is the one that was stored: nothing of what is
/// told of it has changed, and it is as fresh as it was, counted from now.
pub proof fn law_brought_back(
    resource: ResourceView,
    meta: StoredView,
    body: BodyView,
    handle: HandleView,
    now: Span,
    instant: Span,
)
    requires
        revives(resource, meta, body, handle, now, instant),
    ensures
        resource.fields == meta.response,
        resource.request == meta.request,
        resource.status == meta.status,
        resource.final_url == meta.final_url,
        resource.url_list == meta.url_list,
        resource.body_len == meta.body_len,
        resource.expires == meta.expires,
        resource.stale_while_revalidate == meta.stale_while_revalidate,
        resource.body == body,
        resource.handle == handle,
        resource.last_validated == instant,
        !resource.aborted,
        resource.awaiting.len() == 0,
{
}

} // verus!
