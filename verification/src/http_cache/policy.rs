//! RFC 9111 cache semantics for stored entries.
//!
//! Freshness, `Vary` matching, revalidation requests and the 304 merge come from
//! `http-cache-semantics`. `stale-while-revalidate` (RFC 5861) is layered on top
//! of it, since that crate does not implement the extension.
use http::{HeaderMap, HeaderValue, Request as Asked, Response as Answer};
use http_cache_semantics::AfterResponse::NotModified;
use http_cache_semantics::BeforeRequest::Stale;
use http_cache_semantics::{CacheOptions, CachePolicy};
use std::time::{Duration, UNIX_EPOCH};
use vstd::prelude::*;

use crate::digest;
use crate::directives;
use crate::fetch;
use crate::fetch::{CacheMode, Request};
use crate::fields;
use crate::fields::{copy_fields, field_values, has_field, remove_field, set_field};
use crate::text;
use crate::time;
use crate::time::Span;

verus! {

/// Header fields that must not be served from a cache.
pub open spec fn hop_by_hop(name: Seq<u8>) -> bool {
    ||| name == text::bytes("connection")
    ||| name == text::bytes("keep-alive")
    ||| name == text::bytes("proxy-authenticate")
    ||| name == text::bytes("proxy-authorization")
    ||| name == text::bytes("te")
    ||| name == text::bytes("trailer")
    ||| name == text::bytes("transfer-encoding")
    ||| name == text::bytes("upgrade")
}

fn is_hop_by_hop(name: &[u8]) -> (r: bool)
    ensures
        r == hop_by_hop(name@),
{
    text::same(name, "connection".as_bytes()) || text::same(name, "keep-alive".as_bytes())
        || text::same(name, "proxy-authenticate".as_bytes()) || text::same(
        name,
        "proxy-authorization".as_bytes(),
    ) || text::same(name, "te".as_bytes()) || text::same(name, "trailer".as_bytes()) || text::same(
        name,
        "transfer-encoding".as_bytes(),
    ) || text::same(name, "upgrade".as_bytes())
}

/// The statuses that may be stored without explicit freshness information and that
/// `http-cache-semantics` understands. It refuses to store anything else, and
/// computes a zero freshness lifetime for it.
pub open spec fn heuristically_cacheable(status: u16) -> bool {
    status == 200 || status == 203 || status == 204 || status == 300 || status == 301 || status
        == 302 || status == 303 || status == 307 || status == 308 || status == 404 || status == 405
        || status == 410 || status == 414 || status == 501
}

/// Whether a response carries permission to be reused without asking again, either
/// by saying for how long or by saying that it may be cached at all.
pub open spec fn explicit_freshness(fields: Map<Seq<u8>, Seq<Seq<u8>>>) -> bool {
    ||| fields::present(fields, "expires")
    ||| fields::directives(fields) matches Some(d) && (d.max_age is Some || d.public || d.private)
}

/// The status a response is handed to `http-cache-semantics` under.
pub open spec fn spec_policy_status(status: u16, fields: Map<Seq<u8>, Seq<Seq<u8>>>) -> u16 {
    if heuristically_cacheable(status) || 100 <= status < 200 || status == 304
        || !explicit_freshness(fields) {
        status
    } else {
        200
    }
}

/// RFC 9111 also allows storing any other final status that carries explicit
/// freshness information. `http-cache-semantics` gates both storability and the
/// freshness lifetime on its own list of statuses, so such a response is handed to
/// it under a status it does understand; the real status is kept with the entry
/// and is what a cache hit is served with.
pub fn policy_status(status: u16, headers: &HeaderMap<HeaderValue>) -> (r: u16)
    ensures
        r == spec_policy_status(status, fields::header_fields(*headers)),
{
    if status == 200 || status == 203 || status == 204 || status == 300 || status == 301 || status
        == 302 || status == 303 || status == 307 || status == 308 || status == 404 || status == 405
        || status == 410 || status == 414 || status == 501 {
        return status;
    }
    if (100 <= status && status < 200) || status == 304 || !has_explicit_freshness(headers) {
        return status;
    }
    200
}

/// Whether a response carries permission to be reused without asking again.
///
/// `public` counts even though it says nothing about duration, and `private` is the
/// same permission for a private cache, which this one is.
pub fn has_explicit_freshness(headers: &HeaderMap<HeaderValue>) -> (r: bool)
    ensures
        r == explicit_freshness(fields::header_fields(*headers)),
{
    if has_field(headers, "expires".as_bytes()) {
        return true;
    }
    match fields::cache_control(headers) {
        Some(d) => d.max_age.is_some() || d.public || d.private,
        None => false,
    }
}

/// Whether a response's `Vary` nominates the request field `name`.
pub open spec fn nominates(fields: Map<Seq<u8>, Seq<Seq<u8>>>, name: Seq<u8>) -> bool {
    exists|i: int|
        0 <= i < text::items(fields::field(fields, "vary")).len() && nominated_by(
            #[trigger] text::items(fields::field(fields, "vary"))[i],
            name,
        )
}

pub open spec fn nominated_by(item: Seq<u8>, name: Seq<u8>) -> bool {
    item == text::bytes("*") || text::lower(item) == text::lower(name)
}

/// Whether a response's `Vary` nominates every request field.
pub open spec fn nominates_everything(fields: Map<Seq<u8>, Seq<Seq<u8>>>) -> bool {
    text::items(fields::field(fields, "vary")).contains(text::bytes("*"))
}

/// The request header fields a response's `Vary` nominates.
pub fn vary_fields(response_headers: &HeaderMap<HeaderValue>) -> (r: Vec<Vec<u8>>)
    ensures
        text::views(r@) == text::items(
            fields::field(fields::header_fields(*response_headers), "vary"),
        ),
{
    let values: Vec<Vec<u8>> = field_values(response_headers, "vary".as_bytes());
    text::field_items(&values)
}

/// Whether a response varies on every request field, which no stored entry can
/// ever match.
pub fn varies_on_everything(response_headers: &HeaderMap<HeaderValue>) -> (r: bool)
    ensures
        r == nominates_everything(fields::header_fields(*response_headers)),
{
    let names: Vec<Vec<u8>> = vary_fields(response_headers);
    let ghost all = text::views(names@);
    let mut i: usize = 0;
    while i < names.len()
        invariant
            i <= names@.len(),
            all == text::views(names@),
            all == text::items(fields::field(fields::header_fields(*response_headers), "vary")),
            forall|j: int| 0 <= j < i ==> all[j] != text::bytes("*"),
        decreases names@.len() - i,
    {
        assert(all[i as int] == names@[i as int]@);
        if text::same(names[i].as_slice(), "*".as_bytes()) {
            assert(all.contains(text::bytes("*")));
            return true;
        }
        i += 1;
    }
    false
}

/// Whether a response's `Vary` nominates `name`.
pub fn varies_on(response_headers: &HeaderMap<HeaderValue>, name: &[u8]) -> (r: bool)
    ensures
        r == nominates(fields::header_fields(*response_headers), name@),
{
    let names: Vec<Vec<u8>> = vary_fields(response_headers);
    let ghost all = text::views(names@);
    let mut i: usize = 0;
    while i < names.len()
        invariant
            i <= names@.len(),
            all == text::views(names@),
            all == text::items(fields::field(fields::header_fields(*response_headers), "vary")),
            forall|j: int| 0 <= j < i ==> !nominated_by(#[trigger] all[j], name@),
        decreases names@.len() - i,
    {
        assert(all[i as int] == names@[i as int]@);
        if text::same(names[i].as_slice(), "*".as_bytes()) || text::same_ignoring_case(
            names[i].as_slice(),
            name,
        ) {
            assert(nominated_by(all[i as int], name@));
            return true;
        }
        i += 1;
    }
    false
}

/// The values of a field, each followed by a zero byte.
pub open spec fn joined(values: Seq<Seq<u8>>) -> Seq<u8>
    decreases values.len(),
{
    if values.len() == 0 {
        seq![]
    } else {
        joined(values.drop_last()) + values.last() + seq![0u8]
    }
}

/// A stable digest of a header field's values, in hexadecimal digits.
pub open spec fn spec_digest_of(values: Seq<Seq<u8>>) -> Seq<u8> {
    text::hex(digest::sha1_of(joined(values)))
}

/// Whether a value has the form of a digest: 40 hexadecimal digits.
pub open spec fn is_digest(value: Seq<u8>) -> bool {
    &&& value.len() == 40
    &&& forall|i: int| 0 <= i < value.len() ==> 48 <= #[trigger] value[i] <= 57 || 97 <= value[i] <= 102
}

/// Whether nothing is kept of a credential but a digest.
pub open spec fn only_digest(fields: Map<Seq<u8>, Seq<Seq<u8>>>, name: Seq<u8>) -> bool {
    let values = fields::values_of(fields, name);
    values.len() == 0 || (values.len() == 1 && is_digest(values[0]))
}

/// A stable digest of a header field's values, used in place of a credential.
pub fn digest_of(values: &Vec<Vec<u8>>) -> (r: Vec<u8>)
    ensures
        r@ == spec_digest_of(text::views(values@)),
        is_digest(r@),
        fields::is_value(r@),
{
    let mut data: Vec<u8> = Vec::new();
    let ghost all = text::views(values@);
    let mut i: usize = 0;
    assert(joined(all.take(0)) =~= data@);
    while i < values.len()
        invariant
            i <= values@.len(),
            all == text::views(values@),
            data@ == joined(all.take(i as int)),
        decreases values@.len() - i,
    {
        let mut value: Vec<u8> = text::copy_bytes(values[i].as_slice());
        assert(all.take(i + 1).drop_last() =~= all.take(i as int));
        assert(all.take(i + 1).last() == values@[i as int]@);
        data.append(&mut value);
        data.push(0);
        assert(data@ =~= joined(all.take(i + 1)));
        i += 1;
    }
    assert(all.take(i as int) =~= all);
    let digest: Vec<u8> = digest::sha1(data.as_slice());
    text::render_hex(digest.as_slice())
}

/// One credential field of a request, in the form it is kept in: a digest where the
/// response varies on it, and not at all otherwise.
pub open spec fn redacted_field(
    request: Map<Seq<u8>, Seq<Seq<u8>>>,
    response: Map<Seq<u8>, Seq<Seq<u8>>>,
    name: Seq<u8>,
) -> Map<Seq<u8>, Seq<Seq<u8>>> {
    if fields::values_of(request, name).len() == 0 {
        request
    } else if nominates(response, name) {
        fields::with_field(request, name, spec_digest_of(fields::values_of(request, name)))
    } else {
        fields::without(request, name)
    }
}

/// The fields of a request with its credentials in the form they are kept in.
pub open spec fn redacted(
    request: Map<Seq<u8>, Seq<Seq<u8>>>,
    response: Map<Seq<u8>, Seq<Seq<u8>>>,
) -> Map<Seq<u8>, Seq<Seq<u8>>> {
    redacted_field(
        redacted_field(
            redacted_field(request, response, text::bytes("cookie")),
            response,
            text::bytes("authorization"),
        ),
        response,
        text::bytes("proxy-authorization"),
    )
}

fn redact(
    headers: &mut HeaderMap<HeaderValue>,
    response_headers: &HeaderMap<HeaderValue>,
    name: &[u8],
)
    requires
        fields::is_name(name@),
        fields::has_room(fields::header_fields(*old(headers)), 0),
    ensures
        fields::header_fields(*final(headers)) == redacted_field(
            fields::header_fields(*old(headers)),
            fields::header_fields(*response_headers),
            name@,
        ),
        only_digest(fields::header_fields(*final(headers)), name@),
        fields::has_room(fields::header_fields(*final(headers)), 0),
        fields::value_count(*final(headers)) <= fields::value_count(*old(headers)),
{
    let values: Vec<Vec<u8>> = field_values(headers, name);
    assert(text::views(values@).len() == values@.len());
    let ghost before = fields::header_fields(*headers);
    if values.len() == 0 {
        return;
    }
    assert(before.contains_key(text::lower(name@)));
    if varies_on(response_headers, name) {
        let digest: Vec<u8> = digest_of(&values);
        set_field(headers, name, digest.as_slice());
        assert(fields::header_fields(*headers).dom() =~= before.dom());
    } else {
        remove_field(headers, name);
    }
}

/// A request as `http-cache-semantics` sees it. `http-cache-semantics` keeps a copy
/// of the request fields it was built with, and they are stored with every entry,
/// so credentials must never reach it verbatim: an entry would otherwise hold the
/// session cookie, outliving the cookie itself. A stored request field is only ever
/// read back to compare it against the one presented, and only for the fields the
/// response's `Vary` names, so a digest compares exactly as well as the value.
#[derive(Debug)]
pub struct PolicyRequest {
    pub uri: String,
    pub method: Vec<u8>,
    pub headers: HeaderMap<HeaderValue>,
}

/// What [`PolicyRequest`] stands for.
pub struct RequestView {
    pub uri: Seq<char>,
    pub method: Seq<u8>,
    pub fields: Map<Seq<u8>, Seq<Seq<u8>>>,
}

impl PolicyRequest {
    pub open spec fn view(&self) -> RequestView {
        RequestView {
            uri: self.uri@,
            method: self.method@,
            fields: fields::header_fields(self.headers),
        }
    }

    pub open spec fn wf(&self) -> bool {
        &&& fetch::is_method(self.method@)
        &&& fields::has_room(fields::header_fields(self.headers), 0)
    }

    /// `response_headers` are those of the response the policy describes, whose
    /// `Vary` decides which credentials still have to be comparable. Both the
    /// stored and the presented request are built this way, so that the two are
    /// compared in the same form.
    pub fn new(request: &Request, response_headers: &HeaderMap<HeaderValue>) -> (r: PolicyRequest)
        requires
            fetch::is_method(request.method@),
            fields::has_room(request.fields(), 0),
        ensures
            r@ == policy_view(request, fields::header_fields(*response_headers)),
            only_digest(r@.fields, text::bytes("cookie")),
            only_digest(r@.fields, text::bytes("authorization")),
            only_digest(r@.fields, text::bytes("proxy-authorization")),
            r.wf(),
            fields::value_count(r.headers) <= fields::value_count(request.headers),
    {
        let mut headers: HeaderMap<HeaderValue> = copy_fields(&request.headers);
        proof {
            fields::lemma_names();
            lemma_credential_names();
        }
        redact(&mut headers, response_headers, "cookie".as_bytes());
        redact(&mut headers, response_headers, "authorization".as_bytes());
        redact(&mut headers, response_headers, "proxy-authorization".as_bytes());
        PolicyRequest {
            uri: request.url.clone(),
            method: text::copy_bytes(request.method.as_slice()),
            headers,
        }
    }

    pub fn copy(&self) -> (r: PolicyRequest)
        ensures
            r@ == self@,
            r.wf() == self.wf(),
            fields::value_count(r.headers) == fields::value_count(self.headers),
    {
        PolicyRequest {
            uri: self.uri.clone(),
            method: text::copy_bytes(self.method.as_slice()),
            headers: copy_fields(&self.headers),
        }
    }
}

/// A request as the policy of a response with the given fields sees it.
pub open spec fn policy_view(
    request: &Request,
    response: Map<Seq<u8>, Seq<Seq<u8>>>,
) -> RequestView {
    RequestView {
        uri: request.url@,
        method: request.method@,
        fields: redacted(request.fields(), response),
    }
}

/// What a policy is made of: the request as it is kept, and the response under the
/// status and the fields that it is judged by.
pub struct PolicyView {
    pub request: RequestView,
    pub status: u16,
    pub fields: Map<Seq<u8>, Seq<Seq<u8>>>,
    pub response_time: Span,
}

/// What a policy is: what it is made of, and how long a stale response may still be used.
pub struct EntryPolicyView {
    pub judged: PolicyView,
    pub stale_while_revalidate: Span,
}

/// A policy that is made of the given parts.
pub open spec fn policy_of(
    request: RequestView,
    status: u16,
    fields: Map<Seq<u8>, Seq<Seq<u8>>>,
    response_time: Span,
) -> PolicyView {
    PolicyView { request, status, fields, response_time }
}

/// The caching decisions attached to one stored variant.
#[derive(Debug)]
pub struct EntryPolicy {
    pub request: PolicyRequest,
    pub status: u16,
    pub headers: HeaderMap<HeaderValue>,
    /// When the response was received, counted from the Unix epoch.
    pub response_time: Span,
    /// The `stale-while-revalidate` window (RFC 5861).
    pub stale_while_revalidate: Span,
}

/// What `http-cache-semantics` says of a stored response and a request.
pub enum Verdict {
    /// Usable as it is.
    Fresh,
    /// Not usable without asking, and whether it is the same resource at all. The
    /// header fields make the request conditional.
    Stale { matches: bool, revalidation: HeaderMap<HeaderValue> },
}

/// What a [`Verdict`] stands for.
pub enum VerdictView {
    Fresh,
    Stale { matches: bool, revalidation: Map<Seq<u8>, Seq<Seq<u8>>> },
}

impl Verdict {
    pub open spec fn view(&self) -> VerdictView {
        match self {
            Verdict::Fresh => VerdictView::Fresh,
            Verdict::Stale { matches, revalidation } => VerdictView::Stale {
                matches: *matches,
                revalidation: fields::header_fields(*revalidation),
            },
        }
    }
}

/// The number of seconds an `Age` field counts.
pub open spec fn age_secs(fields: Map<Seq<u8>, Seq<Seq<u8>>>) -> u64 {
    match fields::first(fields, text::bytes("age")) {
        Some(value) => if text::is_text(value) {
            match text::decimal(value) {
                Some(secs) => secs,
                None => 0,
            }
        } else {
            0
        },
        None => 0,
    }
}

/// The age that a response came with.
pub(crate) fn find_age_secs(headers: &HeaderMap<HeaderValue>) -> (r: u64)
    ensures
        r == age_secs(fields::header_fields(*headers)),
{
    match fields::first_value(headers, "age".as_bytes()) {
        Some(value) => if text::check_text(value.as_slice()) {
            match text::parse_decimal(value.as_slice()) {
                Some(secs) => secs,
                None => 0,
            }
        } else {
            0
        },
        None => 0,
    }
}

/// How long a response has been sitting in caches, in nanoseconds: what its `Age`
/// field counts, and the time since it was received.
pub open spec fn spec_age(
    fields: Map<Seq<u8>, Seq<Seq<u8>>>,
    response_time: Span,
    now: Span,
) -> int {
    age_secs(fields) * 1_000_000_000 + if now.total() >= response_time.total() {
        now.total() - response_time.total()
    } else {
        0
    }
}

/// A point in time that an HTTP date can express.
pub open spec fn is_date(time: Span) -> bool {
    time.wf() && time.secs < fields::DATE_LIMIT
}

impl EntryPolicy {
    pub open spec fn view(&self) -> EntryPolicyView {
        EntryPolicyView {
            judged: policy_of(
                self.request@,
                self.status,
                fields::header_fields(self.headers),
                self.response_time,
            ),
            stale_while_revalidate: self.stale_while_revalidate,
        }
    }

    pub open spec fn wf(&self) -> bool {
        &&& self.request.wf()
        &&& 100 <= self.status <= 999
        &&& is_date(self.response_time)
        &&& self.stale_while_revalidate.wf()
    }

    /// Whether the age of the response at the given time can be represented.
    pub open spec fn age_fits(&self, now: Span) -> bool {
        spec_age(fields::header_fields(self.headers), self.response_time, now)
            <= time::max_total()
    }

    /// Whether `http-cache-semantics` can compare a request with the response: it
    /// copies the header fields of both.
    pub open spec fn comparable(&self, now: Span) -> bool {
        &&& self.age_fits(now)
        &&& is_date(now)
        &&& fields::has_room(fields::header_fields(self.headers), 2)
        &&& fields::value_count(self.headers) <= fields::MAX_VALUES
    }
}

impl EntryPolicy {
    /// Whether the policy can be compared at every time that can be written as a
    /// date.
    pub open spec fn usable(&self) -> bool {
        &&& self.wf()
        &&& fields::has_room(fields::header_fields(self.headers), 2)
        &&& fields::value_count(self.headers) <= fields::MAX_VALUES
        &&& age_secs(fields::header_fields(self.headers)) <= u64::MAX - fields::DATE_LIMIT
    }

    pub proof fn lemma_usable(&self, now: Span)
        requires
            self.usable(),
            is_date(now),
        ensures
            self.comparable(now),
    {
        assert(self.response_time.total() >= 0);
        assert(now.total() < fields::DATE_LIMIT * 1_000_000_000);
    }
}

/// Whether the cache is shared between users. It is not: `private` responses and
/// responses to requests that carry `Authorization` may be stored, and `s-maxage` is
/// ignored.
pub const SHARED: bool = false;

/// Whether `http-cache-semantics` lets a cache, shared or not, store a response.
pub uninterp spec fn storable_in(shared: bool, policy: PolicyView) -> bool;

/// Whether a response may be stored.
pub open spec fn storable(policy: PolicyView) -> bool {
    storable_in(SHARED, policy)
}

/// `CachePolicy::is_storable` decides on whether the cache is shared and on the request
/// and the response that the policy was built from, and on nothing else.
#[verifier::external_body]
fn policy_is_storable(policy: &EntryPolicy, shared: bool) -> (r: bool)
    requires
        policy.wf(),
    ensures
        r == storable_in(shared, policy@.judged),
{
    let mut request = Asked::new(()).into_parts().0;
    request.method = policy.request.method[..].try_into().unwrap();
    request.uri = policy.request.uri.parse().unwrap_or_default();
    request.headers = policy.request.headers.clone();
    let mut answer = Answer::new(()).into_parts().0;
    answer.status = policy.status.try_into().unwrap();
    answer.headers = policy.headers.clone();
    let time = UNIX_EPOCH + Duration::new(policy.response_time.secs, policy.response_time.nanos);
    let options = CacheOptions { shared, ..Default::default() };
    CachePolicy::new_options(&request, &answer, time, options).is_storable()
}

/// What is left of `whole` nanoseconds once `taken` of them are over.
pub open spec fn left_over(whole: nat, taken: int) -> int {
    if whole >= taken {
        whole - taken
    } else {
        0
    }
}

/// The freshness lifetime that `http-cache-semantics` gives a response in a cache,
/// shared or not, in nanoseconds.
pub uninterp spec fn lifetime_in(shared: bool, policy: PolicyView) -> nat;

/// The freshness lifetime of a response, in nanoseconds.
pub open spec fn lifetime(policy: PolicyView) -> nat {
    lifetime_in(SHARED, policy)
}

/// `CachePolicy::time_to_live`, asked for the time at which the response was received, is
/// what is left of the freshness lifetime, which depends on whether the cache is shared
/// and on the request and the response that the policy was built from, and on nothing
/// else, once the age that the response came with is taken off it. No length of time is
/// longer than the longest there is.
#[verifier::external_body]
fn policy_time_to_live(policy: &EntryPolicy, shared: bool) -> (r: Span)
    requires
        policy.wf(),
        policy.age_fits(policy.response_time),
    ensures
        r.wf(),
        r.total() > 0 ==> r.total() + spec_age(
            policy@.judged.fields,
            policy@.judged.response_time,
            policy@.judged.response_time,
        ) <= time::max_total(),
        r.total() == left_over(
            lifetime_in(shared, policy@.judged),
            spec_age(policy@.judged.fields, policy@.judged.response_time, policy@.judged.response_time),
        ),
{
    let mut request = Asked::new(()).into_parts().0;
    request.method = policy.request.method[..].try_into().unwrap();
    request.uri = policy.request.uri.parse().unwrap_or_default();
    request.headers = policy.request.headers.clone();
    let mut answer = Answer::new(()).into_parts().0;
    answer.status = policy.status.try_into().unwrap();
    answer.headers = policy.headers.clone();
    let time = UNIX_EPOCH + Duration::new(policy.response_time.secs, policy.response_time.nanos);
    let options = CacheOptions { shared, ..Default::default() };
    let left = CachePolicy::new_options(&request, &answer, time, options).time_to_live(time);
    Span { secs: left.as_secs(), nanos: left.subsec_nanos() }
}

/// What an answer about a stored response and a request stands for.
pub open spec fn outcome_view(outcome: Option<(bool, HeaderMap<HeaderValue>)>) -> VerdictView {
    match outcome {
        None => VerdictView::Fresh,
        Some(stale) => VerdictView::Stale {
            matches: stale.0,
            revalidation: fields::header_fields(stale.1),
        },
    }
}

/// What `http-cache-semantics` says of a request and a response stored in a cache,
/// shared or not.
pub uninterp spec fn verdict_in(
    shared: bool,
    policy: PolicyView,
    request: RequestView,
    now: Span,
) -> VerdictView;

/// The verdict on a stored response and a request.
pub open spec fn verdict(policy: PolicyView, request: RequestView, now: Span) -> VerdictView {
    verdict_in(SHARED, policy, request, now)
}

/// `CachePolicy::before_request` decides on whether the cache is shared, the request and
/// the response that the policy was built from, the request presented and the time, and
/// on nothing else. The result is `None` where the response is fresh; otherwise it says whether the response
/// is for the request at all, and gives the fields that make the request conditional.
#[verifier::external_body]
fn policy_before_request(
    stored: PolicyRequest,
    status: u16,
    headers: HeaderMap<HeaderValue>,
    time: Span,
    presented: PolicyRequest,
    now: Span,
    shared: bool,
) -> (r: Option<(bool, HeaderMap<HeaderValue>)>)
    requires
        stored.wf(),
        100 <= status <= 999,
        is_date(time),
        is_date(now),
        spec_age(fields::header_fields(headers), time, now) <= time::max_total(),
        fields::has_room(fields::header_fields(headers), 2),
        fields::value_count(headers) <= fields::MAX_VALUES,
        presented.wf(),
        fields::has_room(fields::header_fields(presented.headers), 2),
        fields::value_count(presented.headers) <= fields::MAX_VALUES,
    ensures
        outcome_view(r) == verdict_in(
            shared,
            policy_of(stored@, status, fields::header_fields(headers), time),
            presented@,
            now,
        ),
{
    let ask = |from: PolicyRequest| {
        let mut to = Asked::new(0).into_parts().0;
        to.method = from.method[..].try_into().unwrap();
        to.uri = from.uri.parse().unwrap_or_default();
        to.headers = from.headers;
        to
    };
    let mut answer = Answer::new(0).into_parts().0;
    answer.status = status.try_into().unwrap();
    answer.headers = headers;
    match CachePolicy::new_options(&ask(stored), &answer, UNIX_EPOCH + Duration::new(time.secs, time.nanos), CacheOptions { shared, ..Default::default() })
        .before_request(&ask(presented), UNIX_EPOCH + Duration::new(now.secs, now.nanos)) {
        Stale { request, matches } => Some((matches, request.headers)),
        _ => None,
    }
}

/// The header fields that `http-cache-semantics` merges a stored response and a
/// revalidation response into, if the stored body may still be used.
pub uninterp spec fn revalidated_in(
    shared: bool,
    stored_status: u16,
    stored: Map<Seq<u8>, Seq<Seq<u8>>>,
    request: RequestView,
    status: u16,
    fields: Map<Seq<u8>, Seq<Seq<u8>>>,
    now: Span,
) -> Option<Map<Seq<u8>, Seq<Seq<u8>>>>;

/// The header fields that a stored response and a revalidation response merge into, if
/// the stored body may still be used.
pub open spec fn revalidated(
    stored_status: u16,
    stored: Map<Seq<u8>, Seq<Seq<u8>>>,
    request: RequestView,
    status: u16,
    fields: Map<Seq<u8>, Seq<Seq<u8>>>,
    now: Span,
) -> Option<Map<Seq<u8>, Seq<Seq<u8>>>> {
    revalidated_in(SHARED, stored_status, stored, request, status, fields, now)
}

/// `CachePolicy::after_response` decides on whether the cache is shared, the response that
/// the policy was built from, the request and the response of the revalidation and the
/// time, and on nothing else: the request that the policy was built from plays no part in
/// it, so that of the revalidation stands in for it. The fields that it merges into are
/// those of the stored response and at most `Age`, `Date` and `Warning`.
#[verifier::external_body]
fn policy_after_response(
    stored_status: u16,
    stored: HeaderMap<HeaderValue>,
    presented: PolicyRequest,
    status: u16,
    headers: HeaderMap<HeaderValue>,
    now: Span,
    shared: bool,
) -> (r: Option<HeaderMap<HeaderValue>>)
    requires
        100 <= stored_status <= 999,
        presented.wf(),
        100 <= status <= 999,
        is_date(now),
        fields::has_room(fields::header_fields(stored), 2),
        fields::has_room(fields::header_fields(headers), 2),
        fields::value_count(headers) <= fields::MAX_VALUES,
    ensures
        r is Some == revalidated_in(
            shared,
            stored_status,
            fields::header_fields(stored),
            presented@,
            status,
            fields::header_fields(headers),
            now,
        ) is Some,
        r matches Some(merged) ==> revalidated_in(
            shared,
            stored_status,
            fields::header_fields(stored),
            presented@,
            status,
            fields::header_fields(headers),
            now,
        ) == Some(fields::header_fields(merged)),
        r matches Some(merged) ==> fields::header_fields(merged).dom().finite()
            && fields::header_fields(merged).dom().len() <= fields::header_fields(
            stored,
        ).dom().len() + 3,
{
    let time = UNIX_EPOCH + Duration::new(now.secs, now.nanos);
    let mut request = Asked::new(()).into_parts().0;
    request.method = presented.method[..].try_into().unwrap();
    request.uri = presented.uri.parse().unwrap_or_default();
    request.headers = presented.headers;
    let mut answer = Answer::new(()).into_parts().0;
    answer.status = stored_status.try_into().unwrap();
    answer.headers = stored;
    let policy = CachePolicy::new_options(&request, &answer, time, CacheOptions { shared, ..Default::default() });
    answer.status = status.try_into().unwrap();
    answer.headers = headers;
    match policy.after_response(&request, &answer, time) {
        NotModified(_, parts) => Some(parts.headers),
        _ => None,
    }
}

/// What a stored variant can do for an incoming request.
#[derive(Debug)]
pub enum Freshness {
    /// Usable as it is, without contacting the server.
    Fresh,
    /// Semantically the same resource, but it needs revalidating.
    Stale {
        /// How long the entry has been stale. Compared against the
        /// `stale-while-revalidate` window to decide whether it can still be served.
        stale_for: Span,
        /// Conditional header fields to copy onto the outgoing request.
        revalidation: HeaderMap<HeaderValue>,
    },
    /// Not the resource this request is asking for (different method, or the
    /// `Vary`-nominated fields do not match).
    NoMatch,
}

/// What a verdict on a response says of it that has the given age and freshness
/// lifetime, both in nanoseconds.
pub open spec fn is_freshness(r: Freshness, verdict: VerdictView, age: int, lifetime: int) -> bool {
    match verdict {
        VerdictView::Fresh => r is Fresh,
        VerdictView::Stale { matches, revalidation } => if !matches {
            r is NoMatch
        } else {
            r matches Freshness::Stale { stale_for, revalidation: fields } && stale_for.wf()
                && stale_for.total() == (if age >= lifetime {
                age - lifetime
            } else {
                0
            }) && fields::header_fields(fields) == revalidation
        },
    }
}

/// What a verdict on a response says of it that has the given age and freshness
/// lifetime.
pub fn freshness_of(verdict: Verdict, age: Span, lifetime: Span) -> (r: Freshness)
    requires
        age.wf(),
        lifetime.wf(),
    ensures
        is_freshness(r, verdict@, age.total(), lifetime.total()),
{
    match verdict {
        Verdict::Fresh => Freshness::Fresh,
        Verdict::Stale { matches, revalidation } => if !matches {
            Freshness::NoMatch
        } else {
            Freshness::Stale { stale_for: age.saturating_sub(&lifetime), revalidation }
        },
    }
}

/// The freshness lifetime of a stored response, in nanoseconds: what
/// `http-cache-semantics` gives it, but never less than the age it had when it was
/// stored.
pub open spec fn stored_lifetime(policy: PolicyView) -> int {
    let age = spec_age(policy.fields, policy.response_time, policy.response_time);
    if lifetime(policy) >= age {
        lifetime(policy) as int
    } else {
        age
    }
}

/// The fields of a revalidation response, with the stored validators in place of
/// absent ones where it is a 304.
pub open spec fn validated(
    status: u16,
    fields: Map<Seq<u8>, Seq<Seq<u8>>>,
    stored: Map<Seq<u8>, Seq<Seq<u8>>>,
) -> Map<Seq<u8>, Seq<Seq<u8>>> {
    if status != 304 || fields::present(fields, "etag") || fields::present(
        fields,
        "last-modified",
    ) {
        fields
    } else {
        with_first(
            with_first(fields, stored, text::bytes("etag")),
            stored,
            text::bytes("last-modified"),
        )
    }
}

/// The fields with the first value that another message has of a field, if any.
pub open spec fn with_first(
    fields: Map<Seq<u8>, Seq<Seq<u8>>>,
    other: Map<Seq<u8>, Seq<Seq<u8>>>,
    name: Seq<u8>,
) -> Map<Seq<u8>, Seq<Seq<u8>>> {
    match fields::first(other, name) {
        Some(value) => fields::with_field(fields, name, value),
        None => fields,
    }
}

/// A 304 answers the conditional request that this very entry produced, so it
/// refers to this entry even when the server echoed no validator back. RFC 9111
/// section 4.3.4, which `http-cache-semantics` implements literally, would refuse
/// to freshen in that case; browsers do freshen, and so does this cache. The stored
/// validator is copied in so that the merge applies.
pub fn validator_for_revalidation(
    status: u16,
    headers: &HeaderMap<HeaderValue>,
    stored_headers: &HeaderMap<HeaderValue>,
) -> (r: HeaderMap<HeaderValue>)
    requires
        fields::has_room(fields::header_fields(*headers), 1),
    ensures
        fields::header_fields(r) == validated(
            status,
            fields::header_fields(*headers),
            fields::header_fields(*stored_headers),
        ),
        fields::header_fields(r).dom().finite(),
        fields::header_fields(r).dom().len() <= fields::header_fields(*headers).dom().len() + 2,
        fields::value_count(r) <= fields::value_count(*headers) + 2,
{
    let mut r: HeaderMap<HeaderValue> = copy_fields(headers);
    if status != 304 || has_field(headers, "etag".as_bytes()) || has_field(
        headers,
        "last-modified".as_bytes(),
    ) {
        return r;
    }
    proof {
        fields::lemma_names();
    }
    match fields::first_value(stored_headers, "etag".as_bytes()) {
        Some(value) => set_field(&mut r, "etag".as_bytes(), value.as_slice()),
        None => {},
    }
    match fields::first_value(stored_headers, "last-modified".as_bytes()) {
        Some(value) => set_field(&mut r, "last-modified".as_bytes(), value.as_slice()),
        None => {},
    }
    r
}

/// Whether a 304 may change the field: not where the stored body is described, nor
/// where the value is one that the cache computes for itself.
pub open spec fn updates(name: Seq<u8>) -> bool {
    !(name == text::bytes("content-length") || name == text::bytes("content-encoding") || name
        == text::bytes("transfer-encoding") || name == text::bytes("content-range") || name
        == text::bytes("age") || name == text::bytes("date") || hop_by_hop(name))
}

fn is_updated(name: &[u8]) -> (r: bool)
    ensures
        r == updates(name@),
{
    !(text::same(name, "content-length".as_bytes()) || text::same(
        name,
        "content-encoding".as_bytes(),
    ) || text::same(name, "transfer-encoding".as_bytes()) || text::same(
        name,
        "content-range".as_bytes(),
    ) || text::same(name, "age".as_bytes()) || text::same(name, "date".as_bytes()) || is_hop_by_hop(
        name,
    ))
}

/// The fields with each field that a 304 carries and may change in place of the
/// stored one, with all of its values.
pub open spec fn overlaid(
    fields: Map<Seq<u8>, Seq<Seq<u8>>>,
    from_304: Map<Seq<u8>, Seq<Seq<u8>>>,
    names: Set<Seq<u8>>,
) -> Map<Seq<u8>, Seq<Seq<u8>>> {
    Map::new(
        |name: Seq<u8>| fields.contains_key(name) || (names.contains(name) && updates(name)),
        |name: Seq<u8>|
            if names.contains(name) && updates(name) {
                from_304[name]
            } else {
                fields[name]
            },
    )
}

/// The fields without those that a cache entry must not carry.
pub open spec fn stripped(fields: Map<Seq<u8>, Seq<Seq<u8>>>) -> Map<Seq<u8>, Seq<Seq<u8>>> {
    fields::without(
        fields::without(fields, text::bytes("set-cookie")),
        text::bytes("set-cookie2"),
    )
}

/// Remove the fields a cache entry must not carry. A stored `Set-Cookie` would keep
/// the cookie for as long as the entry lives, and nothing reads it back: cookies
/// are applied on the network path only.
pub fn strip_unstorable_fields(headers: &mut HeaderMap<HeaderValue>)
    ensures
        fields::header_fields(*final(headers)) == stripped(fields::header_fields(*old(headers))),
        fields::value_count(*final(headers)) <= fields::value_count(*old(headers)),
{
    remove_field(headers, "set-cookie".as_bytes());
    remove_field(headers, "set-cookie2".as_bytes());
}

/// Apply a 304's header fields to the merged response.
///
/// `http-cache-semantics` walks only the stored header fields and takes a single
/// value per field, so a field the 304 introduces is dropped and a field the 304
/// repeats keeps only its first value. RFC 9111 section 4.3.4 updates the stored
/// header fields with those from the 304, so each field the 304 carries replaces
/// the stored one outright, with all of its values.
pub fn apply_revalidation_headers(
    merged: HeaderMap<HeaderValue>,
    from_304: &HeaderMap<HeaderValue>,
) -> (r: HeaderMap<HeaderValue>)
    requires
        fields::header_fields(*from_304).dom().finite(),
        fields::has_room(
            fields::header_fields(merged),
            fields::header_fields(*from_304).dom().len() as int,
        ),
    ensures
        fields::header_fields(r) == stripped(
            overlaid(
                fields::header_fields(merged),
                fields::header_fields(*from_304),
                fields::header_fields(*from_304).dom(),
            ),
        ),
        fields::header_fields(r).dom().finite(),
        fields::header_fields(r).dom().len() <= fields::header_fields(merged).dom().len()
            + fields::header_fields(*from_304).dom().len(),
{
    let ghost base = fields::header_fields(merged);
    let ghost over = fields::header_fields(*from_304);
    let names: Vec<Vec<u8>> = fields::field_names(from_304);
    let ghost all = text::views(names@);
    proof {
        all.unique_seq_to_set();
    }
    let mut r: HeaderMap<HeaderValue> = merged;
    let mut i: usize = 0;
    assert(all.take(0).to_set() =~= Set::empty());
    assert(overlaid(base, over, Set::empty()) =~= base);
    while i < names.len()
        invariant
            i <= names@.len(),
            all == text::views(names@),
            all.no_duplicates(),
            all.to_set() == over.dom(),
            all.len() == over.dom().len(),
            over == fields::header_fields(*from_304),
            forall|j: int|
                0 <= j < names@.len() ==> fields::is_key(#[trigger] names@[j]@) && fields::values_of(over, names@[j]@).len() > 0,
            fields::has_room(base, over.dom().len() as int),
            fields::header_fields(r) == overlaid(base, over, all.take(i as int).to_set()),
            fields::header_fields(r).dom().finite(),
            fields::header_fields(r).dom().len() <= base.dom().len() + i,
        decreases names@.len() - i,
    {
        let ghost name = names@[i as int]@;
        let ghost so_far = fields::header_fields(r);
        let ghost done = all.take(i as int).to_set();
        assert(all[i as int] == name);
        proof {
            fields::lemma_key(name);
        }
        assert(all.take(i + 1).to_set() =~= done.insert(name)) by {
            assert(all.take(i + 1) =~= all.take(i as int).push(name));
            all.take(i as int).lemma_push_to_set_commute(name);
        }
        if is_updated(names[i].as_slice()) {
            let values: Vec<Vec<u8>> = field_values(from_304, names[i].as_slice());
            fields::replace_field(&mut r, names[i].as_slice(), &values);
            assert(fields::header_fields(r) =~= so_far.insert(name, over[name]));
            assert(overlaid(base, over, done.insert(name)) =~= so_far.insert(name, over[name]));
        } else {
            assert(overlaid(base, over, done.insert(name)) =~= so_far);
        }
        i += 1;
    }
    assert(all.take(i as int) =~= all);
    strip_unstorable_fields(&mut r);
    r
}

/// The fields that the refreshed policy of an entry is judged by: `Age` and `Date`
/// come from the 304 or from nowhere, since the entry has just been validated and
/// the stored values describe when it was first received.
pub open spec fn rejudged(
    merged: Map<Seq<u8>, Seq<Seq<u8>>>,
    from_304: Map<Seq<u8>, Seq<Seq<u8>>>,
) -> Map<Seq<u8>, Seq<Seq<u8>>> {
    with_or_without(
        with_or_without(merged, from_304, text::bytes("age")),
        from_304,
        text::bytes("date"),
    )
}

/// The fields with the first value that another message has of a field, or without
/// the field.
pub open spec fn with_or_without(
    fields: Map<Seq<u8>, Seq<Seq<u8>>>,
    other: Map<Seq<u8>, Seq<Seq<u8>>>,
    name: Seq<u8>,
) -> Map<Seq<u8>, Seq<Seq<u8>>> {
    match fields::first(other, name) {
        Some(value) => fields::with_field(fields, name, value),
        None => fields::without(fields, name),
    }
}

pub(crate) fn take_from(
    headers: &mut HeaderMap<HeaderValue>,
    other: &HeaderMap<HeaderValue>,
    name: &[u8],
)
    requires
        fields::is_name(name@),
        fields::has_room(fields::header_fields(*old(headers)), 0),
    ensures
        fields::header_fields(*final(headers)) == with_or_without(
            fields::header_fields(*old(headers)),
            fields::header_fields(*other),
            name@,
        ),
        fields::header_fields(*final(headers)).dom().finite(),
        fields::header_fields(*final(headers)).dom().len() <= fields::header_fields(
            *old(headers),
        ).dom().len() + 1,
{
    match fields::first_value(other, name) {
        Some(value) => set_field(headers, name, value.as_slice()),
        None => remove_field(headers, name),
    }
}

/// The fields whose `Vary` decides which credentials of a revalidation request stay
/// comparable: a 304 may introduce or change `Vary`, so both its values and the
/// stored ones count.
pub open spec fn vary_source(
    stored: Map<Seq<u8>, Seq<Seq<u8>>>,
    from_304: Map<Seq<u8>, Seq<Seq<u8>>>,
) -> Map<Seq<u8>, Seq<Seq<u8>>> {
    fields::replaced(
        stored,
        text::bytes("vary"),
        fields::field(stored, "vary") + fields::field(from_304, "vary"),
    )
}

/// The header fields of an entry that a revalidation response was merged into, if
/// its body may still be used.
pub open spec fn refreshed(
    policy: PolicyView,
    request: &Request,
    status: u16,
    fields: Map<Seq<u8>, Seq<Seq<u8>>>,
    stored: Map<Seq<u8>, Seq<Seq<u8>>>,
    now: Span,
) -> Option<Map<Seq<u8>, Seq<Seq<u8>>>> {
    let from_304 = validated(status, fields, stored);
    match revalidated(
        policy.status,
        policy.fields,
        policy_view(request, vary_source(stored, from_304)),
        status,
        from_304,
        now,
    ) {
        Some(merged) => Some(stripped(overlaid(merged, from_304, from_304.dom()))),
        None => None,
    }
}

impl EntryPolicy {
    /// What a policy for the given request and response is.
    pub open spec fn judges(
        &self,
        request: &Request,
        status: u16,
        fields: Map<Seq<u8>, Seq<Seq<u8>>>,
        response_time: Span,
    ) -> bool {
        &&& self.wf()
        &&& self@.judged == (PolicyView {
            request: policy_view(request, fields),
            status: spec_policy_status(status, fields),
            fields,
            response_time,
        })
    }

    /// The policy for a response that was just received.
    pub fn new(
        request: &Request,
        status: u16,
        headers: &HeaderMap<HeaderValue>,
        response_time: Span,
    ) -> (r: EntryPolicy)
        requires
            fetch::is_method(request.method@),
            fields::has_room(request.fields(), 0),
            100 <= status <= 999,
            is_date(response_time),
        ensures
            r.judges(request, status, fields::header_fields(*headers), response_time),
            r@.stale_while_revalidate == (Span {
                secs: directives::stale_window(fields::header_fields(*headers)),
                nanos: 0,
            }),
            fields::value_count(r.headers) == fields::value_count(*headers),
    {
        EntryPolicy {
            request: PolicyRequest::new(request, headers),
            status: policy_status(status, headers),
            headers: copy_fields(headers),
            response_time,
            stale_while_revalidate: Span::from_secs(directives::find_stale_window(headers)),
        }
    }

    /// A copy of the policy.
    pub fn copy(&self) -> (r: EntryPolicy)
        ensures
            r@ == self@,
            r.wf() == self.wf(),
            fields::value_count(r.headers) == fields::value_count(self.headers),
    {
        EntryPolicy {
            request: self.request.copy(),
            status: self.status,
            headers: copy_fields(&self.headers),
            response_time: self.response_time,
            stale_while_revalidate: self.stale_while_revalidate,
        }
    }

    /// Whether this response may be written to the cache at all.
    /// <https://httpwg.org/specs/rfc9111.html#response.cacheability>
    pub fn is_storable(&self) -> (r: bool)
        requires
            self.wf(),
        ensures
            r == storable(self@.judged),
    {
        policy_is_storable(self, SHARED)
    }

    /// The `stale-while-revalidate` window advertised by the response.
    pub fn stale_while_revalidate(&self) -> (r: Span)
        ensures
            r == self@.stale_while_revalidate,
    {
        self.stale_while_revalidate
    }

    /// How long the stored response has been sitting in caches.
    pub fn age(&self, now: Span) -> (r: Span)
        requires
            self.wf(),
            now.wf(),
            self.age_fits(now),
        ensures
            r.wf(),
            r.total() == spec_age(
                fields::header_fields(self.headers),
                self.response_time,
                now,
            ),
    {
        let secs: u64 = find_age_secs(&self.headers);
        let resident: Span = now.saturating_sub(&self.response_time);
        match Span::from_secs(secs).checked_add(&resident) {
            Some(age) => age,
            None => Span::zero(),
        }
    }

    /// The freshness lifetime the response was stored with. `http-cache-semantics`
    /// only exposes the remaining time to live, which saturates at zero once the
    /// entry is stale, so it is recovered from the age at the time the entry was
    /// stored.
    pub fn freshness_lifetime(&self) -> (r: Span)
        requires
            self.wf(),
        ensures
            r.wf(),
            r.total() == stored_lifetime(self@.judged),
    {
        let left: Span = policy_time_to_live(self, SHARED);
        let age: Span = self.age(self.response_time);
        match left.checked_add(&age) {
            Some(sum) => sum,
            None => Span::zero(),
        }
    }

    /// What this entry can do for a request. `stored_headers` are the stored
    /// response's, whose `Vary` has to be applied to the presented request in the
    /// same way it was applied when the entry was written. See
    /// [`PolicyRequest::new`].
    pub fn evaluate(
        &self,
        request: &Request,
        stored_headers: &HeaderMap<HeaderValue>,
        now: Span,
    ) -> (r: Freshness)
        requires
            self.wf(),
            self.comparable(now),
            fetch::is_method(request.method@),
            fields::has_room(request.fields(), 2),
            fields::value_count(request.headers) <= fields::MAX_VALUES,
        ensures
            is_freshness(
                r,
                verdict(self@.judged, policy_view(request, fields::header_fields(*stored_headers)), now),
                spec_age(fields::header_fields(self.headers), self.response_time, now),
                stored_lifetime(self@.judged),
            ),
    {
        let presented: PolicyRequest = PolicyRequest::new(request, stored_headers);
        proof {
            lemma_redacted_room(request.fields(), fields::header_fields(*stored_headers));
        }
        let verdict: Verdict = match policy_before_request(
            self.request.copy(),
            self.status,
            copy_fields(&self.headers),
            self.response_time,
            presented,
            now,
            SHARED,
        ) {
            None => Verdict::Fresh,
            Some((matches, revalidation)) => Verdict::Stale { matches, revalidation },
        };
        freshness_of(verdict, self.age(now), self.freshness_lifetime())
    }

    /// Merge a revalidation response into this policy.
    /// <https://httpwg.org/specs/rfc9111.html#freshening.responses>
    ///
    /// Returns the refreshed policy and the merged response headers when the
    /// stored body may still be used, and `None` when it may not.
    pub fn refresh(
        &self,
        request: &Request,
        stored_status: u16,
        status: u16,
        headers: &HeaderMap<HeaderValue>,
        stored_headers: &HeaderMap<HeaderValue>,
        now: Span,
    ) -> (r: Option<(EntryPolicy, HeaderMap<HeaderValue>)>)
        requires
            self.wf(),
            is_date(now),
            fetch::is_method(request.method@),
            fields::has_room(request.fields(), 0),
            100 <= stored_status <= 999,
            100 <= status <= 999,
            fields::has_room(fields::header_fields(*stored_headers), 1),
            fields::header_fields(self.headers).dom().finite(),
            fields::has_room(
                fields::header_fields(*headers),
                fields::header_fields(self.headers).dom().len() as int + 6,
            ),
            fields::value_count(*headers) + 2 <= fields::MAX_VALUES,
        ensures
            match refreshed(
                self@.judged,
                request,
                status,
                fields::header_fields(*headers),
                fields::header_fields(*stored_headers),
                now,
            ) {
                Some(merged) => {
                    &&& r is Some
                    &&& fields::header_fields((r->0).1) == merged
                    &&& (r->0).0.judges(
                        request,
                        stored_status,
                        rejudged(
                            merged,
                            validated(
                                status,
                                fields::header_fields(*headers),
                                fields::header_fields(*stored_headers),
                            ),
                        ),
                        now,
                    )
                    &&& (r->0).0@.stale_while_revalidate == (Span {
                        secs: directives::stale_window(merged),
                        nanos: 0,
                    })
                },
                None => r is None,
            },
    {
        let headers: HeaderMap<HeaderValue> = validator_for_revalidation(
            status,
            headers,
            stored_headers,
        );
        let mut source: HeaderMap<HeaderValue> = copy_fields(stored_headers);
        let mut values: Vec<Vec<u8>> = field_values(stored_headers, "vary".as_bytes());
        let mut added: Vec<Vec<u8>> = field_values(&headers, "vary".as_bytes());
        let ghost before = text::views(values@);
        let ghost more = text::views(added@);
        values.append(&mut added);
        assert(text::views(values@) =~= before + more);
        proof {
            fields::lemma_names();
        }
        proof {
            fields::lemma_name_key(text::bytes("vary"));
        }
        fields::replace_field(&mut source, "vary".as_bytes(), &values);
        let presented: PolicyRequest = PolicyRequest::new(request, &source);
        let merged: HeaderMap<HeaderValue> = match policy_after_response(
            self.status,
            copy_fields(&self.headers),
            presented,
            status,
            copy_fields(&headers),
            now,
            SHARED,
        ) {
            Some(merged) => merged,
            None => return None,
        };
        let merged: HeaderMap<HeaderValue> = apply_revalidation_headers(merged, &headers);
        let mut judged: HeaderMap<HeaderValue> = copy_fields(&merged);
        take_from(&mut judged, &headers, "age".as_bytes());
        take_from(&mut judged, &headers, "date".as_bytes());
        let mut policy: EntryPolicy = EntryPolicy::new(request, stored_status, &judged, now);
        policy.stale_while_revalidate = Span::from_secs(directives::find_stale_window(&merged));
        Some((policy, merged))
    }
}

/// Redacting credentials adds no fields.
proof fn lemma_redacted_room(
    request: Map<Seq<u8>, Seq<Seq<u8>>>,
    response: Map<Seq<u8>, Seq<Seq<u8>>>,
)
    requires
        request.dom().finite(),
    ensures
        redacted(request, response).dom().finite(),
        redacted(request, response).dom().len() <= request.dom().len(),
{
    let a = redacted_field(request, response, text::bytes("cookie"));
    lemma_redacted_field_room(request, response, text::bytes("cookie"));
    let b = redacted_field(a, response, text::bytes("authorization"));
    lemma_redacted_field_room(a, response, text::bytes("authorization"));
    lemma_redacted_field_room(b, response, text::bytes("proxy-authorization"));
}

proof fn lemma_redacted_field_room(
    request: Map<Seq<u8>, Seq<Seq<u8>>>,
    response: Map<Seq<u8>, Seq<Seq<u8>>>,
    name: Seq<u8>,
)
    requires
        request.dom().finite(),
    ensures
        redacted_field(request, response, name).dom().finite(),
        redacted_field(request, response, name).dom().len() <= request.dom().len(),
{
    if fields::values_of(request, name).len() > 0 {
        assert(request.contains_key(text::lower(name)));
        if nominates(response, name) {
            assert(redacted_field(request, response, name).dom() =~= request.dom());
        }
    }
}

/// Whether the request itself demands revalidation.
pub open spec fn demands_revalidation(request: &Request) -> bool {
    ||| request.cache_mode == CacheMode::NoCache
    ||| request.cache_mode == CacheMode::Reload
    ||| request.cache_mode == CacheMode::NoStore
    ||| fields::directives(request.fields()) matches Some(d) && (d.no_cache || d.max_age == Some(
        0u64,
    ))
}

/// Whether the request itself demands revalidation, which suppresses serving a
/// stale response from the `stale-while-revalidate` window.
/// <https://www.rfc-editor.org/rfc/rfc9111.html#section-5.2.1>
///
/// The request's `no-store` directive is deliberately not treated as demanding
/// revalidation: it does not apply to the already stored response.
pub fn request_demands_revalidation(request: &Request) -> (r: bool)
    ensures
        r == demands_revalidation(request),
{
    if request.cache_mode == CacheMode::NoCache || request.cache_mode == CacheMode::Reload
        || request.cache_mode == CacheMode::NoStore {
        return true;
    }
    match fields::cache_control(&request.headers) {
        Some(d) => {
            if d.no_cache {
                return true;
            }
            match d.max_age {
                Some(secs) => secs == 0,
                None => false,
            }
        },
        None => false,
    }
}

/// Whether a `Connection` field nominates the field `name`.
pub open spec fn nominated_hop(fields: Map<Seq<u8>, Seq<Seq<u8>>>, name: Seq<u8>) -> bool {
    exists|i: int|
        0 <= i < text::items(fields::field(fields, "connection")).len() && text::lower(
            #[trigger] text::items(fields::field(fields, "connection"))[i],
        ) == name
}

/// Whether a stored field is served from the cache.
pub open spec fn is_served(fields: Map<Seq<u8>, Seq<Seq<u8>>>, name: Seq<u8>) -> bool {
    !hop_by_hop(name) && !nominated_hop(fields, name)
}

/// The header fields a cached response is served with.
pub open spec fn presented(
    stored: Map<Seq<u8>, Seq<Seq<u8>>>,
    age_secs: nat,
    now: Span,
) -> Map<Seq<u8>, Seq<Seq<u8>>> {
    fields::with_field(
        fields::with_field(
            served(stored, stored.dom()),
            text::bytes("age"),
            text::decimal_text(age_secs),
        ),
        text::bytes("date"),
        fields::http_date_text(now.secs),
    )
}

/// Those of the named fields that are served from the cache.
pub open spec fn served(
    stored: Map<Seq<u8>, Seq<Seq<u8>>>,
    names: Set<Seq<u8>>,
) -> Map<Seq<u8>, Seq<Seq<u8>>> {
    Map::new(
        |name: Seq<u8>| names.contains(name) && is_served(stored, name),
        |name: Seq<u8>| stored[name],
    )
}

fn check_nominated_hop(options: &Vec<Vec<u8>>, name: &[u8]) -> (r: bool)
    ensures
        r == exists|i: int|
            0 <= i < text::views(options@).len() && text::lower(
                #[trigger] text::views(options@)[i],
            ) == name@,
{
    let ghost all = text::views(options@);
    let mut i: usize = 0;
    while i < options.len()
        invariant
            i <= options@.len(),
            all == text::views(options@),
            forall|j: int| 0 <= j < i ==> text::lower(#[trigger] all[j]) != name@,
        decreases options@.len() - i,
    {
        let option: Vec<u8> = text::to_lower(options[i].as_slice());
        assert(all[i as int] == options@[i as int]@);
        if text::same(option.as_slice(), name) {
            assert(text::lower(all[i as int]) == name@);
            return true;
        }
        i += 1;
    }
    false
}

/// The header fields a cached response is served with: the stored ones without
/// hop-by-hop fields, with `Age` and `Date` brought up to date.
/// <https://httpwg.org/specs/rfc9111.html#constructing.responses.from.caches>
pub fn presented_headers(
    stored: &HeaderMap<HeaderValue>,
    policy: &EntryPolicy,
    now: Span,
) -> (r: HeaderMap<HeaderValue>)
    requires
        policy.wf(),
        policy.age_fits(now),
        is_date(now),
        fields::has_room(fields::header_fields(*stored), 2),
    ensures
        fields::header_fields(r) == presented(
            fields::header_fields(*stored),
            (spec_age(fields::header_fields(policy.headers), policy.response_time, now)
                / 1_000_000_000) as nat,
            now,
        ),
{
    let ghost all_fields = fields::header_fields(*stored);
    let values: Vec<Vec<u8>> = field_values(stored, "connection".as_bytes());
    let options: Vec<Vec<u8>> = text::field_items(&values);
    let names: Vec<Vec<u8>> = fields::field_names(stored);
    let ghost all = text::views(names@);
    proof {
        all.unique_seq_to_set();
    }
    let mut r: HeaderMap<HeaderValue> = fields::no_fields();
    let mut i: usize = 0;
    assert(all.take(0).to_set() =~= Set::empty());
    assert(served(all_fields, Set::empty()) =~= fields::nothing());
    while i < names.len()
        invariant
            i <= names@.len(),
            all == text::views(names@),
            all.no_duplicates(),
            all.to_set() == all_fields.dom(),
            all.len() == all_fields.dom().len(),
            all_fields == fields::header_fields(*stored),
            text::views(options@) == text::items(fields::field(all_fields, "connection")),
            forall|j: int|
                0 <= j < names@.len() ==> fields::is_key(#[trigger] names@[j]@) && fields::values_of(all_fields, names@[j]@).len() > 0,
            fields::has_room(all_fields, 2),
            fields::header_fields(r) == served(all_fields, all.take(i as int).to_set()),
            fields::header_fields(r).dom().finite(),
            fields::header_fields(r).dom().len() <= i,
        decreases names@.len() - i,
    {
        let ghost name = names@[i as int]@;
        let ghost so_far = fields::header_fields(r);
        let ghost done = all.take(i as int).to_set();
        assert(all[i as int] == name);
        proof {
            fields::lemma_key(name);
        }
        assert(all.take(i + 1).to_set() =~= done.insert(name)) by {
            assert(all.take(i + 1) =~= all.take(i as int).push(name));
            all.take(i as int).lemma_push_to_set_commute(name);
        }
        if is_hop_by_hop(names[i].as_slice()) || check_nominated_hop(
            &options,
            names[i].as_slice(),
        ) {
            assert(!is_served(all_fields, name));
            assert(served(all_fields, done.insert(name)) =~= so_far);
        } else {
            assert(is_served(all_fields, name));
            let values: Vec<Vec<u8>> = field_values(stored, names[i].as_slice());
            fields::replace_field(&mut r, names[i].as_slice(), &values);
            assert(fields::header_fields(r) =~= so_far.insert(name, all_fields[name]));
            assert(served(all_fields, done.insert(name)) =~= so_far.insert(
                name,
                all_fields[name],
            ));
        }
        i += 1;
    }
    assert(all.take(i as int) =~= all);
    let age: Span = policy.age(now);
    let age: Vec<u8> = text::render_decimal(age.secs);
    let date: Vec<u8> = fields::http_date(now.secs);
    proof {
        fields::lemma_names();
        text::lemma_decimal_text(age_of(policy, now));
    }
    set_field(&mut r, "age".as_bytes(), age.as_slice());
    set_field(&mut r, "date".as_bytes(), date.as_slice());
    r
}

spec fn age_of(policy: &EntryPolicy, now: Span) -> nat {
    (spec_age(fields::header_fields(policy.headers), policy.response_time, now) / 1_000_000_000)
        as nat
}

/// No credential of a request is kept in what a policy remembers of it: each of the
/// credential fields is gone, or replaced by a digest of its values.
pub proof fn law_credentials_are_not_kept(
    request: Map<Seq<u8>, Seq<Seq<u8>>>,
    response: Map<Seq<u8>, Seq<Seq<u8>>>,
    name: &str,
)
    requires
        name@ == "cookie"@ || name@ == "authorization"@ || name@ == "proxy-authorization"@,
    ensures
        fields::field(redacted(request, response), name).len() == 0 || fields::field(
            redacted(request, response),
            name,
        ) == seq![spec_digest_of(fields::field(request, name))],
{
    lemma_credential_names();
}

/// Redacting the credentials of a request leaves every other field as it was.
pub proof fn law_other_fields_are_kept(
    request: Map<Seq<u8>, Seq<Seq<u8>>>,
    response: Map<Seq<u8>, Seq<Seq<u8>>>,
    name: Seq<u8>,
)
    requires
        text::lower(name) != text::bytes("cookie"),
        text::lower(name) != text::bytes("authorization"),
        text::lower(name) != text::bytes("proxy-authorization"),
    ensures
        fields::values_of(redacted(request, response), name) == fields::values_of(request, name),
{
    lemma_credential_names();
}

proof fn lemma_credential_names()
    ensures
        text::lower(text::bytes("cookie")) == text::bytes("cookie"),
        text::lower(text::bytes("authorization")) == text::bytes("authorization"),
        text::lower(text::bytes("proxy-authorization")) == text::bytes("proxy-authorization"),
        text::bytes("cookie") != text::bytes("authorization"),
        text::bytes("cookie") != text::bytes("proxy-authorization"),
        text::bytes("authorization") != text::bytes("proxy-authorization"),
{
    reveal_strlit("cookie");
    reveal_strlit("authorization");
    reveal_strlit("proxy-authorization");
    fields::lemma_ascii_bytes("cookie");
    fields::lemma_ascii_bytes("authorization");
    fields::lemma_ascii_bytes("proxy-authorization");
    assert(text::lower(text::bytes("cookie")) =~= text::bytes("cookie"));
    assert(text::lower(text::bytes("authorization")) =~= text::bytes("authorization"));
    assert(text::lower(text::bytes("proxy-authorization")) =~= text::bytes("proxy-authorization"));
    assert(text::bytes("cookie").len() == 6);
    assert(text::bytes("authorization").len() == 13);
    assert(text::bytes("proxy-authorization").len() == 19);
}

pub proof fn lemma_cookie_names()
    ensures
        text::lower(text::bytes("age")) == text::bytes("age"),
        text::lower(text::bytes("date")) == text::bytes("date"),
        text::lower(text::bytes("set-cookie")) == text::bytes("set-cookie"),
        text::lower(text::bytes("set-cookie2")) == text::bytes("set-cookie2"),
        text::bytes("age").len() == 3,
        text::bytes("date").len() == 4,
        text::bytes("set-cookie").len() == 10,
        text::bytes("set-cookie2").len() == 11,
{
    reveal_strlit("age");
    reveal_strlit("date");
    reveal_strlit("set-cookie");
    reveal_strlit("set-cookie2");
    fields::lemma_ascii_bytes("age");
    fields::lemma_ascii_bytes("date");
    fields::lemma_ascii_bytes("set-cookie");
    fields::lemma_ascii_bytes("set-cookie2");
    assert(text::lower(text::bytes("age")) =~= text::bytes("age"));
    assert(text::lower(text::bytes("date")) =~= text::bytes("date"));
    assert(text::lower(text::bytes("set-cookie")) =~= text::bytes("set-cookie"));
    assert(text::lower(text::bytes("set-cookie2")) =~= text::bytes("set-cookie2"));
}

/// What is stored of a response never holds a cookie that it sets.
pub proof fn law_cookies_are_not_stored(fields: Map<Seq<u8>, Seq<Seq<u8>>>)
    ensures
        !fields::present(stripped(fields), "set-cookie"),
        !fields::present(stripped(fields), "set-cookie2"),
{
}

/// A stored response is served without the fields that concern one connection only,
/// but for `Age` and `Date`, which it always has.
pub proof fn law_served_without_hop_by_hop_fields(
    stored: Map<Seq<u8>, Seq<Seq<u8>>>,
    age_secs: nat,
    now: Span,
    name: Seq<u8>,
)
    requires
        text::lower(name) == name,
    ensures
        hop_by_hop(name) ==> fields::values_of(presented(stored, age_secs, now), name).len() == 0,
        nominated_hop(stored, name) && name != text::bytes("age") && name != text::bytes("date")
            ==> fields::values_of(presented(stored, age_secs, now), name).len() == 0,
        fields::present(presented(stored, age_secs, now), "age"),
        fields::present(presented(stored, age_secs, now), "date"),
{
    reveal_strlit("age");
    reveal_strlit("date");
    reveal_strlit("connection");
    reveal_strlit("keep-alive");
    reveal_strlit("proxy-authenticate");
    reveal_strlit("proxy-authorization");
    reveal_strlit("te");
    reveal_strlit("trailer");
    reveal_strlit("transfer-encoding");
    reveal_strlit("upgrade");
    fields::lemma_ascii_bytes("age");
    fields::lemma_ascii_bytes("date");
    fields::lemma_ascii_bytes("connection");
    fields::lemma_ascii_bytes("keep-alive");
    fields::lemma_ascii_bytes("proxy-authenticate");
    fields::lemma_ascii_bytes("proxy-authorization");
    fields::lemma_ascii_bytes("te");
    fields::lemma_ascii_bytes("trailer");
    fields::lemma_ascii_bytes("transfer-encoding");
    fields::lemma_ascii_bytes("upgrade");
    assert(text::lower(text::bytes("age")) =~= text::bytes("age"));
    assert(text::lower(text::bytes("date")) =~= text::bytes("date"));
    assert(!hop_by_hop(text::bytes("age")));
    assert(!hop_by_hop(text::bytes("date"))) by {
        assert(text::bytes("date").len() == 4);
        assert(text::bytes("te").len() == 2);
    }
}

/// What is kept of a credential is whether two requests presented the same one, and that
/// only where the response was chosen by it: one that the response names in `Vary` is kept
/// as a digest of all its values, and any other is gone.
pub proof fn law_credentials_are_kept_where_named(
    request: Map<Seq<u8>, Seq<Seq<u8>>>,
    response: Map<Seq<u8>, Seq<Seq<u8>>>,
    name: &str,
)
    requires
        name@ == "cookie"@ || name@ == "authorization"@ || name@ == "proxy-authorization"@,
    ensures
        fields::field(redacted(request, response), name) == if fields::field(request, name).len()
            > 0 && (exists|i: int|
            0 <= i < text::items(fields::field(response, "vary")).len() && nominated_by(
                #[trigger] text::items(fields::field(response, "vary"))[i],
                text::bytes(name),
            )) {
            seq![text::hex(digest::sha1_of(joined(fields::field(request, name))))]
        } else {
            seq![]
        },
{
    lemma_credential_names();
}

/// A response is as old as its `Age` field says at the moment it is received, and from then
/// on its age grows by the time that passes. A clock that was set back takes nothing off.
pub proof fn law_age_grows_with_time(
    fields: Map<Seq<u8>, Seq<Seq<u8>>>,
    response_time: Span,
    now: Span,
    later: Span,
)
    requires
        now.total() <= later.total(),
    ensures
        spec_age(fields, response_time, response_time) == age_secs(fields) * 1_000_000_000,
        response_time.total() <= now.total() ==> spec_age(fields, response_time, later)
            - spec_age(fields, response_time, now) == later.total() - now.total(),
        now.total() <= response_time.total() ==> spec_age(fields, response_time, now)
            == age_secs(fields) * 1_000_000_000,
        spec_age(fields, response_time, now) <= spec_age(fields, response_time, later),
{
}

/// The number in an `Age` field counts, where there is one that can be read.
pub proof fn law_age_field(fields: Map<Seq<u8>, Seq<Seq<u8>>>, secs: u64)
    ensures
        fields::field(fields, "age").len() == 0 ==> age_secs(fields) == 0,
        fields::field(fields, "age").len() > 0 && fields::field(fields, "age")[0]
            == text::decimal_text(secs as nat) ==> age_secs(fields) == secs,
{
    text::lemma_decimal_text(secs as nat);
    let v = text::decimal_text(secs as nat);
    assert(text::is_text(v));
}

/// A stale response is stale for as long as its age exceeds its lifetime, and a response
/// that matches nothing has no such time.
pub proof fn law_staleness(r: Freshness, verdict: VerdictView, age: int, lifetime: int)
    requires
        is_freshness(r, verdict, age, lifetime),
    ensures
        r is Fresh <==> verdict is Fresh,
        r is NoMatch <==> (verdict matches VerdictView::Stale { matches, revalidation }
            && !matches),
        r matches Freshness::Stale { stale_for, revalidation } ==> stale_for.total() >= 0
            && stale_for.total() >= age - lifetime && (stale_for.total() == 0
            || stale_for.total() == age - lifetime),
{
}

/// A response lives at least as long as it was old when it came, and otherwise as long as
/// it was given.
pub proof fn law_lifetime(policy: PolicyView)
    ensures
        stored_lifetime(policy) >= lifetime(policy),
        stored_lifetime(policy) >= age_secs(policy.fields) * 1_000_000_000,
        stored_lifetime(policy) == lifetime(policy) || stored_lifetime(policy) == age_secs(
            policy.fields,
        ) * 1_000_000_000,
{
}

/// A response is judged under its own status, but for one that is not cacheable by itself
/// and says for how long it is fresh: that is judged as an ordinary one. Statuses that
/// describe no final response, and that of a revalidation, stay what they are.
pub proof fn law_policy_status(status: u16, fields: Map<Seq<u8>, Seq<Seq<u8>>>)
    ensures
        spec_policy_status(status, fields) == status || spec_policy_status(status, fields) == 200,
        status < 400 && status != 205 && status != 206 && status != 201 && status != 202 && status
            != 305 && status != 306 && !(207 <= status < 300) && !(309 <= status) && 100 <= status
            ==> spec_policy_status(status, fields) == status,
        status == 404 || status == 405 || status == 410 || status == 414 || status == 501
            ==> spec_policy_status(status, fields) == status,
        !fields::present(fields, "expires") && (fields::directives(fields) matches Some(d)
            ==> d.max_age is None && !d.public && !d.private) ==> spec_policy_status(status, fields)
            == status,
        (status == 201 || status == 206 || status == 403 || status == 500 || status == 503) && (
        fields::present(fields, "expires") || (fields::directives(fields) matches Some(d) && (
        d.max_age is Some || d.public || d.private))) ==> spec_policy_status(status, fields) == 200,
{
}

/// What a 304 says of a field takes the place of what was stored, but for the fields that
/// are about the body or about one message: these stay as they were stored, and so does
/// every field that the 304 does not have.
pub proof fn law_revalidation_updates_fields(
    stored: Map<Seq<u8>, Seq<Seq<u8>>>,
    from_304: Map<Seq<u8>, Seq<Seq<u8>>>,
    name: Seq<u8>,
)
    ensures
        ({
            let fresh = overlaid(stored, from_304, from_304.dom());
            &&& !from_304.contains_key(name) ==> fresh.contains_key(name) == stored.contains_key(
                name,
            ) && (stored.contains_key(name) ==> fresh[name] == stored[name])
            &&& name == text::bytes("content-length") || name == text::bytes("content-encoding")
                || name == text::bytes("transfer-encoding") || name == text::bytes("content-range")
                || name == text::bytes("age") || name == text::bytes("date") || name
                == text::bytes("connection") ==> fresh.contains_key(name) == stored.contains_key(
                name,
            ) && (stored.contains_key(name) ==> fresh[name] == stored[name])
            &&& (name == text::bytes("etag") || name == text::bytes("last-modified") || name
                == text::bytes("cache-control") || name == text::bytes("expires") || name
                == text::bytes("vary")) && from_304.contains_key(name) ==> fresh.contains_key(name)
                && fresh[name] == from_304[name]
        }),
{
    lemma_updated_names();
}

proof fn lemma_updated_names()
    ensures
        updates(text::bytes("etag")),
        updates(text::bytes("last-modified")),
        updates(text::bytes("cache-control")),
        updates(text::bytes("expires")),
        updates(text::bytes("vary")),
{
    reveal_strlit("etag");
    reveal_strlit("last-modified");
    reveal_strlit("cache-control");
    reveal_strlit("expires");
    reveal_strlit("vary");
    reveal_strlit("content-length");
    reveal_strlit("content-encoding");
    reveal_strlit("transfer-encoding");
    reveal_strlit("content-range");
    reveal_strlit("age");
    reveal_strlit("date");
    reveal_strlit("connection");
    reveal_strlit("keep-alive");
    reveal_strlit("proxy-authenticate");
    reveal_strlit("proxy-authorization");
    reveal_strlit("te");
    reveal_strlit("trailer");
    reveal_strlit("upgrade");
    fields::lemma_ascii_bytes("etag");
    fields::lemma_ascii_bytes("last-modified");
    fields::lemma_ascii_bytes("cache-control");
    fields::lemma_ascii_bytes("expires");
    fields::lemma_ascii_bytes("vary");
    fields::lemma_ascii_bytes("content-length");
    fields::lemma_ascii_bytes("content-encoding");
    fields::lemma_ascii_bytes("transfer-encoding");
    fields::lemma_ascii_bytes("content-range");
    fields::lemma_ascii_bytes("age");
    fields::lemma_ascii_bytes("date");
    fields::lemma_ascii_bytes("connection");
    fields::lemma_ascii_bytes("keep-alive");
    fields::lemma_ascii_bytes("proxy-authenticate");
    fields::lemma_ascii_bytes("proxy-authorization");
    fields::lemma_ascii_bytes("te");
    fields::lemma_ascii_bytes("trailer");
    fields::lemma_ascii_bytes("upgrade");
    assert(text::bytes("etag")[0] == 101u8);
    assert(text::bytes("last-modified")[0] == 108u8);
    assert(text::bytes("cache-control")[0] == 99u8 && text::bytes("cache-control")[1] == 97u8);
    assert(text::bytes("expires")[0] == 101u8);
    assert(text::bytes("vary")[0] == 118u8);
    assert(text::bytes("content-length")[1] == 111u8);
    assert(text::bytes("content-length")[0] == 99u8);
    assert(text::bytes("content-encoding")[1] == 111u8);
    assert(text::bytes("content-encoding")[0] == 99u8);
    assert(text::bytes("content-range")[1] == 111u8);
    assert(text::bytes("content-range")[0] == 99u8);
    assert(text::bytes("connection")[1] == 111u8);
    assert(text::bytes("connection")[0] == 99u8);
    assert(text::bytes("transfer-encoding")[0] == 116u8);
    assert(text::bytes("age")[0] == 97u8);
    assert(text::bytes("date")[0] == 100u8);
    assert(text::bytes("keep-alive")[0] == 107u8);
    assert(text::bytes("proxy-authenticate")[0] == 112u8);
    assert(text::bytes("proxy-authorization")[0] == 112u8);
    assert(text::bytes("te")[0] == 116u8);
    assert(text::bytes("trailer")[0] == 116u8);
    assert(text::bytes("upgrade")[0] == 117u8);
}

/// A 304 without a validator of its own confirms the one that was asked with: it counts as
/// one with the `ETag` and the `Last-Modified` of the stored response. Any other response
/// speaks for itself.
pub proof fn law_revalidation_confirms_the_validator(
    status: u16,
    fields: Map<Seq<u8>, Seq<Seq<u8>>>,
    stored: Map<Seq<u8>, Seq<Seq<u8>>>,
)
    ensures
        status != 304 ==> validated(status, fields, stored) == fields,
        fields::present(fields, "etag") || fields::present(fields, "last-modified") ==> validated(
            status,
            fields,
            stored,
        ) == fields,
        status == 304 && !fields::present(fields, "etag") && !fields::present(
            fields,
            "last-modified",
        ) ==> {
            let counted = validated(status, fields, stored);
            &&& fields::first(counted, text::bytes("etag")) == fields::first(
                stored,
                text::bytes("etag"),
            )
            &&& fields::first(counted, text::bytes("last-modified")) == fields::first(
                stored,
                text::bytes("last-modified"),
            )
        },
{
    reveal_strlit("etag");
    reveal_strlit("last-modified");
    fields::lemma_ascii_bytes("etag");
    fields::lemma_ascii_bytes("last-modified");
    assert(text::lower(text::bytes("etag")).len() == 4);
    assert(text::lower(text::bytes("last-modified")).len() == 13);
}

/// A stored response is served with every field that it was stored with but for those of
/// one connection, with an `Age` that is read back as its age, and with the time as `Date`.
pub proof fn law_served_fields(
    stored: Map<Seq<u8>, Seq<Seq<u8>>>,
    age_secs: u64,
    now: Span,
    name: Seq<u8>,
)
    requires
        text::lower(name) == name,
        name != text::bytes("age"),
        name != text::bytes("date"),
    ensures
        ({
            let served = presented(stored, age_secs as nat, now);
            &&& fields::field(served, "age").len() == 1
            &&& text::decimal(fields::field(served, "age")[0]) == Some(age_secs)
            &&& fields::field(served, "date") == seq![fields::http_date_text(now.secs)]
            &&& name == text::bytes("connection") || name == text::bytes("keep-alive") || name
                == text::bytes("proxy-authenticate") || name == text::bytes("proxy-authorization")
                || name == text::bytes("te") || name == text::bytes("trailer") || name
                == text::bytes("transfer-encoding") || name == text::bytes("upgrade")
                ==> fields::values_of(served, name).len() == 0
            &&& !hop_by_hop(name) && !nominated_hop(stored, name) ==> fields::values_of(
                served,
                name,
            ) == fields::values_of(stored, name)
            &&& name == text::bytes("content-type") || name == text::bytes("etag") || name
                == text::bytes("cache-control") || name == text::bytes("vary") ==> !hop_by_hop(name)
        }),
{
    lemma_cookie_names();
    lemma_updated_names();
    text::lemma_decimal_text(age_secs as nat);
    assert(text::bytes("age") != text::bytes("date"));
    reveal_strlit("content-type");
    fields::lemma_ascii_bytes("content-type");
    lemma_content_type();
}

proof fn lemma_content_type()
    ensures
        !hop_by_hop(text::bytes("content-type")),
{
    reveal_strlit("content-type");
    reveal_strlit("connection");
    reveal_strlit("keep-alive");
    reveal_strlit("proxy-authenticate");
    reveal_strlit("proxy-authorization");
    reveal_strlit("te");
    reveal_strlit("trailer");
    reveal_strlit("transfer-encoding");
    reveal_strlit("upgrade");
    fields::lemma_ascii_bytes("content-type");
    fields::lemma_ascii_bytes("connection");
    fields::lemma_ascii_bytes("keep-alive");
    fields::lemma_ascii_bytes("proxy-authenticate");
    fields::lemma_ascii_bytes("proxy-authorization");
    fields::lemma_ascii_bytes("te");
    fields::lemma_ascii_bytes("trailer");
    fields::lemma_ascii_bytes("transfer-encoding");
    fields::lemma_ascii_bytes("upgrade");
    assert(text::bytes("content-type").len() == 12);
    assert(text::bytes("connection").len() == 10);
    assert(text::bytes("keep-alive").len() == 10);
    assert(text::bytes("proxy-authenticate").len() == 18);
    assert(text::bytes("proxy-authorization").len() == 19);
    assert(text::bytes("te").len() == 2);
    assert(text::bytes("trailer").len() == 7);
    assert(text::bytes("transfer-encoding").len() == 17);
    assert(text::bytes("upgrade").len() == 7);
}

/// A request insists on revalidation by its mode, by `no-cache` or by a `max-age` of
/// nothing, and in no other way.
pub proof fn law_insisting(request: &Request)
    ensures
        request.cache_mode == CacheMode::NoCache ==> demands_revalidation(request),
        fields::directives(request.fields()) matches Some(d) && d.no_cache ==> demands_revalidation(
            request,
        ),
        fields::directives(request.fields()) matches Some(d) && d.max_age == Some(0u64)
            ==> demands_revalidation(request),
        (request.cache_mode == CacheMode::Default || request.cache_mode == CacheMode::ForceCache
            || request.cache_mode == CacheMode::OnlyIfCached) && (fields::directives(
            request.fields(),
        ) matches Some(d) ==> !d.no_cache && d.max_age != Some(0u64)) ==> !demands_revalidation(
            request,
        ),
{
}

/// A validated entry is judged by the age and the date of the confirmation, or by none where
/// that has none, and by its merged fields otherwise.
pub proof fn law_rejudged_fields(
    merged: Map<Seq<u8>, Seq<Seq<u8>>>,
    from_304: Map<Seq<u8>, Seq<Seq<u8>>>,
    name: Seq<u8>,
)
    ensures
        fields::first(rejudged(merged, from_304), text::bytes("age")) == fields::first(
            from_304,
            text::bytes("age"),
        ),
        fields::first(rejudged(merged, from_304), text::bytes("date")) == fields::first(
            from_304,
            text::bytes("date"),
        ),
        fields::field(rejudged(merged, from_304), "age").len() <= 1,
        fields::field(rejudged(merged, from_304), "date").len() <= 1,
        text::lower(name) != text::lower(text::bytes("age")) && text::lower(name) != text::lower(
            text::bytes("date"),
        ) ==> fields::values_of(rejudged(merged, from_304), name) == fields::values_of(
            merged,
            name,
        ),
{
    reveal_strlit("age");
    reveal_strlit("date");
    fields::lemma_ascii_bytes("age");
    fields::lemma_ascii_bytes("date");
    assert(text::lower(text::bytes("age")).len() == 3);
    assert(text::lower(text::bytes("date")).len() == 4);
}

/// What a response varies by after a confirmation is what it varied by before and what the
/// confirmation adds.
pub proof fn law_vary_after_confirmation(
    stored: Map<Seq<u8>, Seq<Seq<u8>>>,
    from_304: Map<Seq<u8>, Seq<Seq<u8>>>,
    value: Seq<u8>,
    name: Seq<u8>,
)
    ensures
        fields::field(stored, "vary").contains(value) || fields::field(from_304, "vary").contains(
            value,
        ) ==> fields::field(vary_source(stored, from_304), "vary").contains(value),
        fields::field(vary_source(stored, from_304), "vary").len() == fields::field(
            stored,
            "vary",
        ).len() + fields::field(from_304, "vary").len(),
        text::lower(name) != text::lower(text::bytes("vary")) ==> fields::values_of(
            vary_source(stored, from_304),
            name,
        ) == fields::values_of(stored, name),
{
    let a = fields::field(stored, "vary");
    let b = fields::field(from_304, "vary");
    if a.contains(value) {
        let i = choose|i: int| 0 <= i < a.len() && a[i] == value;
        assert((a + b)[i] == value);
    }
    if b.contains(value) {
        let i = choose|i: int| 0 <= i < b.len() && b[i] == value;
        assert((a + b)[a.len() + i] == value);
    }
}

/// A stored response has no cookies that were set and none of the fields of one connection,
/// whether it was just received or merged with a confirmation.
pub proof fn law_refreshed_fields(
    policy: PolicyView,
    request: &Request,
    status: u16,
    fields: Map<Seq<u8>, Seq<Seq<u8>>>,
    stored: Map<Seq<u8>, Seq<Seq<u8>>>,
    now: Span,
)
    ensures
        refreshed(policy, request, status, fields, stored, now) matches Some(merged)
            ==> fields::field(merged, "set-cookie").len() == 0 && fields::field(
            merged,
            "set-cookie2",
        ).len() == 0,
{
    if let Some(merged) = refreshed(policy, request, status, fields, stored, now) {
        let from_304 = validated(status, fields, stored);
        let joined = revalidated(
            policy.status,
            policy.fields,
            policy_view(request, vary_source(stored, from_304)),
            status,
            from_304,
            now,
        );
        law_cookies_are_not_stored(overlaid(joined->0, from_304, from_304.dom()));
    }
}

} // verus!
