//! HTTP cache orchestration over a bounded store: live resources, single-flight
//! fetches, and bodies that are cached while they arrive.
use http::{HeaderMap, HeaderValue};
use vstd::prelude::*;

use crate::directives;
use crate::fetch::{CacheMode, Request, RequestMode};
use crate::fields;
use crate::fields::{copy_fields, first_value, has_field, http_date, remove_field, set_field};
use crate::http_cache::inflight;
use crate::http_cache::inflight::{InFlight, InFlightWriter};
use crate::http_cache::key::{CacheKey, KeyView};
use crate::http_cache::lookup;
use crate::http_cache::lookup::{resolve_location_url, ValidationStatus};
use crate::http_cache_semantics::HttpCacheSemantics;
use crate::http_cache_store;
use crate::http_cache_store::{
    copy_maybe, copy_target, copy_texts, sanitized_request_headers, BodyHandle, HandleView,
    MemoryBodyWriter, MemoryStore, OpenView, StoreError, StoredCachePolicy, StoredVariant,
    StoredVariantMeta, StoredVariantView, StoredView,
};
use crate::live::LiveEntries;
use crate::resource;
use crate::resource::{
    stored_meta_from_cached_resource, BodyView, CachedResource, CachedResponse, ResourceView,
    Response, ResponseBody,
};
use crate::text;
use crate::time::Span;

verus! {

/// Whether a stored variant can become a live resource.
pub open spec fn sound(meta: StoredView) -> bool {
    &&& fields::present(meta.response, "last-modified") ==> meta.status is Some
    &&& meta.expires.wf()
    &&& meta.stale_while_revalidate.wf()
}

pub open spec fn all_sound(variants: Seq<StoredVariantView>) -> bool {
    forall|i: int| 0 <= i < variants.len() ==> sound((#[trigger] variants[i]).meta)
}

/// Whether the variants in a store can be made live, those that are being written
/// included.
pub open spec fn sound_store(store: MemoryStore) -> bool {
    &&& forall|url: Seq<char>| #[trigger]
        store.entries().contains_key(url) ==> all_sound(store.entries()[url])
    &&& forall|id: u64| #[trigger]
        store.unfinished().contains_key(id) ==> all_sound(store.unfinished()[id].variants)
}

pub open spec fn all_timed(list: Seq<ResourceView>) -> bool {
    forall|i: int| 0 <= i < list.len() ==> resource::timed(#[trigger] list[i])
}

/// The part of a cache that is in memory whatever its store is. It is told what the store
/// held, and says what the store is to keep.
pub struct LiveCache {
    /// Live cached responses owned by the cache orchestration layer.
    live: LiveEntries,
    /// Active fetches keyed by cache key.
    in_flight: InFlight,
    disabled: bool,
}

/// HTTP cache orchestration over a store in memory.
pub struct HttpCache {
    /// Cached responses.
    store: MemoryStore,
    front: LiveCache,
}

/// The variants whose bodies were read in full, among the first `n`.
pub open spec fn whole_of(variants: Seq<StoredVariantView>, n: int) -> Seq<StoredVariantView>
    decreases n,
{
    if n <= 0 {
        seq![]
    } else if variants[n - 1].body.len() == variants[n - 1].meta.body_len {
        whole_of(variants, n - 1).push(variants[n - 1])
    } else {
        whole_of(variants, n - 1)
    }
}

/// Whether `after` are the live resources once those that were read from a store were
/// taken in under a key, unless it had live ones.
pub open spec fn is_taken_in(
    before: Map<KeyView, Seq<ResourceView>>,
    after: Map<KeyView, Seq<ResourceView>>,
    key: KeyView,
    variants: Seq<StoredVariantView>,
    now: Span,
    instant: Span,
) -> bool {
    let found = whole_of(variants, variants.len() as int);
    if before.contains_key(key) || found.len() == 0 {
        after == before
    } else {
        after.contains_key(key) && after == before.insert(key, after[key]) && revive(
            after[key],
            found,
            now,
            instant,
        )
    }
}

/// Whether a stored variant can be read: its body is in memory, and all of it.
pub open spec fn readable(variant: StoredVariantView) -> bool {
    variant.handle is Memory && variant.body.len() == variant.meta.body_len
}

/// The variants that can be read, among the first `n`.
pub open spec fn readable_of(variants: Seq<StoredVariantView>, n: int) -> Seq<StoredVariantView>
    decreases n,
{
    if n <= 0 {
        seq![]
    } else if readable(variants[n - 1]) {
        readable_of(variants, n - 1).push(variants[n - 1])
    } else {
        readable_of(variants, n - 1)
    }
}

/// Whether resources are what stored variants become.
pub open spec fn revive(
    list: Seq<ResourceView>,
    variants: Seq<StoredVariantView>,
    now: Span,
    instant: Span,
) -> bool {
    &&& list.len() == variants.len()
    &&& forall|i: int|
        0 <= i < list.len() ==> resource::revives(
            #[trigger] list[i],
            variants[i].meta,
            BodyView::Done(variants[i].body),
            variants[i].handle,
            now,
            instant,
        )
}

/// Whether `after` are the live resources once those of a key were looked for: what
/// was not live is taken from the store.
pub open spec fn is_loaded(
    before: Map<KeyView, Seq<ResourceView>>,
    after: Map<KeyView, Seq<ResourceView>>,
    key: KeyView,
    variants: Seq<StoredVariantView>,
    now: Span,
    instant: Span,
) -> bool {
    let found = readable_of(variants, variants.len() as int);
    if before.contains_key(key) || found.len() == 0 {
        after == before
    } else {
        after.contains_key(key) && after == before.insert(key, after[key]) && revive(
            after[key],
            found,
            now,
            instant,
        )
    }
}

/// What is told to those who wait for a body.
#[derive(Clone, Copy, Debug, PartialEq, Eq, Structural)]
pub enum Signal {
    /// The body is complete.
    Done,
    /// The body will not arrive.
    Cancelled,
}

/// Decide what the cache mode of a request makes of a cached response.
#[derive(Clone, Copy, Debug, PartialEq, Eq, Structural)]
pub struct Access {
    /// Whether the response answers the request.
    pub answers: bool,
    /// Whether it has to be revalidated before it is used.
    pub revalidate: bool,
    /// Whether it is revalidated in the background while it is used.
    pub in_background: bool,
}

pub open spec fn accessed(
    cache_mode: CacheMode,
    mode: RequestMode,
    status: ValidationStatus,
) -> Access {
    let forced = cache_mode == CacheMode::ForceCache || cache_mode == CacheMode::OnlyIfCached
        && mode == RequestMode::SameOrigin;
    let barred = !forced && (cache_mode == CacheMode::OnlyIfCached || cache_mode
        == CacheMode::NoStore || cache_mode == CacheMode::Reload);
    let revalidate = !forced && !barred && status == (ValidationStatus::Stale {
        revalidate_in_background: false,
    });
    Access {
        answers: !barred && !revalidate,
        revalidate,
        in_background: !barred && !revalidate && status == (ValidationStatus::Stale {
            revalidate_in_background: true,
        }),
    }
}

/// Decide what the cache mode of a request makes of a cached response.
pub fn plan_access(
    cache_mode: CacheMode,
    mode: RequestMode,
    status: ValidationStatus,
) -> (r: Access)
    ensures
        r == accessed(cache_mode, mode, status),
{
    let (usable, revalidate): (bool, bool) = match cache_mode {
        CacheMode::ForceCache => (true, false),
        CacheMode::OnlyIfCached => (matches!(mode, RequestMode::SameOrigin), false),
        CacheMode::NoStore => (false, false),
        CacheMode::Reload => (false, false),
        _ => (
            true,
            matches!(status, ValidationStatus::Stale { revalidate_in_background: false }),
        ),
    };
    let background: bool = matches!(
        status,
        ValidationStatus::Stale { revalidate_in_background: true }
    );
    Access {
        answers: usable && !revalidate,
        revalidate,
        in_background: usable && !revalidate && background,
    }
}

/// The fields of a request that revalidates a response with the given fields.
pub open spec fn conditional(
    request: Map<Seq<u8>, Seq<Seq<u8>>>,
    response: Map<Seq<u8>, Seq<Seq<u8>>>,
) -> Map<Seq<u8>, Seq<Seq<u8>>> {
    let dated = if fields::present(response, "last-modified") {
        match fields::last_modified_of(fields::field(response, "last-modified")) {
            Some(secs) => fields::with_field(
                request,
                text::bytes("if-modified-since"),
                fields::http_date_text(secs),
            ),
            None => request,
        }
    } else {
        request
    };
    match fields::first(response, text::bytes("etag")) {
        Some(tag) => fields::with_field(dated, text::bytes("if-none-match"), tag),
        None => dated,
    }
}

/// Make a request conditional on what a response with the given headers said.
pub fn set_conditional_headers(
    request: &mut HeaderMap<HeaderValue>,
    response: &HeaderMap<HeaderValue>,
)
    requires
        fields::has_room(fields::header_fields(*old(request)), 1),
    ensures
        fields::header_fields(*final(request)) == conditional(
            fields::header_fields(*old(request)),
            fields::header_fields(*response),
        ),
{
    proof {
        fields::lemma_names();
    }
    if has_field(response, "last-modified".as_bytes()) {
        match fields::last_modified(response) {
            Some(secs) => {
                let date: Vec<u8> = http_date(secs);
                assert(fields::is_value(date@)) by {
                    assert forall|i: int| 0 <= i < date@.len() implies fields::is_value_byte(
                        #[trigger] date@[i],
                    ) by {
                        assert(text::is_text_byte(date@[i]));
                    }
                }
                set_field(request, "if-modified-since".as_bytes(), date.as_slice());
            },
            None => {},
        }
    }
    match first_value(response, "etag".as_bytes()) {
        Some(tag) => set_field(request, "if-none-match".as_bytes(), tag.as_slice()),
        None => {},
    }
}

/// What a lookup came to.
#[derive(Debug)]
pub struct CacheAccess {
    /// The response to serve, if the cache could answer the request.
    pub response: Option<Response>,
    /// Whether the request was made conditional, to revalidate a stored response.
    pub revalidating: bool,
    /// The resource under the key that is to be revalidated in the background.
    pub revalidate_in_background: Option<usize>,
    /// Whether the consumer is told when the body of the response is complete.
    pub awaits_body: bool,
}

/// A response that arrives from the network.
#[derive(Debug)]
pub struct IncomingResponse {
    pub status: Option<u16>,
    pub headers: HeaderMap<HeaderValue>,
    pub location_url: Option<Result<String, String>>,
    /// What is known of a response that did not fail.
    pub metadata: Option<ResponseMetadata>,
}

#[derive(Debug)]
pub struct ResponseMetadata {
    pub final_url: String,
    pub content_type: Option<String>,
    pub charset: Option<String>,
    pub status: Option<u16>,
}

/// The response fields that are kept: the body is stored as it was decoded.
pub open spec fn normalized(fields: Map<Seq<u8>, Seq<Seq<u8>>>) -> Map<Seq<u8>, Seq<Seq<u8>>> {
    fields::without(
        fields::without(fields, text::bytes("content-encoding")),
        text::bytes("content-length"),
    )
}

/// Drop the fields that only describe the body as it was sent.
pub fn normalize_cached_response_headers(headers: &mut HeaderMap<HeaderValue>)
    ensures
        fields::header_fields(*final(headers)) == normalized(fields::header_fields(*old(headers))),
{
    remove_field(headers, "content-encoding".as_bytes());
    remove_field(headers, "content-length".as_bytes());
}

/// Whether it is looked at if a response to a request may be cached.
pub open spec fn is_considered(
    request: &Request,
    response: IncomingResponse,
    disabled: bool,
) -> bool {
    &&& !disabled
    &&& request.method@ == text::bytes("GET")
    &&& !fields::present(request.fields(), "authorization")
    &&& response.status != Some(304u16)
    &&& response.metadata is Some
}

/// Whether a response to a request is cached.
pub open spec fn is_insertable(
    request: &Request,
    response: IncomingResponse,
    disabled: bool,
    semantics: HttpCacheSemantics,
) -> bool {
    is_considered(request, response, disabled) && semantics.may_cache()
}

/// What a response is stored with.
pub open spec fn stored_meta(
    request: &Request,
    response: IncomingResponse,
    semantics: HttpCacheSemantics,
    body_len: int,
) -> StoredView {
    let fields = fields::header_fields(response.headers);
    let metadata = response.metadata->0;
    StoredView {
        request: http_cache_store::sanitized(request.fields()),
        response: normalized(fields),
        final_url: metadata.final_url@,
        content_type: http_cache_store::maybe(metadata.content_type),
        charset: http_cache_store::maybe(metadata.charset),
        status: metadata.status,
        cache_policy: StoredCachePolicy {
            cacheable: semantics.may_cache(),
            freshness_lifetime: semantics.freshness_lifetime,
        },
        location_url: http_cache_store::target(response.location_url),
        body_len: body_len as usize,
        url_list: http_cache_store::texts(request.url_list@),
        expires: semantics.freshness_lifetime,
        stale_while_revalidate: Span { secs: directives::stale_window(fields), nanos: 0 },
    }
}

/// The bytes of a body that have arrived.
pub open spec fn arrived(body: BodyView) -> Seq<u8> {
    match body {
        BodyView::Empty => seq![],
        BodyView::Receiving(bytes) => bytes,
        BodyView::Done(bytes) => bytes,
    }
}

/// The metadata that a response is stored with, if it is cached.
pub fn insertable_meta(
    request: &Request,
    response: &IncomingResponse,
    body_len: usize,
    disabled: bool,
    now: Span,
) -> (r: Option<StoredVariantMeta>)
    requires
        now.wf(),
        is_considered(request, *response, disabled) && fields::present(
            fields::header_fields(response.headers),
            "last-modified",
        ) ==> response.status is Some,
    ensures
        exists|semantics: HttpCacheSemantics|
            #[trigger] semantics.decides(
                resource::code_of(response.status),
                fields::header_fields(response.headers),
                now,
            ) && match r {
                Some(meta) => is_insertable(request, *response, disabled, semantics) && meta@
                    == stored_meta(request, *response, semantics, body_len as int),
                None => !is_insertable(request, *response, disabled, semantics),
            },
        r matches Some(meta) ==> meta@.expires.wf() && meta@.stale_while_revalidate.wf(),
{
    let code: u16 = match response.status {
        Some(code) => code,
        None => 0,
    };
    let semantics: HttpCacheSemantics = HttpCacheSemantics::new(code, &response.headers, now);
    assert(semantics.decides(
        resource::code_of(response.status),
        fields::header_fields(response.headers),
        now,
    ));
    if disabled || !request.is_get() || has_field(&request.headers, "authorization".as_bytes()) {
        return None;
    }
    if response.status == Some(304u16) {
        return None;
    }
    let metadata: &ResponseMetadata = match &response.metadata {
        Some(metadata) => metadata,
        None => return None,
    };
    if !semantics.is_cacheable() {
        return None;
    }
    let mut response_headers: HeaderMap<HeaderValue> = copy_fields(&response.headers);
    normalize_cached_response_headers(&mut response_headers);
    let expires: Span = semantics.freshness_lifetime();
    Some(
        StoredVariantMeta {
            request_headers: sanitized_request_headers(&request.headers),
            response_headers,
            final_url: metadata.final_url.clone(),
            content_type: copy_maybe(&metadata.content_type),
            charset: copy_maybe(&metadata.charset),
            status: metadata.status,
            cache_policy: StoredCachePolicy::from_semantics(&semantics),
            location_url: copy_target(&response.location_url),
            body_len,
            url_list: copy_texts(&request.url_list),
            expires,
            stale_while_revalidate: Span::from_secs(
                directives::find_stale_window(&response.headers),
            ),
        },
    )
}

/// Writes the body of a live resource.
#[derive(Debug)]
pub struct LiveEntryBodyWriter {
    key: CacheKey,
    handle: BodyHandle,
    body_len: usize,
}

/// Writes an arriving body to the store and to the live resource alike.
#[derive(Debug)]
pub struct MirroredBodyWriter {
    store_writer: Option<MemoryBodyWriter>,
    live_writer: Option<LiveEntryBodyWriter>,
}

impl MirroredBodyWriter {
    /// Whether the body is still being written.
    pub closed spec fn is_open(&self) -> bool {
        self.store_writer is Some
    }

    pub closed spec fn key(&self) -> KeyView {
        self.live_writer->0.key@
    }

    pub closed spec fn handle(&self) -> HandleView {
        self.live_writer->0.handle@
    }

    /// How many bytes were written to the live resource.
    pub closed spec fn live_len(&self) -> usize {
        self.live_writer->0.body_len
    }

    /// The writer of the body in the store.
    pub closed spec fn store_half(&self) -> MemoryBodyWriter {
        self.store_writer->0
    }

    pub closed spec fn wf(&self) -> bool {
        match (self.store_writer, self.live_writer) {
            (Some(store), Some(live)) => store.key() == live.key@ && store.handle() == live.handle@,
            (None, None) => true,
            _ => false,
        }
    }
}

/// The first resource with a handle, or the number of them if none has it.
pub open spec fn place_of(list: Seq<ResourceView>, handle: HandleView) -> int
    decreases list.len(),
{
    if list.len() == 0 {
        0
    } else {
        let before = place_of(list.drop_last(), handle);
        if before < list.len() - 1 || list.last().handle == handle {
            before
        } else {
            list.len() as int
        }
    }
}

proof fn lemma_place_of(list: Seq<ResourceView>, handle: HandleView)
    ensures
        0 <= place_of(list, handle) <= list.len(),
        place_of(list, handle) < list.len() ==> list[place_of(list, handle)].handle == handle,
        forall|i: int| 0 <= i < place_of(list, handle) ==> (#[trigger] list[i]).handle != handle,
    decreases list.len(),
{
    if list.len() > 0 {
        lemma_place_of(list.drop_last(), handle);
        assert forall|i: int| 0 <= i < place_of(list, handle) implies (#[trigger] list[i]).handle
            != handle by {
            if i < list.len() - 1 {
                assert(list.drop_last()[i] == list[i]);
            }
        }
    }
}

fn find_handle(list: &Vec<CachedResource>, handle: &BodyHandle) -> (r: usize)
    ensures
        r == place_of(resource::resources(list@), handle@),
        r <= list@.len(),
{
    let ghost all = resource::resources(list@);
    let mut i: usize = 0;
    proof {
        lemma_place_of(all, handle@);
    }
    while i < list.len()
        invariant
            all == resource::resources(list@),
            i <= place_of(all, handle@) <= list@.len(),
            place_of(all, handle@) < list@.len() ==> all[place_of(all, handle@)].handle == handle@,
            forall|j: int|
                0 <= j < place_of(all, handle@) ==> (#[trigger] all[j]).handle != handle@,
        decreases list@.len() - i,
    {
        assert(all[i as int] == list@[i as int]@);
        if list[i].body_handle.ptr_eq(handle) {
            return i;
        }
        i += 1;
    }
    i
}

/// Resources after a chunk of the body of one of them arrived. A body that is
/// complete takes no more.
pub open spec fn appended(list: Seq<ResourceView>, handle: HandleView, chunk: Seq<u8>) -> Option<
    Seq<ResourceView>,
> {
    let i = place_of(list, handle);
    if i >= list.len() {
        Some(list)
    } else if list[i].body is Done {
        None
    } else {
        Some(
            list.update(
                i,
                ResourceView {
                    body: BodyView::Receiving(arrived(list[i].body) + chunk),
                    ..list[i]
                },
            ),
        )
    }
}

/// Resources after the body of one of them was completed.
pub open spec fn completed(list: Seq<ResourceView>, handle: HandleView, body_len: usize) -> Seq<
    ResourceView,
> {
    let i = place_of(list, handle);
    if i >= list.len() {
        list
    } else {
        list.update(
            i,
            ResourceView {
                body: BodyView::Done(arrived(list[i].body)),
                body_len,
                aborted: false,
                awaiting: seq![],
                ..list[i]
            },
        )
    }
}

/// Resources after the body of one of them was given up.
pub open spec fn given_up(list: Seq<ResourceView>, handle: HandleView) -> Seq<ResourceView> {
    let i = place_of(list, handle);
    if i >= list.len() {
        list
    } else {
        list.update(
            i,
            ResourceView {
                body: BodyView::Empty,
                body_len: 0,
                aborted: true,
                awaiting: seq![],
                ..list[i]
            },
        )
    }
}

/// Those who wait for the body of a resource with a handle.
pub open spec fn waiting(list: Seq<ResourceView>, handle: HandleView) -> Seq<u64> {
    let i = place_of(list, handle);
    if i >= list.len() {
        seq![]
    } else {
        list[i].awaiting
    }
}

/// The resources under a key.
pub open spec fn under(live: Map<KeyView, Seq<ResourceView>>, key: KeyView) -> Seq<ResourceView> {
    if live.contains_key(key) {
        live[key]
    } else {
        seq![]
    }
}

/// The live resources once those under a key are `list`.
pub open spec fn replaced(
    live: Map<KeyView, Seq<ResourceView>>,
    key: KeyView,
    list: Seq<ResourceView>,
) -> Map<KeyView, Seq<ResourceView>> {
    if live.contains_key(key) {
        live.insert(key, list)
    } else {
        live
    }
}

/// What arrives of a body is appended to the resource in order and is its body once it
/// is completed. No other resource changes, and a completed body takes no more.
pub proof fn law_arriving_body(
    list: Seq<ResourceView>,
    handle: HandleView,
    chunk: Seq<u8>,
    body_len: usize,
)
    requires
        place_of(list, handle) < list.len(),
        !(list[place_of(list, handle)].body is Done),
    ensures
        appended(list, handle, chunk) is Some,
        ({
            let i = place_of(list, handle);
            let grown = appended(list, handle, chunk)->0;
            let done = completed(grown, handle, body_len);
            &&& place_of(grown, handle) == i
            &&& place_of(done, handle) == i
            &&& grown[i].body == BodyView::Receiving(arrived(list[i].body) + chunk)
            &&& done[i].body == BodyView::Done(arrived(list[i].body) + chunk)
            &&& !done[i].aborted
            &&& appended(done, handle, chunk) is None
            &&& forall|j: int| 0 <= j < list.len() && j != i ==> #[trigger] done[j] == list[j]
        }),
{
    let i = place_of(list, handle);
    let grown = appended(list, handle, chunk)->0;
    let done = completed(grown, handle, body_len);
    lemma_place_of(list, handle);
    lemma_same_place(list, grown, handle);
    lemma_same_place(grown, done, handle);
}

/// A body that is given up leaves the resource aborted, so that nothing is constructed
/// from it any more.
pub proof fn law_given_up_is_no_candidate(
    list: Seq<ResourceView>,
    handle: HandleView,
    request: Map<Seq<u8>, Seq<Seq<u8>>>,
)
    requires
        place_of(list, handle) < list.len(),
    ensures
        !resource::is_candidate(request, given_up(list, handle)[place_of(list, handle)]),
{
    lemma_place_of(list, handle);
}

proof fn lemma_same_place(a: Seq<ResourceView>, b: Seq<ResourceView>, handle: HandleView)
    requires
        a.len() == b.len(),
        forall|i: int| 0 <= i < a.len() ==> (#[trigger] a[i]).handle == b[i].handle,
    ensures
        place_of(a, handle) == place_of(b, handle),
    decreases a.len(),
{
    if a.len() > 0 {
        assert forall|i: int| 0 <= i < a.drop_last().len() implies (
        #[trigger] a.drop_last()[i]).handle == b.drop_last()[i].handle by {
            assert(a[i].handle == b[i].handle);
        }
        lemma_same_place(a.drop_last(), b.drop_last(), handle);
        assert(a[a.len() - 1].handle == b[b.len() - 1].handle);
    }
}

fn append_body(list: &mut Vec<CachedResource>, handle: &BodyHandle, chunk: &[u8]) -> (r: Result<
    (),
    StoreError,
>)
    ensures
        match appended(resource::resources(old(list)@), handle@, chunk@) {
            Some(after) => r is Ok && resource::resources(final(list)@) == after,
            None => r == Err::<(), StoreError>(StoreError::Closed) && final(list)@ == old(list)@,
        },
{
    let ghost before = resource::resources(list@);
    let i: usize = find_handle(list, handle);
    if i >= list.len() {
        return Ok(());
    }
    assert(before[i as int] == list@[i as int]@);
    let mut bytes: Vec<u8> = match &list[i].body {
        ResponseBody::Empty => Vec::new(),
        ResponseBody::Receiving(bytes) => text::copy_bytes(bytes.as_slice()),
        ResponseBody::Done(_) => return Err(StoreError::Closed),
    };
    let mut more: Vec<u8> = text::copy_bytes(chunk);
    bytes.append(&mut more);
    assert(bytes@ =~= arrived(before[i as int].body) + chunk@);
    let resource: &mut CachedResource = &mut list[i];
    resource.body = ResponseBody::Receiving(bytes);
    assert(resource::resources(list@) =~= before.update(i as int, list@[i as int]@));
    Ok(())
}

fn complete_body(list: &mut Vec<CachedResource>, handle: &BodyHandle, body_len: usize) -> (r: Vec<
    u64,
>)
    ensures
        resource::resources(final(list)@) == completed(
            resource::resources(old(list)@),
            handle@,
            body_len,
        ),
        r@ == waiting(resource::resources(old(list)@), handle@),
{
    let ghost before = resource::resources(list@);
    let i: usize = find_handle(list, handle);
    let mut waiting: Vec<u64> = Vec::new();
    if i >= list.len() {
        assert(waiting@ =~= seq![]);
        return waiting;
    }
    assert(before[i as int] == list@[i as int]@);
    let bytes: Vec<u8> = match &list[i].body {
        ResponseBody::Empty => Vec::new(),
        ResponseBody::Receiving(bytes) => text::copy_bytes(bytes.as_slice()),
        ResponseBody::Done(bytes) => text::copy_bytes(bytes.as_slice()),
    };
    assert(bytes@ =~= arrived(before[i as int].body));
    let resource: &mut CachedResource = &mut list[i];
    resource.body = ResponseBody::Done(bytes);
    resource.body_len = body_len;
    resource.aborted = false;
    std::mem::swap(&mut waiting, &mut resource.awaiting_body);
    assert(list@[i as int]@.awaiting =~= seq![]);
    assert(resource::resources(list@) =~= before.update(i as int, list@[i as int]@));
    waiting
}

fn give_up_body(list: &mut Vec<CachedResource>, handle: &BodyHandle) -> (r: Vec<u64>)
    ensures
        resource::resources(final(list)@) == given_up(resource::resources(old(list)@), handle@),
        r@ == waiting(resource::resources(old(list)@), handle@),
{
    let ghost before = resource::resources(list@);
    let i: usize = find_handle(list, handle);
    let mut waiting: Vec<u64> = Vec::new();
    if i >= list.len() {
        assert(waiting@ =~= seq![]);
        return waiting;
    }
    assert(before[i as int] == list@[i as int]@);
    let resource: &mut CachedResource = &mut list[i];
    resource.body = ResponseBody::Empty;
    resource.body_len = 0;
    resource.aborted = true;
    std::mem::swap(&mut waiting, &mut resource.awaiting_body);
    assert(list@[i as int]@.awaiting =~= seq![]);
    assert(resource::resources(list@) =~= before.update(i as int, list@[i as int]@));
    waiting
}

/// What is told to those who wait for a resource when a response arrived in full or
/// failed; `None` where they wait on. Only those who wait for a response of the same
/// status are meant, or, where the fetch failed, those of a resource without a body.
pub open spec fn woken(
    resource: ResourceView,
    status: Option<u16>,
    failed: bool,
    complete: bool,
) -> Option<Signal> {
    if !(if failed {
        resource.body is Empty
    } else {
        resource.status == status
    }) {
        None
    } else if resource.aborted {
        Some(Signal::Cancelled)
    } else if resource.body is Receiving && !complete {
        None
    } else {
        Some(Signal::Done)
    }
}

/// The resources once those who wait were told.
pub open spec fn after_waking(
    list: Seq<ResourceView>,
    status: Option<u16>,
    failed: bool,
    complete: bool,
) -> Seq<ResourceView> {
    Seq::new(
        list.len(),
        |i: int|
            if woken(list[i], status, failed, complete) is Some {
                ResourceView { awaiting: seq![], ..list[i] }
            } else {
                list[i]
            },
    )
}

/// Who is told what, for the first `n` resources.
pub open spec fn told(
    list: Seq<ResourceView>,
    n: int,
    status: Option<u16>,
    failed: bool,
    complete: bool,
) -> Seq<(u64, Signal)>
    decreases n,
{
    if n <= 0 {
        seq![]
    } else {
        let before = told(list, n - 1, status, failed, complete);
        match woken(list[n - 1], status, failed, complete) {
            Some(signal) => before + Seq::new(
                list[n - 1].awaiting.len(),
                |i: int| (list[n - 1].awaiting[i], signal),
            ),
            None => before,
        }
    }
}

fn signal_for(
    resource: &CachedResource,
    status: Option<u16>,
    failed: bool,
    complete: bool,
) -> (r: Option<Signal>)
    ensures
        r == woken(resource@, status, failed, complete),
{
    let relevant: bool = if failed {
        matches!(resource.body, ResponseBody::Empty)
    } else {
        resource.status == status
    };
    if !relevant {
        return None;
    }
    if resource.aborted {
        return Some(Signal::Cancelled);
    }
    if matches!(resource.body, ResponseBody::Receiving(_)) && !complete {
        return None;
    }
    Some(Signal::Done)
}

fn wake(
    list: &mut Vec<CachedResource>,
    status: Option<u16>,
    failed: bool,
    complete: bool,
) -> (r: Vec<(u64, Signal)>)
    ensures
        resource::resources(final(list)@) == after_waking(
            resource::resources(old(list)@),
            status,
            failed,
            complete,
        ),
        r@ == told(
            resource::resources(old(list)@),
            old(list)@.len() as int,
            status,
            failed,
            complete,
        ),
{
    let ghost before = resource::resources(list@);
    let ghost after = after_waking(before, status, failed, complete);
    let mut r: Vec<(u64, Signal)> = Vec::new();
    let mut i: usize = 0;
    while i < list.len()
        invariant
            i <= list@.len(),
            list@.len() == before.len(),
            after == after_waking(before, status, failed, complete),
            forall|j: int| 0 <= j < i ==> (#[trigger] list@[j])@ == after[j],
            forall|j: int| i <= j < list@.len() ==> (#[trigger] list@[j])@ == before[j],
            r@ == told(before, i as int, status, failed, complete),
        decreases list@.len() - i,
    {
        assert(list@[i as int]@ == before[i as int]);
        match signal_for(&list[i], status, failed, complete) {
            Some(signal) => {
                let mut waiting: Vec<u64> = Vec::new();
                let resource: &mut CachedResource = &mut list[i];
                std::mem::swap(&mut waiting, &mut resource.awaiting_body);
                let ghost base = r@;
                let ghost awaiting = before[i as int].awaiting;
                assert(waiting@ == awaiting);
                assert(list@[i as int]@.awaiting =~= seq![]);
                let mut k: usize = 0;
                assert(awaiting.take(0) =~= seq![]);
                while k < waiting.len()
                    invariant
                        k <= waiting@.len(),
                        waiting@ == awaiting,
                        r@ == base + Seq::new(k as nat, |j: int| (awaiting[j], signal)),
                    decreases waiting@.len() - k,
                {
                    r.push((waiting[k], signal));
                    k += 1;
                    assert(r@ =~= base + Seq::new(k as nat, |j: int| (awaiting[j], signal)));
                }
                assert(r@ =~= told(before, i + 1, status, failed, complete));
            },
            None => {},
        }
        i += 1;
    }
    assert(resource::resources(list@) =~= after);
    r
}

/// The key of what is invalidated at a place that a response names, unless it is the one
/// that is skipped.
pub fn related_key(place: Option<String>, skip_key: &CacheKey) -> (r: Option<CacheKey>)
    ensures
        match http_cache_store::maybe(place) {
            Some(url) => {
                let key = KeyView { url, partition: None };
                &&& r is Some == (key != skip_key@)
                &&& r matches Some(related) ==> related@ == key
            },
            None => r is None,
        },
{
    match place {
        Some(url) => {
            let key: CacheKey = CacheKey::from_url(url);
            if key.same(skip_key) {
                None
            } else {
                Some(key)
            }
        },
        None => None,
    }
}

/// Whether a response can be taken in.
pub fn check_arrival(request: &Request, response: &IncomingResponse, disabled: bool) -> (r: bool)
    ensures
        r == is_arrival(request, *response, disabled),
{
    if disabled || !request.is_get() || has_field(&request.headers, "authorization".as_bytes()) {
        return true;
    }
    if response.status == Some(304u16) || !has_field(
        &response.headers,
        "last-modified".as_bytes(),
    ) {
        return true;
    }
    match &response.metadata {
        Some(metadata) => response.status.is_some() && metadata.status.is_some(),
        None => true,
    }
}

/// Whether a stored variant can become a live resource.
pub fn can_revive(meta: &StoredVariantMeta) -> (r: bool)
    ensures
        r == sound(meta@),
{
    (!has_field(&meta.response_headers, "last-modified".as_bytes()) || meta.status.is_some())
        && meta.expires.check() && meta.stale_while_revalidate.check()
}

impl LiveCache {
    /// The live resources, by key.
    pub closed spec fn live(&self) -> Map<KeyView, Seq<ResourceView>> {
        self.live@
    }

    pub closed spec fn in_flight(&self) -> InFlight {
        self.in_flight
    }

    pub closed spec fn is_disabled(&self) -> bool {
        self.disabled
    }

    pub closed spec fn wf(&self) -> bool {
        &&& self.live.wf()
        &&& self.in_flight.wf()
        &&& forall|key: KeyView| #[trigger]
            self.live@.contains_key(key) ==> all_timed(self.live@[key])
    }

    pub fn new(disabled: bool) -> (r: LiveCache)
        ensures
            r.wf(),
            r.live() == Map::<KeyView, Seq<ResourceView>>::empty(),
            r.in_flight().writers().len() == 0,
            r.in_flight().upcoming() == 0,
            r.is_disabled() == disabled,
    {
        LiveCache { live: LiveEntries::new(), in_flight: InFlight::new(), disabled }
    }

    /// Forget everything.
    pub fn clear(&mut self)
        requires
            old(self).wf(),
        ensures
            final(self).wf(),
            final(self).live() == Map::<KeyView, Seq<ResourceView>>::empty(),
            final(self).in_flight().writers().len() == 0,
            final(self).in_flight().upcoming() == old(self).in_flight().upcoming(),
            final(self).is_disabled() == old(self).is_disabled(),
    {
        self.live.clear();
        self.in_flight.clear();
    }

    /// Reserve the cache key for a single producer, or learn the ticket under which
    /// the existing one works.
    pub fn acquire_inflight(&mut self, key: &CacheKey) -> (r: Result<InFlightWriter, u64>)
        requires
            old(self).wf(),
        ensures
            final(self).wf(),
            final(self).live() == old(self).live(),
            final(self).is_disabled() == old(self).is_disabled(),
            r is Ok == !inflight::is_written(old(self).in_flight().writers(), key@),
            match r {
                Ok(lease) => {
                    &&& lease.key() == key@
                    &&& inflight::is_registered(
                        old(self).in_flight(),
                        final(self).in_flight(),
                        lease,
                    )
                },
                Err(ticket) => {
                    &&& inflight::written_under(old(self).in_flight().writers(), key@, ticket)
                    &&& final(self).in_flight() == old(self).in_flight()
                },
            },
    {
        self.in_flight.register(key)
    }

    /// The producer of a key is done. The result is the ticket whose waiters are to be
    /// woken.
    pub fn finish_inflight(&mut self, lease: InFlightWriter) -> (r: Option<u64>)
        requires
            old(self).wf(),
        ensures
            final(self).wf(),
            final(self).live() == old(self).live(),
            final(self).is_disabled() == old(self).is_disabled(),
            inflight::is_resolved(
                old(self).in_flight(),
                final(self).in_flight(),
                lease.key(),
                r,
            ),
    {
        self.in_flight.resolve(lease)
    }

    /// Whether a key has live resources. Where it has none, the store is asked for them.
    pub fn has_live(&self, key: &CacheKey) -> (r: bool)
        requires
            self.wf(),
        ensures
            r == self.live().contains_key(key@),
    {
        self.live.contains(key)
    }

    /// Take in the variants under a key that could be read from a store, each with what
    /// was read of its body, unless the key has live resources. A variant whose body is
    /// not whole is skipped. Returns whether there are any resources then.
    pub fn take_in(
        &mut self,
        key: &CacheKey,
        variants: Vec<StoredVariant>,
        now: Span,
        instant: Span,
    ) -> (r: bool)
        requires
            old(self).wf(),
            now.wf(),
            instant.wf(),
            all_sound(http_cache_store::stored(variants@)),
        ensures
            final(self).wf(),
            final(self).in_flight() == old(self).in_flight(),
            final(self).is_disabled() == old(self).is_disabled(),
            r == final(self).live().contains_key(key@),
            is_taken_in(
                old(self).live(),
                final(self).live(),
                key@,
                http_cache_store::stored(variants@),
                now,
                instant,
            ),
    {
        if self.live.contains(key) {
            return true;
        }
        let ghost all = http_cache_store::stored(variants@);
        let mut list: Vec<CachedResource> = Vec::new();
        let mut i: usize = 0;
        assert(resource::resources(list@) =~= seq![]);
        while i < variants.len()
            invariant
                i <= variants@.len(),
                all == http_cache_store::stored(variants@),
                all_sound(all),
                now.wf(),
                instant.wf(),
                self.wf(),
                *self == *old(self),
                revive(resource::resources(list@), whole_of(all, i as int), now, instant),
                all_timed(resource::resources(list@)),
            decreases variants@.len() - i,
        {
            let variant: &StoredVariant = &variants[i];
            assert(all[i as int] == variant@);
            if variant.body.len() == variant.meta.body_len() {
                let ghost before = resource::resources(list@);
                let body: Vec<u8> = text::copy_bytes(variant.body.as_slice());
                let resource: CachedResource = variant.meta.copy().into_cached_resource(
                    ResponseBody::Done(body),
                    variant.handle.copy(),
                    now,
                    instant,
                );
                assert(sound(all[i as int].meta));
                assert(resource::timed(resource@));
                list.push(resource);
                assert(resource::resources(list@) =~= before.push(resource@));
            }
            i += 1;
        }
        if list.len() == 0 {
            return false;
        }
        let ghost before = self.live@;
        self.live.put(key, list);
        assert(self.live@ =~= before.insert(key@, self.live@[key@]));
        true
    }

    /// The response for a request among the live resources under its key. Where its body
    /// is still arriving, `consumer` is told when it is complete.
    pub fn answer(&mut self, request: &Request, consumer: u64, instant: Span) -> (r: Option<
        CachedResponse,
    >)
        requires
            old(self).wf(),
            instant.wf(),
        ensures
            final(self).wf(),
            final(self).in_flight() == old(self).in_flight(),
            final(self).is_disabled() == old(self).is_disabled(),
            is_found(
                r,
                request,
                old(self).live(),
                final(self).live(),
                old(self).is_disabled(),
                consumer,
                instant,
            ),
    {
        let key: CacheKey = CacheKey::new(request);
        let ghost loaded = self.live@;
        let mut list: Vec<CachedResource> = match self.live.take(&key) {
            Some(list) => list,
            None => {
                assert(self.live@ =~= loaded);
                return None;
            },
        };
        let ghost before = resource::resources(list@);
        proof {
            assert(all_timed(before));
            assert forall|i: int| 0 <= i < list@.len() implies resource::timed(
                (#[trigger] list@[i])@,
            ) by {
                assert(resource::timed(before[i]));
            }
        }
        let r: Option<CachedResponse> = resource::construct_response(
            request,
            &mut list,
            self.disabled,
            consumer,
            instant,
        );
        let ghost after = resource::resources(list@);
        proof {
            assert forall|i: int| 0 <= i < after.len() implies resource::timed(
                #[trigger] after[i],
            ) by {
                assert(resource::timed(before[i]));
            }
        }
        self.live.put(&key, list);
        assert(self.live@ =~= loaded.insert(key@, after));
        r
    }

    /// Make a response live that a store has begun to keep under a handle.
    pub fn insert(
        &mut self,
        key: &CacheKey,
        meta: StoredVariantMeta,
        body: ResponseBody,
        handle: BodyHandle,
        now: Span,
        instant: Span,
    )
        requires
            old(self).wf(),
            now.wf(),
            instant.wf(),
            sound(meta@),
        ensures
            final(self).wf(),
            final(self).in_flight() == old(self).in_flight(),
            final(self).is_disabled() == old(self).is_disabled(),
            is_made_live(
                old(self).live(),
                final(self).live(),
                key@,
                meta@,
                body@,
                handle@,
                now,
                instant,
            ),
    {
        let resource: CachedResource = meta.into_cached_resource(body, handle, now, instant);
        assert(resource::timed(resource@));
        let ghost before = self.live@;
        let mut list: Vec<CachedResource> = match self.live.take(key) {
            Some(list) => list,
            None => Vec::new(),
        };
        let ghost old_list = resource::resources(list@);
        assert(old_list =~= under(before, key@));
        list.push(resource);
        assert(resource::resources(list@) =~= old_list.push(resource@));
        self.live.put(key, list);
        assert(self.live@ =~= before.insert(key@, old_list.push(resource@)));
        assert(self.live@[key@].drop_last() =~= old_list);
    }

    /// Append what arrived of a body to the live resource with a handle.
    pub fn append(&mut self, key: &CacheKey, handle: &BodyHandle, chunk: &[u8]) -> (r: Result<
        (),
        StoreError,
    >)
        requires
            old(self).wf(),
        ensures
            final(self).wf(),
            final(self).in_flight() == old(self).in_flight(),
            final(self).is_disabled() == old(self).is_disabled(),
            match appended(under(old(self).live(), key@), handle@, chunk@) {
                Some(after) => {
                    &&& r is Ok
                    &&& final(self).live() == replaced(old(self).live(), key@, after)
                },
                None => {
                    &&& r == Err::<(), StoreError>(StoreError::Closed)
                    &&& final(self).live() == old(self).live()
                },
            },
    {
        let ghost live = self.live@;
        match self.live.take(key) {
            Some(list) => {
                let mut list: Vec<CachedResource> = list;
                let ghost before = resource::resources(list@);
                let r: Result<(), StoreError> = append_body(&mut list, handle, chunk);
                proof {
                    lemma_place_of(before, handle@);
                    lemma_timed(before, resource::resources(list@));
                }
                self.live.put(key, list);
                assert(self.live@ =~= live.insert(key@, resource::resources(list@)));
                assert(r is Err ==> self.live@ =~= live);
                r
            },
            None => {
                assert(self.live@ =~= live);
                proof {
                    lemma_place_of_nothing(handle@);
                }
                Ok(())
            },
        }
    }

    /// The body of the live resource with a handle is complete. Those who wait for it are
    /// to be told.
    pub fn complete(&mut self, key: &CacheKey, handle: &BodyHandle, body_len: usize) -> (r: Vec<
        u64,
    >)
        requires
            old(self).wf(),
        ensures
            final(self).wf(),
            final(self).in_flight() == old(self).in_flight(),
            final(self).is_disabled() == old(self).is_disabled(),
            final(self).live() == replaced(
                old(self).live(),
                key@,
                completed(under(old(self).live(), key@), handle@, body_len),
            ),
            r@ == waiting(under(old(self).live(), key@), handle@),
    {
        let ghost live = self.live@;
        match self.live.take(key) {
            Some(list) => {
                let mut list: Vec<CachedResource> = list;
                let ghost before = resource::resources(list@);
                let told: Vec<u64> = complete_body(&mut list, handle, body_len);
                proof {
                    lemma_place_of(before, handle@);
                    lemma_timed(before, resource::resources(list@));
                }
                self.live.put(key, list);
                assert(self.live@ =~= live.insert(key@, resource::resources(list@)));
                told
            },
            None => {
                assert(self.live@ =~= live);
                let told: Vec<u64> = Vec::new();
                proof {
                    lemma_place_of_nothing(handle@);
                }
                assert(told@ =~= seq![]);
                told
            },
        }
    }

    /// The body of the live resource with a handle will not arrive. Those who wait for it
    /// are to be told.
    pub fn give_up(&mut self, key: &CacheKey, handle: &BodyHandle) -> (r: Vec<u64>)
        requires
            old(self).wf(),
        ensures
            final(self).wf(),
            final(self).in_flight() == old(self).in_flight(),
            final(self).is_disabled() == old(self).is_disabled(),
            final(self).live() == replaced(
                old(self).live(),
                key@,
                given_up(under(old(self).live(), key@), handle@),
            ),
            r@ == waiting(under(old(self).live(), key@), handle@),
    {
        let ghost live = self.live@;
        match self.live.take(key) {
            Some(list) => {
                let mut list: Vec<CachedResource> = list;
                let ghost before = resource::resources(list@);
                let told: Vec<u64> = give_up_body(&mut list, handle);
                proof {
                    lemma_place_of(before, handle@);
                    lemma_timed(before, resource::resources(list@));
                }
                self.live.put(key, list);
                assert(self.live@ =~= live.insert(key@, resource::resources(list@)));
                told
            },
            None => {
                assert(self.live@ =~= live);
                let told: Vec<u64> = Vec::new();
                proof {
                    lemma_place_of_nothing(handle@);
                }
                assert(told@ =~= seq![]);
                told
            },
        }
    }

    /// Wake-up consumers of cached resources whose response body was still receiving
    /// data when the resource was constructed, and whose response has now either been
    /// completed or cancelled.
    ///
    /// `status` is that of the response, `failed` whether it is a network error, and
    /// `complete` whether its body has arrived. Those who wait for a response of
    /// another status are not woken; a 206 completes no 200.
    pub fn update_awaiting_consumers(
        &mut self,
        request: &Request,
        status: Option<u16>,
        failed: bool,
        complete: bool,
    ) -> (r: Vec<(u64, Signal)>)
        requires
            old(self).wf(),
        ensures
            final(self).wf(),
            final(self).in_flight() == old(self).in_flight(),
            final(self).is_disabled() == old(self).is_disabled(),
            ({
                let key = KeyView { url: request.url@, partition: None };
                let list = under(old(self).live(), key);
                &&& r@ == told(list, list.len() as int, status, failed, complete)
                &&& final(self).live() == replaced(
                    old(self).live(),
                    key,
                    after_waking(list, status, failed, complete),
                )
            }),
    {
        let key: CacheKey = CacheKey::new(request);
        let ghost live = self.live@;
        match self.live.take(&key) {
            Some(list) => {
                let mut list: Vec<CachedResource> = list;
                let ghost before = resource::resources(list@);
                let r: Vec<(u64, Signal)> = wake(&mut list, status, failed, complete);
                proof {
                    lemma_timed(before, resource::resources(list@));
                }
                self.live.put(&key, list);
                assert(self.live@ =~= live.insert(key@, resource::resources(list@)));
                r
            },
            None => {
                assert(self.live@ =~= live);
                let r: Vec<(u64, Signal)> = Vec::new();
                assert(r@ =~= told(under(live, key@), 0, status, failed, complete));
                r
            },
        }
    }

    /// Invalidate the live resources under a key in place.
    pub fn invalidate(&mut self, key: &CacheKey)
        requires
            old(self).wf(),
        ensures
            final(self).wf(),
            final(self).in_flight() == old(self).in_flight(),
            final(self).is_disabled() == old(self).is_disabled(),
            final(self).live() == if old(self).live().contains_key(key@) {
                old(self).live().insert(key@, resource::expired(old(self).live()[key@]))
            } else {
                old(self).live()
            },
    {
        let ghost loaded = self.live@;
        match self.live.take(key) {
            Some(list) => {
                let mut list: Vec<CachedResource> = list;
                let ghost before = resource::resources(list@);
                resource::invalidate_cached_resources(&mut list);
                proof {
                    lemma_timed_expired(before);
                }
                self.live.put(key, list);
                assert(self.live@ =~= loaded.insert(key@, resource::expired(before)));
            },
            None => {
                assert(self.live@ =~= loaded);
            },
        }
    }

    /// Whether the first live resource under a key, if there is one, is sure to take over
    /// the headers of a 304.
    pub fn can_refresh(&self, key: &CacheKey, headers: &HeaderMap<HeaderValue>) -> (r: bool)
        requires
            self.wf(),
        ensures
            r == (under(self.live(), key@).len() > 0 ==> takes(
                under(self.live(), key@)[0],
                fields::header_fields(*headers),
            )),
            r && under(self.live(), key@).len() > 0 ==> can_take(
                under(self.live(), key@)[0],
                fields::header_fields(*headers),
            ),
    {
        let names: Vec<Vec<u8>> = fields::field_names(headers);
        proof {
            text::views(names@).unique_seq_to_set();
        }
        match self.live.get(key) {
            Some(list) => {
                if list.len() == 0 {
                    return true;
                }
                let resource: &CachedResource = &list[0];
                assert(resource::resources(list@)[0] == resource@);
                let dated: bool = has_field(&resource.headers, "last-modified".as_bytes())
                    || has_field(headers, "last-modified".as_bytes());
                fields::check_room(&resource.headers, names.len()) && (!dated
                    || resource.status.is_some())
            },
            None => true,
        }
    }

    /// Refresh the first live resource under a key with the headers of a 304. With the
    /// response comes what the store is to keep of the resource from now on.
    pub fn refresh(
        &mut self,
        request: &Request,
        headers: HeaderMap<HeaderValue>,
        key: &CacheKey,
        consumer: u64,
        now: Span,
        instant: Span,
    ) -> (r: Option<(Response, BodyHandle, StoredVariantMeta)>)
        requires
            old(self).wf(),
            now.wf(),
            instant.wf(),
            fields::header_fields(headers).dom().finite(),
            under(old(self).live(), key@).len() > 0 ==> can_take(
                under(old(self).live(), key@)[0],
                fields::header_fields(headers),
            ),
        ensures
            final(self).wf(),
            final(self).in_flight() == old(self).in_flight(),
            final(self).is_disabled() == old(self).is_disabled(),
            is_entry_refreshed(
                match r {
                    Some(refreshed) => Some(refreshed.0),
                    None => None,
                },
                request,
                old(self).live(),
                final(self).live(),
                key@,
                fields::header_fields(headers),
                consumer,
                now,
                instant,
            ),
            r matches Some(refreshed) ==> {
                let resource = final(self).live()[key@][0];
                &&& refreshed.1@ == resource.handle
                &&& refreshed.2@ == resource::meta_of(resource)
                &&& sound(refreshed.2@)
            },
    {
        let ghost loaded = self.live@;
        let mut list: Vec<CachedResource> = match self.live.take(key) {
            Some(list) => list,
            None => {
                assert(self.live@ =~= loaded);
                return None;
            },
        };
        let ghost before = resource::resources(list@);
        proof {
            assert(all_timed(before));
            assert forall|i: int| 0 <= i < list@.len() implies resource::timed(
                (#[trigger] list@[i])@,
            ) by {
                assert(resource::timed(before[i]));
            }
            if list@.len() > 0 {
                assert(before[0] == list@[0]@);
                assert(under(loaded, key@) =~= before);
                assert(can_take(before[0], fields::header_fields(headers)));
            }
        }
        let response: Option<Response> = resource::refresh(
            request,
            headers,
            &mut list,
            consumer,
            now,
            instant,
        );
        let ghost after = resource::resources(list@);
        proof {
            assert forall|i: int| 0 <= i < after.len() implies resource::timed(
                #[trigger] after[i],
            ) by {
                if i > 0 {
                    assert(list@[i]@ == before[i]);
                } else {
                    assert(after[0] == list@[0]@);
                }
            }
            assert forall|i: int| 1 <= i < after.len() implies after[i] == before[i] by {
                assert(list@[i]@ == before[i]);
            }
            if before.len() > 0 {
                assert(after[0] == list@[0]@);
                assert(after =~= before.update(0, after[0]));
            } else {
                assert(after =~= before);
            }
        }
        let mut r: Option<(Response, BodyHandle, StoredVariantMeta)> = None;
        match response {
            Some(response) => {
                if list.len() > 0 {
                    let meta: StoredVariantMeta = stored_meta_from_cached_resource(&list[0]);
                    r = Some((response, list[0].body_handle.copy(), meta));
                }
            },
            None => {},
        }
        self.live.put(key, list);
        assert(self.live@ =~= loaded.insert(key@, after));
        assert(loaded.insert(key@, before) =~= loaded);
        r
    }
}

/// Whether a response was made live under a key.
pub open spec fn is_made_live(
    before: Map<KeyView, Seq<ResourceView>>,
    after: Map<KeyView, Seq<ResourceView>>,
    key: KeyView,
    meta: StoredView,
    body: BodyView,
    handle: HandleView,
    now: Span,
    instant: Span,
) -> bool {
    let list = under(before, key);
    &&& after.contains_key(key)
    &&& after == before.insert(key, after[key])
    &&& after[key].len() == list.len() + 1
    &&& after[key].drop_last() == list
    &&& resource::revives(after[key].last(), meta, body, handle, now, instant)
}

/// <https://fetch.spec.whatwg.org/#concept-http-network-or-cache-fetch>
/// What the cache mode of a request makes of the response that was found for it. The
/// request is made conditional where a stored response has to be revalidated first.
pub fn apply_access(request: &mut Request, found: Option<CachedResponse>) -> (r: CacheAccess)
    requires
        fields::has_room(old(request).fields(), 1),
    ensures
        is_access(r, found, *old(request), *final(request)),
{
    let mut r: CacheAccess = CacheAccess {
        response: None,
        revalidating: false,
        revalidate_in_background: None,
        awaits_body: false,
    };
    match found {
        Some(cached) => {
            let access: Access = plan_access(
                request.cache_mode,
                request.mode,
                cached.validation_status,
            );
            if access.revalidate {
                r.revalidating = true;
                set_conditional_headers(&mut request.headers, &cached.response.headers);
            } else if access.answers {
                if access.in_background {
                    r.revalidate_in_background = Some(cached.resource);
                }
                r.awaits_body = matches!(cached.response.body, ResponseBody::Receiving(_));
                r.response = Some(cached.response);
            }
        },
        None => {},
    }
    r
}

impl HttpCache {
    /// The live resources, by key.
    pub closed spec fn live(&self) -> Map<KeyView, Seq<ResourceView>> {
        self.front.live()
    }

    pub closed spec fn backing(&self) -> MemoryStore {
        self.store
    }

    pub closed spec fn in_flight(&self) -> InFlight {
        self.front.in_flight()
    }

    pub closed spec fn is_disabled(&self) -> bool {
        self.front.is_disabled()
    }

    pub closed spec fn wf(&self) -> bool {
        &&& self.front.wf()
        &&& self.store.wf()
        &&& sound_store(self.store)
    }

    /// Whether the bodies that a writer writes are ones of this cache.
    pub open spec fn owns(&self, writer: MirroredBodyWriter) -> bool {
        writer.is_open() ==> self.backing().owns(writer.store_half())
    }

    /// Construct a cache with an injected store.
    pub fn with_store(store: MemoryStore, disabled: bool) -> (r: HttpCache)
        requires
            store.wf(),
            sound_store(store),
        ensures
            r.wf(),
            r.backing() == store,
            r.live() == Map::<KeyView, Seq<ResourceView>>::empty(),
            r.in_flight().writers().len() == 0,
            r.in_flight().upcoming() == 0,
            r.is_disabled() == disabled,
    {
        HttpCache { store, front: LiveCache::new(disabled) }
    }

    /// The addresses of the entries in the store, in no particular order.
    pub fn cache_entry_descriptors(&self) -> (r: Vec<String>)
        ensures
            http_cache_store::texts(r@).no_duplicates(),
            http_cache_store::texts(r@).to_set() == self.backing().entries().dom(),
    {
        self.store.cache_entry_descriptors()
    }

    /// Clear the contents of this cache.
    pub fn clear(&mut self)
        requires
            old(self).wf(),
        ensures
            final(self).wf(),
            final(self).backing().entries() == http_cache_store::no_entries(),
            final(self).live() == Map::<KeyView, Seq<ResourceView>>::empty(),
            final(self).in_flight().writers().len() == 0,
            final(self).in_flight().upcoming() == old(self).in_flight().upcoming(),
            final(self).backing().ids() == Map::<Seq<char>, u64>::empty(),
            final(self).backing().unfinished() == old(self).backing().unfinished(),
            final(self).backing().issued() == old(self).backing().issued(),
            final(self).backing().bound() == old(self).backing().bound(),
            final(self).is_disabled() == old(self).is_disabled(),
    {
        self.store.clear();
        self.front.clear();
    }

    /// Reserve the cache key for a single producer, or learn the ticket under which
    /// the existing one works.
    pub fn acquire_inflight(&mut self, key: &CacheKey) -> (r: Result<InFlightWriter, u64>)
        requires
            old(self).wf(),
        ensures
            final(self).wf(),
            final(self).live() == old(self).live(),
            final(self).backing() == old(self).backing(),
            final(self).is_disabled() == old(self).is_disabled(),
            r is Ok == !inflight::is_written(old(self).in_flight().writers(), key@),
            match r {
                Ok(lease) => {
                    &&& lease.key() == key@
                    &&& inflight::is_registered(
                        old(self).in_flight(),
                        final(self).in_flight(),
                        lease,
                    )
                },
                Err(ticket) => {
                    &&& inflight::written_under(old(self).in_flight().writers(), key@, ticket)
                    &&& final(self).in_flight() == old(self).in_flight()
                },
            },
    {
        self.front.acquire_inflight(key)
    }

    /// The producer of a key is done. The result is the ticket whose waiters are to be
    /// woken.
    pub fn finish_inflight(&mut self, lease: InFlightWriter) -> (r: Option<u64>)
        requires
            old(self).wf(),
        ensures
            final(self).wf(),
            final(self).live() == old(self).live(),
            final(self).backing() == old(self).backing(),
            final(self).is_disabled() == old(self).is_disabled(),
            inflight::is_resolved(
                old(self).in_flight(),
                final(self).in_flight(),
                lease.key(),
                r,
            ),
    {
        self.front.finish_inflight(lease)
    }

    /// Make sure that the resources of a key are live, if the store has any: without
    /// that, what a store holds from before would never be read. A variant that cannot
    /// be read is skipped. Returns whether there are any.
    fn load(&mut self, key: &CacheKey, now: Span, instant: Span) -> (r: bool)
        requires
            old(self).wf(),
            now.wf(),
            instant.wf(),
        ensures
            final(self).wf(),
            final(self).backing() == old(self).backing(),
            final(self).in_flight() == old(self).in_flight(),
            final(self).is_disabled() == old(self).is_disabled(),
            r == final(self).live().contains_key(key@),
            is_loaded(
                old(self).live(),
                final(self).live(),
                key@,
                old(self).backing().under(key@),
                now,
                instant,
            ),
    {
        if self.front.has_live(key) {
            return true;
        }
        let variants: Vec<StoredVariant> = self.store.lookup(key);
        let ghost all = http_cache_store::stored(variants@);
        assert(all_sound(all));
        let mut opened: Vec<StoredVariant> = Vec::new();
        let mut i: usize = 0;
        while i < variants.len()
            invariant
                i <= variants@.len(),
                all == http_cache_store::stored(variants@),
                all == self.store.under(key@),
                all_sound(all),
                self.wf(),
                *self == *old(self),
                all_sound(http_cache_store::stored(opened@)),
                whole_of(http_cache_store::stored(opened@), opened@.len() as int) == readable_of(
                    all,
                    i as int,
                ),
            decreases variants@.len() - i,
        {
            let variant: &StoredVariant = &variants[i];
            assert(all[i as int] == variant@);
            proof {
                self.store.law_handles_are_unique(key@);
                http_cache_store::lemma_numbered_place(all, self.store.issued(), i as int);
            }
            match self.store.open_body(key, variant) {
                Ok(body) => {
                    let ghost before = http_cache_store::stored(opened@);
                    let one: StoredVariant = StoredVariant {
                        meta: variant.meta.copy(),
                        handle: variant.handle.copy(),
                        body,
                    };
                    proof {
                        assert(one@ == all[i as int]);
                        assert(sound(all[i as int].meta));
                        lemma_sound_push(before, one@);
                        lemma_whole_of_push(before, one@);
                    }
                    opened.push(one);
                    assert(http_cache_store::stored(opened@) =~= before.push(one@));
                },
                Err(_) => {},
            }
            i += 1;
        }
        self.front.take_in(key, opened, now, instant)
    }

    /// Try to construct a cached response for `request`. Where its body is still
    /// arriving, `consumer` is told when it is complete.
    pub fn construct_response(
        &mut self,
        request: &Request,
        consumer: u64,
        now: Span,
        instant: Span,
    ) -> (r: Option<CachedResponse>)
        requires
            old(self).wf(),
            now.wf(),
            instant.wf(),
        ensures
            final(self).wf(),
            final(self).backing() == old(self).backing(),
            final(self).in_flight() == old(self).in_flight(),
            final(self).is_disabled() == old(self).is_disabled(),
            exists|loaded: Map<KeyView, Seq<ResourceView>>|
                #![trigger loaded.contains_key(KeyView { url: request.url@, partition: None })]
                is_loaded(
                    old(self).live(),
                    loaded,
                    KeyView { url: request.url@, partition: None },
                    old(self).backing().under(KeyView { url: request.url@, partition: None }),
                    now,
                    instant,
                ) && is_found(
                    r,
                    request,
                    loaded,
                    final(self).live(),
                    old(self).is_disabled(),
                    consumer,
                    instant,
                ),
    {
        let key: CacheKey = CacheKey::new(request);
        self.load(&key, now, instant);
        let ghost loaded = self.live();
        let r: Option<CachedResponse> = self.front.answer(request, consumer, instant);
        assert(loaded.contains_key(key@) ==> self.live().contains_key(key@));
        r
    }

    /// Like [`construct_response`](Self::construct_response), but only reports how the
    /// response stands.
    pub fn construct_response_freshness(
        &mut self,
        request: &Request,
        consumer: u64,
        now: Span,
        instant: Span,
    ) -> (r: Option<ValidationStatus>)
        requires
            old(self).wf(),
            now.wf(),
            instant.wf(),
        ensures
            final(self).wf(),
            final(self).backing() == old(self).backing(),
            final(self).in_flight() == old(self).in_flight(),
            final(self).is_disabled() == old(self).is_disabled(),
            exists|loaded: Map<KeyView, Seq<ResourceView>>, found: Option<CachedResponse>|
                #![trigger is_found(found, request, loaded, final(self).live(), old(self).is_disabled(), consumer, instant)]
                is_loaded(
                    old(self).live(),
                    loaded,
                    KeyView { url: request.url@, partition: None },
                    old(self).backing().under(KeyView { url: request.url@, partition: None }),
                    now,
                    instant,
                ) && is_found(
                    found,
                    request,
                    loaded,
                    final(self).live(),
                    old(self).is_disabled(),
                    consumer,
                    instant,
                ) && r == match found {
                    Some(cached) => Some(cached.validation_status),
                    None => None,
                },
    {
        let found: Option<CachedResponse> = self.construct_response(
            request,
            consumer,
            now,
            instant,
        );
        match found {
            Some(cached) => Some(cached.validation_status),
            None => None,
        }
    }

    /// <https://fetch.spec.whatwg.org/#concept-http-network-or-cache-fetch>
    /// Prepare cache access for a request and resolve any cached response: apply the
    /// cache mode of the request, and make it conditional where a stored response has
    /// to be revalidated first.
    pub fn prepare_cache_access(
        &mut self,
        request: &mut Request,
        consumer: u64,
        now: Span,
        instant: Span,
    ) -> (r: CacheAccess)
        requires
            old(self).wf(),
            now.wf(),
            instant.wf(),
            fields::has_room(old(request).fields(), 1),
        ensures
            final(self).wf(),
            final(self).backing() == old(self).backing(),
            final(self).in_flight() == old(self).in_flight(),
            final(self).is_disabled() == old(self).is_disabled(),
            exists|loaded: Map<KeyView, Seq<ResourceView>>, found: Option<CachedResponse>|
                #![trigger is_found(found, old(request), loaded, final(self).live(), old(self).is_disabled(), consumer, instant)]
                is_loaded(
                    old(self).live(),
                    loaded,
                    KeyView { url: old(request).url@, partition: None },
                    old(self).backing().under(KeyView { url: old(request).url@, partition: None }),
                    now,
                    instant,
                ) && is_found(
                    found,
                    old(request),
                    loaded,
                    final(self).live(),
                    old(self).is_disabled(),
                    consumer,
                    instant,
                ) && is_access(r, found, *old(request), *final(request)),
    {
        let found: Option<CachedResponse> = self.construct_response(
            request,
            consumer,
            now,
            instant,
        );
        apply_access(request, found)
    }

    /// Begin an entry in the store, with what there is of its body.
    fn begin(&mut self, key: &CacheKey, meta: StoredVariantMeta, bytes: &[u8]) -> (r: Option<
        MemoryBodyWriter,
    >)
        requires
            old(self).wf(),
            old(self).backing().issued() < u64::MAX,
            sound(meta@),
            http_cache_store::sanitized(meta@.request) == meta@.request,
        ensures
            final(self).wf(),
            final(self).live() == old(self).live(),
            final(self).in_flight() == old(self).in_flight(),
            final(self).is_disabled() == old(self).is_disabled(),
            r matches Some(writer) && http_cache_store::is_begun(
                old(self).backing(),
                final(self).backing(),
                key@,
                meta@,
                bytes@,
                writer,
            ) && final(self).backing().owns(writer),
    {
        let ghost stored = meta@;
        let ghost first = self.store;
        let ghost base = self.store.under(key@);
        let writer: MemoryBodyWriter = match self.store.start_entry(key, meta) {
            Ok(writer) => writer,
            Err(_) => return None,
        };
        let ghost second = self.store;
        proof {
            let variant = second.unfinished()[writer.entry()].variants.last();
            assert(variant.meta == stored);
            lemma_sound_push(base, variant);
            lemma_sound_put(
                first,
                second,
                key@.url,
                writer.entry(),
                second.unfinished()[writer.entry()].variants,
            );
            lemma_sound_shared(
                first.unfinished(),
                writer.entry(),
                second.unfinished()[writer.entry()],
            );
        }
        if bytes.len() > 0 {
            let _ = self.store.write(&writer, bytes);
            proof {
                lemma_sound_written(second, self.store, writer, bytes@);
                http_cache_store::law_writing_goes_on(
                    first,
                    second,
                    self.store,
                    key@,
                    stored,
                    seq![],
                    writer,
                    bytes@,
                );
                assert(seq![] + bytes@ =~= bytes@);
            }
        } else {
            assert(bytes@ =~= seq![]);
        }
        Some(writer)
    }

    /// Keep a response in the store and make it live. While its body is arriving, the rest
    /// is given to the writer that is returned; a body that is there is cached at once.
    fn keep(
        &mut self,
        key: &CacheKey,
        meta: StoredVariantMeta,
        body: ResponseBody,
        bytes: &[u8],
        now: Span,
        instant: Span,
    ) -> (r: Option<MirroredBodyWriter>)
        requires
            old(self).wf(),
            now.wf(),
            instant.wf(),
            old(self).backing().issued() < u64::MAX,
            sound(meta@),
            http_cache_store::sanitized(meta@.request) == meta@.request,
            bytes@ == arrived(body@),
        ensures
            final(self).wf(),
            final(self).in_flight() == old(self).in_flight(),
            final(self).is_disabled() == old(self).is_disabled(),
            is_cached(r, *old(self), *final(self), key@, meta@, body@, now, instant),
    {
        let streaming: bool = matches!(body, ResponseBody::Receiving(_));
        let ghost stored = meta@;
        let writer: MemoryBodyWriter = match self.begin(key, meta.copy(), bytes) {
            Some(writer) => writer,
            None => return None,
        };
        let handle: BodyHandle = writer.body_handle();
        let ghost third = self.store;
        self.front.insert(key, meta, body, handle.copy(), now, instant);
        if streaming {
            let live_writer: LiveEntryBodyWriter = LiveEntryBodyWriter {
                key: key.copy(),
                handle,
                body_len: bytes.len(),
            };
            Some(
                MirroredBodyWriter {
                    store_writer: Some(writer),
                    live_writer: Some(live_writer),
                },
            )
        } else {
            let _ = self.store.finish(writer);
            proof {
                lemma_sound_finished(third, self.store, writer);
                assert(http_cache_store::is_begun(
                    old(self).backing(),
                    third,
                    key@,
                    stored,
                    bytes@,
                    writer,
                ));
                assert(http_cache_store::is_finished(third, self.backing(), writer));
            }
            None
        }
    }

    fn insert_response(
        &mut self,
        request: &Request,
        response: &IncomingResponse,
        body: ResponseBody,
        now: Span,
        instant: Span,
    ) -> (r: Option<MirroredBodyWriter>)
        requires
            old(self).wf(),
            is_arrival(request, *response, old(self).is_disabled()),
            now.wf(),
            instant.wf(),
            old(self).backing().issued() < u64::MAX,
        ensures
            final(self).wf(),
            final(self).in_flight() == old(self).in_flight(),
            final(self).is_disabled() == old(self).is_disabled(),
            is_inserted(r, *old(self), *final(self), request, *response, body@, now, instant),
    {
        let bytes: Vec<u8> = match &body {
            ResponseBody::Empty => Vec::new(),
            ResponseBody::Receiving(bytes) => text::copy_bytes(bytes.as_slice()),
            ResponseBody::Done(bytes) => text::copy_bytes(bytes.as_slice()),
        };
        assert(bytes@ =~= arrived(body@));
        let meta: StoredVariantMeta = match insertable_meta(
            request,
            response,
            bytes.len(),
            self.front.disabled,
            now,
        ) {
            Some(meta) => meta,
            None => return None,
        };
        let ghost stored = meta@;
        let ghost semantics = choose|semantics: HttpCacheSemantics|
            #[trigger] semantics.decides(
                resource::code_of(response.status),
                fields::header_fields(response.headers),
                now,
            ) && is_insertable(request, *response, self.is_disabled(), semantics) && stored
                == stored_meta(request, *response, semantics, bytes@.len() as int);
        proof {
            lemma_normalized(fields::header_fields(response.headers));
            http_cache_store::law_sanitized_once(request.fields());
        }
        assert(sound(stored));
        let key: CacheKey = CacheKey::new(request);
        self.keep(&key, meta, body, bytes.as_slice(), now, instant)
    }

    /// Insert a response for `request` into the cache.
    pub fn store(
        &mut self,
        request: &Request,
        response: &IncomingResponse,
        body: ResponseBody,
        now: Span,
        instant: Span,
    ) -> (r: Option<MirroredBodyWriter>)
        requires
            old(self).wf(),
            is_arrival(request, *response, old(self).is_disabled()),
            now.wf(),
            instant.wf(),
            old(self).backing().issued() < u64::MAX,
        ensures
            final(self).wf(),
            final(self).in_flight() == old(self).in_flight(),
            final(self).is_disabled() == old(self).is_disabled(),
            is_inserted(r, *old(self), *final(self), request, *response, body@, now, instant),
    {
        self.insert_response(request, response, body, now, instant)
    }

    /// Start caching a response whose body will continue streaming.
    pub fn start_streaming_entry(
        &mut self,
        request: &Request,
        response: &IncomingResponse,
        now: Span,
        instant: Span,
    ) -> (r: Option<MirroredBodyWriter>)
        requires
            old(self).wf(),
            is_arrival(request, *response, old(self).is_disabled()),
            now.wf(),
            instant.wf(),
            old(self).backing().issued() < u64::MAX,
        ensures
            final(self).wf(),
            final(self).in_flight() == old(self).in_flight(),
            final(self).is_disabled() == old(self).is_disabled(),
            is_inserted(
                r,
                *old(self),
                *final(self),
                request,
                *response,
                BodyView::Receiving(seq![]),
                now,
                instant,
            ),
    {
        let body: ResponseBody = ResponseBody::Receiving(Vec::new());
        assert(body@ == BodyView::Receiving(Seq::<u8>::empty()));
        self.insert_response(request, response, body, now, instant)
    }
}

impl HttpCache {
    /// Append bytes to a body that is being cached. Where that fails, both copies are
    /// given up, and those who wait for the body, if any, are to be told.
    pub fn write(&mut self, writer: &mut MirroredBodyWriter, chunk: &[u8]) -> (r: Result<
        (),
        Vec<u64>,
    >)
        requires
            old(self).wf(),
            old(writer).wf(),
            old(self).owns(*old(writer)),
            old(writer).live_len() + chunk@.len() <= usize::MAX,
        ensures
            final(self).wf(),
            final(self).in_flight() == old(self).in_flight(),
            final(self).is_disabled() == old(self).is_disabled(),
            final(writer).wf(),
            if !old(writer).is_open() {
                &&& r matches Err(told) && told@.len() == 0
                &&& *final(self) == *old(self)
                &&& !final(writer).is_open()
            } else {
                let list = under(old(self).live(), old(writer).key());
                match appended(list, old(writer).handle(), chunk@) {
                    Some(after) => {
                        &&& r is Ok
                        &&& http_cache_store::is_written(
                            old(self).backing(),
                            final(self).backing(),
                            old(writer).store_half(),
                            chunk@,
                        )
                        &&& final(self).live() == replaced(
                            old(self).live(),
                            old(writer).key(),
                            after,
                        )
                        &&& final(writer).is_open()
                        &&& final(writer).key() == old(writer).key()
                        &&& final(writer).handle() == old(writer).handle()
                        &&& final(writer).live_len() == old(writer).live_len() + chunk@.len()
                        &&& final(writer).store_half() == old(writer).store_half()
                        &&& final(self).owns(*final(writer))
                    },
                    None => {
                        &&& r matches Err(told) && told@ == waiting(list, old(writer).handle())
                        &&& !final(writer).is_open()
                        &&& final(self).live() == replaced(
                            old(self).live(),
                            old(writer).key(),
                            given_up(list, old(writer).handle()),
                        )
                        &&& exists|written: MemoryStore|
                            http_cache_store::is_written(
                                old(self).backing(),
                                written,
                                old(writer).store_half(),
                                chunk@,
                            ) && #[trigger] http_cache_store::is_abandoned(
                                written,
                                final(self).backing(),
                                old(writer).store_half(),
                            )
                    },
                }
            },
    {
        let store_writer: MemoryBodyWriter = match writer.store_writer.take() {
            Some(store_writer) => store_writer,
            None => {
                assert(*self == *old(self));
                let told: Vec<u64> = Vec::new();
                return Err(told);
            },
        };
        let mut live_writer: LiveEntryBodyWriter = match writer.live_writer.take() {
            Some(live_writer) => live_writer,
            None => {
                let told: Vec<u64> = Vec::new();
                return Err(told);
            },
        };
        let _ = self.store.write(&store_writer, chunk);
        proof {
            lemma_sound_written(old(self).store, self.store, store_writer, chunk@);
        }
        let ghost written = self.store;
        let result: Result<(), StoreError> = self.front.append(
            &live_writer.key,
            &live_writer.handle,
            chunk,
        );
        if result.is_err() {
            let told: Vec<u64> = self.give_up(store_writer, live_writer);
            assert(http_cache_store::is_abandoned(written, self.store, store_writer));
            return Err(told);
        }
        live_writer.body_len = live_writer.body_len + chunk.len();
        writer.store_writer = Some(store_writer);
        writer.live_writer = Some(live_writer);
        Ok(())
    }

    fn give_up(&mut self, store_writer: MemoryBodyWriter, live_writer: LiveEntryBodyWriter) -> (r:
        Vec<u64>)
        requires
            old(self).wf(),
            old(self).backing().owns(store_writer),
        ensures
            final(self).wf(),
            final(self).in_flight() == old(self).in_flight(),
            final(self).is_disabled() == old(self).is_disabled(),
            final(self).live() == replaced(
                old(self).live(),
                live_writer.key@,
                given_up(under(old(self).live(), live_writer.key@), live_writer.handle@),
            ),
            r@ == waiting(under(old(self).live(), live_writer.key@), live_writer.handle@),
            http_cache_store::is_abandoned(
                old(self).backing(),
                final(self).backing(),
                store_writer,
            ),
    {
        let ghost before = self.store;
        let _ = self.store.abort(store_writer);
        proof {
            lemma_sound_abandoned(before, self.store, store_writer);
        }
        self.front.give_up(&live_writer.key, &live_writer.handle)
    }

    /// Finish a body that was being cached. Those who wait for it are to be told that
    /// it is complete.
    pub fn finish(&mut self, writer: MirroredBodyWriter) -> (r: Vec<u64>)
        requires
            old(self).wf(),
            writer.wf(),
            old(self).owns(writer),
        ensures
            final(self).wf(),
            final(self).in_flight() == old(self).in_flight(),
            final(self).is_disabled() == old(self).is_disabled(),
            if !writer.is_open() {
                r@.len() == 0 && *final(self) == *old(self)
            } else {
                let list = under(old(self).live(), writer.key());
                &&& final(self).live() == replaced(
                    old(self).live(),
                    writer.key(),
                    completed(list, writer.handle(), writer.live_len()),
                )
                &&& r@ == waiting(list, writer.handle())
                &&& http_cache_store::is_finished(
                    old(self).backing(),
                    final(self).backing(),
                    writer.store_half(),
                )
            },
    {
        let mut told: Vec<u64> = Vec::new();
        match (writer.store_writer, writer.live_writer) {
            (Some(store_writer), Some(live_writer)) => {
                let ghost before = self.store;
                let _ = self.store.finish(store_writer);
                proof {
                    lemma_sound_finished(before, self.store, store_writer);
                }
                told = self.front.complete(
                    &live_writer.key,
                    &live_writer.handle,
                    live_writer.body_len,
                );
            },
            _ => {},
        }
        told
    }

    /// Abandon a body that was being cached. Those who wait for it are to be told that
    /// it will not arrive.
    pub fn abort(&mut self, writer: MirroredBodyWriter) -> (r: Vec<u64>)
        requires
            old(self).wf(),
            writer.wf(),
            old(self).owns(writer),
        ensures
            final(self).wf(),
            final(self).in_flight() == old(self).in_flight(),
            final(self).is_disabled() == old(self).is_disabled(),
            if !writer.is_open() {
                r@.len() == 0 && *final(self) == *old(self)
            } else {
                let list = under(old(self).live(), writer.key());
                &&& final(self).live() == replaced(
                    old(self).live(),
                    writer.key(),
                    given_up(list, writer.handle()),
                )
                &&& r@ == waiting(list, writer.handle())
                &&& http_cache_store::is_abandoned(
                    old(self).backing(),
                    final(self).backing(),
                    writer.store_half(),
                )
            },
    {
        match (writer.store_writer, writer.live_writer) {
            (Some(store_writer), Some(live_writer)) => self.give_up(store_writer, live_writer),
            _ => {
                let told: Vec<u64> = Vec::new();
                told
            },
        }
    }

    /// Wake-up consumers of cached resources whose response body was still receiving
    /// data when the resource was constructed, and whose response has now either been
    /// completed or cancelled.
    ///
    /// `status` is that of the response, `failed` whether it is a network error, and
    /// `complete` whether its body has arrived. Those who wait for a response of
    /// another status are not woken; a 206 completes no 200.
    pub fn update_awaiting_consumers(
        &mut self,
        request: &Request,
        status: Option<u16>,
        failed: bool,
        complete: bool,
    ) -> (r: Vec<(u64, Signal)>)
        requires
            old(self).wf(),
        ensures
            final(self).wf(),
            final(self).backing() == old(self).backing(),
            final(self).in_flight() == old(self).in_flight(),
            final(self).is_disabled() == old(self).is_disabled(),
            ({
                let key = KeyView { url: request.url@, partition: None };
                let list = under(old(self).live(), key);
                &&& r@ == told(list, list.len() as int, status, failed, complete)
                &&& final(self).live() == replaced(
                    old(self).live(),
                    key,
                    after_waking(list, status, failed, complete),
                )
            }),
    {
        self.front.update_awaiting_consumers(request, status, failed, complete)
    }

    /// Invalidate the cached entry for `key` in place.
    pub fn invalidate_entry(&mut self, key: &CacheKey, now: Span, instant: Span)
        requires
            old(self).wf(),
            now.wf(),
            instant.wf(),
        ensures
            final(self).wf(),
            final(self).backing() == old(self).backing(),
            final(self).in_flight() == old(self).in_flight(),
            final(self).is_disabled() == old(self).is_disabled(),
            is_invalidated(
                old(self).live(),
                final(self).live(),
                key@,
                old(self).backing().under(key@),
                now,
                instant,
            ),
    {
        self.load(key, now, instant);
        let ghost loaded = self.live();
        self.front.invalidate(key);
        assert(loaded.contains_key(key@) ==> self.live().contains_key(key@));
    }

    /// Invalidate cache entries referenced by Location/Content-Location headers.
    pub fn invalidate_related_urls(
        &mut self,
        request: &Request,
        headers: &HeaderMap<HeaderValue>,
        skip_key: &CacheKey,
        now: Span,
        instant: Span,
    )
        requires
            old(self).wf(),
            now.wf(),
            instant.wf(),
        ensures
            final(self).wf(),
            final(self).backing() == old(self).backing(),
            final(self).in_flight() == old(self).in_flight(),
            final(self).is_disabled() == old(self).is_disabled(),
            exists|middle: Map<KeyView, Seq<ResourceView>>|
                is_related(
                    old(self).live(),
                    middle,
                    lookup::location(
                        request,
                        fields::header_fields(*headers),
                        text::bytes("location"),
                    ),
                    skip_key@,
                    old(self).backing(),
                    now,
                    instant,
                ) && #[trigger] is_related(
                    middle,
                    final(self).live(),
                    lookup::location(
                        request,
                        fields::header_fields(*headers),
                        text::bytes("content-location"),
                    ),
                    skip_key@,
                    old(self).backing(),
                    now,
                    instant,
                ),
    {
        let place: Option<String> = resolve_location_url(request, headers, "location".as_bytes());
        self.invalidate_place(place, skip_key, now, instant);
        let other: Option<String> = resolve_location_url(
            request,
            headers,
            "content-location".as_bytes(),
        );
        self.invalidate_place(other, skip_key, now, instant);
    }

    fn invalidate_place(
        &mut self,
        place: Option<String>,
        skip_key: &CacheKey,
        now: Span,
        instant: Span,
    )
        requires
            old(self).wf(),
            now.wf(),
            instant.wf(),
        ensures
            final(self).wf(),
            final(self).backing() == old(self).backing(),
            final(self).in_flight() == old(self).in_flight(),
            final(self).is_disabled() == old(self).is_disabled(),
            is_related(
                old(self).live(),
                final(self).live(),
                http_cache_store::maybe(place),
                skip_key@,
                old(self).backing(),
                now,
                instant,
            ),
    {
        match related_key(place, skip_key) {
            Some(key) => self.invalidate_entry(&key, now, instant),
            None => {},
        }
    }

    /// Refresh a cached entry in place: the first resource under the key takes over
    /// the headers of the 304, and the store its new metadata.
    pub fn refresh_entry(
        &mut self,
        request: &Request,
        headers: HeaderMap<HeaderValue>,
        key: &CacheKey,
        consumer: u64,
        now: Span,
        instant: Span,
    ) -> (r: Option<Response>)
        requires
            old(self).wf(),
            now.wf(),
            instant.wf(),
            fields::header_fields(headers).dom().finite(),
            forall|resource: ResourceView|
                may_refresh(old(self).live(), old(self).backing(), key@, resource) ==> #[trigger]
                can_take(resource, fields::header_fields(headers)),
        ensures
            final(self).wf(),
            final(self).in_flight() == old(self).in_flight(),
            final(self).is_disabled() == old(self).is_disabled(),
            exists|loaded: Map<KeyView, Seq<ResourceView>>|
                #![trigger loaded.contains_key(key@)]
                is_loaded(
                    old(self).live(),
                    loaded,
                    key@,
                    old(self).backing().under(key@),
                    now,
                    instant,
                ) && is_entry_refreshed(
                    r,
                    request,
                    loaded,
                    final(self).live(),
                    key@,
                    fields::header_fields(headers),
                    consumer,
                    now,
                    instant,
                ),
            match r {
                Some(_) => http_cache_store::is_updated(
                    old(self).backing(),
                    final(self).backing(),
                    final(self).live()[key@][0].handle,
                    resource::meta_of(final(self).live()[key@][0]),
                ),
                None => final(self).backing() == old(self).backing(),
            },
    {
        self.load(key, now, instant);
        let ghost loaded = self.live();
        proof {
            if under(loaded, key@).len() > 0 {
                lemma_may_refresh(
                    old(self).live(),
                    loaded,
                    old(self).backing(),
                    key@,
                    now,
                    instant,
                );
                assert(may_refresh(
                    old(self).live(),
                    old(self).backing(),
                    key@,
                    under(loaded, key@)[0],
                ));
            }
        }
        let refreshed: Option<(Response, BodyHandle, StoredVariantMeta)> = self.front.refresh(
            request,
            headers,
            key,
            consumer,
            now,
            instant,
        );
        assert(loaded.contains_key(key@) ==> self.live().contains_key(key@));
        match refreshed {
            Some((response, handle, meta)) => {
                let ghost fresh = meta@;
                let ghost named = handle@;
                let ghost store = self.store;
                self.store.update_meta(&handle, meta);
                proof {
                    lemma_sound_updated(store, self.store, named, fresh);
                }
                Some(response)
            },
            None => None,
        }
    }
}

/// Whether the resources under a key were invalidated, after they were looked for.
pub open spec fn is_invalidated(
    before: Map<KeyView, Seq<ResourceView>>,
    after: Map<KeyView, Seq<ResourceView>>,
    key: KeyView,
    variants: Seq<StoredVariantView>,
    now: Span,
    instant: Span,
) -> bool {
    exists|loaded: Map<KeyView, Seq<ResourceView>>|
        #![trigger loaded.contains_key(key)]
        is_loaded(before, loaded, key, variants, now, instant) && after == (
        if loaded.contains_key(key) {
            loaded.insert(key, resource::expired(loaded[key]))
        } else {
            loaded
        })
}

/// Whether the resources at a place were invalidated, unless it is that of the key
/// that is skipped.
pub open spec fn is_related(
    before: Map<KeyView, Seq<ResourceView>>,
    after: Map<KeyView, Seq<ResourceView>>,
    place: Option<Seq<char>>,
    skip: KeyView,
    store: MemoryStore,
    now: Span,
    instant: Span,
) -> bool {
    match place {
        Some(url) => {
            let key = KeyView { url, partition: None };
            if key != skip {
                is_invalidated(before, after, key, store.under(key), now, instant)
            } else {
                after == before
            }
        },
        None => after == before,
    }
}

/// Whether a resource is one that a refresh of a key may concern: the first live one,
/// or one that a stored variant becomes.
pub open spec fn may_refresh(
    live: Map<KeyView, Seq<ResourceView>>,
    store: MemoryStore,
    key: KeyView,
    resource: ResourceView,
) -> bool {
    if live.contains_key(key) {
        live[key].len() > 0 && resource == live[key][0]
    } else {
        exists|i: int|
            0 <= i < store.under(key).len() && (#[trigger] store.under(key)[i]).meta.response
                == resource.fields && store.under(key)[i].meta.status == resource.status
    }
}

/// Whether a resource has room for the headers of a 304.
pub open spec fn can_take(
    resource: ResourceView,
    from_304: Map<Seq<u8>, Seq<Seq<u8>>>,
) -> bool {
    &&& fields::has_room(resource.fields, from_304.dom().len() as int)
    &&& fields::present(
        resource.fields.union_prefer_right(from_304),
        "last-modified",
    ) ==> resource.status is Some
}

/// Whether a resource is sure to have room for the headers of a 304: one of the two that
/// carries a modification date needs a status.
pub open spec fn takes(resource: ResourceView, from_304: Map<Seq<u8>, Seq<Seq<u8>>>) -> bool {
    &&& fields::has_room(resource.fields, from_304.dom().len() as int)
    &&& fields::present(resource.fields, "last-modified") || fields::present(
        from_304,
        "last-modified",
    ) ==> resource.status is Some
}

/// Whether the resources under a key were refreshed, and what is answered.
pub open spec fn is_entry_refreshed(
    r: Option<Response>,
    request: &Request,
    loaded: Map<KeyView, Seq<ResourceView>>,
    after: Map<KeyView, Seq<ResourceView>>,
    key: KeyView,
    from_304: Map<Seq<u8>, Seq<Seq<u8>>>,
    consumer: u64,
    now: Span,
    instant: Span,
) -> bool {
    if !loaded.contains_key(key) || loaded[key].len() == 0 {
        r is None && after == loaded
    } else {
        let list = loaded[key];
        &&& after.contains_key(key)
        &&& after == loaded.insert(key, after[key])
        &&& after[key] == list.update(0, after[key][0])
        &&& if fields::asks_for_range(request.fields()) {
            match resource::range_answer(request, list, seq![0int]) {
                Some(answer) => r matches Some(response) && resource::is_refreshed(
                    response,
                    list[0],
                    after[key][0],
                    from_304,
                    Some(206u16),
                    BodyView::Done(answer.1),
                    now,
                    instant,
                ) && after[key][0].awaiting == list[0].awaiting,
                None => r is None && after[key] == list,
            }
        } else {
            &&& r matches Some(response) && resource::is_refreshed(
                response,
                list[0],
                after[key][0],
                from_304,
                list[0].status,
                list[0].body,
                now,
                instant,
            )
            &&& after[key][0].awaiting == if list[0].body is Receiving {
                list[0].awaiting.push(consumer)
            } else {
                list[0].awaiting
            }
        }
    }
}

proof fn lemma_whole_of_push(variants: Seq<StoredVariantView>, variant: StoredVariantView)
    ensures
        whole_of(variants.push(variant), variants.len() as int + 1) == if variant.body.len()
            == variant.meta.body_len {
            whole_of(variants, variants.len() as int).push(variant)
        } else {
            whole_of(variants, variants.len() as int)
        },
{
    lemma_whole_of_prefix(variants, variants.push(variant), variants.len() as int);
}

proof fn lemma_whole_of_prefix(a: Seq<StoredVariantView>, b: Seq<StoredVariantView>, n: int)
    requires
        0 <= n <= a.len() <= b.len(),
        forall|i: int| 0 <= i < n ==> a[i] == b[i],
    ensures
        whole_of(a, n) == whole_of(b, n),
    decreases n,
{
    if n > 0 {
        lemma_whole_of_prefix(a, b, n - 1);
        assert(a[n - 1] == b[n - 1]);
    }
}

proof fn lemma_readable_of(variants: Seq<StoredVariantView>, n: int, i: int)
    requires
        0 <= n <= variants.len(),
        0 <= i < readable_of(variants, n).len(),
    ensures
        exists|k: int| 0 <= k < n && #[trigger] variants[k] == readable_of(variants, n)[i],
    decreases n,
{
    if n > 0 {
        let before = readable_of(variants, n - 1);
        if i < before.len() {
            lemma_readable_of(variants, n - 1, i);
            let k = choose|k: int| 0 <= k < n - 1 && #[trigger] variants[k] == before[i];
            assert(variants[k] == readable_of(variants, n)[i]);
        } else {
            assert(variants[n - 1] == readable_of(variants, n)[i]);
        }
    }
}

proof fn lemma_may_refresh(
    live: Map<KeyView, Seq<ResourceView>>,
    loaded: Map<KeyView, Seq<ResourceView>>,
    store: MemoryStore,
    key: KeyView,
    now: Span,
    instant: Span,
)
    requires
        is_loaded(live, loaded, key, store.under(key), now, instant),
        loaded.contains_key(key),
        loaded[key].len() > 0,
    ensures
        may_refresh(live, store, key, loaded[key][0]),
{
    if !live.contains_key(key) {
        let variants = store.under(key);
        let found = readable_of(variants, variants.len() as int);
        lemma_readable_of(variants, variants.len() as int, 0);
        let k = choose|k: int| 0 <= k < variants.len() && #[trigger] variants[k] == found[0];
        assert(resource::revives(
            loaded[key][0],
            found[0].meta,
            BodyView::Done(found[0].body),
            found[0].handle,
            now,
            instant,
        ));
        assert(store.under(key)[k].meta.response == loaded[key][0].fields);
    }
}

proof fn lemma_place_of_nothing(handle: HandleView)
    ensures
        place_of(Seq::<ResourceView>::empty(), handle) == 0,
{
}

/// Resources whose times are the same are timed alike.
proof fn lemma_timed(before: Seq<ResourceView>, after: Seq<ResourceView>)
    requires
        all_timed(before),
        after.len() == before.len(),
        forall|i: int|
            0 <= i < after.len() ==> (#[trigger] after[i]).expires == before[i].expires
                && after[i].stale_while_revalidate == before[i].stale_while_revalidate
                && after[i].last_validated == before[i].last_validated,
    ensures
        all_timed(after),
{
    assert forall|i: int| 0 <= i < after.len() implies resource::timed(#[trigger] after[i]) by {
        assert(resource::timed(before[i]));
    }
}

proof fn lemma_timed_expired(before: Seq<ResourceView>)
    requires
        all_timed(before),
    ensures
        all_timed(resource::expired(before)),
{
    let after = resource::expired(before);
    assert forall|i: int| 0 <= i < after.len() implies resource::timed(#[trigger] after[i]) by {
        assert(resource::timed(before[i]));
    }
}

/// Variants that have the metadata of sound ones, but for the length of the body, are
/// sound.
proof fn lemma_sound_like(before: Seq<StoredVariantView>, after: Seq<StoredVariantView>)
    requires
        all_sound(before),
        after.len() == before.len(),
        forall|i: int|
            0 <= i < after.len() ==> (#[trigger] after[i]).meta == (StoredView {
                body_len: after[i].meta.body_len,
                ..before[i].meta
            }),
    ensures
        all_sound(after),
{
    assert forall|j: int| 0 <= j < after.len() implies sound((#[trigger] after[j]).meta) by {
        assert(sound(before[j].meta));
    }
}

proof fn lemma_sound_put(
    before: MemoryStore,
    after: MemoryStore,
    url: Seq<char>,
    id: u64,
    list: Seq<StoredVariantView>,
)
    requires
        sound_store(before),
        all_sound(list),
        http_cache_store::is_put(before, after, url, id, list),
    ensures
        forall|u: Seq<char>| #[trigger]
            after.entries().contains_key(u) ==> all_sound(after.entries()[u]),
{
    lemma_sound_submap(before.entries(), after.entries(), url, list);
}

proof fn lemma_sound_shared(unfinished: Map<u64, OpenView>, id: u64, entry: OpenView)
    requires
        forall|i: u64| #[trigger]
            unfinished.contains_key(i) ==> all_sound(unfinished[i].variants),
        all_sound(entry.variants),
    ensures
        forall|i: u64| #[trigger]
            unfinished.insert(id, entry).contains_key(i) ==> all_sound(
                unfinished.insert(id, entry)[i].variants,
            ),
{
}

proof fn lemma_sound_written(
    before: MemoryStore,
    after: MemoryStore,
    writer: MemoryBodyWriter,
    chunk: Seq<u8>,
)
    requires
        sound_store(before),
        before.owns(writer),
        http_cache_store::is_written(before, after, writer, chunk),
    ensures
        sound_store(after),
{
    let variants = before.unfinished()[writer.entry()].variants;
    http_cache_store::lemma_place_of(variants, writer.handle());
    let appended = http_cache_store::appended(variants, writer.handle(), chunk);
    lemma_sound_like(variants, appended);
}

proof fn lemma_sound_released(
    before: Map<u64, OpenView>,
    id: u64,
    variants: Seq<StoredVariantView>,
)
    requires
        forall|i: u64| #[trigger] before.contains_key(i) ==> all_sound(before[i].variants),
        all_sound(variants),
    ensures
        forall|i: u64| #[trigger]
            http_cache_store::released(before, id, variants).contains_key(i) ==> all_sound(
                http_cache_store::released(before, id, variants)[i].variants,
            ),
{
}

proof fn lemma_sound_finished(before: MemoryStore, after: MemoryStore, writer: MemoryBodyWriter)
    requires
        sound_store(before),
        before.owns(writer),
        http_cache_store::is_finished(before, after, writer),
    ensures
        sound_store(after),
{
    let variants = before.unfinished()[writer.entry()].variants;
    let done = http_cache_store::finished(variants, writer.handle());
    let i = http_cache_store::place_of(variants, writer.handle());
    http_cache_store::lemma_place_of(variants, writer.handle());
    if i < variants.len() {
        let meta = StoredView { body_len: variants[i].body.len() as usize, ..variants[i].meta };
        let changed = variants.update(i, StoredVariantView { meta, ..variants[i] });
        lemma_sound_like(variants, changed);
        lemma_sound_retained(changed, meta, writer.handle());
    }
    lemma_sound_released(before.unfinished(), writer.entry(), variants);
    lemma_sound_released(before.unfinished(), writer.entry(), done);
    if before.entries().contains_key(writer.key().url) {
        lemma_sound_put(before, after, writer.key().url, writer.entry(), done);
    }
}

proof fn lemma_sound_abandoned(before: MemoryStore, after: MemoryStore, writer: MemoryBodyWriter)
    requires
        sound_store(before),
        before.owns(writer),
        http_cache_store::is_abandoned(before, after, writer),
    ensures
        sound_store(after),
{
    let variants = before.unfinished()[writer.entry()].variants;
    let done = http_cache_store::abandoned(variants, writer.handle());
    let emptied = http_cache_store::emptied(variants, writer.handle());
    http_cache_store::lemma_place_of(variants, writer.handle());
    lemma_sound_like(variants, done);
    lemma_sound_like(variants, emptied);
    lemma_sound_released(before.unfinished(), writer.entry(), done);
    lemma_sound_released(before.unfinished(), writer.entry(), emptied);
    if before.entries().contains_key(writer.key().url) {
        lemma_sound_put(before, after, writer.key().url, writer.entry(), done);
    }
}

proof fn lemma_sound_updated(
    before: MemoryStore,
    after: MemoryStore,
    handle: HandleView,
    meta: StoredView,
)
    requires
        sound_store(before),
        sound(meta),
        http_cache_store::is_updated(before, after, handle, meta),
    ensures
        sound_store(after),
{
    if !(handle is Disk) && (exists|url: Seq<char>| before.has_handle(url, handle)) {
        let url = choose|url: Seq<char>|
            #[trigger] before.has_handle(url, handle) && http_cache_store::is_put(
                before,
                after,
                url,
                before.id_under(url),
                http_cache_store::updated(before.entries()[url], handle, meta),
            ) && after.unfinished() == http_cache_store::with_variants(
                before.unfinished(),
                before.id_under(url),
                http_cache_store::updated(before.entries()[url], handle, meta),
            );
        let list = before.entries()[url];
        let changed = http_cache_store::updated(list, handle, meta);
        http_cache_store::lemma_place_of(list, handle);
        assert(all_sound(list));
        assert forall|j: int| 0 <= j < changed.len() implies sound(
            (#[trigger] changed[j]).meta,
        ) by {
            assert(sound(list[j].meta));
        }
        lemma_sound_put(before, after, url, before.id_under(url), changed);
    }
}

/// Whether a response can be taken in: one that is considered for caching and carries
/// a modification date has a status.
pub open spec fn is_arrival(
    request: &Request,
    response: IncomingResponse,
    disabled: bool,
) -> bool {
    is_considered(request, response, disabled) && fields::present(
        fields::header_fields(response.headers),
        "last-modified",
    ) ==> response.status is Some && (response.metadata->0).status is Some
}

/// Whether a response was found among the loaded resources, and the live ones are then
/// `after`.
pub open spec fn is_found(
    r: Option<CachedResponse>,
    request: &Request,
    loaded: Map<KeyView, Seq<ResourceView>>,
    after: Map<KeyView, Seq<ResourceView>>,
    disabled: bool,
    consumer: u64,
    instant: Span,
) -> bool {
    let key = KeyView { url: request.url@, partition: None };
    if loaded.contains_key(key) {
        &&& resource::is_answer(r, request, loaded[key], disabled, instant)
        &&& after == loaded.insert(
            key,
            resource::with_consumer(loaded[key], resource::awaited(r), consumer),
        )
    } else {
        r is None && after == loaded
    }
}

/// Whether a lookup came to what the cache mode of the request makes of the response
/// that was found.
pub open spec fn is_access(
    r: CacheAccess,
    found: Option<CachedResponse>,
    before: Request,
    after: Request,
) -> bool {
    match found {
        Some(cached) => {
            let access = accessed(before.cache_mode, before.mode, cached.validation_status);
            &&& r.revalidating == access.revalidate
            &&& r.response == if access.answers {
                Some(cached.response)
            } else {
                None
            }
            &&& r.revalidate_in_background == if access.in_background {
                Some(cached.resource)
            } else {
                None
            }
            &&& r.awaits_body == (access.answers && cached.response.body@ is Receiving)
            &&& after == (Request { headers: after.headers, ..before })
            &&& after.fields() == if access.revalidate {
                conditional(before.fields(), fields::header_fields(cached.response.headers))
            } else {
                before.fields()
            }
        },
        None => {
            &&& !r.revalidating
            &&& r.response is None
            &&& r.revalidate_in_background is None
            &&& !r.awaits_body
            &&& after == before
        },
    }
}

/// Whether a response was cached, if it may be: it is live under the key of the
/// request, and in the store as far as that keeps it.
pub open spec fn is_inserted(
    r: Option<MirroredBodyWriter>,
    before: HttpCache,
    after: HttpCache,
    request: &Request,
    response: IncomingResponse,
    body: BodyView,
    now: Span,
    instant: Span,
) -> bool {
    exists|semantics: HttpCacheSemantics|
        #[trigger] semantics.decides(
            resource::code_of(response.status),
            fields::header_fields(response.headers),
            now,
        ) && if !is_insertable(request, response, before.is_disabled(), semantics) {
            r is None && after.live() == before.live() && after.backing() == before.backing()
        } else {
            is_cached(
                r,
                before,
                after,
                KeyView { url: request.url@, partition: None },
                stored_meta(request, response, semantics, arrived(body).len() as int),
                body,
                now,
                instant,
            )
        }
}

pub open spec fn is_cached(
    r: Option<MirroredBodyWriter>,
    before: HttpCache,
    after: HttpCache,
    key: KeyView,
    meta: StoredView,
    body: BodyView,
    now: Span,
    instant: Span,
) -> bool {
    let handle = HandleView::Memory(before.backing().issued());
    &&& is_made_live(before.live(), after.live(), key, meta, body, handle, now, instant)
    &&& r is Some == body is Receiving
    &&& r matches Some(writer) ==> {
        &&& writer.wf()
        &&& writer.is_open()
        &&& writer.key() == key
        &&& writer.handle() == handle
        &&& writer.live_len() == arrived(body).len()
        &&& after.owns(writer)
        &&& http_cache_store::is_begun(
            before.backing(),
            after.backing(),
            key,
            meta,
            arrived(body),
            writer.store_half(),
        )
    }
    &&& r is None ==> exists|begun: MemoryStore, writer: MemoryBodyWriter|
        http_cache_store::is_begun(before.backing(), begun, key, meta, arrived(body), writer)
            && #[trigger] http_cache_store::is_finished(begun, after.backing(), writer)
}

proof fn lemma_normalized(fields: Map<Seq<u8>, Seq<Seq<u8>>>)
    ensures
        fields::present(normalized(fields), "last-modified") ==> fields::present(
            fields,
            "last-modified",
        ),
{
}

proof fn lemma_sound_push(variants: Seq<StoredVariantView>, variant: StoredVariantView)
    requires
        all_sound(variants),
        sound(variant.meta),
    ensures
        all_sound(variants.push(variant)),
{
    assert forall|i: int| 0 <= i < variants.push(variant).len() implies sound(
        (#[trigger] variants.push(variant)[i]).meta,
    ) by {
        if i < variants.len() {
            assert(sound(variants[i].meta));
        }
    }
}

proof fn lemma_sound_retained(variants: Seq<StoredVariantView>, fresh: StoredView, handle: HandleView)
    requires
        all_sound(variants),
    ensures
        all_sound(http_cache_store::retained(variants, fresh, handle)),
    decreases variants.len(),
{
    if variants.len() > 0 {
        assert forall|i: int| 0 <= i < variants.drop_last().len() implies sound(
            (#[trigger] variants.drop_last()[i]).meta,
        ) by {
            assert(sound(variants[i].meta));
        }
        lemma_sound_retained(variants.drop_last(), fresh, handle);
        assert(sound(variants[variants.len() - 1].meta));
        lemma_sound_push(
            http_cache_store::retained(variants.drop_last(), fresh, handle),
            variants.last(),
        );
    }
}

/// A store whose entries are all old ones but one stays sound.
proof fn lemma_sound_submap(
    before: Map<Seq<char>, Seq<StoredVariantView>>,
    after: Map<Seq<char>, Seq<StoredVariantView>>,
    url: Seq<char>,
    list: Seq<StoredVariantView>,
)
    requires
        forall|u: Seq<char>| #[trigger] before.contains_key(u) ==> all_sound(before[u]),
        all_sound(list),
        after.submap_of(before.insert(url, list)),
    ensures
        forall|u: Seq<char>| #[trigger] after.contains_key(u) ==> all_sound(after[u]),
{
    assert forall|u: Seq<char>| #[trigger] after.contains_key(u) implies all_sound(after[u]) by {
        assert(before.insert(url, list).contains_key(u));
        assert(after[u] == before.insert(url, list)[u]);
        if u != url {
            assert(before.contains_key(u));
        }
    }
}

/// What the cache mode of a request makes of the response that was constructed for it.
/// Forcing the cache answers with it, fresh or stale, and so does asking the cache alone
/// within one origin; asking the cache alone across origins, storing nothing and reloading
/// never do. In the other modes a valid response answers, a stale one answers and is
/// revalidated in the background where that is allowed, and is revalidated first otherwise.
pub proof fn law_access_modes(cache_mode: CacheMode, mode: RequestMode, status: ValidationStatus)
    ensures
        ({
            let r = accessed(cache_mode, mode, status);
            let lenient = status == (ValidationStatus::Stale { revalidate_in_background: true });
            &&& !(r.answers && r.revalidate)
            &&& r.in_background ==> r.answers && lenient
            &&& match cache_mode {
                CacheMode::ForceCache => r.answers && !r.revalidate && (r.in_background <==> lenient),
                CacheMode::OnlyIfCached => !r.revalidate && (r.answers <==> mode
                    == RequestMode::SameOrigin),
                CacheMode::NoStore => !r.answers && !r.revalidate && !r.in_background,
                CacheMode::Reload => !r.answers && !r.revalidate && !r.in_background,
                CacheMode::Default | CacheMode::NoCache => match status {
                    ValidationStatus::Valid => r.answers && !r.revalidate && !r.in_background,
                    ValidationStatus::Stale { revalidate_in_background } => r.answers
                        == revalidate_in_background && r.in_background == revalidate_in_background
                        && r.revalidate == !revalidate_in_background,
                },
            }
        }),
{
}

/// A request that is to be revalidated is sent with the validators of the stored response
/// and is otherwise what it was; one that is not is not changed. It is answered from the
/// cache or revalidated, never both.
pub proof fn law_access_changes_only_validators(
    r: CacheAccess,
    found: Option<CachedResponse>,
    before: Request,
    after: Request,
    name: Seq<u8>,
)
    requires
        is_access(r, found, before, after),
    ensures
        r.response is Some ==> !r.revalidating && found is Some && r.response == Some(
            found->0.response,
        ),
        !r.revalidating ==> after.fields() == before.fields(),
        after.url == before.url,
        after.method == before.method,
        after.cache_mode == before.cache_mode,
        r.awaits_body ==> r.response is Some,
        text::lower(name) != text::lower(text::bytes("if-none-match")) && text::lower(name)
            != text::lower(text::bytes("if-modified-since")) ==> fields::values_of(
            after.fields(),
            name,
        ) == fields::values_of(before.fields(), name),
        r.revalidating && fields::present(
            fields::header_fields(found->0.response.headers),
            "etag",
        ) ==> fields::field(after.fields(), "if-none-match") == seq![
            fields::field(fields::header_fields(found->0.response.headers), "etag")[0],
        ],
{
}

/// The validators of a conditional request are those of the stored response: its first `ETag`
/// as it is, and its `Last-Modified` as a date. A response without them adds none.
pub proof fn law_conditional_fields(
    request: Map<Seq<u8>, Seq<Seq<u8>>>,
    response: Map<Seq<u8>, Seq<Seq<u8>>>,
    name: Seq<u8>,
)
    ensures
        ({
            let asked = conditional(request, response);
            let modified = fields::last_modified_of(fields::field(response, "last-modified"));
            &&& fields::present(response, "etag") ==> fields::field(asked, "if-none-match") == seq![
                fields::field(response, "etag")[0],
            ]
            &&& !fields::present(response, "etag") ==> fields::field(asked, "if-none-match")
                == fields::field(request, "if-none-match")
            &&& fields::present(response, "last-modified") && modified is Some ==> fields::field(
                asked,
                "if-modified-since",
            ) == seq![fields::http_date_text(modified->0)]
            &&& !fields::present(response, "last-modified") || modified is None ==> fields::field(
                asked,
                "if-modified-since",
            ) == fields::field(request, "if-modified-since")
            &&& text::lower(name) != text::lower(text::bytes("if-none-match")) && text::lower(name)
                != text::lower(text::bytes("if-modified-since")) ==> fields::values_of(asked, name)
                == fields::values_of(request, name)
        }),
{
    reveal_strlit("if-none-match");
    reveal_strlit("if-modified-since");
    fields::lemma_ascii_bytes("if-none-match");
    fields::lemma_ascii_bytes("if-modified-since");
    assert(text::lower(text::bytes("if-none-match")).len() == 13);
    assert(text::lower(text::bytes("if-modified-since")).len() == 17);
}

/// A body is held decoded, so what is stored with it says nothing of how it was coded, nor of
/// how long it was so. Every other field of the response is stored.
pub proof fn law_normalized_fields(fields: Map<Seq<u8>, Seq<Seq<u8>>>, name: Seq<u8>)
    ensures
        ({
            let own = text::lower(name);
            let about_coding = own == text::lower(text::bytes("content-encoding")) || own
                == text::lower(text::bytes("content-length"));
            &&& about_coding ==> fields::values_of(normalized(fields), name).len() == 0
            &&& !about_coding ==> fields::values_of(normalized(fields), name) == fields::values_of(
                fields,
                name,
            )
        }),
{
}

/// A response is stored exactly if the cache is on, the request was a `GET` without
/// credentials, the response is no confirmation of another one, and its own fields allow it.
pub proof fn law_what_is_stored(
    request: &Request,
    response: IncomingResponse,
    disabled: bool,
    semantics: HttpCacheSemantics,
)
    requires
        response.metadata is Some,
    ensures
        is_insertable(request, response, disabled, semantics) ==> !disabled,
        is_insertable(request, response, disabled, semantics) ==> request.method@ == text::bytes(
            "GET",
        ),
        fields::present(request.fields(), "authorization") ==> !is_insertable(
            request,
            response,
            disabled,
            semantics,
        ),
        response.status == Some(304u16) ==> !is_insertable(request, response, disabled, semantics),
        is_insertable(request, response, disabled, semantics) ==> semantics.may_cache(),
        !disabled && request.method@ == text::bytes("GET") && !fields::present(
            request.fields(),
            "authorization",
        ) && response.status != Some(304u16) && semantics.may_cache() ==> is_insertable(
            request,
            response,
            disabled,
            semantics,
        ),
{
}

/// What is taken in from a store are the variants whose bodies are there in full, in their
/// order.
pub proof fn law_whole_variants(variants: Seq<StoredVariantView>, n: int)
    requires
        0 <= n <= variants.len(),
    ensures
        whole_of(variants, n) == variants.take(n).filter(
            |v: StoredVariantView| v.body.len() == v.meta.body_len,
        ),
        readable_of(variants, n) == variants.take(n).filter(
            |v: StoredVariantView| v.handle is Memory && v.body.len() == v.meta.body_len,
        ),
    decreases n,
{
    reveal(Seq::filter);
    if n > 0 {
        law_whole_variants(variants, n - 1);
        assert(variants.take(n).drop_last() =~= variants.take(n - 1));
        assert(variants.take(n).last() == variants[n - 1]);
    } else {
        assert(variants.take(n) =~= Seq::<StoredVariantView>::empty());
    }
}

/// Giving up a body leaves nothing of it, marks the resource as aborted and lets go of who
/// waited for it. Completing it keeps every byte that arrived. Both leave the other resources
/// as they are.
pub proof fn law_end_of_a_body(
    list: Seq<ResourceView>,
    handle: HandleView,
    body_len: usize,
    i: int,
)
    requires
        0 <= i < list.len(),
        forall|j: int|
            0 <= j < list.len() && j != i ==> (#[trigger] list[j]).handle != list[i].handle,
    ensures
        ({
            let up = given_up(list, handle);
            let done = completed(list, handle, body_len);
            &&& up.len() == list.len() && done.len() == list.len()
            &&& list[i].handle != handle ==> up[i] == list[i] && done[i] == list[i]
            &&& list[i].handle == handle ==> {
                &&& up[i].aborted && up[i].body is Empty && up[i].body_len == 0
                &&& up[i].awaiting.len() == 0
                &&& !done[i].aborted && done[i].body == BodyView::Done(arrived(list[i].body))
                &&& done[i].body_len == body_len && done[i].awaiting.len() == 0
                &&& done[i].fields == list[i].fields && done[i].status == list[i].status
                &&& waiting(list, handle) == list[i].awaiting
            }
        }),
{
    lemma_place_of(list, handle);
    let k = place_of(list, handle);
    if list[i].handle == handle {
        if k < i {
            assert(list[k].handle != list[i].handle);
        }
        assert(k <= i);
        assert(k == i);
    } else if k < list.len() {
        assert(list[k].handle == handle);
    }
}

/// When a response has arrived or failed, those who wait for a body of it are told, once and
/// all of them, that it is done, or that it was cancelled where it was aborted. Nobody is
/// told of a body that is still being received.
pub proof fn law_who_is_told(
    list: Seq<ResourceView>,
    n: int,
    status: Option<u16>,
    failed: bool,
    complete: bool,
    i: int,
    j: int,
)
    requires
        0 <= i < n <= list.len(),
        0 <= j < list[i].awaiting.len(),
    ensures
        !failed && list[i].status == status && list[i].aborted ==> told(
            list,
            n,
            status,
            failed,
            complete,
        ).contains((list[i].awaiting[j], Signal::Cancelled)),
        !failed && list[i].status == status && !list[i].aborted && (complete || !(
        list[i].body is Receiving)) ==> told(list, n, status, failed, complete).contains(
            (list[i].awaiting[j], Signal::Done),
        ),
        failed && list[i].body is Empty && list[i].aborted ==> told(
            list,
            n,
            status,
            failed,
            complete,
        ).contains((list[i].awaiting[j], Signal::Cancelled)),
        !complete && !list[i].aborted && list[i].body is Receiving ==> after_waking(
            list,
            status,
            failed,
            complete,
        )[i] == list[i],
        !failed && list[i].status != status ==> after_waking(list, status, failed, complete)[i]
            == list[i],
        failed && !(list[i].body is Empty) ==> after_waking(list, status, failed, complete)[i]
            == list[i],
        woken(list[i], status, failed, complete) is Some ==> after_waking(
            list,
            status,
            failed,
            complete,
        )[i].awaiting.len() == 0 && after_waking(list, status, failed, complete)[i].body
            == list[i].body,
{
    lemma_told(list, n, status, failed, complete, i, j);
}

proof fn lemma_told(
    list: Seq<ResourceView>,
    n: int,
    status: Option<u16>,
    failed: bool,
    complete: bool,
    i: int,
    j: int,
)
    requires
        0 <= i < n <= list.len(),
        0 <= j < list[i].awaiting.len(),
    ensures
        woken(list[i], status, failed, complete) matches Some(signal) ==> told(
            list,
            n,
            status,
            failed,
            complete,
        ).contains((list[i].awaiting[j], signal)),
    decreases n,
{
    let before = told(list, n - 1, status, failed, complete);
    let all = told(list, n, status, failed, complete);
    if let Some(signal) = woken(list[i], status, failed, complete) {
        let one = (list[i].awaiting[j], signal);
        if i == n - 1 {
            assert(all[before.len() + j] == one);
        } else {
            lemma_told(list, n - 1, status, failed, complete, i, j);
            let k = choose|k: int| 0 <= k < before.len() && before[k] == one;
            assert(all[k] == one);
        }
    }
}

/// Whoever is told of a body was waiting for it.
pub proof fn law_only_the_waiting_are_told(
    list: Seq<ResourceView>,
    n: int,
    status: Option<u16>,
    failed: bool,
    complete: bool,
    k: int,
)
    requires
        0 <= n <= list.len(),
        0 <= k < told(list, n, status, failed, complete).len(),
    ensures
        exists|i: int|
            0 <= i < n && (#[trigger] list[i]).awaiting.contains(
                told(list, n, status, failed, complete)[k].0,
            ) && (told(list, n, status, failed, complete)[k].1 == Signal::Cancelled <==>
                list[i].aborted) && (!failed ==> list[i].status == status),
    decreases n,
{
    if n > 0 {
        let before = told(list, n - 1, status, failed, complete);
        let all = told(list, n, status, failed, complete);
        if k < before.len() {
            law_only_the_waiting_are_told(list, n - 1, status, failed, complete, k);
            assert(all[k] == before[k]);
        } else {
            let m = k - before.len();
            assert(all[k].0 == list[n - 1].awaiting[m]);
            assert(list[n - 1].awaiting.contains(all[k].0));
        }
    }
}

/// Once a key was invalidated, every resource under it has expired, whether it was live or
/// had to be loaded, and what is live under other keys is what it was.
pub proof fn law_invalidated_has_expired(
    before: Map<KeyView, Seq<ResourceView>>,
    after: Map<KeyView, Seq<ResourceView>>,
    key: KeyView,
    variants: Seq<StoredVariantView>,
    now: Span,
    instant: Span,
    other: KeyView,
    i: int,
)
    requires
        is_invalidated(before, after, key, variants, now, instant),
        other != key,
    ensures
        after.contains_key(key) && 0 <= i < after[key].len() ==> after[key][i].expires.total() == 0,
        before.contains_key(key) ==> after.contains_key(key) && after[key].len()
            == before[key].len(),
        readable_of(variants, variants.len() as int).len() > 0 ==> after.contains_key(key),
        after.contains_key(other) == before.contains_key(other),
        before.contains_key(other) ==> after[other] == before[other],
{
}

/// The place that a response points to is invalidated, unless it is the one that was asked
/// for anyway.
pub proof fn law_related_place_has_expired(
    before: Map<KeyView, Seq<ResourceView>>,
    after: Map<KeyView, Seq<ResourceView>>,
    url: Seq<char>,
    skip: KeyView,
    store: MemoryStore,
    now: Span,
    instant: Span,
    i: int,
)
    requires
        is_related(before, after, Some(url), skip, store, now, instant),
    ensures
        ({
            let key = KeyView { url, partition: None };
            &&& key == skip ==> after == before
            &&& key != skip && after.contains_key(key) && 0 <= i < after[key].len()
                ==> after[key][i].expires.total() == 0
            &&& key != skip && before.contains_key(key) ==> after.contains_key(key)
                && after[key].len() == before[key].len()
        }),
{
}

/// A new resource joins those under its key as the newest, with the fields, the status and
/// the address that were stored, and the others stay.
pub proof fn law_made_live_joins(
    before: Map<KeyView, Seq<ResourceView>>,
    after: Map<KeyView, Seq<ResourceView>>,
    key: KeyView,
    meta: StoredView,
    body: BodyView,
    handle: HandleView,
    now: Span,
    instant: Span,
    other: KeyView,
    i: int,
)
    requires
        is_made_live(before, after, key, meta, body, handle, now, instant),
        other != key,
    ensures
        after[key].len() > 0,
        after[key].last().body == body,
        after[key].last().handle == handle,
        after[key].last().fields == meta.response,
        after[key].last().status == meta.status,
        after[key].last().final_url == meta.final_url,
        after[key].last().expires == meta.expires,
        !after[key].last().aborted,
        before.contains_key(key) && 0 <= i < before[key].len() ==> after[key][i] == before[key][i],
        before.contains_key(key) ==> after[key].len() == before[key].len() + 1,
        after.contains_key(other) == before.contains_key(other),
        before.contains_key(other) ==> after[other] == before[other],
{
    if before.contains_key(key) && 0 <= i < before[key].len() {
        assert(after[key].drop_last()[i] == after[key][i]);
    }
}

/// What was stored answers the next request for its address that it may answer, with its
/// body, its fields, its status and its address.
pub proof fn law_stored_answers(
    before: Map<KeyView, Seq<ResourceView>>,
    stored: Map<KeyView, Seq<ResourceView>>,
    after: Map<KeyView, Seq<ResourceView>>,
    meta: StoredView,
    body: BodyView,
    handle: HandleView,
    now: Span,
    then: Span,
    request: &Request,
    r: Option<CachedResponse>,
    consumer: u64,
    instant: Span,
)
    requires
        is_made_live(
            before,
            stored,
            KeyView { url: request.url@, partition: None },
            meta,
            body,
            handle,
            now,
            then,
        ),
        is_found(r, request, stored, after, false, consumer, instant),
        request.method@ == text::bytes("GET"),
        !fields::asks_for_range(request.fields()),
        !fields::present(meta.response, "vary"),
        meta.status is Some && meta.status != Some(206u16),
        fields::directives(request.fields()) is None,
    ensures
        r matches Some(cached) && cached.response.body@ == body && cached.response.status
            == meta.status && fields::header_fields(cached.response.headers) == meta.response
            && cached.response.final_url@ == meta.final_url,
{
    let key = KeyView { url: request.url@, partition: None };
    let list = stored[key];
    let last = list.len() - 1;
    assert(list[last] == list.last());
    resource::law_newest_answers(r, request, list, instant, last);
}

/// What is taken in from a store are its whole variants, each as the resource that it was
/// stored as, with its body complete. A key that is live already is not read again.
pub proof fn law_taken_in_from_a_store(
    before: Map<KeyView, Seq<ResourceView>>,
    after: Map<KeyView, Seq<ResourceView>>,
    key: KeyView,
    variants: Seq<StoredVariantView>,
    now: Span,
    instant: Span,
    other: KeyView,
    i: int,
)
    requires
        is_taken_in(before, after, key, variants, now, instant),
        other != key,
    ensures
        before.contains_key(key) ==> after == before,
        after.contains_key(other) == before.contains_key(other),
        before.contains_key(other) ==> after[other] == before[other],
        ({
            let found = whole_of(variants, variants.len() as int);
            &&& !before.contains_key(key) ==> (after.contains_key(key) <==> found.len() > 0)
            &&& !before.contains_key(key) && 0 <= i < found.len() ==> {
                &&& after[key].len() == found.len()
                &&& after[key][i].body == BodyView::Done(found[i].body)
                &&& after[key][i].handle == found[i].handle
                &&& after[key][i].fields == found[i].meta.response
                &&& after[key][i].status == found[i].meta.status
                &&& after[key][i].final_url == found[i].meta.final_url
                &&& after[key][i].expires == found[i].meta.expires
                &&& after[key][i].last_validated == instant
                &&& !after[key][i].aborted
            }
        }),
{
}

/// Loading a key reads the variants whose bodies are in memory in full, and is else as taking
/// in.
pub proof fn law_loaded_from_memory(
    before: Map<KeyView, Seq<ResourceView>>,
    after: Map<KeyView, Seq<ResourceView>>,
    key: KeyView,
    variants: Seq<StoredVariantView>,
    now: Span,
    instant: Span,
    i: int,
)
    requires
        is_loaded(before, after, key, variants, now, instant),
    ensures
        before.contains_key(key) ==> after == before,
        ({
            let found = readable_of(variants, variants.len() as int);
            &&& !before.contains_key(key) ==> (after.contains_key(key) <==> found.len() > 0)
            &&& !before.contains_key(key) && 0 <= i < found.len() ==> after[key].len()
                == found.len() && after[key][i].body == BodyView::Done(found[i].body)
                && after[key][i].fields == found[i].meta.response && after[key][i].status
                == found[i].meta.status && after[key][i].expires == found[i].meta.expires
        }),
{
}

/// What is stored of a response is what it says: its own fields but for how it was coded, its
/// status and address, and how long it is fresh; and of the request the fields but for those
/// of this one fetch.
pub proof fn law_stored_meta(
    request: &Request,
    response: IncomingResponse,
    semantics: HttpCacheSemantics,
    body_len: usize,
)
    requires
        response.metadata is Some,
    ensures
        ({
            let meta = stored_meta(request, response, semantics, body_len as int);
            &&& meta.body_len == body_len
            &&& meta.status == (response.metadata->0).status
            &&& meta.final_url == (response.metadata->0).final_url@
            &&& meta.expires == semantics.freshness_lifetime
            &&& meta.response == normalized(fields::header_fields(response.headers))
            &&& meta.request == http_cache_store::sanitized(request.fields())
            &&& meta.stale_while_revalidate.total() == directives::stale_window(
                fields::header_fields(response.headers),
            ) * 1_000_000_000
        }),
{
}

/// A live list is exchanged only under a key that is live, and only there.
pub proof fn law_replaced_list(
    live: Map<KeyView, Seq<ResourceView>>,
    key: KeyView,
    list: Seq<ResourceView>,
    other: KeyView,
)
    ensures
        replaced(live, key, list).dom() =~= live.dom(),
        live.contains_key(key) ==> replaced(live, key, list)[key] == list,
        other != key && live.contains_key(other) ==> replaced(live, key, list)[other]
            == live[other],
{
}

/// A confirmation concerns the first resource under its key: it is the one that is answered
/// with, with its own body unless a range was asked for, and the others stay.
pub proof fn law_confirmation_concerns_the_first(
    r: Option<Response>,
    request: &Request,
    loaded: Map<KeyView, Seq<ResourceView>>,
    after: Map<KeyView, Seq<ResourceView>>,
    key: KeyView,
    from_304: Map<Seq<u8>, Seq<Seq<u8>>>,
    consumer: u64,
    now: Span,
    instant: Span,
    i: int,
)
    requires
        is_entry_refreshed(r, request, loaded, after, key, from_304, consumer, now, instant),
        loaded.contains_key(key),
        loaded[key].len() > 0,
    ensures
        after.contains_key(key) && after[key].len() == loaded[key].len(),
        1 <= i < loaded[key].len() ==> after[key][i] == loaded[key][i],
        !fields::asks_for_range(request.fields()) ==> (r matches Some(response)
            && response.body@ == loaded[key][0].body && response.status == loaded[key][0].status
            && after[key][0].last_validated == instant),
        fields::asks_for_range(request.fields()) ==> (r matches Some(response) ==> response.status
            == Some(206u16)),
        r is None ==> after[key] == loaded[key],
{
    assert(after[key] =~= loaded[key].update(0, after[key][0]));
}

} // verus!
