//! Stored variants of cached responses, and a store that keeps a bounded number of
//! resources in memory.
use http::{HeaderMap, HeaderValue};
use quick_cache::sync::Cache;
use std::collections::HashMap;
use std::sync::Arc;
use vstd::prelude::*;

use crate::fields;
use crate::fields::{ask_value, copy_fields, field_values, no_fields, remove_field, set_field};
use crate::http_cache::key::{CacheKey, KeyView};
use crate::http_cache_semantics;
use crate::http_cache_semantics::HttpCacheSemantics;
use crate::text;
use crate::time::Span;

verus! {

/// The request fields that say how to use a cache, which no variant is selected by.
pub open spec fn sanitized(fields: Map<Seq<u8>, Seq<Seq<u8>>>) -> Map<Seq<u8>, Seq<Seq<u8>>> {
    let a = fields::without(fields, text::bytes("cache-control"));
    let b = fields::without(a, text::bytes("pragma"));
    let c = fields::without(b, text::bytes("if-modified-since"));
    let d = fields::without(c, text::bytes("if-none-match"));
    let e = fields::without(d, text::bytes("if-unmodified-since"));
    let f = fields::without(e, text::bytes("if-match"));
    fields::without(f, text::bytes("if-range"))
}

/// A copy of request headers without the fields that say how to use a cache.
pub fn sanitized_request_headers(headers: &HeaderMap<HeaderValue>) -> (r: HeaderMap<HeaderValue>)
    ensures
        fields::header_fields(r) == sanitized(fields::header_fields(*headers)),
{
    let mut r: HeaderMap<HeaderValue> = copy_fields(headers);
    remove_field(&mut r, "cache-control".as_bytes());
    remove_field(&mut r, "pragma".as_bytes());
    remove_field(&mut r, "if-modified-since".as_bytes());
    remove_field(&mut r, "if-none-match".as_bytes());
    remove_field(&mut r, "if-unmodified-since".as_bytes());
    remove_field(&mut r, "if-match".as_bytes());
    remove_field(&mut r, "if-range".as_bytes());
    r
}

/// Sanitizing twice is the same as sanitizing once.
pub proof fn law_sanitized_once(fields: Map<Seq<u8>, Seq<Seq<u8>>>)
    ensures
        sanitized(sanitized(fields)) == sanitized(fields),
{
    assert(sanitized(sanitized(fields)) =~= sanitized(fields));
}

/// Names the body of a stored variant.
#[derive(Debug)]
pub enum BodyHandle {
    /// A body in memory, by the number it was given.
    Memory(u64),
    /// A body in a file, by the path.
    Disk(String),
}

/// What a handle names.
pub enum HandleView {
    Memory(u64),
    Disk(Seq<char>),
}

impl BodyHandle {
    pub open spec fn view(&self) -> HandleView {
        match self {
            BodyHandle::Memory(id) => HandleView::Memory(*id),
            BodyHandle::Disk(path) => HandleView::Disk(path@),
        }
    }

    /// A handle for a body in a file.
    pub fn disk(path: String) -> (r: BodyHandle)
        ensures
            r@ == HandleView::Disk(path@),
    {
        BodyHandle::Disk(path)
    }

    /// Whether two handles name the same body.
    pub fn ptr_eq(&self, other: &BodyHandle) -> (r: bool)
        ensures
            r == (self@ == other@),
    {
        match (self, other) {
            (BodyHandle::Memory(a), BodyHandle::Memory(b)) => *a == *b,
            (BodyHandle::Disk(a), BodyHandle::Disk(b)) => *a == *b,
            _ => false,
        }
    }

    /// The path of the file, if the body is in one.
    pub fn path(&self) -> (r: Option<&String>)
        ensures
            match self@ {
                HandleView::Memory(_) => r is None,
                HandleView::Disk(path) => r matches Some(p) && p@ == path,
            },
    {
        match self {
            BodyHandle::Memory(_) => None,
            BodyHandle::Disk(path) => Some(path),
        }
    }

    pub fn copy(&self) -> (r: BodyHandle)
        ensures
            r@ == self@,
    {
        match self {
            BodyHandle::Memory(id) => BodyHandle::Memory(*id),
            BodyHandle::Disk(path) => BodyHandle::Disk(path.clone()),
        }
    }
}

/// Summary of the caching decisions stored with each variant.
#[derive(Clone, Copy, Debug, PartialEq, Eq, Structural)]
pub struct StoredCachePolicy {
    /// Whether the cached response is storable.
    pub cacheable: bool,
    /// Freshness lifetime derived from the cache policy.
    pub freshness_lifetime: Span,
}

impl StoredCachePolicy {
    pub fn from_semantics(semantics: &HttpCacheSemantics) -> (r: StoredCachePolicy)
        ensures
            r == (StoredCachePolicy {
                cacheable: semantics.may_cache(),
                freshness_lifetime: semantics.freshness_lifetime,
            }),
    {
        StoredCachePolicy {
            cacheable: semantics.is_cacheable(),
            freshness_lifetime: semantics.freshness_lifetime(),
        }
    }
}

/// The metadata stored for a single cached variant.
#[derive(Debug)]
pub struct StoredVariantMeta {
    /// Request headers used for Vary matching.
    pub request_headers: HeaderMap<HeaderValue>,
    /// Response headers to reconstruct the cached response.
    pub response_headers: HeaderMap<HeaderValue>,
    /// Final URL associated with the cached response.
    pub final_url: String,
    /// MIME type, if known.
    pub content_type: Option<String>,
    /// Character set, if known.
    pub charset: Option<String>,
    /// Cached HTTP status, if the response has one.
    pub status: Option<u16>,
    /// Cache-policy snapshot.
    pub cache_policy: StoredCachePolicy,
    /// Redirect target recorded on the response.
    pub location_url: Option<Result<String, String>>,
    /// Body length used for weighting and persistence.
    pub body_len: usize,
    /// URL chain for the cached response.
    pub url_list: Vec<String>,
    /// Freshness lifetime.
    pub expires: Span,
    /// stale-while-revalidate window.
    pub stale_while_revalidate: Span,
}

pub struct StoredView {
    pub request: Map<Seq<u8>, Seq<Seq<u8>>>,
    pub response: Map<Seq<u8>, Seq<Seq<u8>>>,
    pub final_url: Seq<char>,
    pub content_type: Option<Seq<char>>,
    pub charset: Option<Seq<char>>,
    pub status: Option<u16>,
    pub cache_policy: StoredCachePolicy,
    pub location_url: Option<Result<Seq<char>, Seq<char>>>,
    pub body_len: usize,
    pub url_list: Seq<Seq<char>>,
    pub expires: Span,
    pub stale_while_revalidate: Span,
}

/// The text in an optional string.
pub open spec fn maybe(text: Option<String>) -> Option<Seq<char>> {
    match text {
        Some(text) => Some(text@),
        None => None,
    }
}

/// The texts in a list of strings.
pub open spec fn texts(list: Seq<String>) -> Seq<Seq<char>> {
    Seq::new(list.len(), |i: int| list[i]@)
}

/// The text in a redirect target.
pub open spec fn target(location: Option<Result<String, String>>) -> Option<
    Result<Seq<char>, Seq<char>>,
> {
    match location {
        Some(Ok(url)) => Some(Ok(url@)),
        Some(Err(message)) => Some(Err(message@)),
        None => None,
    }
}

pub fn copy_maybe(text: &Option<String>) -> (r: Option<String>)
    ensures
        maybe(r) == maybe(*text),
{
    match text {
        Some(text) => Some(text.clone()),
        None => None,
    }
}

pub fn copy_texts(list: &Vec<String>) -> (r: Vec<String>)
    ensures
        texts(r@) == texts(list@),
{
    let mut r: Vec<String> = Vec::new();
    let mut i: usize = 0;
    while i < list.len()
        invariant
            i <= list@.len(),
            texts(r@) == texts(list@).take(i as int),
        decreases list@.len() - i,
    {
        let ghost before = texts(r@);
        r.push(list[i].clone());
        assert(texts(r@) =~= before.push(list@[i as int]@));
        assert(texts(list@).take(i + 1) =~= texts(list@).take(i as int).push(list@[i as int]@));
        i += 1;
    }
    assert(texts(list@).take(list@.len() as int) =~= texts(list@));
    r
}

pub fn copy_target(location: &Option<Result<String, String>>) -> (r: Option<
    Result<String, String>,
>)
    ensures
        target(r) == target(*location),
{
    match location {
        Some(Ok(url)) => Some(Ok(url.clone())),
        Some(Err(message)) => Some(Err(message.clone())),
        None => None,
    }
}

impl StoredVariantMeta {
    pub open spec fn view(&self) -> StoredView {
        StoredView {
            request: fields::header_fields(self.request_headers),
            response: fields::header_fields(self.response_headers),
            final_url: self.final_url@,
            content_type: maybe(self.content_type),
            charset: maybe(self.charset),
            status: self.status,
            cache_policy: self.cache_policy,
            location_url: target(self.location_url),
            body_len: self.body_len,
            url_list: texts(self.url_list@),
            expires: self.expires,
            stale_while_revalidate: self.stale_while_revalidate,
        }
    }

    pub fn copy(&self) -> (r: StoredVariantMeta)
        ensures
            r@ == self@,
    {
        StoredVariantMeta {
            request_headers: copy_fields(&self.request_headers),
            response_headers: copy_fields(&self.response_headers),
            final_url: self.final_url.clone(),
            content_type: copy_maybe(&self.content_type),
            charset: copy_maybe(&self.charset),
            status: self.status,
            cache_policy: self.cache_policy,
            location_url: copy_target(&self.location_url),
            body_len: self.body_len,
            url_list: copy_texts(&self.url_list),
            expires: self.expires,
            stale_while_revalidate: self.stale_while_revalidate,
        }
    }

    /// Return the cached body length.
    pub fn body_len(&self) -> (r: usize)
        ensures
            r == self@.body_len,
    {
        self.body_len
    }

    /// Return the cached response headers.
    pub fn response_headers(&self) -> (r: &HeaderMap<HeaderValue>)
        ensures
            fields::header_fields(*r) == self@.response,
    {
        &self.response_headers
    }

    /// Return the response final URL.
    pub fn final_url(&self) -> (r: String)
        ensures
            r@ == self@.final_url,
    {
        self.final_url.clone()
    }

    /// Return the cached HTTP status.
    pub fn status(&self) -> (r: Option<u16>)
        ensures
            r == self@.status,
    {
        self.status
    }

    /// Update the final URL.
    pub fn set_final_url(&mut self, final_url: String)
        ensures
            final(self)@ == (StoredView { final_url: final_url@, ..old(self)@ }),
    {
        self.final_url = final_url;
    }

    /// Replace the request headers used for Vary matching.
    pub fn with_request_headers_for_test(self, headers: HeaderMap<HeaderValue>) -> (r:
        StoredVariantMeta)
        ensures
            r@ == (StoredView { request: fields::header_fields(headers), ..self@ }),
    {
        let mut meta: StoredVariantMeta = self;
        meta.request_headers = headers;
        meta
    }

    /// Update the cached HTTP status.
    pub fn set_status(&mut self, status: Option<u16>)
        ensures
            final(self)@ == (StoredView { status, ..old(self)@ }),
    {
        self.status = status;
    }
}

/// Whether every value is visible text.
pub open spec fn all_text(values: Seq<Seq<u8>>) -> bool {
    forall|i: int| 0 <= i < values.len() ==> text::is_text(#[trigger] values[i])
}

/// Whether two requests agree in the fields with the given names.
pub open spec fn agree(
    a: Map<Seq<u8>, Seq<Seq<u8>>>,
    b: Map<Seq<u8>, Seq<Seq<u8>>>,
    names: Seq<Seq<u8>>,
) -> bool {
    forall|i: int|
        0 <= i < names.len() && (#[trigger] names[i]).len() > 0 ==> fields::asked(a, names[i])
            == fields::asked(b, names[i])
}

/// Whether a freshly stored variant supersedes an existing one: the request fields
/// that its `Vary` nominates are the same.
pub open spec fn is_superseded(fresh: StoredView, existing: StoredView) -> bool {
    let values = fields::field(fresh.response, "vary");
    let names = text::items(values);
    &&& all_text(values)
    &&& !names.contains(text::bytes("*"))
    &&& agree(fresh.request, existing.request, names)
}

/// With no `Vary` there is only one variant per key: what is newly stored supersedes
/// everything that was there.
pub proof fn law_one_variant_without_vary(fresh: StoredView, existing: StoredView)
    requires
        !fields::present(fresh.response, "vary"),
    ensures
        is_superseded(fresh, existing),
{
    assert(fields::field(fresh.response, "vary") =~= Seq::<Seq<u8>>::empty());
    assert(text::items(fields::field(fresh.response, "vary")) =~= Seq::<Seq<u8>>::empty());
}

fn check_agree(
    a: &HeaderMap<HeaderValue>,
    b: &HeaderMap<HeaderValue>,
    names: &Vec<Vec<u8>>,
) -> (r: bool)
    ensures
        r == agree(fields::header_fields(*a), fields::header_fields(*b), text::views(names@)),
{
    let ghost views = text::views(names@);
    let mut i: usize = 0;
    while i < names.len()
        invariant
            i <= names@.len(),
            views == text::views(names@),
            forall|j: int|
                0 <= j < i && (#[trigger] views[j]).len() > 0 ==> fields::asked(
                    fields::header_fields(*a),
                    views[j],
                ) == fields::asked(fields::header_fields(*b), views[j]),
        decreases names@.len() - i,
    {
        assert(views[i as int] == names@[i as int]@);
        if names[i].len() > 0 {
            let left: Option<Vec<u8>> = ask_value(a, names[i].as_slice());
            let right: Option<Vec<u8>> = ask_value(b, names[i].as_slice());
            if !same_maybe(&left, &right) {
                return false;
            }
        }
        i += 1;
    }
    true
}

/// Whether two optional values are the same.
pub fn same_maybe(a: &Option<Vec<u8>>, b: &Option<Vec<u8>>) -> (r: bool)
    ensures
        r == match (*a, *b) {
            (Some(a), Some(b)) => a@ == b@,
            (None, None) => true,
            _ => false,
        },
{
    match (a, b) {
        (Some(a), Some(b)) => text::same(a.as_slice(), b.as_slice()),
        (None, None) => true,
        _ => false,
    }
}

/// Whether a freshly stored variant supersedes an existing one.
///
/// RFC 9111 keys secondary variants on the header fields named by the stored
/// response's `Vary`. With no `Vary` there is only one variant per key, so a newly
/// stored response replaces what was there; with one, only the variant whose
/// nominated fields match is replaced.
pub fn supersedes(fresh: &StoredVariantMeta, existing: &StoredVariantMeta) -> (r: bool)
    ensures
        r == is_superseded(fresh@, existing@),
{
    let values: Vec<Vec<u8>> = field_values(&fresh.response_headers, "vary".as_bytes());
    let ghost views = text::views(values@);
    let mut i: usize = 0;
    while i < values.len()
        invariant
            i <= values@.len(),
            views == text::views(values@),
            views == fields::field(fresh@.response, "vary"),
            forall|j: int| 0 <= j < i ==> text::is_text(#[trigger] views[j]),
        decreases values@.len() - i,
    {
        assert(views[i as int] == values@[i as int]@);
        if !text::check_text(values[i].as_slice()) {
            return false;
        }
        i += 1;
    }
    let names: Vec<Vec<u8>> = text::field_items(&values);
    if text::contains(&names, "*".as_bytes()) {
        return false;
    }
    check_agree(&fresh.request_headers, &existing.request_headers, &names)
}

/// A stored variant: the metadata, the body, and the handle by which the body is
/// known.
#[derive(Debug)]
pub struct StoredVariant {
    /// Metadata describing the variant.
    pub meta: StoredVariantMeta,
    /// Handle of the variant's body.
    pub handle: BodyHandle,
    /// The body, as far as it was written.
    pub body: Vec<u8>,
}

pub struct StoredVariantView {
    pub meta: StoredView,
    pub handle: HandleView,
    pub body: Seq<u8>,
}

impl StoredVariant {
    pub open spec fn view(&self) -> StoredVariantView {
        StoredVariantView { meta: self.meta@, handle: self.handle@, body: self.body@ }
    }

    pub fn copy(&self) -> (r: StoredVariant)
        ensures
            r@ == self@,
    {
        StoredVariant {
            meta: self.meta.copy(),
            handle: self.handle.copy(),
            body: text::copy_bytes(self.body.as_slice()),
        }
    }
}

/// The variants in a list.
pub open spec fn stored(variants: Seq<StoredVariant>) -> Seq<StoredVariantView> {
    Seq::new(variants.len(), |i: int| variants[i]@)
}

fn copy_variants(variants: &Vec<StoredVariant>) -> (r: Vec<StoredVariant>)
    ensures
        stored(r@) == stored(variants@),
{
    let mut r: Vec<StoredVariant> = Vec::new();
    let mut i: usize = 0;
    while i < variants.len()
        invariant
            i <= variants@.len(),
            stored(r@) == stored(variants@).take(i as int),
        decreases variants@.len() - i,
    {
        let ghost before = stored(r@);
        r.push(variants[i].copy());
        assert(stored(r@) =~= before.push(variants@[i as int]@));
        assert(stored(variants@).take(i + 1) =~= stored(variants@).take(i as int).push(
            variants@[i as int]@,
        ));
        i += 1;
    }
    assert(stored(variants@).take(variants@.len() as int) =~= stored(variants@));
    r
}

/// The first variant with a handle, or the number of variants if none has it.
pub open spec fn place_of(variants: Seq<StoredVariantView>, handle: HandleView) -> int
    decreases variants.len(),
{
    if variants.len() == 0 {
        0
    } else {
        let before = place_of(variants.drop_last(), handle);
        if before < variants.len() - 1 || variants.last().handle == handle {
            before
        } else {
            variants.len() as int
        }
    }
}

pub proof fn lemma_place_of(variants: Seq<StoredVariantView>, handle: HandleView)
    ensures
        0 <= place_of(variants, handle) <= variants.len(),
        place_of(variants, handle) < variants.len() ==> variants[place_of(
            variants,
            handle,
        )].handle == handle,
        forall|i: int|
            0 <= i < place_of(variants, handle) ==> (#[trigger] variants[i]).handle != handle,
    decreases variants.len(),
{
    if variants.len() > 0 {
        lemma_place_of(variants.drop_last(), handle);
        assert forall|i: int| 0 <= i < place_of(variants, handle) implies (
        #[trigger] variants[i]).handle != handle by {
            if i < variants.len() - 1 {
                assert(variants.drop_last()[i] == variants[i]);
            }
        }
    }
}

/// Whether the bodies of the variants are in memory and have different numbers below a
/// limit.
pub open spec fn numbered(variants: Seq<StoredVariantView>, limit: u64) -> bool {
    &&& forall|i: int|
        0 <= i < variants.len() ==> ((#[trigger] variants[i]).handle matches HandleView::Memory(
            number,
        ) && number < limit)
    &&& forall|i: int, j: int|
        0 <= i < j < variants.len() ==> (#[trigger] variants[i]).handle != (
        #[trigger] variants[j]).handle
}

/// A variant among such is found by its handle.
pub proof fn lemma_numbered_place(variants: Seq<StoredVariantView>, limit: u64, i: int)
    requires
        numbered(variants, limit),
        0 <= i < variants.len(),
    ensures
        place_of(variants, variants[i].handle) == i,
{
    lemma_place_of(variants, variants[i].handle);
    let k = place_of(variants, variants[i].handle);
    if k < i {
        assert(variants[k].handle != variants[i].handle);
    }
}

proof fn lemma_numbered_more(variants: Seq<StoredVariantView>, limit: u64)
    requires
        numbered(variants, limit),
        limit < u64::MAX,
    ensures
        numbered(variants, (limit + 1) as u64),
{
}

proof fn lemma_numbered_push(
    variants: Seq<StoredVariantView>,
    limit: u64,
    variant: StoredVariantView,
)
    requires
        numbered(variants, limit),
        limit < u64::MAX,
        variant.handle == HandleView::Memory(limit),
    ensures
        numbered(variants.push(variant), (limit + 1) as u64),
        place_of(variants, variant.handle) == variants.len(),
{
    let after = variants.push(variant);
    lemma_place_of(variants, variant.handle);
    assert forall|i: int, j: int| 0 <= i < j < after.len() implies (#[trigger] after[i]).handle != (
    #[trigger] after[j]).handle by {
        assert(after[i] == variants[i]);
        if j < variants.len() {
            assert(after[j] == variants[j]);
        }
    }
}

proof fn lemma_numbered_retained(
    variants: Seq<StoredVariantView>,
    fresh: StoredView,
    handle: HandleView,
    limit: u64,
)
    requires
        numbered(variants, limit),
    ensures
        numbered(retained(variants, fresh, handle), limit),
        forall|i: int|
            0 <= i < retained(variants, fresh, handle).len() ==> variants.contains(
                #[trigger] retained(variants, fresh, handle)[i],
            ),
    decreases variants.len(),
{
    if variants.len() > 0 {
        let rest = variants.drop_last();
        let last = variants.len() - 1;
        assert(numbered(rest, limit));
        lemma_numbered_retained(rest, fresh, handle, limit);
        let before = retained(rest, fresh, handle);
        let after = retained(variants, fresh, handle);
        assert forall|i: int| 0 <= i < after.len() implies variants.contains(#[trigger] after[i]) by {
            if i < before.len() {
                assert(rest.contains(before[i]));
                let k = choose|k: int| 0 <= k < rest.len() && rest[k] == before[i];
                assert(variants[k] == after[i]);
            } else {
                assert(variants[last] == after[i]);
            }
        }
        assert forall|i: int, j: int| 0 <= i < j < after.len() implies (
        #[trigger] after[i]).handle != (#[trigger] after[j]).handle by {
            assert(after[i] == before[i]);
            if j < before.len() {
                assert(after[j] == before[j]);
            } else {
                assert(rest.contains(before[i]));
                let k = choose|k: int| 0 <= k < rest.len() && rest[k] == before[i];
                assert(variants[k].handle != variants[last].handle);
            }
        }
    }
}

proof fn lemma_numbered_update(
    variants: Seq<StoredVariantView>,
    limit: u64,
    i: int,
    variant: StoredVariantView,
)
    requires
        numbered(variants, limit),
        0 <= i < variants.len(),
        variant.handle == variants[i].handle,
    ensures
        numbered(variants.update(i, variant), limit),
{
    let after = variants.update(i, variant);
    assert forall|a: int, b: int| 0 <= a < b < after.len() implies (#[trigger] after[a]).handle != (
    #[trigger] after[b]).handle by {
        assert(variants[a].handle != variants[b].handle);
    }
}

fn find_handle(variants: &Vec<StoredVariant>, handle: &BodyHandle) -> (r: usize)
    ensures
        r == place_of(stored(variants@), handle@),
        r <= variants@.len(),
{
    let mut i: usize = 0;
    proof {
        lemma_place_of(stored(variants@), handle@);
    }
    while i < variants.len()
        invariant
            i <= place_of(stored(variants@), handle@) <= variants@.len(),
            place_of(stored(variants@), handle@) < variants@.len() ==> stored(
                variants@,
            )[place_of(stored(variants@), handle@)].handle == handle@,
            forall|j: int|
                0 <= j < place_of(stored(variants@), handle@) ==> (#[trigger] stored(
                    variants@,
                )[j]).handle != handle@,
        decreases variants@.len() - i,
    {
        assert(stored(variants@)[i as int].handle == variants@[i as int].handle@);
        if variants[i].handle.ptr_eq(handle) {
            return i;
        }
        i += 1;
    }
    i
}

/// What is left of an entry once a variant in it supersedes others: that variant,
/// and those that it does not supersede.
pub open spec fn retained(
    variants: Seq<StoredVariantView>,
    fresh: StoredView,
    handle: HandleView,
) -> Seq<StoredVariantView>
    decreases variants.len(),
{
    if variants.len() == 0 {
        seq![]
    } else {
        let before = retained(variants.drop_last(), fresh, handle);
        if variants.last().handle == handle || !is_superseded(fresh, variants.last().meta) {
            before.push(variants.last())
        } else {
            before
        }
    }
}

/// An entry after bytes were appended to the body of one of its variants.
pub open spec fn appended(
    variants: Seq<StoredVariantView>,
    handle: HandleView,
    chunk: Seq<u8>,
) -> Seq<StoredVariantView> {
    let i = place_of(variants, handle);
    if i < variants.len() {
        variants.update(i, StoredVariantView { body: variants[i].body + chunk, ..variants[i] })
    } else {
        variants
    }
}

/// An entry after the body of one of its variants was finished.
pub open spec fn finished(variants: Seq<StoredVariantView>, handle: HandleView) -> Seq<
    StoredVariantView,
> {
    let i = place_of(variants, handle);
    if i < variants.len() {
        let meta = StoredView { body_len: variants[i].body.len() as usize, ..variants[i].meta };
        retained(
            variants.update(i, StoredVariantView { meta, ..variants[i] }),
            meta,
            handle,
        )
    } else {
        variants
    }
}

/// An entry after the body of one of its variants was emptied.
pub open spec fn emptied(variants: Seq<StoredVariantView>, handle: HandleView) -> Seq<
    StoredVariantView,
> {
    let i = place_of(variants, handle);
    if i < variants.len() {
        variants.update(i, StoredVariantView { body: seq![], ..variants[i] })
    } else {
        variants
    }
}

/// An entry after the body of one of its variants was abandoned.
pub open spec fn abandoned(variants: Seq<StoredVariantView>, handle: HandleView) -> Seq<
    StoredVariantView,
> {
    let i = place_of(variants, handle);
    if i < variants.len() {
        variants.update(
            i,
            StoredVariantView {
                meta: StoredView { body_len: 0, ..variants[i].meta },
                body: seq![],
                ..variants[i]
            },
        )
    } else {
        variants
    }
}

/// An entry after the metadata of one of its variants was replaced.
pub open spec fn updated(
    variants: Seq<StoredVariantView>,
    handle: HandleView,
    meta: StoredView,
) -> Seq<StoredVariantView> {
    let i = place_of(variants, handle);
    if i < variants.len() {
        variants.update(i, StoredVariantView { meta, ..variants[i] })
    } else {
        variants
    }
}

/// After its body was finished, a variant is in its entry with that body, and no
/// other variant in the entry is one that it supersedes.
pub proof fn law_finished_stays_alone(variants: Seq<StoredVariantView>, handle: HandleView)
    requires
        place_of(variants, handle) < variants.len(),
    ensures
        ({
            let before = variants[place_of(variants, handle)];
            let after = finished(variants, handle);
            let i = place_of(after, handle);
            &&& i < after.len()
            &&& after[i] == (StoredVariantView {
                meta: StoredView { body_len: before.body.len() as usize, ..before.meta },
                ..before
            })
            &&& forall|j: int|
                0 <= j < after.len() && (#[trigger] after[j]).handle != handle ==> !is_superseded(
                    after[i].meta,
                    after[j].meta,
                )
        }),
{
    let i = place_of(variants, handle);
    lemma_place_of(variants, handle);
    let meta = StoredView { body_len: variants[i].body.len() as usize, ..variants[i].meta };
    let changed = variants.update(i, StoredVariantView { meta, ..variants[i] });
    lemma_retained(changed, meta, handle, i);
    lemma_place_of(finished(variants, handle), handle);
}

proof fn lemma_retained(
    variants: Seq<StoredVariantView>,
    fresh: StoredView,
    handle: HandleView,
    i: int,
)
    requires
        0 <= i < variants.len(),
        variants[i].handle == handle,
        forall|j: int| 0 <= j < i ==> (#[trigger] variants[j]).handle != handle,
    ensures
        ({
            let after = retained(variants, fresh, handle);
            &&& place_of(after, handle) < after.len()
            &&& after[place_of(after, handle)] == variants[i]
            &&& forall|j: int|
                0 <= j < after.len() && (#[trigger] after[j]).handle != handle ==> !is_superseded(
                    fresh,
                    after[j].meta,
                )
        }),
    decreases variants.len(),
{
    let before = retained(variants.drop_last(), fresh, handle);
    let after = retained(variants, fresh, handle);
    if i < variants.len() - 1 {
        lemma_retained(variants.drop_last(), fresh, handle, i);
        lemma_place_of(before, handle);
        if after.len() > before.len() {
            assert(after.drop_last() =~= before);
        }
    } else {
        lemma_retained_others(variants.drop_last(), fresh, handle);
        assert(after.drop_last() =~= before);
        lemma_place_of(before, handle);
        if place_of(before, handle) < before.len() {
            assert(before[place_of(before, handle)].handle == handle);
        }
    }
    assert forall|j: int|
        0 <= j < after.len() && (#[trigger] after[j]).handle != handle implies !is_superseded(
        fresh,
        after[j].meta,
    ) by {
        if j < before.len() {
            assert(after[j] == before[j]);
            if i == variants.len() - 1 {
                lemma_retained_others(variants.drop_last(), fresh, handle);
            }
        }
    }
}

proof fn lemma_retained_others(
    variants: Seq<StoredVariantView>,
    fresh: StoredView,
    handle: HandleView,
)
    requires
        forall|j: int| 0 <= j < variants.len() ==> (#[trigger] variants[j]).handle != handle,
    ensures
        forall|j: int|
            0 <= j < retained(variants, fresh, handle).len() ==> (#[trigger] retained(
                variants,
                fresh,
                handle,
            )[j]).handle != handle && !is_superseded(
                fresh,
                retained(variants, fresh, handle)[j].meta,
            ),
    decreases variants.len(),
{
    if variants.len() > 0 {
        lemma_retained_others(variants.drop_last(), fresh, handle);
        let before = retained(variants.drop_last(), fresh, handle);
        let after = retained(variants, fresh, handle);
        assert forall|j: int| 0 <= j < after.len() implies (#[trigger] after[j]).handle != handle
            && !is_superseded(fresh, after[j].meta) by {
            if j < before.len() {
                assert(after[j] == before[j]);
            }
        }
    }
}

/// Keep the variants that are not superseded.
fn retain(variants: Vec<StoredVariant>, fresh: &StoredVariantMeta, handle: &BodyHandle) -> (r: Vec<
    StoredVariant,
>)
    ensures
        stored(r@) == retained(stored(variants@), fresh@, handle@),
{
    let mut r: Vec<StoredVariant> = Vec::new();
    let ghost all = stored(variants@);
    let mut i: usize = 0;
    while i < variants.len()
        invariant
            i <= variants@.len(),
            all == stored(variants@),
            stored(r@) == retained(all.take(i as int), fresh@, handle@),
        decreases variants@.len() - i,
    {
        let ghost before = stored(r@);
        assert(all.take(i + 1).drop_last() =~= all.take(i as int));
        assert(all.take(i + 1).last() == variants@[i as int]@);
        if variants[i].handle.ptr_eq(handle) || !supersedes(fresh, &variants[i].meta) {
            r.push(variants[i].copy());
            assert(stored(r@) =~= before.push(variants@[i as int]@));
        }
        i += 1;
    }
    assert(all.take(variants@.len() as int) =~= all);
    r
}

/// What a bounded cache holds under an address: a number that no other entry has, and the
/// variants of the entry, unless it is being written.
#[derive(Debug)]
struct CachedEntry {
    id: u64,
    variants: Vec<StoredVariant>,
}

/// What a [`CachedEntry`] stands for.
pub struct EntryView {
    pub id: u64,
    pub variants: Seq<StoredVariantView>,
}

impl CachedEntry {
    spec fn view(&self) -> EntryView {
        EntryView { id: self.id, variants: stored(self.variants@) }
    }
}

/// A `quick_cache::sync::Cache` of entries by the address of the resource.
#[verifier::external_body]
pub struct Entries {
    cache: Cache<String, Arc<CachedEntry>>,
}

/// What a bounded cache holds, by the address of the resource.
pub uninterp spec fn cached(entries: Entries) -> Map<Seq<char>, EntryView>;

/// The number of entries that a bounded cache was made for.
pub uninterp spec fn bound(entries: Entries) -> nat;

/// The number of entries up to which a bounded cache keeps whatever it was made for.
pub const SURE_ENTRIES: usize = 32;

/// A bounded cache without entries.
pub open spec fn nothing_held() -> Map<Seq<char>, EntryView> {
    Map::empty()
}

/// No entries at all.
pub open spec fn no_entries() -> Map<Seq<char>, Seq<StoredVariantView>> {
    Map::empty()
}

/// `quick_cache::sync::Cache::new` makes a cache without entries for the given number of
/// them.
#[verifier::external_body]
fn new_cache(entries: usize) -> (r: Entries)
    ensures
        cached(r) == nothing_held(),
        bound(r) == entries,
{
    Entries { cache: Cache::new(entries) }
}

/// `quick_cache::sync::Cache::get` gives the entry under a key, if there is one.
#[verifier::external_body]
fn get_entry(entries: &Entries, url: &String) -> (r: Option<Arc<CachedEntry>>)
    ensures
        r is Some == cached(*entries).contains_key(url@),
        r matches Some(entry) ==> entry@ == cached(*entries)[url@],
{
    entries.cache.get(url)
}

/// `quick_cache::sync::Cache::insert` puts an entry under a key, in place of the one
/// that was there. No entry but the given one changes. Every entry counts one, and each
/// of the shards holds what the cache was made for or thirty-two entries, whichever is
/// less, so that none leaves as long as there are fewer. Which ones leave otherwise is not
/// said.
#[verifier::external_body]
fn put_entry(entries: &mut Entries, url: String, entry: CachedEntry)
    ensures
        bound(*final(entries)) == bound(*old(entries)),
        cached(*final(entries)).submap_of(cached(*old(entries)).insert(url@, entry@)),
        cached(*old(entries)).dom().finite() && cached(*old(entries)).dom().len() < bound(
            *old(entries),
        ) && cached(*old(entries)).dom().len() < SURE_ENTRIES ==> cached(*final(entries))
            == cached(*old(entries)).insert(url@, entry@),
{
    entries.cache.insert(url, Arc::new(entry))
}

/// `quick_cache::sync::Cache::remove` takes out the entry under a key.
#[verifier::external_body]
fn drop_entry(entries: &mut Entries, url: &String)
    ensures
        bound(*final(entries)) == bound(*old(entries)),
        cached(*final(entries)) == cached(*old(entries)).remove(url@),
{
    entries.cache.remove(url);
}

/// `quick_cache::sync::Cache::clear` takes out every entry.
#[verifier::external_body]
fn drop_entries(entries: &mut Entries)
    ensures
        bound(*final(entries)) == bound(*old(entries)),
        cached(*final(entries)) == nothing_held(),
{
    entries.cache.clear()
}

/// `quick_cache::sync::Cache::iter` gives the key of every entry, each of them once.
#[verifier::external_body]
fn entry_keys(entries: &Entries) -> (r: Vec<String>)
    ensures
        texts(r@).no_duplicates(),
        texts(r@).to_set() == cached(*entries).dom(),
{
    entries.cache.iter().map(|(url, _)| url).collect()
}

/// An entry that is being written. It is shared by its writers and by the cache, as long
/// as that holds it.
#[derive(Debug)]
struct OpenEntry {
    url: String,
    variants: Vec<StoredVariant>,
    writers: u64,
}

/// What an [`OpenEntry`] stands for.
pub struct OpenView {
    pub url: Seq<char>,
    pub variants: Seq<StoredVariantView>,
    pub writers: u64,
}

impl OpenEntry {
    spec fn view(&self) -> OpenView {
        OpenView { url: self.url@, variants: stored(self.variants@), writers: self.writers }
    }
}

/// The entries that are being written, by their numbers.
spec fn opened(entries: Map<u64, OpenEntry>) -> Map<u64, OpenView> {
    entries.map_values(|entry: OpenEntry| entry@)
}

/// The variants of an entry as they are: those that its writers share, if it has any.
pub open spec fn current(
    entry: EntryView,
    unfinished: Map<u64, OpenView>,
) -> Seq<StoredVariantView> {
    if unfinished.contains_key(entry.id) {
        unfinished[entry.id].variants
    } else {
        entry.variants
    }
}

/// The variants that are stored, by the address of the resource.
spec fn resolved(
    held: Map<Seq<char>, EntryView>,
    unfinished: Map<u64, OpenView>,
) -> Map<Seq<char>, Seq<StoredVariantView>> {
    held.map_values(|entry: EntryView| current(entry, unfinished))
}

/// Whether an entry was put under an address: nothing else changed, but where there may not
/// be a place for it entries may have left.
pub open spec fn is_put(
    before: MemoryStore,
    after: MemoryStore,
    url: Seq<char>,
    id: u64,
    variants: Seq<StoredVariantView>,
) -> bool {
    &&& after.entries().submap_of(before.entries().insert(url, variants))
    &&& after.ids().submap_of(before.ids().insert(url, id))
    &&& before.has_place(url) ==> {
        &&& after.entries() == before.entries().insert(url, variants)
        &&& after.ids() == before.ids().insert(url, id)
    }
}

/// Whether an entry was started for a key, by the given writer, which wrote the given
/// bytes so far.
pub open spec fn is_begun(
    before: MemoryStore,
    after: MemoryStore,
    key: KeyView,
    meta: StoredView,
    body: Seq<u8>,
    writer: MemoryBodyWriter,
) -> bool {
    let id = before.id_under(key.url);
    let variants = before.under(key).push(
        StoredVariantView {
            meta: StoredView { request: sanitized(meta.request), ..meta },
            handle: HandleView::Memory(before.issued()),
            body,
        },
    );
    &&& writer.key() == key
    &&& writer.handle() == HandleView::Memory(before.issued())
    &&& writer.entry() == id
    &&& is_put(before, after, key.url, id, variants)
    &&& after.unfinished() == before.unfinished().insert(
        id,
        OpenView {
            url: key.url,
            variants,
            writers: if before.unfinished().contains_key(id) {
                (before.unfinished()[id].writers + 1) as u64
            } else {
                1
            },
        },
    )
    &&& after.issued() == before.issued() + 1
    &&& after.bound() == before.bound()
}

/// Whether bytes were appended to the body that a writer writes, which is seen wherever
/// its entry is.
pub open spec fn is_written(
    before: MemoryStore,
    after: MemoryStore,
    writer: MemoryBodyWriter,
    chunk: Seq<u8>,
) -> bool {
    let entry = before.unfinished()[writer.entry()];
    let variants = appended(entry.variants, writer.handle(), chunk);
    &&& after.unfinished() == before.unfinished().insert(
        writer.entry(),
        OpenView { variants, ..entry },
    )
    &&& after.entries() == if before.holds(writer) {
        before.entries().insert(writer.key().url, variants)
    } else {
        before.entries()
    }
    &&& after.ids() == before.ids()
    &&& after.issued() == before.issued()
    &&& after.bound() == before.bound()
}

/// The entries that are being written after one writer of an entry is done.
pub open spec fn released(
    unfinished: Map<u64, OpenView>,
    id: u64,
    variants: Seq<StoredVariantView>,
) -> Map<u64, OpenView> {
    let entry = unfinished[id];
    if entry.writers <= 1 {
        unfinished.remove(id)
    } else {
        unfinished.insert(id, OpenView { variants, writers: (entry.writers - 1) as u64, ..entry })
    }
}

/// Whether a writer finished its body. Where there is an entry under the address, the
/// writer's own one takes its place, with the variants that the finished one supersedes
/// dropped; an entry that was evicted meanwhile stays out.
pub open spec fn is_finished(
    before: MemoryStore,
    after: MemoryStore,
    writer: MemoryBodyWriter,
) -> bool {
    let variants = before.unfinished()[writer.entry()].variants;
    let url = writer.key().url;
    &&& if before.entries().contains_key(url) {
        let done = finished(variants, writer.handle());
        &&& is_put(before, after, url, writer.entry(), done)
        &&& after.unfinished() == released(before.unfinished(), writer.entry(), done)
    } else {
        &&& after.entries() == before.entries()
        &&& after.ids() == before.ids()
        &&& after.unfinished() == released(before.unfinished(), writer.entry(), variants)
    }
    &&& after.issued() == before.issued()
    &&& after.bound() == before.bound()
}

/// Whether a writer abandoned its body, which is empty then. Where there is an entry under
/// the address, the writer's own one takes its place.
pub open spec fn is_abandoned(
    before: MemoryStore,
    after: MemoryStore,
    writer: MemoryBodyWriter,
) -> bool {
    let variants = before.unfinished()[writer.entry()].variants;
    let url = writer.key().url;
    &&& if before.entries().contains_key(url) {
        let done = abandoned(variants, writer.handle());
        &&& is_put(before, after, url, writer.entry(), done)
        &&& after.unfinished() == released(before.unfinished(), writer.entry(), done)
    } else {
        &&& after.entries() == before.entries()
        &&& after.ids() == before.ids()
        &&& after.unfinished() == released(
            before.unfinished(),
            writer.entry(),
            emptied(variants, writer.handle()),
        )
    }
    &&& after.issued() == before.issued()
    &&& after.bound() == before.bound()
}

/// A simple memory cache. Elements will be evicted based on the cache heuristic.
pub struct MemoryStore {
    entries: Entries,
    next_handle: u64,
    unfinished: HashMap<u64, OpenEntry>,
}

/// Errors produced by the storage layer.
#[derive(Clone, Copy, Debug, PartialEq, Eq, Structural)]
pub enum StoreError {
    /// The body has already been finalized.
    Closed,
}

/// A writer of the body of an entry in memory. What it writes is the body of the stored
/// variant from then on.
#[derive(Debug)]
pub struct MemoryBodyWriter {
    key: CacheKey,
    handle: u64,
    entry: u64,
}

impl MemoryBodyWriter {
    pub closed spec fn key(&self) -> KeyView {
        self.key@
    }

    pub closed spec fn handle(&self) -> HandleView {
        HandleView::Memory(self.handle)
    }

    /// The number of the entry that is written.
    pub closed spec fn entry(&self) -> u64 {
        self.entry
    }

    /// Return the handle of the body that is being written.
    pub fn body_handle(&self) -> (r: BodyHandle)
        ensures
            r@ == self.handle(),
    {
        BodyHandle::Memory(self.handle)
    }
}

impl MemoryStore {
    /// The variants that are stored, by the address of the resource.
    pub closed spec fn entries(&self) -> Map<Seq<char>, Seq<StoredVariantView>> {
        resolved(cached(self.entries), self.unfinished())
    }

    /// The entries that are being written, by their numbers, whether they are still stored
    /// or not.
    pub closed spec fn unfinished(&self) -> Map<u64, OpenView> {
        opened(self.unfinished@)
    }

    /// The numbers of the entries that are stored, by the address of the resource.
    pub closed spec fn ids(&self) -> Map<Seq<char>, u64> {
        cached(self.entries).map_values(|entry: EntryView| entry.id)
    }

    /// The number of the entry under an address, or that of the one that comes next.
    pub open spec fn id_under(&self, url: Seq<char>) -> u64 {
        if self.ids().contains_key(url) {
            self.ids()[url]
        } else {
            self.issued()
        }
    }

    /// How many handles have been given out.
    pub closed spec fn issued(&self) -> u64 {
        self.next_handle
    }

    /// The number of entries that the store was made for.
    pub closed spec fn bound(&self) -> nat {
        bound(self.entries)
    }

    /// Whether an entry under an address is sure to find a place.
    pub open spec fn has_place(&self, url: Seq<char>) -> bool {
        let others = self.entries().dom().remove(url);
        others.finite() && others.len() < self.bound() && others.len() < SURE_ENTRIES
    }

    /// Whether the entry that a writer writes is still stored.
    pub open spec fn holds(&self, writer: MemoryBodyWriter) -> bool {
        self.ids().contains_key(writer.key().url) && self.ids()[writer.key().url]
            == writer.entry()
    }

    /// Whether a writer is one of this store that is not done.
    pub open spec fn owns(&self, writer: MemoryBodyWriter) -> bool {
        &&& self.unfinished().contains_key(writer.entry())
        &&& self.unfinished()[writer.entry()].url == writer.key().url
    }

    /// What holds of every store: no two entries have the same number, those that are
    /// being written are stored nowhere but under their addresses, no two variants have the
    /// same handle, and a number is free for the next one.
    pub closed spec fn wf(&self) -> bool {
        let held = cached(self.entries);
        let unfinished = self.unfinished();
        &&& forall|url: Seq<char>| #[trigger]
            held.contains_key(url) ==> held[url].id < self.next_handle
        &&& forall|a: Seq<char>, b: Seq<char>| #[trigger]
            held.contains_key(a) && #[trigger] held.contains_key(b) && held[a].id == held[b].id
                ==> a == b
        &&& forall|url: Seq<char>| #[trigger]
            held.contains_key(url) && unfinished.contains_key(held[url].id)
                ==> unfinished[held[url].id].url == url
        &&& forall|id: u64| #[trigger]
            unfinished.contains_key(id) ==> id < self.next_handle && unfinished[id].writers >= 1
                && unfinished[id].writers <= self.next_handle && numbered(
                unfinished[id].variants,
                self.next_handle,
            )
        &&& forall|url: Seq<char>| #[trigger]
            held.contains_key(url) ==> numbered(held[url].variants, self.next_handle)
    }

    /// The variants stored under a key.
    pub open spec fn under(&self, key: KeyView) -> Seq<StoredVariantView> {
        if self.entries().contains_key(key.url) {
            self.entries()[key.url]
        } else {
            seq![]
        }
    }

    /// An entry that is being written and still stored is found as its writers have it.
    pub proof fn law_written_entry_is_found(&self, writer: MemoryBodyWriter)
        requires
            self.wf(),
            self.owns(writer),
            self.holds(writer),
        ensures
            self.entries().contains_key(writer.key().url),
            self.under(writer.key()) == self.unfinished()[writer.entry()].variants,
    {
    }

    /// No two variants under a key have the same handle.
    pub proof fn law_handles_are_unique(&self, key: KeyView)
        requires
            self.wf(),
        ensures
            numbered(self.under(key), self.issued()),
    {
    }

    /// Construct a store that holds about the given number of entries.
    pub fn with_capacity(entries: usize) -> (r: MemoryStore)
        ensures
            r.wf(),
            r.entries() == no_entries(),
            r.ids() == Map::<Seq<char>, u64>::empty(),
            r.unfinished() == Map::<u64, OpenView>::empty(),
            r.issued() == 0,
            r.bound() == entries,
    {
        broadcast use vstd::std_specs::hash::group_hash_axioms;

        let r: MemoryStore = MemoryStore {
            entries: new_cache(entries),
            next_handle: 0,
            unfinished: HashMap::new(),
        };
        assert(r.unfinished() =~= Map::empty());
        assert(r.entries() =~= no_entries());
        assert(r.ids() =~= Map::empty());
        r
    }

    /// Look up the stored variants for `key`.
    pub fn lookup(&self, key: &CacheKey) -> (r: Vec<StoredVariant>)
        ensures
            stored(r@) == self.under(key@),
    {
        broadcast use vstd::std_specs::hash::group_hash_axioms;

        match get_entry(&self.entries, key.url()) {
            Some(entry) => match self.unfinished.get(&entry.id) {
                Some(shared) => copy_variants(&shared.variants),
                None => copy_variants(&entry.variants),
            },
            None => {
                let r: Vec<StoredVariant> = Vec::new();
                assert(stored(r@) =~= seq![]);
                r
            },
        }
    }

    /// The addresses of all entries, in no particular order.
    pub fn cache_entry_descriptors(&self) -> (r: Vec<String>)
        ensures
            texts(r@).no_duplicates(),
            texts(r@).to_set() == self.entries().dom(),
    {
        assert(self.entries().dom() =~= cached(self.entries).dom());
        entry_keys(&self.entries)
    }

    /// Clear the contents of the cache. What is being written goes on.
    pub fn clear(&mut self)
        requires
            old(self).wf(),
        ensures
            final(self).wf(),
            final(self).entries() == no_entries(),
            final(self).ids() == Map::<Seq<char>, u64>::empty(),
            final(self).unfinished() == old(self).unfinished(),
            final(self).issued() == old(self).issued(),
            final(self).bound() == old(self).bound(),
    {
        drop_entries(&mut self.entries);
        assert(self.entries() =~= no_entries());
        assert(self.ids() =~= Map::empty());
        assert(self.unfinished() == old(self).unfinished());
        assert forall|id: u64| #[trigger] self.unfinished().contains_key(id) implies id
            < self.next_handle && self.unfinished()[id].writers >= 1
            && self.unfinished()[id].writers <= self.next_handle && numbered(
            self.unfinished()[id].variants,
            self.next_handle,
        ) by {
            assert(old(self).unfinished().contains_key(id));
        }
    }

    /// The body of a variant that was looked up, as it is now; of one that has left the
    /// store, as it was then. A handle for a body in a file belongs to another backend, and
    /// is refused.
    pub fn open_body(&self, key: &CacheKey, variant: &StoredVariant) -> (r: Result<
        Vec<u8>,
        StoreError,
    >)
        ensures
            match variant@.handle {
                HandleView::Memory(_) => r matches Ok(body) && body@ == {
                    let i = place_of(self.under(key@), variant@.handle);
                    if i < self.under(key@).len() {
                        self.under(key@)[i].body
                    } else {
                        variant@.body
                    }
                },
                HandleView::Disk(_) => r == Err::<Vec<u8>, StoreError>(StoreError::Closed),
            },
    {
        match &variant.handle {
            BodyHandle::Memory(_) => {
                let variants: Vec<StoredVariant> = self.lookup(key);
                let i: usize = find_handle(&variants, &variant.handle);
                if i < variants.len() {
                    assert(stored(variants@)[i as int] == variants@[i as int]@);
                    Ok(text::copy_bytes(variants[i].body.as_slice()))
                } else {
                    Ok(text::copy_bytes(variant.body.as_slice()))
                }
            },
            BodyHandle::Disk(_) => Err(StoreError::Closed),
        }
    }

    /// Put an entry under an address, in place of the one that is there.
    fn put(&mut self, url: &String, id: u64, variants: Vec<StoredVariant>)
        requires
            old(self).wf(),
            id < old(self).next_handle,
            forall|other: Seq<char>| #[trigger]
                cached(old(self).entries).contains_key(other) && other != url@ ==> cached(
                    old(self).entries,
                )[other].id != id,
            old(self).unfinished().contains_key(id) ==> old(self).unfinished()[id].url == url@,
            numbered(stored(variants@), old(self).next_handle),
        ensures
            final(self).wf(),
            final(self).unfinished@ == old(self).unfinished@,
            final(self).next_handle == old(self).next_handle,
            final(self).bound() == old(self).bound(),
            is_put(
                *old(self),
                *final(self),
                url@,
                id,
                current(
                    EntryView { id, variants: stored(variants@) },
                    old(self).unfinished(),
                ),
            ),
            cached(final(self).entries).submap_of(
                cached(old(self).entries).insert(
                    url@,
                    EntryView { id, variants: stored(variants@) },
                ),
            ),
    {
        let ghost held = cached(self.entries);
        let entry: CachedEntry = CachedEntry { id, variants };
        let ghost view = entry@;
        drop_entry(&mut self.entries, url);
        put_entry(&mut self.entries, url.clone(), entry);
        proof {
            let after = cached(self.entries);
            let unfinished = self.unfinished();
            let variants = current(view, unfinished);
            assert(held.remove(url@).insert(url@, view) =~= held.insert(url@, view));
            assert(after.submap_of(held.insert(url@, view)));
            assert forall|u: Seq<char>| #[trigger] after.contains_key(u) implies held.insert(
                url@,
                view,
            ).contains_key(u) && after[u] == held.insert(url@, view)[u] by {}
            assert(self.entries().submap_of(old(self).entries().insert(url@, variants)));
            assert(self.ids().submap_of(old(self).ids().insert(url@, id)));
            assert(held.remove(url@).dom() =~= old(self).entries().dom().remove(url@));
            if old(self).has_place(url@) {
                assert(after == held.remove(url@).insert(url@, view));
                assert(self.entries() =~= old(self).entries().insert(url@, variants));
                assert(self.ids() =~= old(self).ids().insert(url@, id));
            }
        }
    }

    /// Insert a stored variant and return a body writer for it.
    pub fn start_entry(&mut self, key: &CacheKey, meta: StoredVariantMeta) -> (r: Result<
        MemoryBodyWriter,
        StoreError,
    >)
        requires
            old(self).wf(),
            old(self).issued() < u64::MAX,
        ensures
            final(self).wf(),
            r matches Ok(writer) && is_begun(
                *old(self),
                *final(self),
                key@,
                meta@,
                Seq::empty(),
                writer,
            ) && final(self).owns(writer),
    {
        broadcast use vstd::std_specs::hash::group_hash_axioms;

        let handle: u64 = self.next_handle;
        let request_headers: HeaderMap<HeaderValue> = sanitized_request_headers(
            &meta.request_headers,
        );
        let mut meta: StoredVariantMeta = meta;
        meta.request_headers = request_headers;
        let variant: StoredVariant = StoredVariant {
            meta,
            handle: BodyHandle::Memory(handle),
            body: Vec::new(),
        };
        assert(variant@.body =~= seq![]);
        let mut variants: Vec<StoredVariant> = self.lookup(key);
        let ghost before = stored(variants@);
        variants.push(variant);
        assert(stored(variants@) =~= before.push(variant@));
        proof {
            self.law_handles_are_unique(key@);
            lemma_numbered_push(before, handle, variant@);
        }
        let id: u64 = match get_entry(&self.entries, key.url()) {
            Some(entry) => entry.id,
            None => handle,
        };
        assert(self.unfinished@.contains_key(id) ==> self.unfinished().contains_key(id));
        let writers: u64 = match self.unfinished.get(&id) {
            Some(shared) => shared.writers + 1,
            None => 1,
        };
        let shared: OpenEntry = OpenEntry { url: key.url().clone(), variants, writers };
        let ghost view = shared@;
        let ghost unfinished = self.unfinished@;
        self.unfinished.insert(id, shared);
        self.next_handle = self.next_handle + 1;
        proof {
            assert(self.unfinished() =~= opened(unfinished).insert(id, view));
        }
        let ghost middle = *self;
        proof {
            let held = cached(self.entries);
            assert forall|u: Seq<char>| #[trigger] held.contains_key(u) implies held[u].id
                < self.next_handle && numbered(held[u].variants, self.next_handle) by {
                lemma_numbered_more(held[u].variants, handle);
            }
            assert forall|i: u64| #[trigger] self.unfinished().contains_key(i) implies i
                < self.next_handle && self.unfinished()[i].writers >= 1
                && self.unfinished()[i].writers <= self.next_handle && numbered(
                self.unfinished()[i].variants,
                self.next_handle,
            ) by {
                if i != id {
                    assert(opened(unfinished).contains_key(i));
                    lemma_numbered_more(opened(unfinished)[i].variants, handle);
                }
            }
            assert forall|u: Seq<char>| #[trigger] held.contains_key(u)
                && self.unfinished().contains_key(
                held[u].id,
            ) implies self.unfinished()[held[u].id].url == u by {
                if held[u].id == id && held.contains_key(key@.url) {
                    assert(u == key@.url);
                }
            }
            assert(self.wf());
            assert forall|u: Seq<char>| u != key@.url && #[trigger] middle.entries().contains_key(
                u,
            ) implies middle.entries()[u] == old(self).entries()[u] by {
                assert(cached(old(self).entries).contains_key(u));
            }
            assert(middle.entries().dom() =~= old(self).entries().dom());
            assert(middle.entries().insert(key@.url, view.variants) =~= old(self).entries().insert(
                key@.url,
                view.variants,
            ));
        }
        let none: Vec<StoredVariant> = Vec::new();
        self.put(key.url(), id, none);
        Ok(MemoryBodyWriter { key: key.copy(), handle, entry: id })
    }

    /// Take an entry that is being written out of those that are.
    fn take(&mut self, id: u64) -> (r: OpenEntry)
        requires
            old(self).unfinished().contains_key(id),
        ensures
            r@ == old(self).unfinished()[id],
            final(self).unfinished() == old(self).unfinished().remove(id),
            final(self).entries == old(self).entries,
            final(self).next_handle == old(self).next_handle,
    {
        broadcast use vstd::std_specs::hash::group_hash_axioms;

        let ghost before = self.unfinished@;
        match self.unfinished.remove(&id) {
            Some(entry) => {
                assert(self.unfinished() =~= opened(before).remove(id));
                entry
            },
            None => OpenEntry { url: String::new(), variants: Vec::new(), writers: 0 },
        }
    }

    /// Give an entry that is being written back.
    fn give(&mut self, id: u64, entry: OpenEntry)
        ensures
            final(self).unfinished() == old(self).unfinished().insert(id, entry@),
            final(self).entries == old(self).entries,
            final(self).next_handle == old(self).next_handle,
    {
        broadcast use vstd::std_specs::hash::group_hash_axioms;

        let ghost before = self.unfinished@;
        self.unfinished.insert(id, entry);
        assert(self.unfinished() =~= opened(before).insert(id, entry@));
    }

    /// Append bytes to the body that a writer writes.
    pub fn write(&mut self, writer: &MemoryBodyWriter, chunk: &[u8]) -> (r: Result<
        (),
        StoreError,
    >)
        requires
            old(self).wf(),
            old(self).owns(*writer),
        ensures
            final(self).wf(),
            final(self).owns(*writer),
            r is Ok,
            is_written(*old(self), *final(self), *writer, chunk@),
    {
        let handle: BodyHandle = BodyHandle::Memory(writer.handle);
        let mut entry: OpenEntry = self.take(writer.entry);
        let ghost before = entry@;
        let i: usize = find_handle(&entry.variants, &handle);
        if i < entry.variants.len() {
            let mut variant: StoredVariant = entry.variants[i].copy();
            let mut more: Vec<u8> = text::copy_bytes(chunk);
            variant.body.append(&mut more);
            entry.variants.set(i, variant);
            assert(stored(entry.variants@) =~= before.variants.update(i as int, variant@));
            proof {
                lemma_place_of(before.variants, handle@);
                lemma_numbered_update(before.variants, self.next_handle, i as int, variant@);
            }
        }
        let ghost after = entry@;
        self.give(writer.entry, entry);
        proof {
            assert(self.unfinished() =~= old(self).unfinished().insert(writer.entry, after));
            let held = cached(self.entries);
            assert forall|u: Seq<char>| #[trigger] held.contains_key(u) && u
                != writer.key@.url implies self.entries()[u] == old(self).entries()[u] by {}
            assert(self.entries().dom() =~= old(self).entries().dom());
            if old(self).holds(*writer) {
                assert(self.entries() =~= old(self).entries().insert(
                    writer.key@.url,
                    after.variants,
                ));
            } else {
                assert(self.entries() =~= old(self).entries());
            }
        }
        Ok(())
    }

    /// One writer of an entry is done, which leaves the entry with the given variants.
    /// Where it is to be stored it is put under its address.
    fn release(&mut self, id: u64, entry: OpenEntry, put: bool)
        requires
            old(self).wf(),
            old(self).unfinished().contains_key(id),
            entry@.url == old(self).unfinished()[id].url,
            entry@.writers == old(self).unfinished()[id].writers,
            numbered(entry@.variants, old(self).next_handle),
            put == old(self).entries().contains_key(entry@.url),
        ensures
            final(self).wf(),
            final(self).unfinished() == released(old(self).unfinished(), id, entry@.variants),
            final(self).next_handle == old(self).next_handle,
            final(self).bound() == old(self).bound(),
            if put {
                is_put(*old(self), *final(self), entry@.url, id, entry@.variants)
            } else {
                &&& final(self).entries() == old(self).entries()
                &&& final(self).ids() == old(self).ids()
            },
    {
        let ghost view = entry@;
        let url: String = entry.url.clone();
        let copy: Vec<StoredVariant> = copy_variants(&entry.variants);
        let writers: u64 = entry.writers;
        let ghost held = cached(self.entries);
        proof {
            assert(self.entries().dom() =~= held.dom());
        }
        let _ = self.take(id);
        if writers > 1 {
            let mut entry: OpenEntry = entry;
            entry.writers = writers - 1;
            self.give(id, entry);
        }
        proof {
            assert(self.unfinished() =~= released(old(self).unfinished(), id, view.variants));
            assert forall|u: Seq<char>| #[trigger] held.contains_key(u) && u
                != view.url implies self.entries()[u] == old(self).entries()[u] by {}
            assert(self.entries().insert(view.url, view.variants) =~= old(self).entries().insert(
                view.url,
                view.variants,
            ));
            assert(self.entries().dom() =~= old(self).entries().dom());
            if !put {
                assert(self.entries() =~= old(self).entries());
            }
        }
        if put {
            self.put(&url, id, copy);
        }
    }

    /// Finish writing a body: the variants that its variant supersedes are dropped.
    /// Nothing happens to an entry that was evicted meanwhile.
    pub fn finish(&mut self, writer: MemoryBodyWriter) -> (r: Result<(), StoreError>)
        requires
            old(self).wf(),
            old(self).owns(writer),
        ensures
            final(self).wf(),
            r is Ok,
            is_finished(*old(self), *final(self), writer),
    {
        let handle: BodyHandle = BodyHandle::Memory(writer.handle);
        let mut entry: OpenEntry = self.copy_open(writer.entry);
        let put: bool = get_entry(&self.entries, &entry.url).is_some();
        let ghost before = entry@;
        if put {
            let i: usize = find_handle(&entry.variants, &handle);
            if i < entry.variants.len() {
                let mut variant: StoredVariant = entry.variants[i].copy();
                variant.meta.body_len = variant.body.len();
                let fresh: StoredVariantMeta = variant.meta.copy();
                entry.variants.set(i, variant);
                assert(stored(entry.variants@) =~= before.variants.update(i as int, variant@));
                proof {
                    lemma_numbered_update(before.variants, self.next_handle, i as int, variant@);
                    lemma_numbered_retained(
                        stored(entry.variants@),
                        fresh@,
                        handle@,
                        self.next_handle,
                    );
                }
                entry.variants = retain(entry.variants, &fresh, &handle);
            }
        }
        self.release(writer.entry, entry, put);
        Ok(())
    }

    /// Abandon a body without finalizing it: its variant stays, with an empty body.
    pub fn abort(&mut self, writer: MemoryBodyWriter) -> (r: Result<(), StoreError>)
        requires
            old(self).wf(),
            old(self).owns(writer),
        ensures
            final(self).wf(),
            r is Ok,
            is_abandoned(*old(self), *final(self), writer),
    {
        let handle: BodyHandle = BodyHandle::Memory(writer.handle);
        let mut entry: OpenEntry = self.copy_open(writer.entry);
        let put: bool = get_entry(&self.entries, &entry.url).is_some();
        let ghost before = entry@;
        let i: usize = find_handle(&entry.variants, &handle);
        if i < entry.variants.len() {
            let mut variant: StoredVariant = entry.variants[i].copy();
            variant.body = Vec::new();
            if put {
                variant.meta.body_len = 0;
            }
            assert(variant@.body =~= seq![]);
            entry.variants.set(i, variant);
            assert(stored(entry.variants@) =~= before.variants.update(i as int, variant@));
            proof {
                lemma_numbered_update(before.variants, self.next_handle, i as int, variant@);
            }
        }
        self.release(writer.entry, entry, put);
        Ok(())
    }

    /// A copy of an entry that is being written.
    fn copy_open(&self, id: u64) -> (r: OpenEntry)
        requires
            self.unfinished().contains_key(id),
        ensures
            r@ == self.unfinished()[id],
    {
        broadcast use vstd::std_specs::hash::group_hash_axioms;

        match self.unfinished.get(&id) {
            Some(entry) => OpenEntry {
                url: entry.url.clone(),
                variants: copy_variants(&entry.variants),
                writers: entry.writers,
            },
            None => OpenEntry { url: String::new(), variants: Vec::new(), writers: 0 },
        }
    }

    /// Whether a variant with a handle is stored under an address.
    pub open spec fn has_handle(&self, url: Seq<char>, handle: HandleView) -> bool {
        self.entries().contains_key(url) && place_of(self.entries()[url], handle)
            < self.entries()[url].len()
    }

    /// Update the metadata for an existing body. Nothing happens where no stored
    /// variant has the handle, or it is one for a body in a file.
    pub fn update_meta(&mut self, handle: &BodyHandle, meta: StoredVariantMeta)
        requires
            old(self).wf(),
        ensures
            final(self).wf(),
            is_updated(*old(self), *final(self), handle@, meta@),
    {
        broadcast use vstd::std_specs::hash::group_hash_axioms;

        if handle.path().is_some() {
            return;
        }
        let keys: Vec<String> = entry_keys(&self.entries);
        let mut k: usize = 0;
        assert(self.entries().dom() =~= cached(self.entries).dom());
        while k < keys.len()
            invariant
                k <= keys@.len(),
                *self == *old(self),
                self.wf(),
                !(handle@ is Disk),
                texts(keys@).to_set() == self.entries().dom(),
                forall|j: int|
                    0 <= j < k ==> !old(self).has_handle(#[trigger] texts(keys@)[j], handle@),
            decreases keys@.len() - k,
        {
            let ghost url = keys@[k as int]@;
            assert(texts(keys@)[k as int] == url);
            match get_entry(&self.entries, &keys[k]) {
                Some(entry) => {
                    let id: u64 = entry.id;
                    let shared: bool = self.unfinished.contains_key(&id);
                    let mut variants: Vec<StoredVariant> = if shared {
                        self.copy_open(id).variants
                    } else {
                        copy_variants(&entry.variants)
                    };
                    let ghost before = stored(variants@);
                    assert(before == old(self).entries()[url]);
                    let i: usize = find_handle(&variants, handle);
                    if i < variants.len() {
                        let mut variant: StoredVariant = variants[i].copy();
                        variant.meta = meta;
                        variants.set(i, variant);
                        assert(stored(variants@) =~= before.update(i as int, variant@));
                        let ghost after = stored(variants@);
                        assert(old(self).has_handle(url, handle@));
                        proof {
                            lemma_numbered_update(before, self.next_handle, i as int, variant@);
                        }
                        if shared {
                            let mut open: OpenEntry = self.take(id);
                            open.variants = copy_variants(&variants);
                            self.give(id, open);
                        }
                        proof {
                            let held = cached(self.entries);
                            if shared {
                                assert(self.unfinished() =~= old(self).unfinished().insert(
                                    id,
                                    OpenView { variants: after, ..old(self).unfinished()[id] },
                                ));
                            }
                            assert forall|u: Seq<char>| #[trigger] held.contains_key(u) && u
                                != url implies self.entries()[u] == old(self).entries()[u] by {}
                            assert(self.entries().insert(url, after) =~= old(
                                self,
                            ).entries().insert(url, after));
                            assert(self.entries().dom() =~= old(self).entries().dom());
                        }
                        self.put(&keys[k], id, variants);
                        assert(old(self).id_under(url) == id);
                        return;
                    }
                },
                None => {},
            }
            k += 1;
        }
        assert forall|url: Seq<char>| !old(self).has_handle(url, handle@) by {
            if old(self).has_handle(url, handle@) {
                assert(texts(keys@).to_set().contains(url));
                let j = choose|j: int| 0 <= j < texts(keys@).len() && texts(keys@)[j] == url;
                assert(!old(self).has_handle(texts(keys@)[j], handle@));
            }
        }
    }

    /// Remove the cached resources associated with `key`. What is being written goes on.
    pub fn remove(&mut self, key: &CacheKey)
        requires
            old(self).wf(),
        ensures
            final(self).wf(),
            final(self).issued() == old(self).issued(),
            final(self).bound() == old(self).bound(),
            final(self).unfinished() == old(self).unfinished(),
            final(self).entries() == old(self).entries().remove(key@.url),
            final(self).ids() == old(self).ids().remove(key@.url),
    {
        drop_entry(&mut self.entries, key.url());
        assert(self.entries() =~= old(self).entries().remove(key@.url));
        assert(self.ids() =~= old(self).ids().remove(key@.url));
    }
}

/// The entries that are being written after the variants of one of them changed, if it is
/// one.
pub open spec fn with_variants(
    unfinished: Map<u64, OpenView>,
    id: u64,
    variants: Seq<StoredVariantView>,
) -> Map<u64, OpenView> {
    if unfinished.contains_key(id) {
        unfinished.insert(id, OpenView { variants, ..unfinished[id] })
    } else {
        unfinished
    }
}

/// Whether the metadata for a body was updated in a store, if a stored variant has the
/// handle and it is not one for a body in a file.
pub open spec fn is_updated(
    before: MemoryStore,
    after: MemoryStore,
    handle: HandleView,
    meta: StoredView,
) -> bool {
    &&& after.issued() == before.issued()
    &&& after.bound() == before.bound()
    &&& if handle is Disk || (forall|url: Seq<char>| !before.has_handle(url, handle)) {
        &&& after.entries() == before.entries()
        &&& after.ids() == before.ids()
        &&& after.unfinished() == before.unfinished()
    } else {
        exists|url: Seq<char>|
            #[trigger] before.has_handle(url, handle) && is_put(
                before,
                after,
                url,
                before.id_under(url),
                updated(before.entries()[url], handle, meta),
            ) && after.unfinished() == with_variants(
                before.unfinished(),
                before.id_under(url),
                updated(before.entries()[url], handle, meta),
            )
    }
}

/// What a writer appends follows what it wrote before.
pub proof fn law_writing_goes_on(
    first: MemoryStore,
    before: MemoryStore,
    after: MemoryStore,
    key: KeyView,
    meta: StoredView,
    body: Seq<u8>,
    writer: MemoryBodyWriter,
    chunk: Seq<u8>,
)
    requires
        first.wf(),
        first.issued() < u64::MAX,
        is_begun(first, before, key, meta, body, writer),
        is_written(before, after, writer, chunk),
    ensures
        is_begun(first, after, key, meta, body + chunk, writer),
{
    let base = first.under(key);
    let fresh = before.unfinished()[writer.entry()].variants;
    let variants = after.unfinished()[writer.entry()].variants;
    first.law_handles_are_unique(key);
    lemma_numbered_push(base, first.issued(), fresh.last());
    assert(fresh.drop_last() =~= base);
    assert(place_of(fresh, writer.handle()) == base.len());
    let variant = StoredVariantView { body: body + chunk, ..fresh.last() };
    assert(variants =~= base.push(variant));
    assert(before.ids().dom() =~= before.entries().dom());
    assert forall|u: Seq<char>| #[trigger] after.entries().contains_key(u) implies
        first.entries().insert(key.url, variants).contains_key(u) && after.entries()[u]
        == first.entries().insert(key.url, variants)[u] by {
        assert(before.entries().contains_key(u));
        assert(first.entries().insert(key.url, fresh).contains_key(u));
        if u == key.url {
            assert(before.ids().contains_key(u));
            assert(first.ids().insert(key.url, writer.entry()).contains_key(u));
        }
    }
    assert(after.entries().submap_of(first.entries().insert(key.url, variants)));
    if first.has_place(key.url) {
        assert(after.entries() =~= first.entries().insert(key.url, variants));
    }
    assert(after.unfinished() =~= first.unfinished().insert(
        writer.entry(),
        after.unfinished()[writer.entry()],
    ));
}

/// A body that was written to an entry and finished is read back: in a store with a place
/// for it, the variant is found under its key, with the body and its length.
pub proof fn law_finished_body_is_found(
    first: MemoryStore,
    written: MemoryStore,
    ended: MemoryStore,
    key: KeyView,
    meta: StoredView,
    body: Seq<u8>,
    writer: MemoryBodyWriter,
)
    requires
        first.wf(),
        first.issued() < u64::MAX,
        first.has_place(key.url),
        is_begun(first, written, key, meta, body, writer),
        is_finished(written, ended, writer),
    ensures
        ended.entries() == first.entries().insert(key.url, ended.under(key)),
        ({
            let found = ended.under(key);
            let i = place_of(found, writer.handle());
            &&& i < found.len()
            &&& found[i].body == body
            &&& found[i].handle == writer.handle()
            &&& found[i].meta == (StoredView {
                request: sanitized(meta.request),
                body_len: body.len() as usize,
                ..meta
            })
        }),
{
    let handle = writer.handle();
    let base = first.under(key);
    let fresh = written.unfinished()[writer.entry()].variants;
    first.law_handles_are_unique(key);
    lemma_numbered_push(base, first.issued(), fresh.last());
    assert(fresh.drop_last() =~= base);
    assert(place_of(fresh, handle) == base.len());
    assert(written.entries().dom().remove(key.url) =~= first.entries().dom().remove(key.url));
    law_finished_stays_alone(fresh, handle);
    assert(ended.entries() =~= first.entries().insert(key.url, ended.under(key)));
}

/// Metadata for a response with a plain text body and an expiry date in the past.
pub fn build_stored_variant_meta(url: &String, body_len: usize, now: Span) -> (r: StoredVariantMeta)
    requires
        now.wf(),
    ensures
        r@.request == fields::nothing(),
        r@.response == fields::with_field(
            fields::nothing(),
            text::bytes("expires"),
            text::bytes("-10"),
        ),
        r@.final_url == url@,
        r@.content_type == Some("text/plain"@),
        r@.charset == Some("utf-8"@),
        r@.status == Some(200u16),
        r@.location_url is None,
        r@.body_len == body_len,
        r@.url_list == seq![url@],
        r@.expires == (Span { secs: 60, nanos: 0 }),
        r@.stale_while_revalidate == (Span { secs: 0, nanos: 0 }),
        r@.cache_policy.freshness_lifetime.total() == http_cache_semantics::fresh_for(
            200,
            r@.response,
            now,
        ),
        r@.cache_policy.cacheable,
{
    proof {
        reveal_strlit("expires");
        reveal_strlit("-10");
        fields::lemma_ascii_bytes("expires");
        fields::lemma_ascii_bytes("-10");
        assert(fields::nothing().dom() =~= Set::empty());
    }
    let mut headers: HeaderMap<HeaderValue> = no_fields();
    set_field(&mut headers, "expires".as_bytes(), "-10".as_bytes());
    let semantics: HttpCacheSemantics = HttpCacheSemantics::new(200, &headers, now);
    proof {
        assert(fields::present(fields::header_fields(headers), "expires"));
        lemma_expires_only(fields::header_fields(headers));
    }
    let mut url_list: Vec<String> = Vec::new();
    url_list.push(url.clone());
    assert(texts(url_list@) =~= seq![url@]);
    StoredVariantMeta {
        request_headers: no_fields(),
        response_headers: headers,
        final_url: url.clone(),
        content_type: Some("text/plain".to_string()),
        charset: Some("utf-8".to_string()),
        status: Some(200),
        cache_policy: StoredCachePolicy::from_semantics(&semantics),
        location_url: None,
        body_len,
        url_list,
        expires: Span::from_secs(60),
        stale_while_revalidate: Span::zero(),
    }
}

proof fn lemma_expires_only(fields: Map<Seq<u8>, Seq<Seq<u8>>>)
    requires
        fields == fields::with_field(
            fields::nothing(),
            text::bytes("expires"),
            text::bytes("-10"),
        ),
    ensures
        !fields::present(fields, "cache-control"),
        !fields::pragma_no_cache(fields),
        text::items(fields::field(fields, "cache-control")).len() == 0,
{
    reveal_strlit("expires");
    reveal_strlit("cache-control");
    reveal_strlit("pragma");
    fields::lemma_ascii_bytes("expires");
    fields::lemma_ascii_bytes("cache-control");
    fields::lemma_ascii_bytes("pragma");
    assert(text::lower(text::bytes("cache-control")).len() == 13);
    assert(text::lower(text::bytes("pragma")).len() == 6);
    assert(text::lower(text::bytes("expires")).len() == 7);
    assert(fields::field(fields, "cache-control") =~= Seq::<Seq<u8>>::empty());
}

/// What is kept of the fields of a request is all of them but for those that are about this
/// one fetch: how it uses a cache, and what it makes itself conditional on.
pub proof fn law_sanitized_fields(fields: Map<Seq<u8>, Seq<Seq<u8>>>, name: Seq<u8>)
    ensures
        ({
            let own = text::lower(name);
            let about_the_fetch = own == text::lower(text::bytes("cache-control")) || own
                == text::lower(text::bytes("pragma")) || own == text::lower(
                text::bytes("if-modified-since"),
            ) || own == text::lower(text::bytes("if-none-match")) || own == text::lower(
                text::bytes("if-unmodified-since"),
            ) || own == text::lower(text::bytes("if-match")) || own == text::lower(
                text::bytes("if-range"),
            );
            &&& about_the_fetch ==> fields::values_of(sanitized(fields), name).len() == 0
            &&& !about_the_fetch ==> fields::values_of(sanitized(fields), name)
                == fields::values_of(fields, name)
        }),
{
}

/// A new response takes the place of a stored one where the requests for both agree in every
/// field that the new one varies by, and never where it varies by everything.
pub proof fn law_superseded_by_vary(fresh: StoredView, existing: StoredView, i: int)
    requires
        all_text(fields::field(fresh.response, "vary")),
    ensures
        ({
            let names = text::items(fields::field(fresh.response, "vary"));
            &&& names.contains(text::bytes("*")) ==> !is_superseded(fresh, existing)
            &&& 0 <= i < names.len() && names[i].len() > 0 && fields::asked(fresh.request, names[i])
                != fields::asked(existing.request, names[i]) ==> !is_superseded(fresh, existing)
            &&& !names.contains(text::bytes("*")) && fresh.request == existing.request
                ==> is_superseded(fresh, existing)
        }),
{
}

/// Of the variants under a key those stay that the finished one does not supersede, and the
/// finished one itself, in the order in which they were.
pub proof fn law_retained(
    variants: Seq<StoredVariantView>,
    fresh: StoredView,
    handle: HandleView,
)
    ensures
        retained(variants, fresh, handle) == variants.filter(
            |v: StoredVariantView| v.handle == handle || !is_superseded(fresh, v.meta),
        ),
    decreases variants.len(),
{
    reveal(Seq::filter);
    if variants.len() > 0 {
        law_retained(variants.drop_last(), fresh, handle);
    }
}

/// Writing to a body, giving it up and changing what is known of it each concern the one
/// variant of that handle: a chunk is put behind what is there, a body that is given up is
/// empty and said to be, and new metadata leaves the body. Every other variant stays as it is.
pub proof fn law_one_variant_changes(
    variants: Seq<StoredVariantView>,
    handle: HandleView,
    chunk: Seq<u8>,
    meta: StoredView,
    limit: u64,
    i: int,
)
    requires
        numbered(variants, limit),
        0 <= i < variants.len(),
    ensures
        appended(variants, handle, chunk).len() == variants.len(),
        abandoned(variants, handle).len() == variants.len(),
        emptied(variants, handle).len() == variants.len(),
        updated(variants, handle, meta).len() == variants.len(),
        variants[i].handle != handle ==> appended(variants, handle, chunk)[i] == variants[i]
            && abandoned(variants, handle)[i] == variants[i] && emptied(variants, handle)[i]
            == variants[i] && updated(variants, handle, meta)[i] == variants[i],
        variants[i].handle == handle ==> {
            let longer = appended(variants, handle, chunk)[i];
            let gone = abandoned(variants, handle)[i];
            let renewed = updated(variants, handle, meta)[i];
            &&& longer.body == variants[i].body + chunk
            &&& longer.meta == variants[i].meta && longer.handle == handle
            &&& gone.body.len() == 0 && gone.meta.body_len == 0 && gone.handle == handle
            &&& gone.meta.response == variants[i].meta.response
            &&& gone.meta.final_url == variants[i].meta.final_url
            &&& emptied(variants, handle)[i].body.len() == 0
            &&& renewed.meta == meta && renewed.body == variants[i].body && renewed.handle == handle
        },
{
    lemma_place_of(variants, handle);
    if variants[i].handle == handle {
        lemma_numbered_place(variants, limit, i);
    }
}

/// An entry is written until its last writer is done: each that is done takes one off, and
/// the last one closes the entry. Other entries are not touched.
pub proof fn law_last_writer_closes(
    unfinished: Map<u64, OpenView>,
    id: u64,
    variants: Seq<StoredVariantView>,
    other: u64,
)
    requires
        unfinished.contains_key(id),
        unfinished[id].writers >= 1,
    ensures
        ({
            let after = released(unfinished, id, variants);
            &&& unfinished[id].writers == 1 ==> !after.contains_key(id)
            &&& unfinished[id].writers > 1 ==> after.contains_key(id) && after[id].writers
                == unfinished[id].writers - 1 && after[id].variants == variants && after[id].url
                == unfinished[id].url
            &&& other != id ==> after.contains_key(other) == unfinished.contains_key(other) && (
            unfinished.contains_key(other) ==> after[other] == unfinished[other])
        }),
{
}

/// A body that was given up is gone: the variant is left with nothing in it, and is told to
/// have nothing in it, where its entry is still held.
pub proof fn law_abandoned_body_is_empty(
    before: MemoryStore,
    after: MemoryStore,
    writer: MemoryBodyWriter,
    limit: u64,
    i: int,
)
    requires
        is_abandoned(before, after, writer),
        before.entries().contains_key(writer.key().url),
        before.has_place(writer.key().url),
        numbered(before.unfinished()[writer.entry()].variants, limit),
        0 <= i < before.unfinished()[writer.entry()].variants.len(),
        before.unfinished()[writer.entry()].variants[i].handle == writer.handle(),
    ensures
        after.under(writer.key()).len() == before.unfinished()[writer.entry()].variants.len(),
        after.under(writer.key())[i].body.len() == 0,
        after.under(writer.key())[i].meta.body_len == 0,
        after.issued() == before.issued(),
{
    let variants = before.unfinished()[writer.entry()].variants;
    law_one_variant_changes(
        variants,
        writer.handle(),
        seq![],
        variants[i].meta,
        limit,
        i,
    );
}

/// What is put under an address is found there where there is room for it, and nothing else
/// appears by putting it.
pub proof fn law_put_is_found(
    before: MemoryStore,
    after: MemoryStore,
    url: Seq<char>,
    id: u64,
    variants: Seq<StoredVariantView>,
    other: Seq<char>,
)
    requires
        is_put(before, after, url, id, variants),
        other != url,
    ensures
        before.has_place(url) ==> after.entries().contains_key(url) && after.entries()[url]
            == variants,
        before.has_place(url) ==> after.entries().contains_key(other)
            == before.entries().contains_key(other),
        after.entries().contains_key(url) ==> after.entries()[url] == variants,
        after.entries().contains_key(other) ==> before.entries().contains_key(other)
            && after.entries()[other] == before.entries()[other],
{
    let all = before.entries().insert(url, variants);
    if after.entries().contains_key(url) {
        assert(after.entries().dom().contains(url));
        assert(all.dom().contains(url));
        assert(after.entries()[url] == all[url]);
    }
    if after.entries().contains_key(other) {
        assert(after.entries().dom().contains(other));
        assert(all.dom().contains(other));
        assert(after.entries()[other] == all[other]);
    }
}

} // verus!
