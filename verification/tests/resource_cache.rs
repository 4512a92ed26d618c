//! The cache of live resources, and its stores in memory and on disk.
use browser_core::fetch::{CacheMode, Request, RequestMode};
use browser_core::fields::{ByteBounds, ContentSpan};
use browser_core::http_cache::key::CacheKey;
use browser_core::http_cache::lookup::ValidationStatus;
use browser_core::http_cache_disk::{
    bytes_for_body, check_entry_name, checksum, entry_file_name, entry_tail, footer_from_bytes,
    footer_to_bytes, read_entry, rewrite_entry, superseded_files, Candidate, DiskBodyWriter,
    DiskIndex, DiskIndexEntry, EntryRead, FOOTER_SIZE,
};
use browser_core::http_cache_semantics::{
    is_cacheable_by_default, request_demands_revalidation, HttpCacheSemantics,
};
use browser_core::http_cache_store::{
    build_stored_variant_meta, sanitized_request_headers, supersedes, BodyHandle, MemoryStore,
    StoreError, StoredVariant,
};
use browser_core::resource::{
    get_expiry_adjustment_from_request_headers, stored_meta_from_cached_resource, take_complete,
    take_partial, validation_status, ResponseBody,
};
use browser_core::resource_cache::{
    apply_access, can_revive, check_arrival, insertable_meta, normalize_cached_response_headers,
    plan_access, related_key, set_conditional_headers, HttpCache, IncomingResponse, LiveCache,
    ResponseMetadata, Signal,
};
use browser_core::time::Span;
use http::header::{
    HeaderName, CACHE_CONTROL, CONTENT_RANGE, ETAG, EXPIRES, IF_MODIFIED_SINCE, IF_NONE_MATCH,
    LAST_MODIFIED, LOCATION, RANGE, VARY,
};
use http::{HeaderMap, HeaderValue};

fn now() -> Span {
    Span::from_secs(1_780_000_000)
}

fn instant() -> Span {
    Span::from_secs(1_000)
}

fn later(secs: u64) -> Span {
    Span::from_secs(1_000 + secs)
}

fn fields(list: &[(HeaderName, &str)]) -> HeaderMap {
    let mut map = HeaderMap::new();
    for (name, value) in list {
        map.append(name.clone(), HeaderValue::from_str(value).unwrap());
    }
    map
}

fn request(url: &str, list: &[(HeaderName, &str)]) -> Request {
    Request {
        method: b"GET".to_vec(),
        url: url.to_owned(),
        url_list: vec![url.to_owned()],
        headers: fields(list),
        cache_mode: CacheMode::Default,
        mode: RequestMode::NoCors,
    }
}

fn incoming(url: &str, status: u16, list: &[(HeaderName, &str)]) -> IncomingResponse {
    IncomingResponse {
        status: Some(status),
        headers: fields(list),
        location_url: None,
        metadata: Some(ResponseMetadata {
            final_url: url.to_owned(),
            content_type: Some("text/plain".to_owned()),
            charset: None,
            status: Some(status),
        }),
    }
}

fn cache() -> HttpCache {
    HttpCache::with_store(MemoryStore::with_capacity(100), false)
}

fn body_of(body: &ResponseBody) -> Option<&[u8]> {
    match body {
        ResponseBody::Done(bytes) => Some(bytes),
        _ => None,
    }
}

#[test]
fn update_awaiting_consumers_wakes_waiters_after_body_completion() {
    let mut cache = cache();
    let url = "https://servo.org/cache-awaiting-consumers";
    let request = request(url, &[]);
    let receiving = incoming(url, 200, &[(EXPIRES, "-10")]);

    cache.store(
        &request,
        &receiving,
        ResponseBody::Receiving(vec![]),
        now(),
        instant(),
    );

    let cached = cache
        .construct_response(&request, 7, now(), instant())
        .expect("cached response should be constructed");
    assert!(matches!(cached.response.body, ResponseBody::Receiving(_)));

    let woken = cache.update_awaiting_consumers(&request, Some(200), false, true);
    assert_eq!(woken, [(7, Signal::Done)]);
    assert!(cache
        .update_awaiting_consumers(&request, Some(200), false, true)
        .is_empty());
}

#[test]
fn memory_store_open_body_streams_completed_bytes() {
    let mut store = MemoryStore::with_capacity(100);
    let url = "https://servo.org/open-body".to_owned();
    let key = CacheKey::from_url(url.clone());

    let writer = store
        .start_entry(&key, build_stored_variant_meta(&url, 0, now()))
        .expect("entry should be created");
    store.write(&writer, b"hello").expect("body write should succeed");
    store.finish(writer).expect("body finish should succeed");

    let found = store.lookup(&key);
    let bytes = store
        .open_body(&key, &found[0])
        .expect("open_body should succeed");
    assert_eq!(bytes, b"hello");
}

#[test]
fn memory_store_update_meta_updates_persisted_values() {
    let mut store = MemoryStore::with_capacity(100);
    let url = "https://servo.org/update-meta".to_owned();
    let key = CacheKey::from_url(url.clone());

    let writer = store
        .start_entry(&key, build_stored_variant_meta(&url, 0, now()))
        .expect("entry should be created");
    store.finish(writer).expect("body finish should succeed");

    let found = store.lookup(&key);
    let body = &found[0].handle;

    let mut updated = build_stored_variant_meta(&url, 0, now());
    let updated_url = "https://servo.org/update-meta/updated";
    updated.set_final_url(updated_url.to_owned());
    updated.set_status(Some(202));
    store.update_meta(body, updated);

    let stored = store.lookup(&key);
    assert_eq!(stored.len(), 1);
    assert_eq!(stored[0].meta.final_url(), updated_url);
    assert_eq!(stored[0].meta.status(), Some(202));
}

#[test]
fn a_memory_store_drops_what_it_is_told_to() {
    let mut store = MemoryStore::with_capacity(100);
    let url = "https://servo.org/drop".to_owned();
    let key = CacheKey::from_url(url.clone());
    let writer = store
        .start_entry(&key, build_stored_variant_meta(&url, 0, now()))
        .unwrap();
    store.write(&writer, b"gone").unwrap();
    store.abort(writer).unwrap();
    let found = store.lookup(&key);
    assert!(found.iter().all(|variant| variant.body.is_empty()));
    assert_eq!(store.cache_entry_descriptors(), [url.clone()]);
    store.remove(&key);
    assert!(store.lookup(&key).is_empty());
    let writer = store
        .start_entry(&key, build_stored_variant_meta(&url, 0, now()))
        .unwrap();
    store.finish(writer).unwrap();
    store.clear();
    assert!(store.lookup(&key).is_empty());
}

#[test]
fn a_body_is_seen_while_it_is_written() {
    let mut store = MemoryStore::with_capacity(100);
    let url = "https://servo.org/shared".to_owned();
    let key = CacheKey::from_url(url.clone());
    let writer = store
        .start_entry(&key, build_stored_variant_meta(&url, 0, now()))
        .unwrap();
    let found = store.lookup(&key);
    assert!(found[0].body.is_empty());
    store.write(&writer, b"he").unwrap();
    assert_eq!(store.lookup(&key)[0].body, b"he");
    store.write(&writer, b"llo").unwrap();
    assert_eq!(store.open_body(&key, &found[0]), Ok(b"hello".to_vec()));
    assert_eq!(store.lookup(&key)[0].meta.body_len(), 0);
    store.finish(writer).unwrap();
    assert_eq!(store.lookup(&key)[0].meta.body_len(), 5);
}

#[test]
fn a_writer_that_finishes_puts_its_entry_back() {
    let mut store = MemoryStore::with_capacity(100);
    let url = "https://servo.org/back".to_owned();
    let key = CacheKey::from_url(url.clone());
    let meta = |len| build_stored_variant_meta(&url, len, now());
    let first = store.start_entry(&key, meta(0)).unwrap();
    store.write(&first, b"first").unwrap();
    store.remove(&key);
    assert!(store.lookup(&key).is_empty());
    let second = store.start_entry(&key, meta(0)).unwrap();
    store.write(&second, b"second").unwrap();
    assert_eq!(store.lookup(&key)[0].body, b"second");
    store.finish(first).unwrap();
    let found = store.lookup(&key);
    assert_eq!(found.len(), 1);
    assert_eq!(found[0].body, b"first");
    store.finish(second).unwrap();
    assert_eq!(store.lookup(&key)[0].body, b"second");

    // An entry that is gone stays gone.
    let third = store.start_entry(&key, meta(0)).unwrap();
    store.clear();
    store.finish(third).unwrap();
    assert!(store.lookup(&key).is_empty());
}

#[test]
fn a_finished_variant_supersedes_its_like() {
    let url = "https://servo.org/vary".to_owned();
    let key = CacheKey::from_url(url.clone());
    let vary = |value: &str| {
        let mut meta = build_stored_variant_meta(&url, 0, now());
        meta.response_headers
            .insert(VARY, HeaderValue::from_static("accept-language"));
        meta.with_request_headers_for_test(fields(&[(
            HeaderName::from_static("accept-language"),
            value,
        )]))
    };
    assert!(supersedes(&vary("en"), &vary("en")));
    assert!(!supersedes(&vary("en"), &vary("de")));
    let mut store = MemoryStore::with_capacity(100);
    for language in ["en", "de", "en"] {
        let writer = store.start_entry(&key, vary(language)).unwrap();
        store.finish(writer).unwrap();
    }
    assert_eq!(store.lookup(&key).len(), 2);
}

#[test]
fn fields_about_revalidation_are_left_out_of_what_is_stored() {
    let headers = fields(&[
        (CACHE_CONTROL, "no-cache"),
        (IF_NONE_MATCH, "\"x\""),
        (HeaderName::from_static("accept"), "*/*"),
    ]);
    let kept = sanitized_request_headers(&headers);
    assert!(kept.get(CACHE_CONTROL).is_none());
    assert!(kept.get(IF_NONE_MATCH).is_none());
    assert!(kept.get("accept").is_some());
}

#[test]
fn body_handles_are_told_apart() {
    let disk = BodyHandle::disk("/a".to_owned());
    assert_eq!(disk.path(), Some(&"/a".to_owned()));
    assert!(disk.ptr_eq(&disk.copy()));
    assert!(!disk.ptr_eq(&BodyHandle::Memory(1)));
    assert!(BodyHandle::Memory(1).path().is_none());
}

#[test]
fn a_fresh_response_answers_and_a_stale_one_is_revalidated() {
    let mut cache = cache();
    let url = "https://servo.org/fresh";
    let mut wanted = request(url, &[]);
    cache.store(
        &wanted,
        &incoming(
            url,
            200,
            &[
                (CACHE_CONTROL, "max-age=100"),
                (ETAG, "\"v1\""),
                (LAST_MODIFIED, "Wed, 21 Oct 2015 07:28:00 GMT"),
            ],
        ),
        ResponseBody::Done(b"body".to_vec()),
        now(),
        instant(),
    );
    assert_eq!(cache.cache_entry_descriptors(), [url.to_owned()]);
    let access = cache.prepare_cache_access(&mut wanted, 1, now(), later(50));
    assert!(!access.revalidating);
    let response = access.response.expect("a fresh response answers");
    assert_eq!(body_of(&response.body), Some(&b"body"[..]));

    let access = cache.prepare_cache_access(&mut wanted, 1, now(), later(150));
    assert!(access.revalidating);
    assert!(access.response.is_none());
    assert_eq!(wanted.headers.get(IF_NONE_MATCH).unwrap(), "\"v1\"");
    assert_eq!(
        wanted.headers.get(IF_MODIFIED_SINCE).unwrap(),
        "Wed, 21 Oct 2015 07:28:00 GMT"
    );

    let key = CacheKey::from_url(url.to_owned());
    let refreshed = cache
        .refresh_entry(
            &request(url, &[]),
            fields(&[(CACHE_CONTROL, "max-age=100"), (ETAG, "\"v2\"")]),
            &key,
            1,
            now(),
            later(150),
        )
        .expect("the stored response was not modified");
    assert_eq!(refreshed.headers.get(ETAG).unwrap(), "\"v2\"");
    assert_eq!(body_of(&refreshed.body), Some(&b"body"[..]));
    let status = cache.construct_response_freshness(&request(url, &[]), 1, now(), later(200));
    assert_eq!(status, Some(ValidationStatus::Valid));

    cache.invalidate_entry(&key, now(), later(200));
    let status = cache.construct_response_freshness(&request(url, &[]), 1, now(), later(201));
    assert_eq!(
        status,
        Some(ValidationStatus::Stale {
            revalidate_in_background: false
        })
    );
    cache.clear();
    assert!(cache
        .construct_response(&request(url, &[]), 1, now(), later(201))
        .is_none());
}

#[test]
fn an_unsafe_request_invalidates_what_it_names() {
    let mut cache = cache();
    let url = "https://servo.org/resource";
    cache.store(
        &request(url, &[]),
        &incoming(url, 200, &[(CACHE_CONTROL, "max-age=100")]),
        ResponseBody::Done(b"x".to_vec()),
        now(),
        instant(),
    );
    let mut post = request("https://servo.org/form", &[]);
    post.method = b"POST".to_vec();
    cache.invalidate_related_urls(
        &post,
        &fields(&[(LOCATION, "/resource")]),
        &CacheKey::from_url("https://servo.org/form".to_owned()),
        now(),
        instant(),
    );
    let status = cache.construct_response_freshness(&request(url, &[]), 1, now(), later(1));
    assert!(matches!(status, Some(ValidationStatus::Stale { .. })));
}

#[test]
fn a_streamed_entry_arrives_piece_by_piece() {
    let mut cache = cache();
    let url = "https://servo.org/stream";
    let wanted = request(url, &[]);
    let mut writer = cache
        .start_streaming_entry(
            &wanted,
            &incoming(url, 200, &[(CACHE_CONTROL, "max-age=100")]),
            now(),
            instant(),
        )
        .expect("the response may be stored");
    assert!(cache.write(&mut writer, b"he").is_ok());
    let cached = cache
        .construct_response(&wanted, 5, now(), instant())
        .expect("the body is on its way");
    assert!(matches!(&cached.response.body, ResponseBody::Receiving(bytes) if bytes == b"he"));
    assert!(cache.write(&mut writer, b"llo").is_ok());
    assert_eq!(cache.finish(writer), [5]);
    let cached = cache
        .construct_response(&wanted, 6, now(), instant())
        .unwrap();
    assert_eq!(body_of(&cached.response.body), Some(&b"hello"[..]));
}

#[test]
fn an_aborted_entry_answers_no_one() {
    let mut cache = cache();
    let url = "https://servo.org/aborted";
    let wanted = request(url, &[]);
    let mut writer = cache
        .start_streaming_entry(
            &wanted,
            &incoming(url, 200, &[(CACHE_CONTROL, "max-age=100")]),
            now(),
            instant(),
        )
        .unwrap();
    assert!(cache.write(&mut writer, b"he").is_ok());
    cache.construct_response(&wanted, 5, now(), instant());
    assert_eq!(cache.abort(writer), [5]);
    assert!(cache
        .construct_response(&wanted, 6, now(), instant())
        .is_none());
}

#[test]
fn partial_content_answers_only_ranges_it_holds() {
    let mut cache = cache();
    let url = "https://servo.org/partial";
    cache.store(
        &request(url, &[(RANGE, "bytes=0-4")]),
        &incoming(
            url,
            206,
            &[
                (CACHE_CONTROL, "max-age=100"),
                (CONTENT_RANGE, "bytes 0-4/10"),
            ],
        ),
        ResponseBody::Done(b"01234".to_vec()),
        now(),
        instant(),
    );
    assert!(cache
        .construct_response(&request(url, &[]), 1, now(), instant())
        .is_none());
    let cached = cache
        .construct_response(&request(url, &[(RANGE, "bytes=1-3")]), 1, now(), instant())
        .expect("the range is held");
    assert_eq!(body_of(&cached.response.body), Some(&b"123"[..]));
    assert_eq!(cached.response.status, Some(206));
    assert!(cache
        .construct_response(&request(url, &[(RANGE, "bytes=3-7")]), 1, now(), instant())
        .is_none());
}

#[test]
fn the_last_bytes_are_taken_out_of_partial_content() {
    let mut cache = cache();
    let url = "https://servo.org/suffix";
    cache.store(
        &request(url, &[(RANGE, "bytes=0-9")]),
        &incoming(
            url,
            206,
            &[
                (CACHE_CONTROL, "max-age=100"),
                (CONTENT_RANGE, "bytes 0-9/10"),
            ],
        ),
        ResponseBody::Done(b"0123456789".to_vec()),
        now(),
        instant(),
    );
    for (range, part) in [
        ("bytes=-3", &b"789"[..]),
        ("bytes=7-", &b"789"[..]),
        ("bytes=9-", &b"9"[..]),
        ("bytes=8-9", &b"89"[..]),
    ] {
        let cached = cache
            .construct_response(&request(url, &[(RANGE, range)]), 1, now(), instant())
            .expect("the range is held");
        assert_eq!(cached.response.status, Some(206));
        assert_eq!(body_of(&cached.response.body), Some(part));
    }
}

#[test]
fn a_response_without_a_status_is_not_cached() {
    let mut cache = cache();
    let url = "https://servo.org/failed";
    let failed = IncomingResponse {
        status: None,
        metadata: None,
        ..incoming(url, 200, &[(LAST_MODIFIED, "Wed, 21 Oct 2015 07:28:00 GMT")])
    };
    assert!(cache
        .store(
            &request(url, &[]),
            &failed,
            ResponseBody::Done(b"body".to_vec()),
            now(),
            instant(),
        )
        .is_none());
    assert!(cache
        .construct_response(&request(url, &[]), 1, now(), instant())
        .is_none());
}

#[test]
fn ranges_are_taken_out_of_bodies() {
    let whole = ResponseBody::Done(b"0123456789".to_vec());
    let bounds = |start, end| vec![ByteBounds { start, end }];
    assert_eq!(
        take_complete(&whole, &bounds(Some(2), Some(4))),
        Some(b"234".to_vec())
    );
    assert_eq!(
        take_complete(&whole, &bounds(Some(7), None)),
        Some(b"789".to_vec())
    );
    assert_eq!(
        take_complete(&ResponseBody::Receiving(vec![1]), &bounds(Some(0), None)),
        None
    );
    let span = ContentSpan {
        range: Some((5, 9)),
        total: Some(20),
    };
    let part = ResponseBody::Done(b"56789".to_vec());
    assert_eq!(
        take_partial(&part, span, &bounds(Some(6), Some(8))),
        Some(b"678".to_vec())
    );
    assert_eq!(take_partial(&part, span, &bounds(Some(2), Some(8))), None);
}

#[test]
fn cache_modes_decide_how_a_response_is_used() {
    let stale = ValidationStatus::Stale {
        revalidate_in_background: false,
    };
    let usable = ValidationStatus::Stale {
        revalidate_in_background: true,
    };
    let access = plan_access(CacheMode::ForceCache, RequestMode::Cors, stale);
    assert!(access.answers && !access.revalidate);
    assert!(!plan_access(CacheMode::Reload, RequestMode::Cors, ValidationStatus::Valid).answers);
    assert!(!plan_access(CacheMode::NoStore, RequestMode::Cors, ValidationStatus::Valid).answers);
    assert!(plan_access(CacheMode::OnlyIfCached, RequestMode::SameOrigin, stale).answers);
    assert!(!plan_access(CacheMode::OnlyIfCached, RequestMode::Cors, stale).answers);
    assert!(plan_access(CacheMode::Default, RequestMode::Cors, stale).revalidate);
    let access = plan_access(CacheMode::Default, RequestMode::Cors, usable);
    assert!(access.answers && access.in_background && !access.revalidate);
}

#[test]
fn a_disabled_resource_cache_stores_nothing() {
    let mut cache = HttpCache::with_store(MemoryStore::with_capacity(100), true);
    let url = "https://servo.org/disabled";
    assert!(cache
        .store(
            &request(url, &[]),
            &incoming(url, 200, &[(CACHE_CONTROL, "max-age=100")]),
            ResponseBody::Done(vec![]),
            now(),
            instant(),
        )
        .is_none());
    assert!(cache.cache_entry_descriptors().is_empty());
}

#[test]
fn conditional_fields_come_from_the_response() {
    let mut map = HeaderMap::new();
    set_conditional_headers(&mut map, &fields(&[(ETAG, "\"x\"")]));
    assert_eq!(map.get(IF_NONE_MATCH).unwrap(), "\"x\"");
    assert!(map.get(IF_MODIFIED_SINCE).is_none());
}

#[test]
fn a_decoded_body_loses_its_encoding() {
    let mut map = fields(&[
        (HeaderName::from_static("content-encoding"), "gzip"),
        (HeaderName::from_static("content-length"), "12"),
        (ETAG, "\"x\""),
    ]);
    normalize_cached_response_headers(&mut map);
    assert!(map.get("content-encoding").is_none());
    assert!(map.get("content-length").is_none());
    assert!(map.get(ETAG).is_some());
}

#[test]
fn one_fetch_at_a_time() {
    let mut cache = cache();
    let key = CacheKey::from_url("https://servo.org/".to_owned());
    let lease = cache.acquire_inflight(&key).expect("nobody fetches it");
    let ticket = cache.acquire_inflight(&key).expect_err("it is fetched");
    let other = CacheKey::from_url("https://servo.org/other".to_owned());
    assert!(cache.acquire_inflight(&other).is_ok());
    assert_eq!(cache.finish_inflight(lease), Some(ticket));
    assert!(cache.acquire_inflight(&other).is_err());
    assert!(cache.acquire_inflight(&key).is_ok());
}

#[test]
fn clearing_ends_every_fetch() {
    let mut cache = cache();
    let key = CacheKey::from_url("https://servo.org/".to_owned());
    assert!(cache.acquire_inflight(&key).is_ok());
    let before = cache.acquire_inflight(&key).expect_err("it is fetched");
    cache.clear();
    assert!(cache.acquire_inflight(&key).is_ok());
    let after = cache.acquire_inflight(&key).expect_err("it is fetched");
    assert_ne!(before, after);
}

#[test]
fn freshness_follows_the_fields() {
    let semantics =
        |list: &[(HeaderName, &str)]| HttpCacheSemantics::new(200, &fields(list), now());
    let max_age = semantics(&[(CACHE_CONTROL, "max-age=60")]);
    assert_eq!(max_age.freshness_lifetime(), Span::from_secs(60));
    assert!(max_age.is_cacheable());
    let no_store = semantics(&[(CACHE_CONTROL, "no-store")]);
    assert!(!no_store.is_cacheable());
    let guessed = semantics(&[(LAST_MODIFIED, "Wed, 21 Oct 2015 07:28:00 GMT")]);
    assert_eq!(guessed.freshness_lifetime(), Span::from_secs(86400));
    assert!(is_cacheable_by_default(200));
    assert!(!is_cacheable_by_default(500));
    assert!(request_demands_revalidation(&request(
        "https://servo.org/",
        &[(CACHE_CONTROL, "max-age=0")]
    )));
}

#[test]
fn requests_adjust_the_lifetime() {
    let adjusted = |value: &str| {
        get_expiry_adjustment_from_request_headers(
            &request("https://servo.org/", &[(CACHE_CONTROL, value)]),
            Span::from_secs(100),
        )
    };
    assert_eq!(adjusted("max-stale=30"), Some(Span::from_secs(130)));
    assert_eq!(adjusted("min-fresh=30"), Some(Span::from_secs(70)));
    assert_eq!(adjusted("no-cache"), Some(Span::zero()));
    assert_eq!(adjusted("max-age=30"), Some(Span::from_secs(30)));
    assert_eq!(adjusted("max-age=300"), Some(Span::from_secs(100)));
    assert_eq!(adjusted("max-age=0"), Some(Span::zero()));
    assert_eq!(
        get_expiry_adjustment_from_request_headers(
            &request("https://servo.org/", &[]),
            Span::from_secs(100)
        ),
        Some(Span::from_secs(100))
    );
}

#[test]
fn validation_depends_on_the_age() {
    let secs = Span::from_secs;
    assert_eq!(
        validation_status(secs(5), secs(10), secs(0), false),
        ValidationStatus::Valid
    );
    assert_eq!(
        validation_status(secs(15), secs(10), secs(20), false),
        ValidationStatus::Stale {
            revalidate_in_background: true
        }
    );
    assert_eq!(
        validation_status(secs(15), secs(10), secs(20), true),
        ValidationStatus::Stale {
            revalidate_in_background: false
        }
    );
}

#[test]
fn what_is_stored_comes_back() {
    let url = "https://servo.org/again".to_owned();
    let meta = build_stored_variant_meta(&url, 4, now());
    let resource = meta.copy().into_cached_resource(
        ResponseBody::Done(b"body".to_vec()),
        BodyHandle::Memory(3),
        now(),
        instant(),
    );
    assert_eq!(resource.final_url(), url);
    let again = stored_meta_from_cached_resource(&resource);
    assert_eq!(again.final_url, meta.final_url);
    assert_eq!(again.body_len, 4);
    assert_eq!(again.expires, meta.expires);
    assert_eq!(again.response_headers, meta.response_headers);
}

fn hex(bytes: &[u8]) -> String {
    bytes.iter().map(|byte| format!("{byte:02x}")).collect()
}

#[test]
fn entry_files_read_back() {
    assert_eq!(
        hex(&checksum(b"ab", b"c")),
        "ba7816bf8f01cfea414140de5dae2223b00361a396177a9cb410ff61f20015ad"
    );
    let mut file = b"body".to_vec();
    file.extend_from_slice(&entry_tail(b"body", b"meta"));
    assert_eq!(file.len(), 4 + 4 + FOOTER_SIZE);
    match read_entry(&file) {
        EntryRead::Whole(len, trailer) => {
            assert_eq!(len, 4);
            assert_eq!(trailer, b"meta");
        },
        other => panic!("unexpected {other:?}"),
    }
    assert_eq!(bytes_for_body(&file).unwrap(), b"body");
    let rewritten = rewrite_entry(&file, b"other").unwrap();
    assert_eq!(bytes_for_body(&rewritten).unwrap(), b"body");
    assert!(matches!(
        read_entry(&rewritten),
        EntryRead::Whole(4, trailer) if trailer == b"other"
    ));
    file[0] ^= 1;
    assert!(matches!(read_entry(&file), EntryRead::Incomplete));
    assert!(matches!(read_entry(b"short"), EntryRead::Incomplete));
    assert!(matches!(
        read_entry(&[0; FOOTER_SIZE]),
        EntryRead::Broken
    ));
    let footer = footer_to_bytes(4, 8, &[7; 32]);
    let read = footer_from_bytes(&footer).unwrap();
    assert_eq!((read.trailer_len, read.body_len), (4, 8));
    assert_eq!(read.checksum, [7; 32]);
    assert!(footer_from_bytes(&[0; FOOTER_SIZE]).is_none());
}

#[test]
fn entry_names_are_digests() {
    let name = entry_file_name(&"https://servo.org/".to_owned(), 5);
    assert!(check_entry_name(&name));
    assert!(!check_entry_name(b"journal"));
    assert_ne!(name, entry_file_name(&"https://servo.org/".to_owned(), 6));
    assert_ne!(name, entry_file_name(&"https://servo.org/a".to_owned(), 5));
}

fn record(name: &str, len: u64, used: u64) -> DiskIndexEntry {
    DiskIndexEntry {
        key_url: "https://servo.org/".to_owned(),
        file_name: name.as_bytes().to_vec(),
        body_len: len,
        last_used: used,
    }
}

#[test]
fn the_index_stays_within_its_budget() {
    let mut index = DiskIndex::new();
    assert!(index.add_entry(record("a", 40, 1), vec![], 100).is_empty());
    assert!(index.add_entry(record("b", 40, 2), vec![], 100).is_empty());
    index.touch_entry(b"a", 3);
    assert_eq!(
        index.add_entry(record("c", 40, 4), vec![], 100),
        [b"b".to_vec()]
    );
    assert_eq!(index.total_bytes, 80);
    assert_eq!(
        index.files_of(&"https://servo.org/".to_owned()),
        [b"a".to_vec(), b"c".to_vec()]
    );
    assert_eq!(
        index
            .remove_entries(&"https://servo.org/".to_owned())
            .len(),
        2
    );
    assert!(index
        .files_of(&"https://servo.org/".to_owned())
        .is_empty());
}

#[test]
fn a_written_body_replaces_its_predecessor() {
    let url = "https://servo.org/written".to_owned();
    let key = CacheKey::from_url(url.clone());
    let mut index = DiskIndex::new();
    let mut first = DiskBodyWriter::start(&mut index, &key, build_stored_variant_meta(&url, 0, now()));
    first.wrote(10);
    let old = first.path().clone();
    let old_meta = first.finished_meta();
    assert_eq!(old_meta.body_len, 10);
    assert!(first.finish(&mut index, &vec![], 1000, 1).is_empty());

    let candidates = vec![Candidate {
        file_name: old.clone(),
        meta: old_meta,
    }];
    let mut second =
        DiskBodyWriter::start(&mut index, &key, build_stored_variant_meta(&url, 0, now()));
    second.wrote(20);
    assert_ne!(second.path(), &old);
    assert_eq!(
        superseded_files(&second.finished_meta(), second.path(), &candidates),
        [old.clone()]
    );
    assert_eq!(second.finish(&mut index, &candidates, 1000, 2), [old]);
    assert_eq!(index.total_bytes, 20);
    assert_eq!(index.files_of(&url).len(), 1);
}

/// A cache in front of files: what was read from them answers, and what they are to keep
/// after a 304 comes back.
#[test]
fn live_resources_are_taken_in_from_any_store() {
    let url = "https://servo.org/files";
    let key = CacheKey::from_url(url.to_owned());
    let wanted = request(url, &[]);
    let arrival = incoming(
        url,
        200,
        &[(CACHE_CONTROL, "max-age=100"), (ETAG, "\"v1\"")],
    );
    assert!(check_arrival(&wanted, &arrival, false));
    let meta = insertable_meta(&wanted, &arrival, 4, false, now()).expect("it may be stored");
    assert!(can_revive(&meta));
    let variant = |body: &[u8], path: &str| StoredVariant {
        meta: meta.copy(),
        handle: BodyHandle::disk(path.to_owned()),
        body: body.to_vec(),
    };

    let mut front = LiveCache::new(false);
    assert!(!front.has_live(&key));
    // A body that was cut short is skipped.
    assert!(!front.take_in(&key, vec![variant(b"bo", "a")], now(), instant()));
    let both = vec![variant(b"bo", "a"), variant(b"body", "b")];
    assert!(front.take_in(&key, both, now(), instant()));
    assert!(front.has_live(&key));
    // What is live already stays.
    assert!(front.take_in(&key, vec![variant(b"none", "c")], now(), instant()));

    let mut asked = request(url, &[]);
    let found = front.answer(&asked, 1, later(50));
    let access = apply_access(&mut asked, found);
    assert!(!access.revalidating);
    assert_eq!(body_of(&access.response.unwrap().body), Some(&b"body"[..]));
    let found = front.answer(&asked, 1, later(150));
    assert!(apply_access(&mut asked, found).revalidating);
    assert_eq!(asked.headers.get(IF_NONE_MATCH).unwrap(), "\"v1\"");

    let headers = fields(&[(CACHE_CONTROL, "max-age=100"), (ETAG, "\"v2\"")]);
    assert!(front.can_refresh(&key, &headers));
    let (response, handle, kept) = front
        .refresh(&wanted, headers, &key, 1, now(), later(150))
        .unwrap();
    assert_eq!(response.headers.get(ETAG).unwrap(), "\"v2\"");
    assert_eq!(handle.path().unwrap(), "b");
    assert_eq!(kept.response_headers.get(ETAG).unwrap(), "\"v2\"");
    let found = front.answer(&wanted, 1, later(200)).unwrap();
    assert_eq!(found.validation_status, ValidationStatus::Valid);
    front.invalidate(&key);
    let found = front.answer(&wanted, 1, later(201)).unwrap();
    assert_ne!(found.validation_status, ValidationStatus::Valid);
    front.clear();
    assert!(front.answer(&wanted, 1, later(201)).is_none());
}

#[test]
fn a_body_arrives_in_front_of_any_store() {
    let url = "https://servo.org/arriving";
    let key = CacheKey::from_url(url.to_owned());
    let wanted = request(url, &[]);
    let arrival = incoming(url, 200, &[(CACHE_CONTROL, "max-age=100")]);
    let mut front = LiveCache::new(false);
    let handle = BodyHandle::disk("a".to_owned());
    let start = |front: &mut LiveCache| {
        let meta = insertable_meta(&wanted, &arrival, 0, false, now()).unwrap();
        let body = ResponseBody::Receiving(Vec::new());
        front.insert(&key, meta, body, handle.copy(), now(), instant());
    };
    start(&mut front);
    assert_eq!(front.append(&key, &handle, b"he"), Ok(()));
    front.answer(&wanted, 5, instant());
    assert_eq!(front.append(&key, &handle, b"llo"), Ok(()));
    assert_eq!(front.complete(&key, &handle, 5), [5]);
    assert_eq!(front.append(&key, &handle, b"!"), Err(StoreError::Closed));
    let found = front.answer(&wanted, 6, instant()).unwrap();
    assert_eq!(body_of(&found.response.body), Some(&b"hello"[..]));

    front.clear();
    start(&mut front);
    front.answer(&wanted, 7, instant());
    assert_eq!(front.give_up(&key, &handle), [7]);
    assert!(front.answer(&wanted, 8, instant()).is_none());
}

#[test]
fn a_related_key_is_not_the_one_skipped() {
    let skipped = CacheKey::from_url("https://servo.org/a".to_owned());
    assert!(related_key(None, &skipped).is_none());
    assert!(related_key(Some("https://servo.org/a".to_owned()), &skipped).is_none());
    let other = related_key(Some("https://servo.org/b".to_owned()), &skipped).unwrap();
    assert_eq!(other.url(), "https://servo.org/b");
}
