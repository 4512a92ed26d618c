//! The HTTP cache over a store in memory.
use browser_core::fetch::{CacheMode, Request, RequestMode};
use browser_core::http_cache::cache::HttpCache;
use browser_core::http_cache::front::Round;
use browser_core::http_cache::delivery::{DecodeEvent, Delivery, Notice};
use browser_core::http_cache::inflight::{wait, InFlight, InFlightState, RevalidationGuards};
use browser_core::http_cache::key::CacheKey;
use browser_core::http_cache::lookup::{entry_meta, HttpCacheAssignment, ValidationStatus};
use browser_core::http_cache::memory_store::MemoryStore;
use browser_core::http_cache::policy::{EntryPolicy, Freshness, PolicyRequest};
use browser_core::http_cache::store::DecoderType;
use browser_core::http_cache_semantics::HttpCacheSemantics;
use browser_core::time::Span;
use http::header::{
    HeaderName, CACHE_CONTROL, CONTENT_ENCODING, CONTENT_LENGTH, CONTENT_RANGE, ETAG, EXPIRES,
    RANGE, SET_COOKIE, VARY,
};
use http::{HeaderMap, HeaderValue};

const URL: &str = "https://servo.org/";

/// Some time in the year 2026.
fn now() -> Span {
    Span::from_secs(1_780_000_000)
}

fn later(secs: u64) -> Span {
    Span::from_secs(1_780_000_000 + secs)
}

fn test_cache() -> HttpCache {
    HttpCache::with_store(MemoryStore::new(16 * 1024 * 1024, 0))
}

fn request_with_headers(headers: HeaderMap) -> Request {
    Request {
        method: b"GET".to_vec(),
        url: URL.to_owned(),
        url_list: vec![URL.to_owned()],
        headers,
        cache_mode: CacheMode::Default,
        mode: RequestMode::NoCors,
    }
}

fn request() -> Request {
    request_with_headers(HeaderMap::new())
}

fn headers_of(list: &[(HeaderName, &str)]) -> HeaderMap {
    let mut headers = HeaderMap::new();
    for (name, value) in list {
        headers.insert(name.clone(), HeaderValue::from_str(value).unwrap());
    }
    headers
}

fn store(cache: &mut HttpCache, request: &Request, headers: &HeaderMap, body: &[u8]) -> bool {
    cache.store_for_test(request, Some(200), headers, None, body, now())
}

#[test]
fn test_fresh_response_is_valid() {
    let mut cache = test_cache();
    let request = request();
    let response = headers_of(&[(CACHE_CONTROL, "max-age=1000")]);
    assert!(store(&mut cache, &request, &response, b"body"));

    assert_eq!(cache.probe(&request, now()), Some(ValidationStatus::Valid));
    assert_eq!(
        cache.read_body_for_test(&request, now()).as_deref(),
        Some(&b"body"[..])
    );
}

#[test]
fn test_no_store_response_is_not_stored() {
    let mut cache = test_cache();
    let request = request();
    let response = headers_of(&[(CACHE_CONTROL, "no-store")]);
    assert!(!store(&mut cache, &request, &response, b"body"));
    assert_eq!(cache.probe(&request, now()), None);
}

fn partial_headers() -> HeaderMap {
    headers_of(&[
        (CACHE_CONTROL, "max-age=1000"),
        (CONTENT_RANGE, "bytes 0-4/10"),
        (CONTENT_LENGTH, "5"),
    ])
}

fn store_partial(cache: &mut HttpCache, headers: &HeaderMap, body: &[u8]) -> bool {
    cache.store_for_test(&request(), Some(206), headers, None, body, now())
}

#[test]
fn test_partial_content_never_answers_a_request_for_the_whole_resource() {
    let mut cache = test_cache();
    assert!(store_partial(&mut cache, &partial_headers(), b"12345"));
    assert_eq!(
        cache.probe(&request(), now()),
        None,
        "a stored 206 must not answer a request that asks for the whole resource"
    );
}

#[test]
fn test_partial_content_serves_a_range_it_covers() {
    let mut cache = test_cache();
    assert!(store_partial(&mut cache, &partial_headers(), b"12345"));
    let headers = headers_of(&[(RANGE, "bytes=1-3")]);
    assert_eq!(
        cache.probe(&request_with_headers(headers), now()),
        Some(ValidationStatus::Valid)
    );
}

#[test]
fn test_skip_incomplete_cache_for_range_request_with_no_end_bound() {
    // The stored 206 holds bytes 0 to 4 of a 10-byte resource, so it cannot answer
    // a request for everything from byte 0 onwards.
    let mut cache = test_cache();
    assert!(store_partial(&mut cache, &partial_headers(), b"12345"));

    let headers = headers_of(&[(RANGE, "bytes=0-")]);
    assert_eq!(cache.probe(&request_with_headers(headers), now()), None);
}

#[test]
fn test_partial_content_does_not_serve_a_range_beyond_what_it_holds() {
    // The `Content-Range` claims five bytes, the body is longer: only what the
    // claim covers may be served, whatever the stored body's length says.
    let mut cache = test_cache();
    assert!(store_partial(
        &mut cache,
        &partial_headers(),
        b"12345678901234567890"
    ));

    let headers = headers_of(&[(RANGE, "bytes=0-9")]);
    assert_eq!(cache.probe(&request_with_headers(headers), now()), None);
}

#[test]
fn test_partial_content_does_not_answer_a_suffix_range_it_does_not_hold() {
    // A partial that claims to reach the end of the resource but holds less of it
    // must not answer a suffix range with the wrong bytes.
    let mut cache = test_cache();
    let response = headers_of(&[
        (CACHE_CONTROL, "max-age=1000"),
        (CONTENT_RANGE, "bytes 0-999/1000"),
    ]);
    assert!(store_partial(&mut cache, &response, b"12345"));

    let headers = headers_of(&[(RANGE, "bytes=-100")]);
    assert_eq!(
        cache.probe(&request_with_headers(headers), now()),
        None,
        "the last 100 bytes of the resource are not among the 5 that are stored"
    );
}

#[test]
fn test_range_is_ignored_when_if_range_does_not_match() {
    let mut cache = test_cache();
    let response = headers_of(&[(CACHE_CONTROL, "max-age=1000"), (ETAG, "\"a\"")]);
    assert!(store(&mut cache, &request(), &response, b"body"));

    let mut headers = headers_of(&[(RANGE, "bytes=0-1")]);
    headers.insert("if-range", HeaderValue::from_static("\"b\""));
    // The condition fails, so the request is for the whole resource, which this
    // entry does hold.
    assert_eq!(
        cache.probe(&request_with_headers(headers), now()),
        Some(ValidationStatus::Valid)
    );
}

#[test]
fn test_multiple_ranges_are_not_served_from_the_cache() {
    let mut cache = test_cache();
    let response = headers_of(&[(CACHE_CONTROL, "max-age=1000")]);
    assert!(store(&mut cache, &request(), &response, b"0123456789"));

    let headers = headers_of(&[(RANGE, "bytes=0-1,4-5")]);
    assert_eq!(
        cache.probe(&request_with_headers(headers), now()),
        None,
        "a multipart answer is not something the cache builds"
    );
}

#[test]
fn test_vary_star_is_not_stored() {
    let mut cache = test_cache();
    let response = headers_of(&[(CACHE_CONTROL, "max-age=1000"), (VARY, "*")]);
    assert!(
        !store(&mut cache, &request(), &response, b"body"),
        "a `Vary: *` entry can never match a later request"
    );
}

#[test]
fn test_set_cookie_is_not_kept_by_the_cache() {
    let mut cache = test_cache();
    let response = headers_of(&[(CACHE_CONTROL, "max-age=1000"), (SET_COOKIE, "sid=secret")]);
    assert!(store(&mut cache, &request(), &response, b"body"));
    assert_eq!(cache.probe(&request(), now()), Some(ValidationStatus::Valid));
    assert!(
        !cache
            .headers_for_test(&request(), now())
            .unwrap()
            .contains_key(SET_COOKIE),
        "a stored `Set-Cookie` would put the cookie on disk and be re-presented on every hit"
    );
}

#[test]
fn test_vary_on_cookie_still_selects_by_cookie() {
    // Credentials are digested rather than stored, so the entry has to keep
    // matching the cookie it was stored for, and only that one.
    let mut cache = test_cache();
    let mut stored = HeaderMap::new();
    stored.insert("cookie", HeaderValue::from_static("sid=one"));
    let stored_request = request_with_headers(stored);
    let response = headers_of(&[(CACHE_CONTROL, "max-age=1000"), (VARY, "cookie")]);
    assert!(store(&mut cache, &stored_request, &response, b"body"));

    assert_eq!(
        cache.probe(&stored_request, now()),
        Some(ValidationStatus::Valid)
    );

    let mut other = HeaderMap::new();
    other.insert("cookie", HeaderValue::from_static("sid=two"));
    assert_eq!(
        cache.probe(&request_with_headers(other), now()),
        None,
        "another session's cookie must not be answered from this entry"
    );
}

#[test]
fn test_vary_selects_the_matching_variant() {
    let mut cache = test_cache();

    let mut gzip_headers = HeaderMap::new();
    gzip_headers.insert("accept-encoding", HeaderValue::from_static("gzip"));
    let gzip_request = request_with_headers(gzip_headers);
    let response = headers_of(&[(CACHE_CONTROL, "max-age=1000"), (VARY, "accept-encoding")]);
    assert!(store(&mut cache, &gzip_request, &response, b"gzip"));

    assert_eq!(
        cache.probe(&gzip_request, now()),
        Some(ValidationStatus::Valid)
    );
    let mut br_headers = HeaderMap::new();
    br_headers.insert("accept-encoding", HeaderValue::from_static("br"));
    assert_eq!(
        cache.probe(&request_with_headers(br_headers), now()),
        None,
        "a request whose Vary-nominated headers differ must not match the stored variant"
    );
}

#[test]
fn test_expired_response_needs_synchronous_validation() {
    let mut cache = test_cache();
    let request = request();
    let response = headers_of(&[(EXPIRES, "0"), (ETAG, "\"v1\"")]);
    assert!(store(&mut cache, &request, &response, b"body"));
    assert_eq!(
        cache.probe(&request, now()),
        Some(ValidationStatus::Stale {
            revalidate_in_background: false
        })
    );
}

#[test]
fn test_body_is_stored_encoded() {
    let mut cache = test_cache();
    let request = request();
    let response = headers_of(&[(CACHE_CONTROL, "max-age=1000"), (CONTENT_ENCODING, "gzip")]);
    let compressed = b"\x1f\x8b not really gzip";
    assert!(cache.store_for_test(
        &request,
        Some(200),
        &response,
        Some(DecoderType::Gzip),
        compressed,
        now()
    ));
    assert_eq!(
        cache.read_body_for_test(&request, now()).as_deref(),
        Some(&compressed[..]),
        "the cache must store the body exactly as it came off the wire"
    );
}

/// Store a response with the given `Cache-Control`, then report the freshness the
/// cache assigns it on a subsequent request.
fn stale_while_revalidate_status_for(cache_control: &str) -> ValidationStatus {
    let mut cache = test_cache();
    let request = request();
    let response = headers_of(&[(CACHE_CONTROL, cache_control)]);
    assert!(store(&mut cache, &request, &response, &[1, 2, 3]));
    cache
        .probe(&request, now())
        .expect("the stored response should be found")
}

#[test]
fn test_stale_within_stale_while_revalidate_window_serves_immediately_and_revalidates_in_background()
{
    assert_eq!(
        stale_while_revalidate_status_for("max-age=0, stale-while-revalidate=30"),
        ValidationStatus::Stale {
            revalidate_in_background: true
        },
        "stale response within the stale-while-revalidate window should be served immediately \
         and revalidated in the background"
    );
}

#[test]
fn test_stale_without_stale_while_revalidate_requires_synchronous_validation() {
    assert_eq!(
        stale_while_revalidate_status_for("max-age=0"),
        ValidationStatus::Stale {
            revalidate_in_background: false
        },
        "stale response without stale-while-revalidate must be synchronously revalidated"
    );
}

#[test]
fn test_stale_while_revalidate_not_used_when_request_demands_revalidation() {
    let mut cache = test_cache();
    let response = headers_of(&[(CACHE_CONTROL, "max-age=0, stale-while-revalidate=30")]);
    assert!(store(&mut cache, &request(), &response, &[1, 2, 3]));

    let headers = headers_of(&[(CACHE_CONTROL, "no-cache")]);
    assert_eq!(
        cache.probe(&request_with_headers(headers), now()),
        Some(ValidationStatus::Stale {
            revalidate_in_background: false
        }),
        "a no-cache request must trigger synchronous validation, not background revalidation"
    );
}

#[test]
fn the_window_closes_when_it_is_over() {
    let mut cache = test_cache();
    let response = headers_of(&[(CACHE_CONTROL, "max-age=10, stale-while-revalidate=30")]);
    assert!(store(&mut cache, &request(), &response, b"body"));
    assert_eq!(
        cache.probe(&request(), later(9)),
        Some(ValidationStatus::Valid)
    );
    assert_eq!(
        cache.probe(&request(), later(35)),
        Some(ValidationStatus::Stale {
            revalidate_in_background: true
        })
    );
    assert_eq!(
        cache.probe(&request(), later(45)),
        Some(ValidationStatus::Stale {
            revalidate_in_background: false
        })
    );
}

#[test]
fn a_disabled_cache_stores_nothing() {
    let mut cache = HttpCache::new(HttpCacheAssignment::Public, 1 << 20, 0, true);
    assert!(!store(
        &mut cache,
        &request(),
        &headers_of(&[(CACHE_CONTROL, "max-age=1000")]),
        b"body"
    ));
    assert_eq!(cache.stored_bytes(), 0);
    assert_eq!(cache.disk_bytes(), 0);
    assert_eq!(cache.assignment(), HttpCacheAssignment::Public);
}

#[test]
fn clearing_drops_every_entry() {
    let mut cache = test_cache();
    assert!(store(
        &mut cache,
        &request(),
        &headers_of(&[(CACHE_CONTROL, "max-age=1000")]),
        b"body"
    ));
    assert_eq!(cache.cache_entry_descriptors(), vec![URL.to_owned()]);
    assert_eq!(cache.stored_bytes(), 4);
    cache.clear();
    assert_eq!(cache.probe(&request(), now()), None);
    assert!(cache.cache_entry_descriptors().is_empty());
    assert_eq!(cache.stored_bytes(), 0);
}

#[test]
fn a_hit_is_served_with_its_age() {
    let mut cache = test_cache();
    assert!(store(
        &mut cache,
        &request(),
        &headers_of(&[(CACHE_CONTROL, "max-age=1000")]),
        b"body"
    ));
    let headers = cache.headers_for_test(&request(), later(7)).unwrap();
    assert_eq!(
        headers.get("age").map(|value| value.as_bytes()),
        Some(&b"7"[..])
    );
}

#[test]
fn a_miss_makes_the_fetch_the_writer_and_the_next_one_waits() {
    let mut cache = test_cache();
    let request = request();
    let mut first = cache.new_transaction(&request);
    assert!(matches!(
        cache.look_up(&mut first, &request, now()),
        Round::Miss
    ));
    assert!(first.writer.is_some());
    let mut second = cache.new_transaction(&request);
    assert!(matches!(
        cache.look_up(&mut second, &request, now()),
        Round::Wait(_)
    ));
    assert!(second.writer.is_none());
}

#[test]
fn those_who_wait_are_told_when_nothing_is_stored() {
    let mut cache = test_cache();
    let request = request();
    let mut first = cache.new_transaction(&request);
    assert!(matches!(
        cache.look_up(&mut first, &request, now()),
        Round::Miss
    ));
    let mut second = cache.new_transaction(&request);
    let Round::Wait(ticket) = cache.look_up(&mut second, &request, now()) else {
        panic!("the first fetch writes the key");
    };
    let response = headers_of(&[(CACHE_CONTROL, "no-store")]);
    match cache.tee(&mut first, &request, Some(200), &response, None, now()) {
        Err(told) => assert_eq!(told, Some(ticket)),
        Ok(_) => panic!("the response may not be stored"),
    }
    assert!(matches!(
        cache.look_up(&mut second, &request, now()),
        Round::Miss
    ));
    match cache.tee(&mut first, &request, Some(200), &response, None, now()) {
        Err(told) => assert_eq!(told, None),
        Ok(_) => panic!("the fetch does not write the key any more"),
    }
}

#[test]
fn what_is_stored_joins_what_is_held() {
    let mut cache = test_cache();
    let response = headers_of(&[(CACHE_CONTROL, "max-age=1000")]);
    assert!(store(&mut cache, &request(), &response, b"one"));
    let mut other = request();
    other.url = "https://example.com/".to_owned();
    assert_eq!(cache.probe(&other, now()), None);
    assert!(store(&mut cache, &other, &response, b"other"));
    assert_eq!(cache.stored_bytes(), 8);
    assert_eq!(
        cache.read_body_for_test(&request(), now()).as_deref(),
        Some(&b"one"[..])
    );
    assert_eq!(
        cache.read_body_for_test(&other, now()).as_deref(),
        Some(&b"other"[..])
    );
}

#[test]
fn a_cookie_is_not_part_of_an_entry() {
    let response = headers_of(&[
        (CACHE_CONTROL, "max-age=1000"),
        (SET_COOKIE, "sid=secret"),
        (ETAG, "\"v1\""),
    ]);
    let key = CacheKey::from_url(URL.to_owned());
    let meta = entry_meta(
        &key,
        true,
        &request(),
        Some(200),
        &response,
        None,
        1024,
        now(),
    )
    .expect("it may be stored");
    assert!(!meta.headers.contains_key(SET_COOKIE));
    assert!(!meta.policy.headers.contains_key(SET_COOKIE));
    assert!(meta.policy.headers.contains_key(ETAG));
}

#[test]
fn a_field_with_a_quote_in_its_name_is_served() {
    let name = HeaderName::from_lowercase(b"a\"b").unwrap();
    let mut response = headers_of(&[(CACHE_CONTROL, "max-age=1000"), (ETAG, "\"v1\"")]);
    response.append(name.clone(), HeaderValue::from_static("one"));
    response.append(name.clone(), HeaderValue::from_static("two"));
    let mut cache = test_cache();
    assert!(store(&mut cache, &request(), &response, b"body"));
    let served = cache.headers_for_test(&request(), now()).unwrap();
    let values: Vec<_> = served.get_all(&name).iter().collect();
    assert_eq!(values, ["one", "two"]);

    let policy = EntryPolicy::new(&request(), 200, &headers_of(&[(ETAG, "\"v1\"")]), now());
    let mut not_modified = headers_of(&[(ETAG, "\"v1\"")]);
    not_modified.append(name.clone(), HeaderValue::from_static("three"));
    let (_, merged) = policy
        .refresh(&request(), 200, 304, &not_modified, &response, later(1))
        .expect("the validator is the same");
    assert_eq!(merged.get(&name).map(|v| v.as_bytes()), Some(&b"three"[..]));
}

#[test]
fn one_writer_at_a_time_holds_a_key() {
    let mut inflight = InFlight::new();
    let key = CacheKey::from_url(URL.to_owned());
    let writer = inflight.register(&key).expect("nobody writes the key");
    let ticket = inflight.register(&key).expect_err("the key is being written");
    let other = CacheKey::from_url("https://example.com/".to_owned());
    let beside = inflight.register(&other).expect("nobody writes the other key");
    assert_ne!(inflight.register(&other).expect_err("it is being written"), ticket);
    assert_eq!(inflight.resolve(writer), Some(ticket));
    assert!(inflight.register(&other).is_err());
    assert!(inflight.register(&key).is_ok());
    assert!(inflight.resolve(beside).is_some());

    assert_eq!(wait(InFlightState::Writing, false), None);
    assert_eq!(
        wait(InFlightState::Writing, true),
        Some(InFlightState::Aborted)
    );
    assert_eq!(
        wait(InFlightState::Committed(7), true),
        Some(InFlightState::Committed(7))
    );
}

#[test]
fn one_background_revalidation_at_a_time() {
    let key = CacheKey::from_url(URL.to_owned());
    let mut guards = RevalidationGuards::new();
    let guard = guards.try_acquire(&key).expect("nobody revalidates the key");
    assert!(guards.try_acquire(&key).is_none());
    guards.release(guard);
    assert!(guards.try_acquire(&key).is_some());
}

#[test]
fn a_policy_judges_and_refreshes() {
    let response = headers_of(&[
        (CACHE_CONTROL, "max-age=100, stale-while-revalidate=5"),
        (ETAG, "\"v1\""),
    ]);
    let policy = EntryPolicy::new(&request(), 200, &response, now());
    assert!(policy.is_storable());
    assert_eq!(policy.freshness_lifetime(), Span::from_secs(100));
    assert_eq!(policy.age(later(30)), Span::from_secs(30));
    assert_eq!(policy.stale_while_revalidate(), Span::from_secs(5));
    assert!(matches!(
        policy.evaluate(&request(), &response, later(99)),
        Freshness::Fresh
    ));
    match policy.evaluate(&request(), &response, later(130)) {
        Freshness::Stale {
            stale_for,
            revalidation,
        } => {
            assert_eq!(stale_for, Span::from_secs(30));
            assert_eq!(
                revalidation.get("if-none-match").map(|v| v.as_bytes()),
                Some(&b"\"v1\""[..])
            );
        },
        other => panic!("unexpected {other:?}"),
    }
    let mut head = request();
    head.method = b"POST".to_vec();
    assert!(matches!(
        policy.evaluate(&head, &response, later(1)),
        Freshness::NoMatch
    ));

    let not_modified = headers_of(&[(ETAG, "\"v1\""), (CACHE_CONTROL, "max-age=500")]);
    let (fresh, merged) = policy
        .refresh(&request(), 200, 304, &not_modified, &response, later(130))
        .expect("the validator is the same");
    assert_eq!(fresh.freshness_lifetime(), Span::from_secs(500));
    assert_eq!(
        merged.get(CACHE_CONTROL).map(|v| v.as_bytes()),
        Some(&b"max-age=500"[..])
    );
    let other = headers_of(&[(ETAG, "\"v2\"")]);
    assert!(policy
        .refresh(&request(), 200, 304, &other, &response, later(130))
        .is_none());
    assert!(policy
        .refresh(&request(), 200, 200, &not_modified, &response, later(130))
        .is_none());
}

#[test]
fn credentials_are_digested_or_dropped() {
    let headers = {
        let mut headers = HeaderMap::new();
        headers.insert("cookie", HeaderValue::from_static("sid=SECRETCOOKIE"));
        headers.insert("accept", HeaderValue::from_static("text/html"));
        headers
    };
    let plain = PolicyRequest::new(&request_with_headers(headers.clone()), &HeaderMap::new());
    assert!(!plain.headers.contains_key("cookie"));
    assert!(plain.headers.contains_key("accept"));

    let varies = headers_of(&[(VARY, "Cookie")]);
    let digested = PolicyRequest::new(&request_with_headers(headers), &varies);
    let kept = digested.headers.get("cookie").unwrap().to_str().unwrap();
    // The SHA-1 digest of the value and a zero byte.
    assert_eq!(kept.len(), 40);
    assert!(kept.bytes().all(|b| b.is_ascii_hexdigit()));
    assert!(!kept.contains("SECRET"));
}

#[test]
fn the_older_semantics_agree_on_freshness() {
    let headers = headers_of(&[(CACHE_CONTROL, "max-age=60")]);
    let semantics = HttpCacheSemantics::new(200, &headers, now());
    assert!(semantics.is_cacheable());
    assert_eq!(semantics.freshness_lifetime(), Span::from_secs(60));
    let headers = headers_of(&[(CACHE_CONTROL, "no-store")]);
    assert!(!HttpCacheSemantics::new(200, &headers, now()).is_cacheable());
}

#[test]
fn a_body_is_delivered_and_kept() {
    let (mut delivery, first) = Delivery::new(5, false, true);
    assert!(matches!(first, Some(Notice::ContentLength(5))));
    assert!(matches!(
        delivery.next(DecodeEvent::Chunk(b"he".to_vec())),
        Some(Notice::Payload(chunk)) if chunk == b"he"
    ));
    assert!(delivery.body().is_none());
    delivery.next(DecodeEvent::Chunk(b"llo".to_vec()));
    assert!(delivery.next(DecodeEvent::End).is_none());
    assert!(matches!(delivery.finish(), Notice::Done));
    assert_eq!(delivery.body(), Some(&b"hello".to_vec()));
}

#[test]
fn an_encoded_body_has_no_length_to_announce() {
    let (mut delivery, first) = Delivery::new(5, true, false);
    assert!(first.is_none());
    assert!(matches!(
        delivery.next(DecodeEvent::Failed),
        Some(Notice::Error)
    ));
    delivery.finish();
    assert!(delivery.body().is_none());
}
