//! The parts that the caches are made of.
use browser_core::digest::crc32;
use browser_core::directives::{
    cache_control_items, check_argument, check_flag, find_first_seconds, find_seconds,
    find_stale_window,
};
use browser_core::fields::{content_range_value, first_value, has_field, replace_field};
use browser_core::http_cache::delivery::{DecodeEvent, Delivery, Notice};
use browser_core::le;
use browser_core::text;
use browser_core::time::Span;
use http::header::{CACHE_CONTROL, ETAG};
use http::{HeaderMap, HeaderValue};

#[test]
fn checksums_are_the_usual_ones() {
    assert_eq!(crc32(b"123456789"), 0xcbf4_3926);
    assert_eq!(crc32(b""), 0);
}

#[test]
fn numbers_are_little_endian() {
    let mut out = Vec::new();
    le::push_u32(&mut out, 0x0102_0304);
    le::push_u64(&mut out, 5);
    assert_eq!(out[..4], [4, 3, 2, 1]);
    assert_eq!(le::read_u32(&out, 0), 0x0102_0304);
    assert_eq!(le::read_u64(&out, 4), 5);
}

#[test]
fn numbers_are_read_and_written() {
    assert_eq!(text::parse_decimal(b"120"), Some(120));
    assert_eq!(text::parse_decimal(b""), None);
    assert_eq!(text::parse_decimal(b"12a"), None);
    assert_eq!(text::parse_decimal(b"99999999999999999999"), None);
    assert_eq!(text::render_decimal(1203), b"1203");
    assert_eq!(text::render_decimal(0), b"0");
    assert_eq!(text::render_hex(&[0xab, 1]), b"ab01");
}

#[test]
fn lists_are_split() {
    assert_eq!(
        text::split_all(b"a,b,", b','),
        [b"a".to_vec(), b"b".to_vec(), b"".to_vec()]
    );
    assert_eq!(
        text::split_at_first(b"a=b=c", b'='),
        Some((b"a".to_vec(), b"b=c".to_vec()))
    );
    assert_eq!(text::split_at_first(b"a", b'='), None);
    assert_eq!(text::trimmed(b"  a "), b"a");
    assert_eq!(text::unquoted(b"\"a\""), b"a");
    assert!(text::same_ignoring_case(b"Max-Age", b"max-age"));
}

#[test]
fn directives_are_found() {
    let mut map = HeaderMap::new();
    map.append(
        CACHE_CONTROL,
        HeaderValue::from_static("Max-Age=\"10\", no-cache"),
    );
    map.append(
        CACHE_CONTROL,
        HeaderValue::from_static("stale-while-revalidate=30"),
    );
    let items = cache_control_items(&map);
    assert!(check_flag(&items, "no-cache"));
    assert!(!check_flag(&items, "no-store"));
    assert!(check_argument(&items, "max-age"));
    assert_eq!(find_first_seconds(&items, "s-maxage", "max-age"), Some(10));
    assert_eq!(find_seconds(b"max-age=5", "max-age"), Some(5));
    assert_eq!(find_seconds(b"max-age=x", "max-age"), None);
    assert_eq!(find_stale_window(&map), 30);
}

#[test]
fn fields_are_read_and_replaced() {
    let mut map = HeaderMap::new();
    map.append(ETAG, HeaderValue::from_static("one"));
    assert!(has_field(&map, b"ETag"));
    assert_eq!(first_value(&map, b"etag"), Some(b"one".to_vec()));
    replace_field(&mut map, b"etag", &vec![b"two".to_vec(), b"three".to_vec()]);
    let values: Vec<&[u8]> = map.get_all(ETAG).iter().map(|v| v.as_bytes()).collect();
    assert_eq!(values, [&b"two"[..], &b"three"[..]]);
    assert_eq!(content_range_value(1, 3, 5), b"bytes 1-3/5");
}

#[test]
fn spans_are_counted_exactly() {
    let span = |secs, nanos| Span { secs, nanos };
    assert_eq!(
        span(1, 600_000_000).checked_add(&span(2, 500_000_000)),
        Some(span(4, 100_000_000))
    );
    assert_eq!(span(u64::MAX, 0).checked_add(&span(1, 0)), None);
    assert_eq!(span(1, 0).saturating_sub(&span(2, 0)), Span::zero());
    assert_eq!(
        span(3, 0).saturating_sub(&span(1, 1)),
        span(1, 999_999_999)
    );
    assert_eq!(span(25, 0).tenth(), span(2, 500_000_000));
    assert!(span(1, 1).is_less(&span(2, 0)));
    assert_eq!(span(1, 0).shorter(span(0, 5)), span(0, 5));
}

#[test]
fn a_stored_body_is_delivered() {
    let (mut delivery, first) = Delivery::new(10, false, true);
    assert!(matches!(first, Some(Notice::ContentLength(10))));
    assert!(matches!(
        delivery.next(DecodeEvent::Chunk(b"ab".to_vec())),
        Some(Notice::Payload(bytes)) if bytes == b"ab"
    ));
    delivery.next(DecodeEvent::Chunk(b"c".to_vec()));
    assert!(delivery.next(DecodeEvent::End).is_none());
    assert_eq!(delivery.body(), None);
    assert!(matches!(delivery.finish(), Notice::Done));
    assert_eq!(delivery.body(), Some(&b"abc".to_vec()));
    let (mut delivery, first) = Delivery::new(10, true, false);
    assert!(first.is_none());
    assert!(matches!(
        delivery.next(DecodeEvent::Failed),
        Some(Notice::Error)
    ));
}
