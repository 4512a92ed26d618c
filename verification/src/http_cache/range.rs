//! Serving range requests out of a stored response.
//! <https://httpwg.org/specs/rfc9110.html#range.requests>
use http::{HeaderMap, HeaderValue};
use vstd::prelude::*;

use crate::fetch::Request;
use crate::fields;
use crate::fields::{ByteBounds, ContentSpan};
use crate::http_cache::store::{BodyRange, EntryMeta, MetaView};
use crate::text;

verus! {

/// What part of a stored entry answers a range request.
#[derive(Clone, Copy, Debug, PartialEq, Eq, Structural)]
pub struct RangeHit {
    /// Where the answer sits inside the stored body.
    pub body: BodyRange,
    /// First byte of the resource being served.
    pub first: u64,
    /// Last byte of the resource being served.
    pub last: u64,
    /// Complete length of the resource.
    pub total: u64,
}

impl RangeHit {
    pub open spec fn wf(self) -> bool {
        self.first <= self.last < self.total
    }
}

#[derive(Clone, Copy, Debug, PartialEq, Eq, Structural)]
pub enum RangeOutcome {
    /// The request did not ask for a range, and this entry holds the whole thing.
    Whole,
    /// The entry can satisfy the requested range.
    Satisfiable(RangeHit),
    /// This entry cannot answer this request. The caller goes to the network.
    Unsatisfiable,
}

/// What a stored body covers of the resource.
#[derive(Clone, Copy, Debug, PartialEq, Eq, Structural)]
pub struct StoredRange {
    pub first: u64,
    pub last: u64,
    pub total: u64,
}

/// What a `Content-Range` says that is complete: a range and the whole length.
pub open spec fn complete(span: Option<ContentSpan>) -> Option<StoredRange> {
    match span {
        Some(span) => match (span.range, span.total) {
            (Some(range), Some(total)) => Some(
                StoredRange { first: range.0, last: range.1, total },
            ),
            _ => None,
        },
        None => None,
    }
}

/// What a stored 206 covers.
pub open spec fn spec_stored_range(fields: Map<Seq<u8>, Seq<Seq<u8>>>) -> Option<StoredRange> {
    complete(fields::content_span(fields))
}

fn complete_range(span: Option<ContentSpan>) -> (r: Option<StoredRange>)
    ensures
        r == complete(span),
{
    match span {
        Some(span) => match (span.range, span.total) {
            (Some(range), Some(total)) => Some(
                StoredRange { first: range.0, last: range.1, total },
            ),
            _ => None,
        },
        None => None,
    }
}

/// What a stored 206 covers.
pub fn stored_range(headers: &HeaderMap<HeaderValue>) -> (r: Option<StoredRange>)
    ensures
        r == spec_stored_range(fields::header_fields(*headers)),
        r matches Some(range) ==> range.first <= range.last,
{
    let span: Option<ContentSpan> = fields::content_range(headers);
    complete_range(span)
}

/// Whether a request's `If-Range` condition holds for a stored response. A request
/// without one is unconditional; an entity-tag must match strongly, a date exactly.
pub open spec fn condition_holds(
    request: Map<Seq<u8>, Seq<Seq<u8>>>,
    stored: Map<Seq<u8>, Seq<Seq<u8>>>,
) -> bool {
    match fields::first(request, text::bytes("if-range")) {
        Some(condition) => fields::first(
            stored,
            if condition.len() > 0 && condition[0] == 34 {
                text::bytes("etag")
            } else {
                text::bytes("last-modified")
            },
        ) == Some(condition),
        None => true,
    }
}

/// Whether a request's `If-Range` condition holds for the stored response.
pub fn if_range_matches(request: &Request, stored_headers: &HeaderMap<HeaderValue>) -> (r: bool)
    ensures
        r == condition_holds(request.fields(), fields::header_fields(*stored_headers)),
{
    match fields::first_value(&request.headers, "if-range".as_bytes()) {
        Some(condition) => {
            let stored: Option<Vec<u8>> = if condition.len() > 0 && condition[0] == 34 {
                fields::first_value(stored_headers, "etag".as_bytes())
            } else {
                fields::first_value(stored_headers, "last-modified".as_bytes())
            };
            match stored {
                Some(stored) => text::same(stored.as_slice(), condition.as_slice()),
                None => false,
            }
        },
        None => true,
    }
}

/// What the bytes really stored cover of the resource.
///
/// Only the bytes really stored can be served, however much a `Content-Range`
/// claims. A partial that holds fewer bytes than it claims and claims to reach the
/// end of the resource is a server describing a shorter resource than it said, so
/// the resource is taken to end where the stored bytes do: that shorter length is
/// both what a suffix range resolves against and what the served `Content-Range`
/// reports, so the two cannot disagree.
pub open spec fn coverage(stored: Option<StoredRange>, body_len: u64) -> Option<StoredRange> {
    if body_len == 0 {
        None
    } else {
        match stored {
            Some(s) => if s.first + body_len > u64::MAX {
                None
            } else {
                let held = s.first + body_len - 1;
                let last = if held <= s.last {
                    held
                } else {
                    s.last as int
                };
                let total = if s.last + 1 == s.total {
                    last + 1
                } else {
                    s.total as int
                };
                if total == 0 || last < s.first {
                    None
                } else {
                    Some(StoredRange { first: s.first, last: last as u64, total: total as u64 })
                }
            },
            None => Some(StoredRange { first: 0, last: (body_len - 1) as u64, total: body_len }),
        }
    }
}

/// What the bytes really stored cover of the resource.
pub fn covered_range(stored: Option<StoredRange>, body_len: u64) -> (r: Option<StoredRange>)
    ensures
        r == coverage(stored, body_len),
{
    if body_len == 0 {
        return None;
    }
    match stored {
        Some(s) => {
            let end: u64 = match s.first.checked_add(body_len) {
                Some(end) => end,
                None => return None,
            };
            let held: u64 = end - 1;
            let last: u64 = if held <= s.last {
                held
            } else {
                s.last
            };
            let total: u64 = if s.total > 0 && s.last == s.total - 1 {
                last + 1
            } else {
                s.total
            };
            if total == 0 || last < s.first {
                return None;
            }
            Some(StoredRange { first: s.first, last, total })
        },
        None => Some(StoredRange { first: 0, last: body_len - 1, total: body_len }),
    }
}

/// What a range request asks for of a resource of which a part is covered: the one
/// range that it names, if that part covers it.
pub open spec fn spec_resolve(covered: StoredRange, ranges: Seq<ByteBounds>) -> RangeOutcome {
    if ranges.len() != 1 {
        RangeOutcome::Unsatisfiable
    } else {
        match ranges[0].start {
            Some(start) => {
                let end = match ranges[0].end {
                    Some(end) => if end < covered.total {
                        end as int
                    } else {
                        covered.total - 1
                    },
                    None => covered.total - 1,
                };
                if covered.first <= start <= end <= covered.last {
                    RangeOutcome::Satisfiable(
                        RangeHit {
                            body: BodyRange {
                                start: (start - covered.first) as u64,
                                end: (end - covered.first) as u64,
                            },
                            first: start,
                            last: end as u64,
                            total: covered.total,
                        },
                    )
                } else {
                    RangeOutcome::Unsatisfiable
                }
            },
            None => RangeOutcome::Unsatisfiable,
        }
    }
}

/// What a range request asks for of a resource of which a part is covered. A
/// multipart answer is not something this cache builds.
pub fn resolve(covered: StoredRange, ranges: &Vec<ByteBounds>) -> (r: RangeOutcome)
    requires
        covered.total > 0,
    ensures
        r == spec_resolve(covered, ranges@),
{
    if ranges.len() != 1 {
        return RangeOutcome::Unsatisfiable;
    }
    let bounds: ByteBounds = ranges[0];
    let start: u64 = match bounds.start {
        Some(start) => start,
        None => return RangeOutcome::Unsatisfiable,
    };
    let end: u64 = match bounds.end {
        Some(end) => if end < covered.total {
            end
        } else {
            covered.total - 1
        },
        None => covered.total - 1,
    };
    if start > end || start < covered.first || end > covered.last {
        return RangeOutcome::Unsatisfiable;
    }
    RangeOutcome::Satisfiable(
        RangeHit {
            body: BodyRange { start: start - covered.first, end: end - covered.first },
            first: start,
            last: end,
            total: covered.total,
        },
    )
}

/// What part of a stored entry answers a request.
pub open spec fn selected(
    request: Map<Seq<u8>, Seq<Seq<u8>>>,
    meta: MetaView,
) -> RangeOutcome {
    let partial = meta.status == Some(206u16);
    let stored = spec_stored_range(meta.fields);
    if partial && stored is None {
        RangeOutcome::Unsatisfiable
    } else if !(fields::asks_for_range(request) && condition_holds(request, meta.fields)) {
        if partial {
            RangeOutcome::Unsatisfiable
        } else {
            RangeOutcome::Whole
        }
    } else if meta.content_encoding is Some {
        RangeOutcome::Unsatisfiable
    } else {
        match coverage(stored, meta.body_len) {
            Some(covered) => spec_resolve(covered, fields::requested(request, covered.total)),
            None => RangeOutcome::Unsatisfiable,
        }
    }
}

/// Decide what part of a stored entry answers `request`.
///
/// Ranges refer to offsets in the decoded body, but entries are stored exactly as
/// received, so an entry with a content coding cannot serve one. A `Range` whose
/// `If-Range` condition fails is ignored, and the whole resource is asked for
/// instead; a partial response can never answer that.
pub fn select(request: &Request, meta: &EntryMeta) -> (r: RangeOutcome)
    ensures
        r == selected(request.fields(), meta@),
{
    let partial: bool = match meta.status {
        Some(code) => code == 206,
        None => false,
    };
    let stored: Option<StoredRange> = stored_range(&meta.headers);
    if partial && stored.is_none() {
        // A 206 whose `Content-Range` cannot be read says nothing about what it holds.
        return RangeOutcome::Unsatisfiable;
    }
    if !(fields::has_byte_range(&request.headers) && if_range_matches(request, &meta.headers)) {
        return if partial {
            RangeOutcome::Unsatisfiable
        } else {
            RangeOutcome::Whole
        };
    }
    if meta.content_encoding.is_some() {
        return RangeOutcome::Unsatisfiable;
    }
    match covered_range(stored, meta.body_len) {
        Some(covered) => {
            let ranges: Vec<ByteBounds> = fields::byte_ranges(&request.headers, covered.total);
            resolve(covered, &ranges)
        },
        None => RangeOutcome::Unsatisfiable,
    }
}

/// The header fields of a response that serves a part of the resource.
pub open spec fn described(
    fields: Map<Seq<u8>, Seq<Seq<u8>>>,
    hit: RangeHit,
) -> Map<Seq<u8>, Seq<Seq<u8>>> {
    fields::with_field(
        fields::with_field(
            fields,
            text::bytes("content-range"),
            fields::content_range_text(hit.first, hit.last, hit.total),
        ),
        text::bytes("content-length"),
        text::decimal_text((hit.last - hit.first + 1) as nat),
    )
}

/// Rewrite a cached response's headers to describe the partial body being served.
pub fn apply_headers(headers: &mut HeaderMap<HeaderValue>, hit: &RangeHit)
    requires
        hit.wf(),
        fields::has_room(fields::header_fields(*old(headers)), 1),
    ensures
        fields::header_fields(*final(headers)) == described(
            fields::header_fields(*old(headers)),
            *hit,
        ),
{
    let range: Vec<u8> = fields::content_range_value(hit.first, hit.last, hit.total);
    let length: Vec<u8> = text::render_decimal(hit.last - hit.first + 1);
    proof {
        fields::lemma_names();
        text::lemma_decimal_text((hit.last - hit.first + 1) as nat);
    }
    fields::set_field(headers, "content-range".as_bytes(), range.as_slice());
    fields::set_field(headers, "content-length".as_bytes(), length.as_slice());
}

/// A range that is served lies within the stored body, is as long there as it is in
/// the resource, and ends before the resource does.
pub proof fn law_hit_lies_in_body(request: Map<Seq<u8>, Seq<Seq<u8>>>, meta: MetaView)
    ensures
        selected(request, meta) matches RangeOutcome::Satisfiable(hit) ==> {
            &&& hit.wf()
            &&& hit.body.start <= hit.body.end < meta.body_len
            &&& hit.body.end - hit.body.start == hit.last - hit.first
        },
{
}

/// The first byte of the resource that a stored body holds: what its `Content-Range` says,
/// or the very first one.
pub open spec fn held_from(fields: Map<Seq<u8>, Seq<Seq<u8>>>) -> int {
    match fields::content_span(fields) {
        Some(span) => match (span.range, span.total) {
            (Some(range), Some(_)) => range.0 as int,
            _ => 0,
        },
        None => 0,
    }
}

/// The part of a stored body that is sent is the part of the resource that is announced:
/// counted from where the stored body begins, it begins and ends with the bytes that the
/// served `Content-Range` names. These are the ones that the request asked for, cut off at
/// the end of the resource.
pub proof fn law_sent_part_is_the_announced_one(
    request: Map<Seq<u8>, Seq<Seq<u8>>>,
    meta: MetaView,
)
    ensures
        selected(request, meta) matches RangeOutcome::Satisfiable(hit) ==> {
            let asked = fields::requested(request, hit.total);
            &&& hit.body.start + held_from(meta.fields) == hit.first
            &&& hit.body.end + held_from(meta.fields) == hit.last
            &&& asked.len() == 1
            &&& asked[0].start == Some(hit.first)
            &&& hit.last < hit.total
            &&& hit.last == hit.total - 1 || asked[0].end == Some(hit.last)
            &&& asked[0].end matches Some(end) ==> hit.last <= end
        },
{
}

/// Byte for byte: where a stored body holds the bytes of a resource from some place on,
/// byte `i` of what is sent is byte `first + i` of the resource.
pub proof fn law_sent_bytes_are_those_of_the_resource(
    request: Map<Seq<u8>, Seq<Seq<u8>>>,
    meta: MetaView,
    body: Seq<u8>,
    resource: Seq<u8>,
    i: int,
)
    requires
        body.len() == meta.body_len,
        forall|j: int|
            0 <= j < body.len() && held_from(meta.fields) + j < resource.len() ==> #[trigger] body[j]
                == resource[held_from(meta.fields) + j],
    ensures
        selected(request, meta) matches RangeOutcome::Satisfiable(hit) ==> (0 <= i <= hit.last
            - hit.first && hit.last < resource.len() ==> body.subrange(
            hit.body.start as int,
            hit.body.end + 1,
        )[i] == resource[hit.first + i]),
{
    law_hit_lies_in_body(request, meta);
    law_sent_part_is_the_announced_one(request, meta);
    if let RangeOutcome::Satisfiable(hit) = selected(request, meta) {
        if 0 <= i <= hit.last - hit.first && hit.last < resource.len() {
            assert(body[hit.body.start + i] == resource[held_from(meta.fields) + (hit.body.start
                + i)]);
        }
    }
}

/// The length of the resource that is announced is the one that the stored response gave.
/// A complete body is as long as the resource; a partial one that claimed to reach the end
/// and fell short tells where the resource really ends.
pub proof fn law_announced_length(request: Map<Seq<u8>, Seq<Seq<u8>>>, meta: MetaView)
    ensures
        selected(request, meta) matches RangeOutcome::Satisfiable(hit) ==> match fields::content_span(
            meta.fields,
        ) {
            Some(span) => match (span.range, span.total) {
                (Some(range), Some(total)) => {
                    let held = range.0 + meta.body_len;
                    &&& hit.last <= range.1
                    &&& hit.last < held
                    &&& range.1 + 1 < total ==> hit.total == total
                    &&& range.1 + 1 == total && held >= total ==> hit.total == total
                    &&& range.1 + 1 == total && held < total ==> hit.total == held
                },
                _ => hit.total == meta.body_len,
            },
            None => hit.total == meta.body_len,
        },
{
}

/// A range that a complete, unencoded response holds is served, whatever part it is.
pub proof fn law_range_of_a_complete_response_is_served(
    request: Map<Seq<u8>, Seq<Seq<u8>>>,
    meta: MetaView,
    bounds: ByteBounds,
)
    requires
        meta.status != Some(206u16),
        fields::content_span(meta.fields) is None,
        meta.content_encoding is None,
        fields::asks_for_range(request),
        fields::first(request, text::bytes("if-range")) is None,
        fields::requested(request, meta.body_len) == seq![bounds],
        bounds.start matches Some(start) && start < meta.body_len && (bounds.end matches Some(end)
            ==> start <= end),
    ensures
        selected(request, meta) matches RangeOutcome::Satisfiable(hit) && Some(hit.first)
            == bounds.start && hit.last == match bounds.end {
            Some(end) => if end < meta.body_len {
                end as int
            } else {
                meta.body_len - 1
            },
            None => meta.body_len - 1,
        },
{
}

/// A range that lies in what a partial response holds is served from it, and one that does
/// not is not.
pub proof fn law_range_of_a_partial_response(
    request: Map<Seq<u8>, Seq<Seq<u8>>>,
    meta: MetaView,
    range: (u64, u64),
    total: u64,
    start: u64,
    end: u64,
)
    requires
        fields::content_span(meta.fields) == Some(
            (ContentSpan { range: Some(range), total: Some(total) }),
        ),
        range.0 <= range.1 < total,
        meta.body_len == range.1 - range.0 + 1,
        meta.content_encoding is None,
        fields::asks_for_range(request),
        fields::first(request, text::bytes("if-range")) is None,
        fields::requested(request, total) == seq![
            (ByteBounds { start: Some(start), end: Some(end) }),
        ],
        start <= end < total,
    ensures
        selected(request, meta) is Satisfiable <==> range.0 <= start && end <= range.1,
        selected(request, meta) matches RangeOutcome::Satisfiable(hit) ==> hit.first == start
            && hit.last == end && hit.total == total,
{
}

/// A request that names no range gets the whole of a response that is not partial.
pub proof fn law_whole_is_served_whole(request: Map<Seq<u8>, Seq<Seq<u8>>>, meta: MetaView)
    requires
        !fields::asks_for_range(request),
    ensures
        meta.status != Some(206u16) ==> selected(request, meta) is Whole,
        meta.status == Some(206u16) ==> selected(request, meta) is Unsatisfiable,
{
}

/// An `If-Range` condition is about the stored response: an entity-tag in quotes has to be
/// its `ETag`, and anything else its `Last-Modified`, letter for letter. A weak tag is no
/// tag in quotes, and so does not match the `ETag` that it is.
pub proof fn law_if_range(
    request: Map<Seq<u8>, Seq<Seq<u8>>>,
    stored: Map<Seq<u8>, Seq<Seq<u8>>>,
    condition: Seq<u8>,
)
    requires
        fields::first(request, text::bytes("if-range")) == Some(condition),
    ensures
        condition.len() > 0 && condition[0] == 34u8 ==> (condition_holds(request, stored)
            <==> fields::first(stored, text::bytes("etag")) == Some(condition)),
        condition.len() == 0 || condition[0] != 34u8 ==> (condition_holds(request, stored)
            <==> fields::first(stored, text::bytes("last-modified")) == Some(condition)),
{
}

/// What a part is served with says which bytes it holds, of how many, and how many they
/// are, in numbers that are read back as just these. Every other field stays.
pub proof fn law_served_part_is_described(
    fields: Map<Seq<u8>, Seq<Seq<u8>>>,
    hit: RangeHit,
    name: Seq<u8>,
)
    requires
        hit.wf(),
    ensures
        ({
            let served = described(fields, hit);
            let range = fields::field(served, "content-range");
            let length = fields::field(served, "content-length");
            &&& range.len() == 1
            &&& length.len() == 1
            &&& text::decimal(length[0]) == Some((hit.last - hit.first + 1) as u64)
            &&& exists|first: Seq<u8>, last: Seq<u8>, total: Seq<u8>|
                range[0] == #[trigger] spelled(first, last, total) && text::decimal(first) == Some(
                    hit.first,
                ) && text::decimal(last) == Some(hit.last) && text::decimal(total) == Some(
                    hit.total,
                )
            &&& text::lower(name) != text::lower(text::bytes("content-range")) && text::lower(name)
                != text::lower(text::bytes("content-length")) ==> fields::values_of(served, name)
                == fields::values_of(fields, name)
        }),
{
    reveal_strlit("content-range");
    reveal_strlit("content-length");
    fields::lemma_ascii_bytes("content-range");
    fields::lemma_ascii_bytes("content-length");
    assert(text::lower(text::bytes("content-range")).len() == 13);
    assert(text::lower(text::bytes("content-length")).len() == 14);
    text::lemma_decimal_text((hit.last - hit.first + 1) as nat);
    text::lemma_decimal_text(hit.first as nat);
    text::lemma_decimal_text(hit.last as nat);
    text::lemma_decimal_text(hit.total as nat);
    let first = text::decimal_text(hit.first as nat);
    let last = text::decimal_text(hit.last as nat);
    let total = text::decimal_text(hit.total as nat);
    assert(fields::content_range_text(hit.first, hit.last, hit.total) =~= spelled(
        first,
        last,
        total,
    ));
}

/// A `Content-Range` that is spelled with the given numbers.
pub open spec fn spelled(first: Seq<u8>, last: Seq<u8>, total: Seq<u8>) -> Seq<u8> {
    text::bytes("bytes ") + first + seq![45u8] + last + seq![47u8] + total
}

/// A partial response never answers a request for the whole resource.
pub proof fn law_partial_is_never_whole(request: Map<Seq<u8>, Seq<Seq<u8>>>, meta: MetaView)
    requires
        meta.status == Some(206u16),
    ensures
        !(selected(request, meta) is Whole),
{
}

/// An encoded body serves no range.
pub proof fn law_encoded_body_serves_no_range(
    request: Map<Seq<u8>, Seq<Seq<u8>>>,
    meta: MetaView,
)
    requires
        meta.content_encoding is Some,
    ensures
        !(selected(request, meta) is Satisfiable),
{
}

/// A request whose `If-Range` condition fails is answered as if it asked for no
/// range.
pub proof fn law_failed_condition_ignores_range(
    request: Map<Seq<u8>, Seq<Seq<u8>>>,
    meta: MetaView,
)
    requires
        !condition_holds(request, meta.fields),
    ensures
        selected(request, meta) is Whole || selected(request, meta) is Unsatisfiable,
        meta.status != Some(206u16) ==> selected(request, meta) is Whole,
{
}

/// A request for several ranges at once is not answered from a stored body.
pub proof fn law_several_ranges_are_not_served(
    request: Map<Seq<u8>, Seq<Seq<u8>>>,
    meta: MetaView,
)
    requires
        fields::asks_for_range(request),
        condition_holds(request, meta.fields),
    ensures
        (coverage(spec_stored_range(meta.fields), meta.body_len) matches Some(covered)
            ==> fields::requested(request, covered.total).len() > 1) ==> selected(
            request,
            meta,
        ) is Unsatisfiable,
{
}

} // verus!
