//! Header fields: the multimap that holds them, and the typed readings of those
//! that caching depends on.
use headers::HeaderMapExt;
use http::{HeaderMap, HeaderName, HeaderValue};
use vstd::prelude::*;

use crate::text;

verus! {

/// The multimap of header fields of the `http` crate.
#[verifier::external_type_specification]
#[verifier::external_body]
#[verifier::reject_recursive_types(T)]
pub struct ExHeaderMap<T>(http::HeaderMap<T>);

/// One value of a header field, an arbitrary byte string of the `http` crate.
#[verifier::external_type_specification]
#[verifier::external_body]
pub struct ExHeaderValue(http::HeaderValue);

/// What a header map holds: the values of each field in the order in which they
/// were added, under the field's name in lower case.
pub uninterp spec fn header_fields(map: HeaderMap<HeaderValue>) -> Map<Seq<u8>, Seq<Seq<u8>>>;

/// The values of the field `name`, whatever its case; none if it is absent.
pub open spec fn values_of(fields: Map<Seq<u8>, Seq<Seq<u8>>>, name: Seq<u8>) -> Seq<Seq<u8>> {
    if fields.contains_key(text::lower(name)) {
        fields[text::lower(name)]
    } else {
        seq![]
    }
}

/// The values of the field `name`; none if it is absent.
pub open spec fn field(fields: Map<Seq<u8>, Seq<Seq<u8>>>, name: &str) -> Seq<Seq<u8>> {
    values_of(fields, text::bytes(name))
}

/// Whether the field `name` is present.
pub open spec fn present(fields: Map<Seq<u8>, Seq<Seq<u8>>>, name: &str) -> bool {
    field(fields, name).len() > 0
}

/// The first value of the field `name`.
pub open spec fn first(fields: Map<Seq<u8>, Seq<Seq<u8>>>, name: Seq<u8>) -> Option<Seq<u8>> {
    if values_of(fields, name).len() > 0 {
        Some(values_of(fields, name)[0])
    } else {
        None
    }
}

/// The fields after the field `name` was given the one value `value`.
pub open spec fn with_field(
    fields: Map<Seq<u8>, Seq<Seq<u8>>>,
    name: Seq<u8>,
    value: Seq<u8>,
) -> Map<Seq<u8>, Seq<Seq<u8>>> {
    fields.insert(text::lower(name), seq![value])
}

/// The fields after `value` was added to the values of the field `name`.
pub open spec fn with_value(
    fields: Map<Seq<u8>, Seq<Seq<u8>>>,
    name: Seq<u8>,
    value: Seq<u8>,
) -> Map<Seq<u8>, Seq<Seq<u8>>> {
    fields.insert(text::lower(name), values_of(fields, name).push(value))
}

/// The fields without the field `name`.
pub open spec fn without(
    fields: Map<Seq<u8>, Seq<Seq<u8>>>,
    name: Seq<u8>,
) -> Map<Seq<u8>, Seq<Seq<u8>>> {
    fields.remove(text::lower(name))
}

pub open spec fn is_name_byte(b: u8) -> bool {
    b == 33 || 35 <= b <= 39 || b == 42 || b == 43 || b == 45 || b == 46 || 48 <= b <= 57 || 65
        <= b <= 90 || 94 <= b <= 122 || b == 124 || b == 126
}

pub fn check_name_byte(b: u8) -> (r: bool)
    ensures
        r == is_name_byte(b),
{
    b == 33 || (35 <= b && b <= 39) || b == 42 || b == 43 || b == 45 || b == 46 || (48 <= b && b
        <= 57) || (65 <= b && b <= 90) || (94 <= b && b <= 122) || b == 124 || b == 126
}

/// Whether a header field can be asked for by a byte string.
pub open spec fn is_name(name: Seq<u8>) -> bool {
    &&& 1 <= name.len() <= 65535
    &&& forall|i: int| 0 <= i < name.len() ==> is_name_byte(#[trigger] name[i])
}

/// Whether a byte string is the name of a header field as a map holds it. A name that
/// came in lower case may hold a double quote; no field can be asked for by such a name.
pub open spec fn is_key(name: Seq<u8>) -> bool {
    &&& 1 <= name.len() <= 65535
    &&& forall|i: int|
        0 <= i < name.len() ==> (is_name_byte(#[trigger] name[i]) || name[i] == 34) && !(65
            <= name[i] <= 90)
}

/// Whether a header field can be asked for by a byte string.
pub fn check_name(name: &[u8]) -> (r: bool)
    ensures
        r == is_name(name@),
{
    if name.len() == 0 || name.len() > 65535 {
        return false;
    }
    let mut i: usize = 0;
    while i < name.len()
        invariant
            i <= name@.len(),
            forall|j: int| 0 <= j < i ==> is_name_byte(#[trigger] name@[j]),
        decreases name@.len() - i,
    {
        if !check_name_byte(name[i]) {
            return false;
        }
        i += 1;
    }
    true
}

pub open spec fn is_value_byte(b: u8) -> bool {
    b >= 32 && b != 127 || b == 9
}

/// Whether a byte string can be the value of a header field.
pub open spec fn is_value(value: Seq<u8>) -> bool {
    forall|i: int| 0 <= i < value.len() ==> is_value_byte(#[trigger] value[i])
}

/// The number of field names up to which a header map is sure to take another.
pub const MAX_NAMES: usize = 6553;

/// Whether another field is sure to find room, also after `extra` more names.
pub open spec fn has_room(fields: Map<Seq<u8>, Seq<Seq<u8>>>, extra: int) -> bool {
    fields.dom().finite() && fields.dom().len() + extra <= MAX_NAMES
}

/// How many values a header map holds, all fields together.
pub uninterp spec fn value_count(map: HeaderMap<HeaderValue>) -> nat;

/// The number of values up to which a header map can be copied field by field.
pub const MAX_VALUES: usize = 24576;

/// No header fields at all.
pub open spec fn nothing() -> Map<Seq<u8>, Seq<Seq<u8>>> {
    Map::empty()
}

/// `HeaderMap::new` makes a map without fields and hence without values.
#[verifier::external_body]
pub(crate) fn no_fields() -> (r: HeaderMap<HeaderValue>)
    ensures
        header_fields(r) == nothing(),
        value_count(r) == 0,
{
    HeaderMap::new()
}

/// `HeaderMap::clone` makes a map that holds the same fields.
#[verifier::external_body]
pub(crate) fn copy_fields(map: &HeaderMap<HeaderValue>) -> (r: HeaderMap<HeaderValue>)
    ensures
        header_fields(r) == header_fields(*map),
        value_count(r) == value_count(*map),
{
    map.clone()
}

/// `HeaderMap::get_all` gives the values of a field in the order in which they
/// were added. The name is in lower case; one that `HeaderName::from_lowercase`
/// refuses is not the name of any field. A value is always a valid one.
#[verifier::external_body]
fn values_under(map: &HeaderMap<HeaderValue>, name: &[u8]) -> (r: Vec<Vec<u8>>)
    requires
        text::lower(name@) == name@,
    ensures
        text::views(r@) == values_of(header_fields(*map), name@),
        forall|i: int| 0 <= i < r@.len() ==> is_value(#[trigger] r@[i]@),
{
    match HeaderName::from_lowercase(name) {
        Ok(name) => map.get_all(name).iter().map(|value| value.as_bytes().to_vec()).collect(),
        Err(_) => Vec::new(),
    }
}

/// The values of a field, in the order in which they were added.
pub(crate) fn field_values(map: &HeaderMap<HeaderValue>, name: &[u8]) -> (r: Vec<Vec<u8>>)
    ensures
        text::views(r@) == values_of(header_fields(*map), name@),
        forall|i: int| 0 <= i < r@.len() ==> is_value(#[trigger] r@[i]@),
{
    let key: Vec<u8> = text::to_lower(name);
    assert(text::lower(key@) =~= key@);
    values_under(map, key.as_slice())
}

/// `HeaderMap::keys` gives each field name that the map has a value for exactly
/// once, in lower case and in no particular order.
#[verifier::external_body]
pub(crate) fn field_names(map: &HeaderMap<HeaderValue>) -> (r: Vec<Vec<u8>>)
    ensures
        text::views(r@).no_duplicates(),
        text::views(r@).to_set() == header_fields(*map).dom(),
        forall|i: int|
            0 <= i < r@.len() ==> is_key(#[trigger] r@[i]@) && values_of(
                header_fields(*map),
                r@[i]@,
            ).len() > 0,
{
    map.keys().map(|name| name.as_str().as_bytes().to_vec()).collect()
}

/// `HeaderMap::insert` gives a field one value in place of any that it had, so the
/// number of values grows by at most one, and not at all if the field had one.
#[verifier::external_body]
pub(crate) fn set_field(map: &mut HeaderMap<HeaderValue>, name: &[u8], value: &[u8])
    requires
        is_name(name@),
        is_value(value@),
        has_room(header_fields(*old(map)), 0),
    ensures
        header_fields(*final(map)) == with_field(header_fields(*old(map)), name@, value@),
        value_count(*final(map)) <= value_count(*old(map)) + 1,
        values_of(header_fields(*old(map)), name@).len() > 0 ==> value_count(*final(map))
            <= value_count(*old(map)),
{
    let name = HeaderName::from_bytes(name).unwrap();
    map.insert(name, HeaderValue::from_bytes(value).unwrap());
}

/// `HeaderMap::append` adds one value, after those that a field already has. The name
/// is in lower case, as `HeaderName::from_lowercase` takes it.
#[verifier::external_body]
fn add_value(map: &mut HeaderMap<HeaderValue>, name: &[u8], value: &[u8])
    requires
        is_key(name@),
        is_value(value@),
        has_room(header_fields(*old(map)), 0),
    ensures
        header_fields(*final(map)) == with_value(header_fields(*old(map)), name@, value@),
        value_count(*final(map)) == value_count(*old(map)) + 1,
{
    let name = HeaderName::from_lowercase(name).unwrap();
    map.append(name, HeaderValue::from_bytes(value).unwrap());
}

/// `HeaderMap::len` counts the values, all fields together.
#[verifier::external_body]
pub(crate) fn count_values(map: &HeaderMap<HeaderValue>) -> (r: usize)
    ensures
        r == value_count(*map),
{
    map.len()
}

/// `HeaderMap::extend` puts the fields of another map in place of those of the same
/// names, and leaves the others alone.
#[verifier::external_body]
pub(crate) fn extend_fields(map: &mut HeaderMap<HeaderValue>, more: HeaderMap<HeaderValue>)
    requires
        header_fields(more).dom().finite(),
        has_room(header_fields(*old(map)), header_fields(more).dom().len() as int),
    ensures
        header_fields(*final(map)) == header_fields(*old(map)).union_prefer_right(
            header_fields(more),
        ),
{
    map.extend(more);
}

/// `HeaderMap::remove` takes a field out with all of its values. The name is in lower
/// case; one that `HeaderName::from_lowercase` refuses is not the name of any field.
#[verifier::external_body]
fn remove_under(map: &mut HeaderMap<HeaderValue>, name: &[u8])
    requires
        text::lower(name@) == name@,
    ensures
        header_fields(*final(map)) == without(header_fields(*old(map)), name@),
        value_count(*final(map)) <= value_count(*old(map)),
{
    if let Ok(name) = HeaderName::from_lowercase(name) {
        map.remove(name);
    }
}

/// Take a field out with all of its values.
pub(crate) fn remove_field(map: &mut HeaderMap<HeaderValue>, name: &[u8])
    ensures
        header_fields(*final(map)) == without(header_fields(*old(map)), name@),
        value_count(*final(map)) <= value_count(*old(map)),
{
    let key: Vec<u8> = text::to_lower(name);
    assert(text::lower(key@) =~= key@);
    remove_under(map, key.as_slice());
}

pub(crate) proof fn lemma_ascii_bytes(s: &str)
    requires
        vstd::utf8::is_ascii_chars(s@),
    ensures
        text::bytes(s) =~= Seq::new(s@.len(), |i: int| s@[i] as u8),
{
    vstd::utf8::is_ascii_chars_encode_utf8(s@);
}

/// The name of a field is in lower case.
pub(crate) proof fn lemma_key(name: Seq<u8>)
    requires
        is_key(name),
    ensures
        text::lower(name) == name,
{
    assert(text::lower(name) =~= name);
}

/// A field that can be asked for by a name can be held under it.
pub(crate) proof fn lemma_name_key(name: Seq<u8>)
    requires
        is_name(name),
    ensures
        is_key(text::lower(name)),
{
    assert forall|i: int| 0 <= i < name.len() implies (is_name_byte(
        #[trigger] text::lower(name)[i],
    ) || text::lower(name)[i] == 34) && !(65 <= text::lower(name)[i] <= 90) by {
        assert(is_name_byte(name[i]));
    }
}

/// The names that this library gives values to can name header fields.
pub(crate) proof fn lemma_names()
    ensures
        is_name(text::bytes("age")),
        is_name(text::bytes("date")),
        is_name(text::bytes("etag")),
        is_name(text::bytes("vary")),
        is_name(text::bytes("cookie")),
        is_name(text::bytes("authorization")),
        is_name(text::bytes("proxy-authorization")),
        is_name(text::bytes("last-modified")),
        is_name(text::bytes("content-range")),
        is_name(text::bytes("content-length")),
        is_name(text::bytes("if-modified-since")),
        is_name(text::bytes("if-none-match")),
{
    reveal_strlit("age");
    reveal_strlit("date");
    reveal_strlit("etag");
    reveal_strlit("vary");
    reveal_strlit("cookie");
    reveal_strlit("authorization");
    reveal_strlit("proxy-authorization");
    reveal_strlit("last-modified");
    reveal_strlit("content-range");
    reveal_strlit("content-length");
    reveal_strlit("if-modified-since");
    reveal_strlit("if-none-match");
    lemma_ascii_bytes("age");
    lemma_ascii_bytes("date");
    lemma_ascii_bytes("etag");
    lemma_ascii_bytes("vary");
    lemma_ascii_bytes("cookie");
    lemma_ascii_bytes("authorization");
    lemma_ascii_bytes("proxy-authorization");
    lemma_ascii_bytes("last-modified");
    lemma_ascii_bytes("content-range");
    lemma_ascii_bytes("content-length");
    lemma_ascii_bytes("if-modified-since");
    lemma_ascii_bytes("if-none-match");
}

/// The first value of a field.
pub fn first_value(map: &HeaderMap<HeaderValue>, name: &[u8]) -> (r: Option<Vec<u8>>)
    ensures
        r is Some == first(header_fields(*map), name@) is Some,
        r matches Some(value) ==> first(header_fields(*map), name@) == Some(value@) && is_value(
            value@,
        ),
{
    let values: Vec<Vec<u8>> = field_values(map, name);
    assert(text::views(values@).len() == values@.len());
    if values.len() > 0 {
        let value: Vec<u8> = text::copy_bytes(values[0].as_slice());
        assert(text::views(values@)[0] == value@);
        Some(value)
    } else {
        None
    }
}

/// The first value of the field that is asked for by a name. There is none under a name
/// that no field can be asked for by.
pub open spec fn asked(fields: Map<Seq<u8>, Seq<Seq<u8>>>, name: Seq<u8>) -> Option<Seq<u8>> {
    if is_name(name) {
        first(fields, name)
    } else {
        None
    }
}

/// Ask for the first value of a field by a name that may be any text.
pub fn ask_value(map: &HeaderMap<HeaderValue>, name: &[u8]) -> (r: Option<Vec<u8>>)
    ensures
        r is Some == asked(header_fields(*map), name@) is Some,
        r matches Some(value) ==> asked(header_fields(*map), name@) == Some(value@),
{
    if check_name(name) {
        first_value(map, name)
    } else {
        None
    }
}

/// Whether a field is present.
pub fn has_field(map: &HeaderMap<HeaderValue>, name: &[u8]) -> (r: bool)
    ensures
        r == (values_of(header_fields(*map), name@).len() > 0),
{
    let values: Vec<Vec<u8>> = field_values(map, name);
    assert(text::views(values@).len() == values@.len());
    values.len() > 0
}

/// Whether another field is sure to find room in a header map, also after `extra` more
/// names.
pub fn check_room(headers: &HeaderMap<HeaderValue>, extra: usize) -> (r: bool)
    ensures
        r == has_room(header_fields(*headers), extra as int),
{
    let names: Vec<Vec<u8>> = field_names(headers);
    proof {
        text::views(names@).unique_seq_to_set();
    }
    extra <= MAX_NAMES && names.len() <= MAX_NAMES - extra
}

/// A field given the values of a list in place of any that it had; an empty list
/// takes the field out.
pub open spec fn replaced(
    fields: Map<Seq<u8>, Seq<Seq<u8>>>,
    name: Seq<u8>,
    values: Seq<Seq<u8>>,
) -> Map<Seq<u8>, Seq<Seq<u8>>> {
    if values.len() == 0 {
        without(fields, name)
    } else {
        fields.insert(text::lower(name), values)
    }
}

/// Give a field the values of a list in place of any that it had.
pub fn replace_field(map: &mut HeaderMap<HeaderValue>, name: &[u8], values: &Vec<Vec<u8>>)
    requires
        is_key(text::lower(name@)),
        forall|i: int| 0 <= i < values@.len() ==> is_value(#[trigger] values@[i]@),
        has_room(header_fields(*old(map)), 1),
    ensures
        header_fields(*final(map)) == replaced(
            header_fields(*old(map)),
            name@,
            text::views(values@),
        ),
        value_count(*final(map)) <= value_count(*old(map)) + values@.len(),
{
    let ghost before = header_fields(*map);
    let ghost count = value_count(*map);
    let ghost all = text::views(values@);
    let key: Vec<u8> = text::to_lower(name);
    assert(text::lower(key@) =~= key@);
    remove_field(map, name);
    assert(without(before, name@) =~= replaced(before, name@, all.take(0)));
    let mut i: usize = 0;
    while i < values.len()
        invariant
            i <= values@.len(),
            is_key(key@),
            key@ == text::lower(name@),
            text::lower(key@) == key@,
            all == text::views(values@),
            has_room(before, 1),
            forall|j: int| 0 <= j < values@.len() ==> is_value(#[trigger] values@[j]@),
            header_fields(*map) == replaced(before, name@, all.take(i as int)),
            value_count(*map) <= count + i,
        decreases values@.len() - i,
    {
        let ghost so_far = header_fields(*map);
        assert(so_far.dom() =~= if i == 0 {
            before.dom().remove(text::lower(name@))
        } else {
            before.dom().insert(text::lower(name@))
        });
        add_value(map, key.as_slice(), values[i].as_slice());
        assert(values_of(so_far, name@) =~= all.take(i as int));
        assert(all.take(i as int).push(values@[i as int]@) =~= all.take(i + 1));
        assert(header_fields(*map) =~= replaced(before, name@, all.take(i + 1)));
        i += 1;
    }
    assert(all.take(i as int) =~= all);
}

/// The directives of a `Cache-Control` field that caching decisions read. The
/// numbers are seconds.
#[derive(Clone, Copy, Debug, PartialEq, Eq, Structural)]
pub struct CacheDirectives {
    pub no_cache: bool,
    pub no_store: bool,
    pub public: bool,
    pub private: bool,
    pub max_age: Option<u64>,
    pub max_stale: Option<u64>,
    pub min_fresh: Option<u64>,
}

/// What the `headers` crate reads out of the values of a `Cache-Control` field.
pub uninterp spec fn cache_control_of(values: Seq<Seq<u8>>) -> Option<CacheDirectives>;

/// The cache directives of a message, if it has any that can be read.
pub open spec fn directives(fields: Map<Seq<u8>, Seq<Seq<u8>>>) -> Option<CacheDirectives> {
    if present(fields, "cache-control") {
        cache_control_of(field(fields, "cache-control"))
    } else {
        None
    }
}

/// `HeaderMapExt::typed_get::<CacheControl>` reads the values of the
/// `Cache-Control` field, if there is one, and nothing else.
#[verifier::external_body]
pub(crate) fn cache_control(map: &HeaderMap<HeaderValue>) -> (r: Option<CacheDirectives>)
    ensures
        !present(header_fields(*map), "cache-control") ==> r is None,
        present(header_fields(*map), "cache-control") ==> r == cache_control_of(
            field(header_fields(*map), "cache-control"),
        ),
{
    map.typed_get::<headers::CacheControl>().map(|d| CacheDirectives {
        no_cache: d.no_cache(),
        no_store: d.no_store(),
        public: d.public(),
        private: d.private(),
        max_age: d.max_age().map(|age| age.as_secs()),
        max_stale: d.max_stale().map(|age| age.as_secs()),
        min_fresh: d.min_fresh().map(|age| age.as_secs()),
    })
}

/// The length that all values of a `Content-Length` field agree on.
pub open spec fn stated_length(values: Seq<Seq<u8>>) -> Option<u64> {
    if values.len() > 0 && lengths_agree(values) {
        text::decimal(values[0])
    } else {
        None
    }
}

/// Whether every value is a number, and all of them the same one.
pub open spec fn lengths_agree(values: Seq<Seq<u8>>) -> bool {
    forall|i: int|
        0 <= i < values.len() ==> text::is_text(#[trigger] values[i]) && text::decimal(values[i])
            is Some && text::decimal(values[i]) == text::decimal(values[0])
}

/// `headers::ContentLength` reads the number that every value of the field gives; it
/// fails where there is no value, one is no decimal number in 64 bits, or two differ.
#[verifier::external_body]
pub(crate) fn content_length(map: &HeaderMap<HeaderValue>) -> (r: Option<u64>)
    ensures
        r == stated_length(field(header_fields(*map), "content-length")),
{
    map.typed_get::<headers::ContentLength>().map(|length| length.0)
}

/// What a `Content-Range` field says: the first and last byte that the message
/// holds, and the length of the whole.
#[derive(Clone, Copy, Debug)]
pub struct ContentSpan {
    pub range: Option<(u64, u64)>,
    pub total: Option<u64>,
}

/// What the `headers` crate reads out of the values of a `Content-Range` field.
pub uninterp spec fn content_range_of(values: Seq<Seq<u8>>) -> Option<ContentSpan>;

/// The content range of a message, if it has one that can be read.
pub open spec fn content_span(fields: Map<Seq<u8>, Seq<Seq<u8>>>) -> Option<ContentSpan> {
    if present(fields, "content-range") {
        content_range_of(field(fields, "content-range"))
    } else {
        None
    }
}

/// `HeaderMapExt::typed_get::<ContentRange>` reads the values of the
/// `Content-Range` field, if there is one, and nothing else. It takes no range
/// whose last byte comes before its first.
#[verifier::external_body]
pub(crate) fn content_range(map: &HeaderMap<HeaderValue>) -> (r: Option<ContentSpan>)
    ensures
        !present(header_fields(*map), "content-range") ==> r is None,
        present(header_fields(*map), "content-range") ==> r == content_range_of(
            field(header_fields(*map), "content-range"),
        ),
        r matches Some(span) ==> (span.range matches Some(range) ==> range.0 <= range.1),
{
    map.typed_get::<headers::ContentRange>().map(|range| ContentSpan {
        range: range.bytes_range(),
        total: range.bytes_len(),
    })
}

/// One range of a `Range` field. A bound that is absent is not given by the field.
#[derive(Clone, Copy, Debug, PartialEq, Eq, Structural)]
pub struct ByteBounds {
    pub start: Option<u64>,
    pub end: Option<u64>,
}

/// Whether a message asks for byte ranges.
pub open spec fn asks_for_range(fields: Map<Seq<u8>, Seq<Seq<u8>>>) -> bool {
    let values = field(fields, "range");
    &&& values.len() > 0
    &&& text::is_text(values[0])
    &&& text::bytes("bytes=").is_prefix_of(values[0])
}

/// `HeaderMapExt::typed_get::<Range>` takes a `Range` field whose first value is
/// text that begins with `bytes=`, and no other.
#[verifier::external_body]
pub(crate) fn has_byte_range(map: &HeaderMap<HeaderValue>) -> (r: bool)
    ensures
        r == asks_for_range(header_fields(*map)),
{
    map.typed_get::<headers::Range>().is_some()
}

/// The ranges that the `headers` crate reads out of the value of a `Range` field,
/// for a resource of the given length.
pub uninterp spec fn byte_ranges_of(value: Seq<u8>, len: u64) -> Seq<ByteBounds>;

/// The byte ranges a message asks for, of a resource of the given length.
pub open spec fn requested(fields: Map<Seq<u8>, Seq<Seq<u8>>>, len: u64) -> Seq<ByteBounds> {
    byte_ranges_of(field(fields, "range")[0], len)
}

/// `Range::satisfiable_ranges` reads the first value of the `Range` field. It
/// yields bounds that are included or absent.
#[verifier::external_body]
pub(crate) fn byte_ranges(map: &HeaderMap<HeaderValue>, len: u64) -> (r: Vec<ByteBounds>)
    requires
        asks_for_range(header_fields(*map)),
    ensures
        r@ == byte_ranges_of(field(header_fields(*map), "range")[0], len),
{
    let bound = |b: std::ops::Bound<u64>| match b {
        std::ops::Bound::Included(b) => Some(b),
        _ => None,
    };
    let range = map.typed_get::<headers::Range>().unwrap();
    let ranges = range.satisfiable_ranges(len);
    ranges.map(|(start, end)| ByteBounds { start: bound(start), end: bound(end) }).collect()
}

/// The first second that an HTTP date cannot express, counted from the Unix epoch.
pub const DATE_LIMIT: u64 = 253402300800;

/// The second, counted from the Unix epoch, that the `headers` crate reads out of
/// the values of an `Expires` field.
pub uninterp spec fn expires_of(values: Seq<Seq<u8>>) -> Option<u64>;

/// `HeaderMapExt::typed_get::<Expires>` reads the values of the `Expires` field
/// and nothing else. It gives whole seconds, none before the Unix epoch and none
/// that an HTTP date cannot express.
#[verifier::external_body]
pub(crate) fn expires(map: &HeaderMap<HeaderValue>) -> (r: Option<u64>)
    requires
        present(header_fields(*map), "expires"),
    ensures
        r == expires_of(field(header_fields(*map), "expires")),
        r is Some ==> r->0 < DATE_LIMIT,
{
    let time = std::time::SystemTime::from(map.typed_get::<headers::Expires>()?);
    time.duration_since(std::time::UNIX_EPOCH).ok().map(|since| since.as_secs())
}

/// The second, counted from the Unix epoch, that the `headers` crate reads out of
/// the values of a `Last-Modified` field.
pub uninterp spec fn last_modified_of(values: Seq<Seq<u8>>) -> Option<u64>;

/// `HeaderMapExt::typed_get::<LastModified>` reads the values of the
/// `Last-Modified` field and nothing else. It gives whole seconds, none before the
/// Unix epoch and none that an HTTP date cannot express.
#[verifier::external_body]
pub(crate) fn last_modified(map: &HeaderMap<HeaderValue>) -> (r: Option<u64>)
    requires
        present(header_fields(*map), "last-modified"),
    ensures
        r == last_modified_of(field(header_fields(*map), "last-modified")),
        r is Some ==> r->0 < DATE_LIMIT,
{
    let time = std::time::SystemTime::from(map.typed_get::<headers::LastModified>()?);
    time.duration_since(std::time::UNIX_EPOCH).ok().map(|since| since.as_secs())
}

/// The HTTP date of a second counted from the Unix epoch, as the `headers` crate
/// spells it.
pub uninterp spec fn http_date_text(secs: u64) -> Seq<u8>;

/// `headers::Date` spells a time as one header value, in text. It takes no time
/// from the year 10000 on.
#[verifier::external_body]
pub(crate) fn http_date(secs: u64) -> (r: Vec<u8>)
    requires
        secs < DATE_LIMIT,
    ensures
        r@ == http_date_text(secs),
        text::is_text(r@),
{
    let time = std::time::UNIX_EPOCH + std::time::Duration::from_secs(secs);
    let mut values: Vec<HeaderValue> = Vec::new();
    headers::Header::encode(&headers::Date::from(time), &mut values);
    values[0].as_bytes().to_vec()
}

/// The field names that the `headers` crate reads out of the values of a `Vary`
/// field, among them `*`.
pub uninterp spec fn vary_names_of(values: Seq<Seq<u8>>) -> Seq<Seq<u8>>;

/// `HeaderMapExt::typed_get::<Vary>` succeeds whenever there is a `Vary` field;
/// `Vary::iter_strs` gives the names that it lists.
#[verifier::external_body]
pub(crate) fn vary_names(map: &HeaderMap<HeaderValue>) -> (r: Option<Vec<Vec<u8>>>)
    ensures
        r is Some == present(header_fields(*map), "vary"),
        r is Some ==> text::views(r->0@) == vary_names_of(field(header_fields(*map), "vary")),
{
    let vary = map.typed_get::<headers::Vary>()?;
    Some(vary.iter_strs().map(|name| name.as_bytes().to_vec()).collect())
}

/// Whether a message carries `Pragma: no-cache`.
pub open spec fn pragma_no_cache(fields: Map<Seq<u8>, Seq<Seq<u8>>>) -> bool {
    first(fields, text::bytes("pragma")) == Some(text::bytes("no-cache"))
}

/// Whether a message carries `Pragma: no-cache`.
pub fn has_pragma_no_cache(map: &HeaderMap<HeaderValue>) -> (r: bool)
    ensures
        r == pragma_no_cache(header_fields(*map)),
{
    match first_value(map, "pragma".as_bytes()) {
        Some(value) => text::same(value.as_slice(), "no-cache".as_bytes()),
        None => false,
    }
}

/// The value of a `Content-Range` field.
pub open spec fn content_range_text(first: u64, last: u64, total: u64) -> Seq<u8> {
    text::bytes("bytes ") + text::decimal_text(first as nat) + seq![45u8] + text::decimal_text(
        last as nat,
    ) + seq![47u8] + text::decimal_text(total as nat)
}

/// The value of a `Content-Range` field for the bytes from `first` to `last`.
pub fn content_range_value(first: u64, last: u64, total: u64) -> (r: Vec<u8>)
    ensures
        r@ == content_range_text(first, last, total),
        is_value(r@),
{
    let mut r: Vec<u8> = text::copy_bytes("bytes ".as_bytes());
    let mut part: Vec<u8> = text::render_decimal(first);
    r.append(&mut part);
    r.push(45);
    let mut part: Vec<u8> = text::render_decimal(last);
    r.append(&mut part);
    r.push(47);
    let mut part: Vec<u8> = text::render_decimal(total);
    r.append(&mut part);
    proof {
        reveal_strlit("bytes ");
        lemma_ascii_bytes("bytes ");
        text::lemma_decimal_text(first as nat);
        text::lemma_decimal_text(last as nat);
        text::lemma_decimal_text(total as nat);
        assert(r@ =~= content_range_text(first, last, total));
        assert forall|i: int| 0 <= i < r@.len() implies is_value_byte(#[trigger] r@[i]) by {}
    }
    r
}

/// Setting, adding to, replacing and removing a field concern that field, whatever the case of
/// its name, and no other one.
pub proof fn law_one_field_changes(
    fields: Map<Seq<u8>, Seq<Seq<u8>>>,
    name: Seq<u8>,
    value: Seq<u8>,
    values: Seq<Seq<u8>>,
    other: Seq<u8>,
)
    ensures
        values_of(with_field(fields, name, value), name) == seq![value],
        values_of(with_value(fields, name, value), name) == values_of(fields, name).push(value),
        values_of(without(fields, name), name).len() == 0,
        values_of(replaced(fields, name, values), name) == values,
        text::lower(other) != text::lower(name) ==> {
            &&& values_of(with_field(fields, name, value), other) == values_of(fields, other)
            &&& values_of(with_value(fields, name, value), other) == values_of(fields, other)
            &&& values_of(without(fields, name), other) == values_of(fields, other)
            &&& values_of(replaced(fields, name, values), other) == values_of(fields, other)
        },
        text::lower(other) == text::lower(name) ==> values_of(fields, other) == values_of(
            fields,
            name,
        ),
{
    assert(values_of(replaced(fields, name, values), name) =~= values);
}

/// A length counts only if all that state it agree, each in digits that can be read.
pub proof fn law_stated_length(values: Seq<Seq<u8>>, n: u64, i: int)
    requires
        0 <= i < values.len(),
    ensures
        stated_length(values) == Some(n) ==> text::decimal(values[i]) == Some(n),
        text::decimal(values[i]) is None ==> stated_length(values) is None,
        stated_length(seq![text::decimal_text(n as nat)]) == Some(n),
        stated_length(seq![]) is None,
{
    let one = seq![text::decimal_text(n as nat)];
    text::lemma_decimal_text(n as nat);
    assert(text::is_text(one[0])) by {
        assert forall|k: int| 0 <= k < one[0].len() implies text::is_text_byte(
            #[trigger] one[0][k],
        ) by {
            assert(48 <= one[0][k] <= 57);
        }
    }
    assert(lengths_agree(one));
    if stated_length(values) == Some(n) {
        assert(text::decimal(values[i]) == text::decimal(values[0]));
    }
}

/// The bytes that names of fields and methods are made of are letters, digits and a few signs,
/// none of which parts a header.
pub proof fn law_name_bytes(b: u8)
    ensures
        'a' as u8 <= b <= 'z' as u8 || 'A' as u8 <= b <= 'Z' as u8 || '0' as u8 <= b <= '9' as u8
            ==> is_name_byte(b),
        b == '-' as u8 || b == '_' as u8 || b == '.' as u8 || b == '!' as u8 || b == '~' as u8
            ==> is_name_byte(b),
        b <= 32 || b >= 127 ==> !is_name_byte(b),
        b == ':' as u8 || b == ',' as u8 || b == ';' as u8 || b == '=' as u8 || b == '"' as u8 || b
            == '/' as u8 || b == '(' as u8 || b == ')' as u8 || b == '<' as u8 || b == '>' as u8
            || b == '@' as u8 || b == '?' as u8 || b == '[' as u8 || b == ']' as u8 || b
            == '{' as u8 || b == '}' as u8 || b == '\\' as u8 ==> !is_name_byte(b),
{
}

} // verus!
