//! Cache directives read straight from the comma-separated items of a
//! `Cache-Control` field.
use http::{HeaderMap, HeaderValue};
use vstd::prelude::*;

use crate::fields;
use crate::fields::field_values;
use crate::text;

verus! {

/// The items of the `Cache-Control` field of a message.
pub open spec fn cache_items(fields: Map<Seq<u8>, Seq<Seq<u8>>>) -> Seq<Seq<u8>> {
    text::items(fields::field(fields, "cache-control"))
}

/// The items of the `Cache-Control` field of a message.
pub fn cache_control_items(map: &HeaderMap<HeaderValue>) -> (r: Vec<Vec<u8>>)
    ensures
        text::views(r@) == cache_items(fields::header_fields(*map)),
{
    let values: Vec<Vec<u8>> = field_values(map, "cache-control".as_bytes());
    text::field_items(&values)
}

/// Whether one of the items is `name`, without an argument.
pub open spec fn has_flag(items: Seq<Seq<u8>>, name: &str) -> bool {
    exists|i: int| 0 <= i < items.len() && is_flag(#[trigger] items[i], name)
}

pub open spec fn is_flag(item: Seq<u8>, name: &str) -> bool {
    text::lower(item) == text::lower(text::bytes(name))
}

/// The argument of an item that is `name` with an argument.
pub open spec fn argument(item: Seq<u8>, name: &str) -> Option<Seq<u8>> {
    match text::split_once(item, 61) {
        Some(parts) => if text::lower(text::trim(parts.0)) == text::lower(text::bytes(name)) {
            Some(parts.1)
        } else {
            None
        },
        None => None,
    }
}

/// The number of seconds that an item gives `name`; the number may be quoted.
pub open spec fn seconds(item: Seq<u8>, name: &str) -> Option<u64> {
    match argument(item, name) {
        Some(arg) => text::decimal(text::trim_quotes(text::trim(arg))),
        None => None,
    }
}

/// The number of seconds that an item gives one of two names.
pub open spec fn either_seconds(item: Seq<u8>, name: &str, other: &str) -> Option<u64> {
    match seconds(item, name) {
        Some(n) => Some(n),
        None => seconds(item, other),
    }
}

/// Whether one of the items is `name` with an argument.
pub open spec fn has_argument(items: Seq<Seq<u8>>, name: &str) -> bool {
    exists|i: int| 0 <= i < items.len() && argument(#[trigger] items[i], name) is Some
}

/// The number that the first item to give one of two names a number gives.
pub open spec fn first_seconds(items: Seq<Seq<u8>>, name: &str, other: &str) -> Option<u64>
    decreases items.len(),
{
    if items.len() == 0 {
        None
    } else {
        match first_seconds(items.drop_last(), name, other) {
            Some(n) => Some(n),
            None => either_seconds(items.last(), name, other),
        }
    }
}

/// Whether one of the items is `name`, without an argument.
pub fn check_flag(items: &Vec<Vec<u8>>, name: &str) -> (r: bool)
    ensures
        r == has_flag(text::views(items@), name),
{
    let ghost all = text::views(items@);
    let mut i: usize = 0;
    while i < items.len()
        invariant
            i <= items@.len(),
            all == text::views(items@),
            forall|j: int| 0 <= j < i ==> !is_flag(#[trigger] all[j], name),
        decreases items@.len() - i,
    {
        assert(all[i as int] == items@[i as int]@);
        if text::same_ignoring_case(items[i].as_slice(), name.as_bytes()) {
            assert(is_flag(all[i as int], name));
            return true;
        }
        i += 1;
    }
    false
}

/// The argument of an item that is `name` with an argument.
pub fn find_argument(item: &[u8], name: &str) -> (r: Option<Vec<u8>>)
    ensures
        r is Some == argument(item@, name) is Some,
        r matches Some(arg) ==> argument(item@, name) == Some(arg@),
{
    match text::split_at_first(item, 61) {
        Some((head, tail)) => {
            let head: Vec<u8> = text::trimmed(head.as_slice());
            if text::same_ignoring_case(head.as_slice(), name.as_bytes()) {
                Some(tail)
            } else {
                None
            }
        },
        None => None,
    }
}

/// The number of seconds that an item gives `name`.
pub fn find_seconds(item: &[u8], name: &str) -> (r: Option<u64>)
    ensures
        r == seconds(item@, name),
{
    match find_argument(item, name) {
        Some(arg) => {
            let arg: Vec<u8> = text::trimmed(arg.as_slice());
            let arg: Vec<u8> = text::unquoted(arg.as_slice());
            text::parse_decimal(arg.as_slice())
        },
        None => None,
    }
}

/// Whether one of the items is `name` with an argument.
pub fn check_argument(items: &Vec<Vec<u8>>, name: &str) -> (r: bool)
    ensures
        r == has_argument(text::views(items@), name),
{
    let ghost all = text::views(items@);
    let mut i: usize = 0;
    while i < items.len()
        invariant
            i <= items@.len(),
            all == text::views(items@),
            forall|j: int| 0 <= j < i ==> argument(#[trigger] all[j], name) is None,
        decreases items@.len() - i,
    {
        assert(all[i as int] == items@[i as int]@);
        if find_argument(items[i].as_slice(), name).is_some() {
            assert(argument(all[i as int], name) is Some);
            return true;
        }
        i += 1;
    }
    false
}

proof fn lemma_first_seconds(items: Seq<Seq<u8>>, i: int, name: &str, other: &str)
    requires
        0 <= i <= items.len(),
        first_seconds(items.take(i), name, other) is Some,
    ensures
        first_seconds(items, name, other) == first_seconds(items.take(i), name, other),
    decreases items.len(),
{
    if i == items.len() {
        assert(items.take(i) =~= items);
    } else {
        assert(items.drop_last().take(i) =~= items.take(i));
        lemma_first_seconds(items.drop_last(), i, name, other);
    }
}

/// The number that the first item to give one of two names a number gives.
pub fn find_first_seconds(items: &Vec<Vec<u8>>, name: &str, other: &str) -> (r: Option<u64>)
    ensures
        r == first_seconds(text::views(items@), name, other),
{
    let ghost all = text::views(items@);
    let mut i: usize = 0;
    assert(all.take(0) =~= Seq::<Seq<u8>>::empty());
    while i < items.len()
        invariant
            i <= items@.len(),
            all == text::views(items@),
            first_seconds(all.take(i as int), name, other) is None,
        decreases items@.len() - i,
    {
        assert(all[i as int] == items@[i as int]@);
        assert(all.take(i + 1).drop_last() =~= all.take(i as int));
        assert(all.take(i + 1).last() == items@[i as int]@);
        let mut found: Option<u64> = find_seconds(items[i].as_slice(), name);
        if found.is_none() {
            found = find_seconds(items[i].as_slice(), other);
        }
        if found.is_some() {
            proof {
                lemma_first_seconds(all, i + 1, name, other);
            }
            return found;
        }
        i += 1;
    }
    assert(all.take(i as int) =~= all);
    None
}

/// The `stale-while-revalidate` window of a response, in seconds.
pub open spec fn stale_window(fields: Map<Seq<u8>, Seq<Seq<u8>>>) -> u64 {
    match first_seconds(
        cache_items(fields),
        "stale-while-revalidate",
        "stale-while-revalidate",
    ) {
        Some(secs) => secs,
        None => 0,
    }
}

/// The `stale-while-revalidate` window of a response, in seconds. The `headers`
/// crate's `CacheControl` does not understand the directive, so the raw values are
/// read here.
pub fn find_stale_window(map: &HeaderMap<HeaderValue>) -> (r: u64)
    ensures
        r == stale_window(fields::header_fields(*map)),
{
    let items: Vec<Vec<u8>> = cache_control_items(map);
    match find_first_seconds(&items, "stale-while-revalidate", "stale-while-revalidate") {
        Some(secs) => secs,
        None => 0,
    }
}

/// A directive with an argument is found by its name, whatever its case and the blanks
/// around it, and its argument is all that follows the first equals sign.
pub proof fn law_argument(name: Seq<u8>, value: Seq<u8>, wanted: &str)
    requires
        !name.contains('=' as u8),
    ensures
        argument(name + seq!['=' as u8] + value, wanted) == if text::lower(text::trim(name))
            == text::lower(text::bytes(wanted)) {
            Some(value)
        } else {
            None
        },
        argument(name, wanted) is None,
{
    let item = name + seq![61u8] + value;
    let at = name.len() as int;
    assert forall|j: int| 0 <= j < at implies item[j] != 61 by {
        assert(item[j] == name[j]);
    }
    text::lemma_find_is(item, 61, at);
    assert(item.take(at) =~= name);
    assert(item.skip(at + 1) =~= value);
    assert forall|j: int| 0 <= j < at implies name[j] != 61 by {}
    text::lemma_find_is(name, 61, at);
}

/// The seconds that a list of directives gives are those of the first one of either name
/// that can be read. Nothing that stands after it counts.
pub proof fn law_first_readable(items: Seq<Seq<u8>>, name: &str, other: &str, i: int)
    requires
        0 <= i < items.len(),
    ensures
        (seconds(items[i], name) is Some || seconds(items[i], other) is Some) ==> first_seconds(
            items,
            name,
            other,
        ) is Some,
        seconds(items[i], name) matches Some(n) && (forall|j: int|
            0 <= j < i ==> seconds(#[trigger] items[j], name) is None && seconds(items[j], other)
                is None) ==> first_seconds(items, name, other) == seconds(items[i], name),
        seconds(items[i], name) is None && seconds(items[i], other) is Some && (forall|j: int|
            0 <= j < i ==> seconds(#[trigger] items[j], name) is None && seconds(items[j], other)
                is None) ==> first_seconds(items, name, other) == seconds(items[i], other),
        (forall|j: int|
            0 <= j < items.len() ==> seconds(#[trigger] items[j], name) is None && seconds(
                items[j],
                other,
            ) is None) ==> first_seconds(items, name, other) is None,
    decreases items.len(),
{
    let front = items.drop_last();
    assert(forall|j: int| 0 <= j < front.len() ==> front[j] == items[j]);
    assert(items.last() == items[items.len() - 1]);
    if i < front.len() {
        law_first_readable(front, name, other, i);
    } else if front.len() > 0 {
        law_first_readable(front, name, other, front.len() - 1);
    }
}

/// The window in which a stale response may be used is what `stale-while-revalidate` says,
/// and none where that is not said.
pub proof fn law_stale_window(fields: Map<Seq<u8>, Seq<Seq<u8>>>, i: int)
    ensures
        cache_items(fields).len() == 0 ==> stale_window(fields) == 0,
        (forall|j: int|
            0 <= j < cache_items(fields).len() ==> seconds(
                #[trigger] cache_items(fields)[j],
                "stale-while-revalidate",
            ) is None) ==> stale_window(fields) == 0,
        0 <= i < cache_items(fields).len() && (seconds(
            cache_items(fields)[i],
            "stale-while-revalidate",
        ) is Some) && (forall|j: int|
            0 <= j < i ==> seconds(#[trigger] cache_items(fields)[j], "stale-while-revalidate")
                is None) ==> Some(stale_window(fields)) == seconds(
            cache_items(fields)[i],
            "stale-while-revalidate",
        ),
{
    let items = cache_items(fields);
    if 0 <= i < items.len() {
        law_first_readable(items, "stale-while-revalidate", "stale-while-revalidate", i);
    } else if items.len() > 0 {
        law_first_readable(items, "stale-while-revalidate", "stale-while-revalidate", 0);
    }
}

} // verus!
