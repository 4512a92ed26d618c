//! How `postcard` lays values out.
use vstd::prelude::*;
use vstd::utf8;

verus! {

/// A number, seven bits to a byte and the lowest first. All bytes but the last have their
/// high bit set.
pub open spec fn varint(n: nat) -> Seq<u8>
    decreases n,
{
    if n < 128 {
        seq![n as u8]
    } else {
        seq![(128 + n % 128) as u8] + varint(n / 128)
    }
}

/// A text: how many bytes it takes, and the bytes.
pub open spec fn text(s: Seq<char>) -> Seq<u8> {
    varint(utf8::encode_utf8(s).len()) + utf8::encode_utf8(s)
}

/// Texts, one after the other.
pub open spec fn texts(list: Seq<Seq<char>>) -> Seq<u8>
    decreases list.len(),
{
    if list.len() == 0 {
        Seq::empty()
    } else {
        texts(list.drop_last()) + text(list.last())
    }
}

/// A record of four numbers, of which the second takes one byte.
pub open spec fn record(record: (u64, u8, u32, u32)) -> Seq<u8> {
    varint(record.0 as nat) + seq![record.1] + varint(record.2 as nat) + varint(record.3 as nat)
}

/// Records, one after the other.
pub open spec fn records(list: Seq<(u64, u8, u32, u32)>) -> Seq<u8>
    decreases list.len(),
{
    if list.len() == 0 {
        Seq::empty()
    } else {
        records(list.drop_last()) + record(list.last())
    }
}

} // verus!
