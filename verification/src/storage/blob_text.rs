//! How a text column of the platform's relational store is decoded.
use vstd::prelude::*;
use vstd::utf8;

use crate::text;

verus! {

/// How a column is kept.
#[derive(Clone, Copy, Debug, PartialEq, Eq, Structural)]
pub enum ColumnKind {
    Blob,
    Text,
}

/// The text that bytes stand for where a byte sequence that is no UTF-8 is replaced.
pub uninterp spec fn lossy(bytes: Seq<u8>) -> Seq<char>;

/// `String::from_utf8_lossy` of std gives the text that the bytes encode, where they are
/// UTF-8. What it replaces other bytes by depends on the bytes alone, and is left open.
#[verifier::external_body]
fn text_of_bytes(bytes: &[u8]) -> (r: String)
    ensures
        r@ == lossy(bytes@),
        utf8::valid_utf8(bytes@) ==> r@ == utf8::decode_utf8(bytes@),
{
    String::from_utf8_lossy(bytes).into_owned()
}

/// The bytes before the first zero byte, or all of them if there is none.
pub open spec fn before_nul(bytes: Seq<u8>) -> Seq<u8> {
    bytes.take(text::find(bytes, 0) as int)
}

/// The bytes of a column that its text is made of.
pub open spec fn column_bytes(kind: ColumnKind, size: int, raw: Seq<u8>) -> Seq<u8> {
    match kind {
        ColumnKind::Blob => raw.take(size),
        ColumnKind::Text => before_nul(raw),
    }
}

/// Whether a text is what a column holds: the text its bytes encode, or what stands for
/// them where they are no UTF-8.
pub open spec fn is_decoded(r: Seq<char>, bytes: Seq<u8>) -> bool {
    &&& r == lossy(bytes)
    &&& utf8::valid_utf8(bytes) ==> r == utf8::decode_utf8(bytes)
}

/// The text in a buffer up to the first zero byte.
pub fn read_buffer_as_string(buffer: &[u8]) -> (r: String)
    ensures
        is_decoded(r@, before_nul(buffer@)),
{
    let len: usize = text::position(buffer, 0);
    let part: Vec<u8> = text::copy_range(buffer, 0, len);
    proof {
        assert(part@ =~= before_nul(buffer@));
    }
    text_of_bytes(part.as_slice())
}

/// The text of a column that was read into a buffer. A blob is as long as it says; a text
/// ends at a zero byte.
pub fn decode_column(column_kind: ColumnKind, size: usize, raw: &[u8]) -> (r: String)
    requires
        column_kind == ColumnKind::Blob ==> size <= raw@.len(),
    ensures
        is_decoded(r@, column_bytes(column_kind, size as int, raw@)),
{
    match column_kind {
        ColumnKind::Blob => {
            let part: Vec<u8> = text::copy_range(raw, 0, size);
            proof {
                assert(part@ =~= raw@.take(size as int));
            }
            text_of_bytes(part.as_slice())
        },
        ColumnKind::Text => read_buffer_as_string(raw),
    }
}

/// A text that was written as a blob is read back, also where it holds zero bytes, and
/// whatever follows it in the buffer.
pub proof fn law_blob_reads_back(value: Seq<char>, rest: Seq<u8>, r: Seq<char>)
    requires
        is_decoded(
            r,
            column_bytes(
                ColumnKind::Blob,
                utf8::encode_utf8(value).len() as int,
                utf8::encode_utf8(value) + rest,
            ),
        ),
    ensures
        r == value,
{
    let bytes = utf8::encode_utf8(value);
    assert((bytes + rest).take(bytes.len() as int) =~= bytes);
    utf8::encode_utf8_valid_utf8(value);
    utf8::encode_utf8_decode_utf8(value);
}

/// A text without zero bytes that was written as text is read back, whatever follows the
/// zero byte that ends it.
pub proof fn law_text_reads_back(value: Seq<char>, rest: Seq<u8>, r: Seq<char>)
    requires
        !utf8::encode_utf8(value).contains(0u8),
        is_decoded(
            r,
            column_bytes(
                ColumnKind::Text,
                utf8::encode_utf8(value).len() as int,
                utf8::encode_utf8(value).push(0u8) + rest,
            ),
        ),
    ensures
        r == value,
{
    let bytes = utf8::encode_utf8(value);
    let raw = bytes.push(0u8) + rest;
    assert forall|i: int| 0 <= i < bytes.len() implies raw[i] != 0u8 by {
        assert(bytes.contains(bytes[i]));
    }
    text::lemma_find_is(raw, 0u8, bytes.len() as int);
    assert(before_nul(raw) =~= bytes);
    utf8::encode_utf8_valid_utf8(value);
    utf8::encode_utf8_decode_utf8(value);
}

} // verus!
