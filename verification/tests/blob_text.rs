//! Decoding the columns of the platform's relational store.
use browser_core::storage::blob_text::{decode_column, read_buffer_as_string, ColumnKind};

#[test]
fn decode_column_blob_preserves_interior_nul() {
    assert_eq!(
        decode_column(ColumnKind::Blob, 3, b"a\0b"),
        String::from("a\0b")
    );
}

#[test]
fn decode_column_blob_ignores_overallocated_buffer() {
    let bytes = b"a\0bXYZ";

    assert_eq!(
        decode_column(ColumnKind::Blob, 3, bytes),
        String::from("a\0b")
    );
}

#[test]
fn decode_column_text_trims_trailing_nul() {
    assert_eq!(
        decode_column(ColumnKind::Text, 4, b"name\0junk"),
        String::from("name")
    );
}

#[test]
fn text_without_a_terminator_is_read_whole() {
    assert_eq!(read_buffer_as_string(b"name"), String::from("name"));
    assert_eq!(read_buffer_as_string(b""), String::new());
}

#[test]
fn bytes_that_are_no_text_are_replaced() {
    assert_eq!(
        decode_column(ColumnKind::Blob, 3, &[b'a', 0xff, b'b']),
        String::from("a\u{fffd}b")
    );
    assert_eq!(
        decode_column(ColumnKind::Blob, 2, "\u{e9}".as_bytes()),
        String::from("\u{e9}")
    );
}
