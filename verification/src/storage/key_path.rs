//! Key paths: where the key of an item stands in its value.
use vstd::prelude::*;

use crate::layout;
use crate::storage::sql;
use crate::storage::sql::StorageError;

verus! {

/// Where the key of an item stands in its value.
#[derive(Debug)]
pub enum KeyPath {
    String(String),
    Sequence(Vec<String>),
}

pub enum KeyPathView {
    Single(Seq<char>),
    Sequence(Seq<Seq<char>>),
}

impl DeepView for KeyPath {
    type V = KeyPathView;

    open spec fn deep_view(&self) -> KeyPathView {
        match *self {
            KeyPath::String(s) => KeyPathView::Single(s@),
            KeyPath::Sequence(list) => KeyPathView::Sequence(list.deep_view()),
        }
    }
}

#[verifier::external_type_specification]
#[verifier::external_body]
pub struct ExPostcardError(postcard::Error);

/// The key path that a plain value stands for.
pub open spec fn plain_path(value: Result<String, Vec<String>>) -> KeyPathView {
    match value {
        Ok(s) => KeyPathView::Single(s@),
        Err(list) => KeyPathView::Sequence(list.deep_view()),
    }
}

/// The bytes of a key path: which of the two forms it has, and the texts.
pub open spec fn key_path_bytes(key_path: KeyPathView) -> Seq<u8> {
    match key_path {
        KeyPathView::Single(s) => seq![0u8] + layout::text(s),
        KeyPathView::Sequence(list) => seq![1u8] + layout::varint(list.len()) + layout::texts(list),
    }
}

/// The key path that `postcard` reads out of bytes.
pub uninterp spec fn key_path_in(data: Seq<u8>) -> Option<KeyPathView>;

/// `postcard::to_stdvec` writes one of two forms, and does not fail on texts. The bytes
/// are read back as the same value.
#[verifier::external_body]
fn write_forms(value: &Result<String, Vec<String>>) -> (r: Result<Vec<u8>, postcard::Error>)
    ensures
        r is Ok,
        r matches Ok(data) ==> data@ == key_path_bytes(plain_path(*value)),
        r matches Ok(data) ==> key_path_in(data@) == Some(plain_path(*value)),
{
    postcard::to_stdvec(value)
}

/// `postcard::from_bytes` reads one of two forms.
#[verifier::external_body]
fn read_forms(data: &[u8]) -> (r: Result<Result<String, Vec<String>>, postcard::Error>)
    ensures
        r is Ok == key_path_in(data@) is Some,
        r matches Ok(value) ==> key_path_in(data@) == Some(plain_path(value)),
{
    postcard::from_bytes(data)
}

/// The bytes that a key path is stored as. They are read back as the same key path.
pub fn encode_key_path(key_path: &KeyPath) -> (r: Result<Vec<u8>, StorageError>)
    ensures
        r matches Ok(data) && data@ == key_path_bytes(key_path.deep_view()),
        r matches Ok(data) && key_path_in(data@) == Some(key_path.deep_view()),
{
    let value: Result<String, Vec<String>> = match key_path {
        KeyPath::String(s) => Ok(s.clone()),
        KeyPath::Sequence(list) => Err(sql::copy_texts(list)),
    };
    match write_forms(&value) {
        Ok(data) => Ok(data),
        Err(_) => Err(StorageError::KeyPath),
    }
}

/// The key path that bytes hold.
pub fn decode_key_path(data: &[u8]) -> (r: Result<KeyPath, StorageError>)
    ensures
        match key_path_in(data@) {
            Some(key_path) => r matches Ok(k) && k.deep_view() == key_path,
            None => r matches Err(e) && e == StorageError::KeyPath,
        },
{
    match read_forms(data) {
        Ok(Ok(s)) => Ok(KeyPath::String(s)),
        Ok(Err(list)) => Ok(KeyPath::Sequence(list)),
        Err(_) => Err(StorageError::KeyPath),
    }
}

} // verus!
