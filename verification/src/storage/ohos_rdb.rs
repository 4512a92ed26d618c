//! What the platform's relational store answers, and how values are bound and read.
use vstd::prelude::*;
use vstd::string::StringExecFns;
use vstd::utf8;

use crate::storage::blob_text;
use crate::storage::blob_text::ColumnKind;
use crate::storage::sql;
use crate::storage::sql::{SqlValue, ValueView};
use crate::text;

verus! {

/// The status of a call that succeeded.
pub const RDB_OK: i32 = 0;

/// The status of moving a cursor past its last row.
pub const RDB_E_STEP_RESULT_IS_AFTER_LAST: i32 = 14_800_026;

/// How a column says that it holds nothing, a number, a text or bytes.
pub const NULL_COLUMN_TYPE: i32 = 0;

pub const INT64_COLUMN_TYPE: i32 = 1;

pub const TEXT_COLUMN_TYPE: i32 = 3;

pub const BLOB_COLUMN_TYPE: i32 = 4;

#[derive(Debug)]
pub enum OhosRdbError {
    NullHandle(String),
    MissingMethod(String),
    Api { context: String, code: i32 },
}

pub enum RdbErrorView {
    NullHandle(Seq<char>),
    MissingMethod(Seq<char>),
    Api { context: Seq<char>, code: i32 },
}

impl DeepView for OhosRdbError {
    type V = RdbErrorView;

    open spec fn deep_view(&self) -> RdbErrorView {
        match *self {
            OhosRdbError::NullHandle(context) => RdbErrorView::NullHandle(context@),
            OhosRdbError::MissingMethod(name) => RdbErrorView::MissingMethod(name@),
            OhosRdbError::Api { context, code } => RdbErrorView::Api { context: context@, code },
        }
    }
}

/// What an error says.
pub open spec fn message_of(error: RdbErrorView) -> Seq<char> {
    match error {
        RdbErrorView::NullHandle(context) => context + " returned a null handle"@,
        RdbErrorView::MissingMethod(name) => "missing OHOS RDB method pointer: "@ + name,
        RdbErrorView::Api { context, code } => context + " failed with status "@
            + sql::signed_digits(code as int),
    }
}

impl OhosRdbError {
    /// What the error says.
    pub fn message(&self) -> (r: String)
        ensures
            r@ == message_of(self.deep_view()),
    {
        match self {
            OhosRdbError::NullHandle(context) => context.clone().concat(" returned a null handle"),
            OhosRdbError::MissingMethod(name) => "missing OHOS RDB method pointer: ".to_owned().concat(
                name.as_str(),
            ),
            OhosRdbError::Api { context, code } => context.clone().concat(
                " failed with status ",
            ).concat(sql::render_signed(*code).as_str()),
        }
    }
}

pub open spec fn is_api_error(error: OhosRdbError, context: Seq<char>, code: int) -> bool {
    error.deep_view() == (RdbErrorView::Api { context, code: code as i32 })
}

/// Whether a call succeeded, by its status.
pub fn ensure_success(status: i32, context: &str) -> (r: Result<(), OhosRdbError>)
    ensures
        r is Ok <==> status == RDB_OK,
        r matches Err(e) ==> is_api_error(e, context@, status as int),
{
    if status == RDB_OK {
        Ok(())
    } else {
        Err(OhosRdbError::Api { context: context.to_owned(), code: status })
    }
}

/// A handle, unless it is null.
pub fn into_handle(raw: usize, context: &str) -> (r: Result<usize, OhosRdbError>)
    ensures
        r is Ok <==> raw != 0,
        r matches Ok(handle) ==> handle == raw,
        r matches Err(e) ==> e.deep_view() == RdbErrorView::NullHandle(context@),
{
    if raw != 0 {
        Ok(raw)
    } else {
        Err(OhosRdbError::NullHandle(context.to_owned()))
    }
}

/// Whether a cursor stands on a row after it was moved on, by the status of the move.
pub fn next_row(status: i32) -> (r: Result<bool, OhosRdbError>)
    ensures
        r is Ok <==> status == RDB_OK || status == RDB_E_STEP_RESULT_IS_AFTER_LAST,
        r matches Ok(on_row) ==> on_row == (status == RDB_OK),
        r matches Err(e) ==> is_api_error(e, "OH_Cursor_GoToNextRow"@, status as int),
{
    if status == RDB_OK {
        Ok(true)
    } else if status == RDB_E_STEP_RESULT_IS_AFTER_LAST {
        Ok(false)
    } else {
        Err(OhosRdbError::Api { context: "OH_Cursor_GoToNextRow".to_owned(), code: status })
    }
}

/// What ending a transaction comes to. That the handle could not be destroyed afterwards
/// is no failure.
pub fn finish(action_status: i32, _destroy_status: i32, context: &str) -> (r: Result<
    (),
    OhosRdbError,
>)
    ensures
        r is Ok <==> action_status == RDB_OK,
        r matches Err(e) ==> is_api_error(e, context@, action_status as int),
{
    ensure_success(action_status, context)
}

/// How the text of a column is read.
#[derive(Clone, Copy, Debug, PartialEq, Eq, Structural)]
pub enum TextRead {
    /// There is none.
    Null,
    /// It is empty, and nothing is read.
    Empty,
    /// As bytes, into a buffer of a length.
    Blob(usize),
    /// As text, into a buffer of a length, with room for the zero byte that ends it.
    Text(usize),
}

/// How the text of a column is read, by what the cursor says of it.
pub open spec fn text_read(is_null: bool, column_type: i32, size: int) -> TextRead {
    if is_null {
        TextRead::Null
    } else if size == 0 {
        TextRead::Empty
    } else if column_type == BLOB_COLUMN_TYPE {
        TextRead::Blob(size as usize)
    } else {
        TextRead::Text((size + 1) as usize)
    }
}

/// Decide how the text of a column is read.
pub fn plan_text(is_null: bool, column_type: i32, size: usize) -> (r: TextRead)
    requires
        size < usize::MAX,
    ensures
        r == text_read(is_null, column_type, size as int),
{
    if is_null {
        TextRead::Null
    } else if size == 0 {
        TextRead::Empty
    } else if column_type == BLOB_COLUMN_TYPE {
        TextRead::Blob(size)
    } else {
        TextRead::Text(size + 1)
    }
}

/// Whether a text is what was read of a column.
pub open spec fn is_column_text(read: TextRead, buffer: Seq<u8>, r: Option<Seq<char>>) -> bool {
    match read {
        TextRead::Null => r is None,
        TextRead::Empty => r == Some(Seq::<char>::empty()),
        TextRead::Blob(size) => r is Some && blob_text::is_decoded(
            r->0,
            blob_text::column_bytes(ColumnKind::Blob, size as int, buffer),
        ),
        TextRead::Text(_) => r is Some && blob_text::is_decoded(
            r->0,
            blob_text::before_nul(buffer),
        ),
    }
}

/// The text of a column that was read into a buffer.
pub fn column_text(read: TextRead, buffer: &Vec<u8>) -> (r: Option<String>)
    requires
        read matches TextRead::Blob(size) ==> size <= buffer@.len(),
    ensures
        is_column_text(read, buffer@, r.deep_view()),
{
    match read {
        TextRead::Null => None,
        TextRead::Empty => Some(String::new()),
        TextRead::Blob(size) => Some(
            blob_text::decode_column(ColumnKind::Blob, size, buffer.as_slice()),
        ),
        TextRead::Text(size) => Some(
            blob_text::decode_column(ColumnKind::Text, size, buffer.as_slice()),
        ),
    }
}

/// A text that has to be there.
pub fn required_text(value: Option<String>, context: &str) -> (r: Result<String, OhosRdbError>)
    ensures
        match value {
            Some(s) => r matches Ok(t) && t@ == s@,
            None => r matches Err(e) && is_api_error(e, context@, -1),
        },
{
    match value {
        Some(s) => Ok(s),
        None => Err(OhosRdbError::Api { context: context.to_owned(), code: -1 }),
    }
}

pub open spec fn all_present(rows: Seq<Option<String>>) -> bool {
    forall|i: int| 0 <= i < rows.len() ==> #[trigger] rows[i] is Some
}

/// The texts of rows, each of which has to have one.
pub fn required_texts(rows: &Vec<Option<String>>) -> (r: Result<Vec<String>, OhosRdbError>)
    ensures
        r is Ok <==> all_present(rows@),
        r matches Ok(list) ==> list.deep_view() == Seq::new(rows@.len(), |i: int| (rows@[i]->0)@),
        r matches Err(e) ==> is_api_error(e, "OHOS RDB NULL text column"@, -1),
{
    let mut list: Vec<String> = Vec::new();
    let mut i: usize = 0;
    while i < rows.len()
        invariant
            i <= rows@.len(),
            list@.len() == i,
            forall|j: int|
                0 <= j < i ==> (#[trigger] rows@[j]) is Some && list@[j]@ == (rows@[j]->0)@,
        decreases rows@.len() - i,
    {
        match &rows[i] {
            Some(s) => list.push(s.clone()),
            None => {
                assert(rows@[i as int] is None);
                return Err(
                    OhosRdbError::Api {
                        context: "OHOS RDB NULL text column".to_owned(),
                        code: -1,
                    },
                );
            },
        }
        i += 1;
    }
    assert(list.deep_view() =~= Seq::new(rows@.len(), |i: int| (rows@[i]->0)@));
    Ok(list)
}

/// Values bound to a statement of the platform's store.
#[derive(Debug)]
pub struct OhosRdbValues {
    values: Vec<SqlValue>,
}

/// How a text is bound: as bytes if it holds a zero byte, which would end a text.
pub open spec fn bound_text(s: Seq<char>) -> ValueView {
    if utf8::encode_utf8(s).contains(0u8) {
        ValueView::Blob(utf8::encode_utf8(s))
    } else {
        ValueView::Text(s)
    }
}

/// The type that a column reports for a value.
pub open spec fn type_of(value: ValueView) -> i32 {
    match value {
        ValueView::Null => NULL_COLUMN_TYPE,
        ValueView::Int(_) => INT64_COLUMN_TYPE,
        ValueView::Text(_) => TEXT_COLUMN_TYPE,
        ValueView::Blob(_) => BLOB_COLUMN_TYPE,
    }
}

fn holds_nul(bytes: &[u8]) -> (r: bool)
    ensures
        r == bytes@.contains(0u8),
{
    let mut i: usize = 0;
    while i < bytes.len()
        invariant
            i <= bytes@.len(),
            forall|j: int| 0 <= j < i ==> #[trigger] bytes@[j] != 0u8,
        decreases bytes@.len() - i,
    {
        if bytes[i] == 0 {
            assert(bytes@[i as int] == 0u8);
            return true;
        }
        i += 1;
    }
    false
}

impl OhosRdbValues {
    pub closed spec fn view(&self) -> Seq<ValueView> {
        self.values.deep_view()
    }

    pub fn new() -> (r: OhosRdbValues)
        ensures
            r@ == Seq::<ValueView>::empty(),
    {
        OhosRdbValues { values: sql::no_values() }
    }

    fn push(&mut self, value: SqlValue)
        ensures
            final(self)@ == old(self)@.push(value.deep_view()),
    {
        let ghost before = self@;
        let ghost one = value.deep_view();
        self.values.push(value);
        assert(self@ =~= before.push(one));
    }

    pub fn push_null(&mut self)
        ensures
            final(self)@ == old(self)@.push(ValueView::Null),
    {
        self.push(SqlValue::Null)
    }

    pub fn push_int(&mut self, value: i64)
        ensures
            final(self)@ == old(self)@.push(ValueView::Int(value)),
    {
        self.push(SqlValue::Int(value))
    }

    /// Bind a text. A text that holds a zero byte is bound as bytes.
    pub fn push_text(&mut self, value: &str)
        ensures
            final(self)@ == old(self)@.push(bound_text(value@)),
    {
        let bytes: &[u8] = value.as_bytes();
        if holds_nul(bytes) {
            let copy: Vec<u8> = text::copy_bytes(bytes);
            self.push(SqlValue::Blob(copy))
        } else {
            self.push(SqlValue::Text(value.to_owned()))
        }
    }

    pub fn push_blob(&mut self, value: &[u8])
        ensures
            final(self)@ == old(self)@.push(ValueView::Blob(value@)),
    {
        let copy: Vec<u8> = text::copy_bytes(value);
        self.push(SqlValue::Blob(copy))
    }

    pub fn count(&self) -> (r: usize)
        ensures
            r == self@.len(),
    {
        self.values.len()
    }

    /// The value at an index, as it is bound.
    pub fn value(&self, index: usize) -> (r: &SqlValue)
        requires
            index < self@.len(),
        ensures
            r.deep_view() == self@[index as int],
    {
        &self.values[index]
    }

    pub fn is_null(&self, index: usize) -> (r: bool)
        requires
            index < self@.len(),
        ensures
            r == (self@[index as int] == ValueView::Null),
    {
        matches!(self.values[index], SqlValue::Null)
    }

    /// The number at an index, if there is one.
    pub fn int64(&self, index: usize) -> (r: Option<i64>)
        requires
            index < self@.len(),
        ensures
            r == match self@[index as int] {
                ValueView::Int(n) => Some(n),
                _ => None,
            },
    {
        match &self.values[index] {
            SqlValue::Int(n) => Some(*n),
            _ => None,
        }
    }

    /// The text at an index, if there is one; bytes are read as text.
    pub fn text(&self, index: usize) -> (r: Option<String>)
        requires
            index < self@.len(),
        ensures
            match self@[index as int] {
                ValueView::Text(s) => r matches Some(t) && t@ == s,
                ValueView::Blob(b) => r matches Some(t) && blob_text::is_decoded(t@, b),
                _ => r is None,
            },
    {
        match &self.values[index] {
            SqlValue::Text(s) => Some(s.clone()),
            SqlValue::Blob(b) => {
                assert(b@.take(b@.len() as int) =~= b@);
                Some(blob_text::decode_column(ColumnKind::Blob, b.len(), b.as_slice()))
            },
            _ => None,
        }
    }

    /// The type that a column reports for the value at an index.
    pub fn column_type(&self, index: usize) -> (r: i32)
        requires
            index < self@.len(),
        ensures
            r == type_of(self@[index as int]),
    {
        match &self.values[index] {
            SqlValue::Null => NULL_COLUMN_TYPE,
            SqlValue::Int(_) => INT64_COLUMN_TYPE,
            SqlValue::Text(_) => TEXT_COLUMN_TYPE,
            SqlValue::Blob(_) => BLOB_COLUMN_TYPE,
        }
    }
}

/// The bytes that a column hands out for a value: those of a blob, or those of a text and
/// the zero byte that ends it.
pub open spec fn handed_out(value: ValueView) -> Seq<u8> {
    match value {
        ValueView::Blob(b) => b,
        ValueView::Text(s) => utf8::encode_utf8(s).push(0u8),
        _ => Seq::empty(),
    }
}

/// How many bytes a column says a value takes.
pub open spec fn reported_size(value: ValueView) -> nat {
    match value {
        ValueView::Blob(b) => b.len(),
        ValueView::Text(s) => utf8::encode_utf8(s).len(),
        _ => 0,
    }
}

/// A text that was bound is read back from the column that it was stored in, with its zero
/// bytes, if it holds any.
pub proof fn law_bound_text_reads_back(value: Seq<char>, r: Option<Seq<char>>)
    requires
        reported_size(bound_text(value)) < usize::MAX,
        is_column_text(
            text_read(
                false,
                type_of(bound_text(value)),
                reported_size(bound_text(value)) as int,
            ),
            handed_out(bound_text(value)),
            r,
        ),
    ensures
        r == Some(value),
{
    let bytes = utf8::encode_utf8(value);
    utf8::encode_utf8_valid_utf8(value);
    utf8::encode_utf8_decode_utf8(value);
    if bytes.len() == 0 {
        assert(bytes =~= Seq::empty());
        assert(value =~= Seq::empty());
    } else if bytes.contains(0u8) {
        assert(bytes + Seq::<u8>::empty() =~= bytes);
        blob_text::law_blob_reads_back(value, Seq::empty(), r->0);
    } else {
        assert(bytes.push(0u8) + Seq::<u8>::empty() =~= bytes.push(0u8));
        blob_text::law_text_reads_back(value, Seq::empty(), r->0);
    }
}

/// What went wrong is told with where it did, and with the status where there is one.
pub proof fn law_error_messages(context: Seq<char>, code: i32)
    ensures
        context.is_prefix_of(message_of(RdbErrorView::NullHandle(context))),
        context.is_suffix_of(message_of(RdbErrorView::MissingMethod(context))),
        context.is_prefix_of(message_of(RdbErrorView::Api { context, code })),
        sql::signed_digits(code as int).is_suffix_of(
            message_of(RdbErrorView::Api { context, code }),
        ),
{
    let null = message_of(RdbErrorView::NullHandle(context));
    let missing = message_of(RdbErrorView::MissingMethod(context));
    let api = message_of(RdbErrorView::Api { context, code });
    let status = sql::signed_digits(code as int);
    assert(null.take(context.len() as int) =~= context);
    assert(missing.skip(missing.len() - context.len()) =~= context);
    assert(api.take(context.len() as int) =~= context);
    assert(api.skip(api.len() - status.len()) =~= status);
}

/// A text is bound as text unless it holds a zero byte, which would end it: then its bytes are
/// bound.
pub proof fn law_bound_text(value: Seq<char>)
    ensures
        bound_text(value) matches ValueView::Text(s) ==> s == value && !utf8::encode_utf8(
            value,
        ).contains(0u8),
        bound_text(value) matches ValueView::Blob(b) ==> b == utf8::encode_utf8(value)
            && b.contains(0u8),
        bound_text(value) is Text || bound_text(value) is Blob,
{
}

/// How a column is read: not at all where it is null or empty, as bytes where it is a blob, and
/// else as text, with room for the byte that ends it.
pub proof fn law_text_is_read(is_null: bool, column_type: i32, size: usize)
    requires
        size < usize::MAX,
    ensures
        is_null <==> text_read(is_null, column_type, size as int) is Null,
        !is_null && size == 0 <==> text_read(is_null, column_type, size as int) is Empty,
        text_read(is_null, column_type, size as int) matches TextRead::Blob(n) ==> n == size && n > 0
            && column_type == type_of(ValueView::Blob(seq![])),
        text_read(is_null, column_type, size as int) matches TextRead::Text(n) ==> n == size + 1
            && column_type != type_of(ValueView::Blob(seq![])),
{
}

} // verus!
