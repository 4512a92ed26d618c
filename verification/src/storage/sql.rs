//! What is asked of a relational database, and how an operation goes on from the replies.
use vstd::prelude::*;
use vstd::string::StringExecFns;

verus! {

/// A value bound to a statement.
#[derive(Debug)]
pub enum SqlValue {
    Null,
    Int(i64),
    Text(String),
    Blob(Vec<u8>),
}

pub enum ValueView {
    Null,
    Int(i64),
    Text(Seq<char>),
    Blob(Seq<u8>),
}

impl DeepView for SqlValue {
    type V = ValueView;

    open spec fn deep_view(&self) -> ValueView {
        match *self {
            SqlValue::Null => ValueView::Null,
            SqlValue::Int(n) => ValueView::Int(n),
            SqlValue::Text(s) => ValueView::Text(s@),
            SqlValue::Blob(b) => ValueView::Blob(b@),
        }
    }
}

/// A statement with the values bound to it.
#[derive(Debug)]
pub struct Statement {
    pub sql: String,
    pub values: Vec<SqlValue>,
}

pub struct StatementView {
    pub sql: Seq<char>,
    pub values: Seq<ValueView>,
}

impl DeepView for Statement {
    type V = StatementView;

    open spec fn deep_view(&self) -> StatementView {
        StatementView { sql: self.sql@, values: self.values.deep_view() }
    }
}

/// Something that an operation asks for.
#[derive(Debug)]
pub enum Request {
    Execute(Statement),
    /// The first column of the first row, as a number.
    QueryI64(Statement),
    /// The first column of the first row, as a text.
    QueryText(Statement),
    /// The first column of the first row, as bytes.
    QueryBlob(Statement),
    /// The first column of every row, as texts.
    ListText(Statement),
    /// The first two columns of every row, as texts.
    ListPairs(Statement),
    Commit,
    CreateDirectory(String),
    RemoveDirectory(String),
    /// How many bytes the files under each of the directories take.
    DirectorySizes(Vec<String>),
}

pub enum RequestView {
    Execute(StatementView),
    QueryI64(StatementView),
    QueryText(StatementView),
    QueryBlob(StatementView),
    ListText(StatementView),
    ListPairs(StatementView),
    Commit,
    CreateDirectory(Seq<char>),
    RemoveDirectory(Seq<char>),
    DirectorySizes(Seq<Seq<char>>),
}

impl DeepView for Request {
    type V = RequestView;

    open spec fn deep_view(&self) -> RequestView {
        match *self {
            Request::Execute(s) => RequestView::Execute(s.deep_view()),
            Request::QueryI64(s) => RequestView::QueryI64(s.deep_view()),
            Request::QueryText(s) => RequestView::QueryText(s.deep_view()),
            Request::QueryBlob(s) => RequestView::QueryBlob(s.deep_view()),
            Request::ListText(s) => RequestView::ListText(s.deep_view()),
            Request::ListPairs(s) => RequestView::ListPairs(s.deep_view()),
            Request::Commit => RequestView::Commit,
            Request::CreateDirectory(path) => RequestView::CreateDirectory(path@),
            Request::RemoveDirectory(path) => RequestView::RemoveDirectory(path@),
            Request::DirectorySizes(paths) => RequestView::DirectorySizes(paths.deep_view()),
        }
    }
}

/// What came back for a request.
#[derive(Debug)]
pub enum Reply {
    Failed,
    Done,
    Int(Option<i64>),
    Text(Option<String>),
    Blob(Option<Vec<u8>>),
    Texts(Vec<String>),
    Pairs(Vec<(Option<String>, Option<String>)>),
    Sizes(Vec<u64>),
}

pub enum ReplyView {
    Failed,
    Done,
    Int(Option<i64>),
    Text(Option<Seq<char>>),
    Blob(Option<Seq<u8>>),
    Texts(Seq<Seq<char>>),
    Pairs(Seq<(Option<Seq<char>>, Option<Seq<char>>)>),
    Sizes(Seq<u64>),
}

pub open spec fn blob_view(blob: Option<Vec<u8>>) -> Option<Seq<u8>> {
    match blob {
        Some(b) => Some(b@),
        None => None,
    }
}

impl DeepView for Reply {
    type V = ReplyView;

    open spec fn deep_view(&self) -> ReplyView {
        match *self {
            Reply::Failed => ReplyView::Failed,
            Reply::Done => ReplyView::Done,
            Reply::Int(n) => ReplyView::Int(n),
            Reply::Text(s) => ReplyView::Text(s.deep_view()),
            Reply::Blob(b) => ReplyView::Blob(blob_view(b)),
            Reply::Texts(list) => ReplyView::Texts(list.deep_view()),
            Reply::Pairs(list) => ReplyView::Pairs(list.deep_view()),
            Reply::Sizes(list) => ReplyView::Sizes(list@),
        }
    }
}

/// Why an operation did not succeed.
#[derive(Debug)]
pub enum StorageError {
    /// A request failed.
    Backend,
    /// A row or a column that has to be there is not; what it was looked up for.
    MissingRow(String),
    OpaqueOrigin,
    /// A stored key path could not be read.
    KeyPath,
    SessionStorageRequiresWindow,
    DatabaseDoesNotExist,
    DirectoryCreationFailed,
    DirectoryDeletionFailed,
    /// The sizes of all directories do not fit into a number.
    UsageTooLarge,
}

pub enum ErrorView {
    Backend,
    MissingRow(Seq<char>),
    OpaqueOrigin,
    KeyPath,
    SessionStorageRequiresWindow,
    DatabaseDoesNotExist,
    DirectoryCreationFailed,
    DirectoryDeletionFailed,
    UsageTooLarge,
}

impl DeepView for StorageError {
    type V = ErrorView;

    open spec fn deep_view(&self) -> ErrorView {
        match *self {
            StorageError::Backend => ErrorView::Backend,
            StorageError::MissingRow(context) => ErrorView::MissingRow(context@),
            StorageError::OpaqueOrigin => ErrorView::OpaqueOrigin,
            StorageError::KeyPath => ErrorView::KeyPath,
            StorageError::SessionStorageRequiresWindow => ErrorView::SessionStorageRequiresWindow,
            StorageError::DatabaseDoesNotExist => ErrorView::DatabaseDoesNotExist,
            StorageError::DirectoryCreationFailed => ErrorView::DirectoryCreationFailed,
            StorageError::DirectoryDeletionFailed => ErrorView::DirectoryDeletionFailed,
            StorageError::UsageTooLarge => ErrorView::UsageTooLarge,
        }
    }
}

/// Where an operation stands, after the replies that it was given.
#[derive(Debug)]
pub enum Run<R> {
    /// It waits for the reply to a request.
    Ask(Request),
    /// It failed, having used the replies before an index.
    Stop(StorageError, usize),
    /// It came to a result, having used the replies before an index.
    Got(R, usize),
}

pub enum RunView<V> {
    Ask(RequestView),
    Stop(ErrorView, int),
    Got(V, int),
}

impl<R: DeepView> DeepView for Run<R> {
    type V = RunView<R::V>;

    open spec fn deep_view(&self) -> RunView<R::V> {
        match *self {
            Run::Ask(request) => RunView::Ask(request.deep_view()),
            Run::Stop(error, next) => RunView::Stop(error.deep_view(), next as int),
            Run::Got(value, next) => RunView::Got(value.deep_view(), next as int),
        }
    }
}

/// How an operation goes on once a part of it has come to a result.
pub open spec fn and_then<A, B>(
    run: RunView<A>,
    rest: spec_fn(A, int) -> RunView<B>,
) -> RunView<B> {
    match run {
        RunView::Ask(request) => RunView::Ask(request),
        RunView::Stop(error, next) => RunView::Stop(error, next),
        RunView::Got(value, next) => rest(value, next),
    }
}

/// What becomes of an operation at a request that is to be carried out.
pub open spec fn done(replies: Seq<ReplyView>, at: int, request: RequestView) -> RunView<()> {
    if at >= replies.len() {
        RunView::Ask(request)
    } else {
        match replies[at] {
            ReplyView::Done => RunView::Got((), at + 1),
            _ => RunView::Stop(ErrorView::Backend, at + 1),
        }
    }
}

/// What becomes of an operation at a request for a number.
pub open spec fn number(replies: Seq<ReplyView>, at: int, request: RequestView) -> RunView<Option<i64>> {
    if at >= replies.len() {
        RunView::Ask(request)
    } else {
        match replies[at] {
            ReplyView::Int(n) => RunView::Got(n, at + 1),
            _ => RunView::Stop(ErrorView::Backend, at + 1),
        }
    }
}

/// What becomes of an operation at a request for a number that has to be there.
pub open spec fn required_number(
    replies: Seq<ReplyView>,
    at: int,
    request: RequestView,
    context: Seq<char>,
) -> RunView<i64> {
    and_then(
        number(replies, at, request),
        |n: Option<i64>, next: int|
            match n {
                Some(n) => RunView::Got(n, next),
                None => RunView::Stop(ErrorView::MissingRow(context), next),
            },
    )
}

/// What becomes of an operation at a request for a text.
pub open spec fn text(
    replies: Seq<ReplyView>,
    at: int,
    request: RequestView,
) -> RunView<Option<Seq<char>>> {
    if at >= replies.len() {
        RunView::Ask(request)
    } else {
        match replies[at] {
            ReplyView::Text(s) => RunView::Got(s, at + 1),
            _ => RunView::Stop(ErrorView::Backend, at + 1),
        }
    }
}

/// What becomes of an operation at a request for a text that has to be there.
pub open spec fn required_text(
    replies: Seq<ReplyView>,
    at: int,
    request: RequestView,
    context: Seq<char>,
) -> RunView<Seq<char>> {
    and_then(
        text(replies, at, request),
        |s: Option<Seq<char>>, next: int|
            match s {
                Some(s) => RunView::Got(s, next),
                None => RunView::Stop(ErrorView::MissingRow(context), next),
            },
    )
}

/// What becomes of an operation at a request for bytes.
pub open spec fn blob(
    replies: Seq<ReplyView>,
    at: int,
    request: RequestView,
) -> RunView<Option<Seq<u8>>> {
    if at >= replies.len() {
        RunView::Ask(request)
    } else {
        match replies[at] {
            ReplyView::Blob(b) => RunView::Got(b, at + 1),
            _ => RunView::Stop(ErrorView::Backend, at + 1),
        }
    }
}

/// What becomes of an operation at a request for texts.
pub open spec fn texts(
    replies: Seq<ReplyView>,
    at: int,
    request: RequestView,
) -> RunView<Seq<Seq<char>>> {
    if at >= replies.len() {
        RunView::Ask(request)
    } else {
        match replies[at] {
            ReplyView::Texts(list) => RunView::Got(list, at + 1),
            _ => RunView::Stop(ErrorView::Backend, at + 1),
        }
    }
}

/// A statement with its values.
pub open spec fn statement_view(sql: Seq<char>, values: Seq<ValueView>) -> StatementView {
    StatementView { sql, values }
}

/// One value.
pub open spec fn one(a: ValueView) -> Seq<ValueView> {
    Seq::empty().push(a)
}

/// Two values.
pub open spec fn two(a: ValueView, b: ValueView) -> Seq<ValueView> {
    one(a).push(b)
}

/// Three values.
pub open spec fn three(a: ValueView, b: ValueView, c: ValueView) -> Seq<ValueView> {
    two(a, b).push(c)
}

/// A request to carry a statement out.
pub open spec fn execute_view(sql: Seq<char>, values: Seq<ValueView>) -> RequestView {
    RequestView::Execute(StatementView { sql, values })
}

/// A request for a number.
pub open spec fn query_view(sql: Seq<char>, values: Seq<ValueView>) -> RequestView {
    RequestView::QueryI64(StatementView { sql, values })
}

pub fn no_values() -> (r: Vec<SqlValue>)
    ensures
        r.deep_view() == Seq::<ValueView>::empty(),
{
    let r: Vec<SqlValue> = Vec::new();
    assert(r.deep_view() =~= Seq::<ValueView>::empty());
    r
}

/// The values with one more.
pub fn with(values: Vec<SqlValue>, value: SqlValue) -> (r: Vec<SqlValue>)
    ensures
        r.deep_view() == values.deep_view().push(value.deep_view()),
{
    let mut r: Vec<SqlValue> = values;
    r.push(value);
    assert(r.deep_view() =~= values.deep_view().push(value.deep_view()));
    r
}

pub fn with_int(values: Vec<SqlValue>, n: i64) -> (r: Vec<SqlValue>)
    ensures
        r.deep_view() == values.deep_view().push(ValueView::Int(n)),
{
    with(values, SqlValue::Int(n))
}

pub fn with_text(values: Vec<SqlValue>, s: &str) -> (r: Vec<SqlValue>)
    ensures
        r.deep_view() == values.deep_view().push(ValueView::Text(s@)),
{
    with(values, SqlValue::Text(s.to_owned()))
}

pub fn with_blob(values: Vec<SqlValue>, b: &Vec<u8>) -> (r: Vec<SqlValue>)
    ensures
        r.deep_view() == values.deep_view().push(ValueView::Blob(b@)),
{
    with(values, SqlValue::Blob(crate::text::copy_bytes(b.as_slice())))
}

/// What becomes of an operation at statements that are to be carried out one after the
/// other.
pub open spec fn all_done(
    replies: Seq<ReplyView>,
    at: int,
    statements: Seq<StatementView>,
) -> RunView<()>
    decreases statements.len(),
{
    if statements.len() == 0 {
        RunView::Got((), at)
    } else {
        match done(replies, at, RequestView::Execute(statements[0])) {
            RunView::Got(_, next) => all_done(replies, next, statements.skip(1)),
            other => other,
        }
    }
}

/// Carrying statements out uses replies in order.
pub(crate) proof fn lemma_all_done_advances(
    replies: Seq<ReplyView>,
    at: int,
    statements: Seq<StatementView>,
)
    ensures
        all_done(replies, at, statements) matches RunView::Got(_, next) ==> at <= next,
    decreases statements.len(),
{
    if statements.len() > 0 {
        match done(replies, at, RequestView::Execute(statements[0])) {
            RunView::Got(_, next) => lemma_all_done_advances(replies, next, statements.skip(1)),
            _ => {},
        }
    }
}

fn copy_value(value: &SqlValue) -> (r: SqlValue)
    ensures
        r.deep_view() == value.deep_view(),
{
    match value {
        SqlValue::Null => SqlValue::Null,
        SqlValue::Int(n) => SqlValue::Int(*n),
        SqlValue::Text(s) => SqlValue::Text(s.clone()),
        SqlValue::Blob(b) => SqlValue::Blob(crate::text::copy_bytes(b.as_slice())),
    }
}

fn copy_values(values: &Vec<SqlValue>) -> (r: Vec<SqlValue>)
    ensures
        r.deep_view() == values.deep_view(),
{
    let mut r: Vec<SqlValue> = Vec::new();
    let mut i: usize = 0;
    while i < values.len()
        invariant
            i <= values@.len(),
            r@.len() == i,
            forall|j: int| 0 <= j < i ==> (#[trigger] r@[j]).deep_view() == values@[j].deep_view(),
        decreases values@.len() - i,
    {
        r.push(copy_value(&values[i]));
        i += 1;
    }
    assert(r.deep_view() =~= values.deep_view());
    r
}

/// Go on where statements were carried out one after the other.
pub fn execute_all(replies: &Vec<Reply>, at: usize, statements: &Vec<Statement>) -> (r: Run<()>)
    requires
        at <= replies@.len(),
    ensures
        r.deep_view() == all_done(replies.deep_view(), at as int, statements.deep_view()),
        r matches Run::Got(_, next) ==> next <= replies@.len(),
        r matches Run::Stop(_, next) ==> next <= replies@.len(),
{
    let ghost list = statements.deep_view();
    let mut next: usize = at;
    let mut i: usize = 0;
    assert(list.skip(0) =~= list);
    while i < statements.len()
        invariant
            i <= statements@.len(),
            list == statements.deep_view(),
            next <= replies@.len(),
            all_done(replies.deep_view(), at as int, list) == all_done(
                replies.deep_view(),
                next as int,
                list.skip(i as int),
            ),
        decreases statements@.len() - i,
    {
        let one: Statement = Statement {
            sql: statements[i].sql.clone(),
            values: copy_values(&statements[i].values),
        };
        assert(list.skip(i as int)[0] == statements@[i as int].deep_view());
        assert(list.skip(i as int).skip(1) =~= list.skip(i + 1));
        match ask(replies, next, Request::Execute(one)) {
            Run::Got(_, after) => {
                next = after;
            },
            other => {
                return other;
            },
        }
        i += 1;
    }
    Run::Got((), next)
}

/// The statements with one more.
pub fn with_statement(statements: Vec<Statement>, statement: Statement) -> (r: Vec<Statement>)
    ensures
        r.deep_view() == statements.deep_view().push(statement.deep_view()),
{
    let mut r: Vec<Statement> = statements;
    r.push(statement);
    assert(r.deep_view() =~= statements.deep_view().push(statement.deep_view()));
    r
}

pub fn no_statements() -> (r: Vec<Statement>)
    ensures
        r.deep_view() == Seq::<StatementView>::empty(),
{
    let r: Vec<Statement> = Vec::new();
    assert(r.deep_view() =~= Seq::<StatementView>::empty());
    r
}

pub open spec fn optional_text(value: Option<Seq<char>>) -> ValueView {
    match value {
        Some(s) => ValueView::Text(s),
        None => ValueView::Null,
    }
}

/// The values with a text or, without one, null.
pub fn bind_optional_text(values: Vec<SqlValue>, value: Option<&str>) -> (r: Vec<SqlValue>)
    ensures
        r.deep_view() == values.deep_view().push(
            optional_text(
                match value {
                    Some(s) => Some(s@),
                    None => None,
                },
            ),
        ),
{
    match value {
        Some(s) => with_text(values, s),
        None => with(values, SqlValue::Null),
    }
}

pub fn statement(sql: &str, values: Vec<SqlValue>) -> (r: Statement)
    ensures
        r.deep_view() == statement_view(sql@, values.deep_view()),
{
    Statement { sql: sql.to_owned(), values }
}

/// Go on where a request was carried out.
pub fn ask(replies: &Vec<Reply>, at: usize, request: Request) -> (r: Run<()>)
    requires
        at <= replies@.len(),
    ensures
        r.deep_view() == done(replies.deep_view(), at as int, request.deep_view()),
        r matches Run::Got(_, next) ==> next <= replies@.len(),
        r matches Run::Stop(_, next) ==> next <= replies@.len(),
{
    if at >= replies.len() {
        return Run::Ask(request);
    }
    assert(replies.deep_view()[at as int] == replies@[at as int].deep_view());
    match &replies[at] {
        Reply::Done => Run::Got((), at + 1),
        _ => Run::Stop(StorageError::Backend, at + 1),
    }
}

/// Go on where a statement was carried out.
pub fn execute(replies: &Vec<Reply>, at: usize, sql: &str, values: Vec<SqlValue>) -> (r: Run<()>)
    requires
        at <= replies@.len(),
    ensures
        r.deep_view() == done(
            replies.deep_view(),
            at as int,
            execute_view(sql@, values.deep_view()),
        ),
        r matches Run::Got(_, next) ==> next <= replies@.len(),
        r matches Run::Stop(_, next) ==> next <= replies@.len(),
{
    ask(replies, at, Request::Execute(statement(sql, values)))
}

/// Go on where a number was asked for.
pub fn query_optional_i64(
    replies: &Vec<Reply>,
    at: usize,
    sql: &str,
    values: Vec<SqlValue>,
) -> (r: Run<Option<i64>>)
    requires
        at <= replies@.len(),
    ensures
        r.deep_view() == number(replies.deep_view(), at as int, query_view(sql@, values.deep_view())),
        r matches Run::Got(_, next) ==> next <= replies@.len(),
        r matches Run::Stop(_, next) ==> next <= replies@.len(),
{
    if at >= replies.len() {
        return Run::Ask(Request::QueryI64(statement(sql, values)));
    }
    assert(replies.deep_view()[at as int] == replies@[at as int].deep_view());
    match &replies[at] {
        Reply::Int(n) => Run::Got(*n, at + 1),
        _ => Run::Stop(StorageError::Backend, at + 1),
    }
}

/// Go on where a number was asked for that has to be there.
pub fn query_required_i64(
    replies: &Vec<Reply>,
    at: usize,
    sql: &str,
    values: Vec<SqlValue>,
    context: &str,
) -> (r: Run<i64>)
    requires
        at <= replies@.len(),
    ensures
        r.deep_view() == required_number(
            replies.deep_view(),
            at as int,
            query_view(sql@, values.deep_view()),
            context@,
        ),
        r matches Run::Got(_, next) ==> next <= replies@.len(),
        r matches Run::Stop(_, next) ==> next <= replies@.len(),
{
    match query_optional_i64(replies, at, sql, values) {
        Run::Ask(request) => Run::Ask(request),
        Run::Stop(error, next) => Run::Stop(error, next),
        Run::Got(Some(n), next) => Run::Got(n, next),
        Run::Got(None, next) => Run::Stop(StorageError::MissingRow(context.to_owned()), next),
    }
}

/// Go on where a text was asked for.
pub fn query_optional_text(
    replies: &Vec<Reply>,
    at: usize,
    sql: &str,
    values: Vec<SqlValue>,
) -> (r: Run<Option<String>>)
    requires
        at <= replies@.len(),
    ensures
        r.deep_view() == text(
            replies.deep_view(),
            at as int,
            RequestView::QueryText(statement_view(sql@, values.deep_view())),
        ),
        r matches Run::Got(_, next) ==> next <= replies@.len(),
        r matches Run::Stop(_, next) ==> next <= replies@.len(),
{
    if at >= replies.len() {
        return Run::Ask(Request::QueryText(statement(sql, values)));
    }
    assert(replies.deep_view()[at as int] == replies@[at as int].deep_view());
    match &replies[at] {
        Reply::Text(Some(s)) => Run::Got(Some(s.clone()), at + 1),
        Reply::Text(None) => Run::Got(None, at + 1),
        _ => Run::Stop(StorageError::Backend, at + 1),
    }
}

/// Go on where a text was asked for that has to be there.
pub fn query_required_text(
    replies: &Vec<Reply>,
    at: usize,
    sql: &str,
    values: Vec<SqlValue>,
    context: &str,
) -> (r: Run<String>)
    requires
        at <= replies@.len(),
    ensures
        r.deep_view() == required_text(
            replies.deep_view(),
            at as int,
            RequestView::QueryText(statement_view(sql@, values.deep_view())),
            context@,
        ),
        r matches Run::Got(_, next) ==> next <= replies@.len(),
        r matches Run::Stop(_, next) ==> next <= replies@.len(),
{
    match query_optional_text(replies, at, sql, values) {
        Run::Ask(request) => Run::Ask(request),
        Run::Stop(error, next) => Run::Stop(error, next),
        Run::Got(Some(s), next) => Run::Got(s, next),
        Run::Got(None, next) => Run::Stop(StorageError::MissingRow(context.to_owned()), next),
    }
}

/// Bytes that a request for bytes came to, if any.
#[derive(Debug)]
pub struct MaybeBlob(pub Option<Vec<u8>>);

impl DeepView for MaybeBlob {
    type V = Option<Seq<u8>>;

    open spec fn deep_view(&self) -> Option<Seq<u8>> {
        blob_view(self.0)
    }
}

/// Go on where bytes were asked for.
pub fn query_optional_blob(
    replies: &Vec<Reply>,
    at: usize,
    sql: &str,
    values: Vec<SqlValue>,
) -> (r: Run<MaybeBlob>)
    requires
        at <= replies@.len(),
    ensures
        r.deep_view() == blob(
            replies.deep_view(),
            at as int,
            RequestView::QueryBlob(statement_view(sql@, values.deep_view())),
        ),
        r matches Run::Got(_, next) ==> next <= replies@.len(),
        r matches Run::Stop(_, next) ==> next <= replies@.len(),
{
    if at >= replies.len() {
        return Run::Ask(Request::QueryBlob(statement(sql, values)));
    }
    assert(replies.deep_view()[at as int] == replies@[at as int].deep_view());
    match &replies[at] {
        Reply::Blob(Some(b)) => Run::Got(
            MaybeBlob(Some(crate::text::copy_bytes(b.as_slice()))),
            at + 1,
        ),
        Reply::Blob(None) => Run::Got(MaybeBlob(None), at + 1),
        _ => Run::Stop(StorageError::Backend, at + 1),
    }
}

pub fn copy_texts(list: &Vec<String>) -> (r: Vec<String>)
    ensures
        r.deep_view() == list.deep_view(),
{
    let mut r: Vec<String> = Vec::new();
    let mut i: usize = 0;
    while i < list.len()
        invariant
            i <= list@.len(),
            r@.len() == i,
            forall|j: int| 0 <= j < i ==> (#[trigger] r@[j])@ == list@[j]@,
        decreases list@.len() - i,
    {
        r.push(list[i].clone());
        i += 1;
    }
    assert(r.deep_view() =~= list.deep_view());
    r
}

/// Go on where texts were asked for.
pub fn list_text(
    replies: &Vec<Reply>,
    at: usize,
    sql: &str,
    values: Vec<SqlValue>,
) -> (r: Run<Vec<String>>)
    requires
        at <= replies@.len(),
    ensures
        r.deep_view() == texts(
            replies.deep_view(),
            at as int,
            RequestView::ListText(statement_view(sql@, values.deep_view())),
        ),
        r matches Run::Got(_, next) ==> next <= replies@.len(),
        r matches Run::Stop(_, next) ==> next <= replies@.len(),
{
    if at >= replies.len() {
        return Run::Ask(Request::ListText(statement(sql, values)));
    }
    assert(replies.deep_view()[at as int] == replies@[at as int].deep_view());
    match &replies[at] {
        Reply::Texts(list) => Run::Got(copy_texts(list), at + 1),
        _ => Run::Stop(StorageError::Backend, at + 1),
    }
}

/// A number in decimal digits.
pub open spec fn digits(n: nat) -> Seq<char>
    decreases n,
{
    if n < 10 {
        seq![digit(n)]
    } else {
        digits(n / 10).push(digit(n % 10))
    }
}

pub open spec fn digit(n: nat) -> char {
    if n == 0 {
        '0'
    } else if n == 1 {
        '1'
    } else if n == 2 {
        '2'
    } else if n == 3 {
        '3'
    } else if n == 4 {
        '4'
    } else if n == 5 {
        '5'
    } else if n == 6 {
        '6'
    } else if n == 7 {
        '7'
    } else if n == 8 {
        '8'
    } else {
        '9'
    }
}

fn digit_text(n: usize) -> (r: &'static str)
    requires
        n < 10,
    ensures
        r@ == seq![digit(n as nat)],
{
    proof {
        reveal_strlit("0");
        reveal_strlit("1");
        reveal_strlit("2");
        reveal_strlit("3");
        reveal_strlit("4");
        reveal_strlit("5");
        reveal_strlit("6");
        reveal_strlit("7");
        reveal_strlit("8");
        reveal_strlit("9");
    }
    let r: &'static str = match n {
        0 => "0",
        1 => "1",
        2 => "2",
        3 => "3",
        4 => "4",
        5 => "5",
        6 => "6",
        7 => "7",
        8 => "8",
        _ => "9",
    };
    assert(r@ =~= seq![digit(n as nat)]);
    r
}

/// A number in decimal digits, with a sign if it is negative.
pub open spec fn signed_digits(n: int) -> Seq<char> {
    if n < 0 {
        "-"@ + digits((-n) as nat)
    } else {
        digits(n as nat)
    }
}

/// A number written out in decimal digits, with a sign if it is negative.
pub fn render_signed(n: i32) -> (r: String)
    ensures
        r@ == signed_digits(n as int),
{
    if n < 0 {
        let magnitude: i64 = -(n as i64);
        "-".to_owned().concat(render(magnitude as usize).as_str())
    } else {
        render(n as usize)
    }
}

/// A number written out in decimal digits.
pub fn render(n: usize) -> (r: String)
    ensures
        r@ == digits(n as nat),
    decreases n,
{
    if n < 10 {
        digit_text(n).to_owned()
    } else {
        let mut r: String = render(n / 10);
        let ghost before = r@;
        r.append(digit_text(n % 10));
        assert(r@ =~= before.push(digit((n % 10) as nat)));
        r
    }
}

} // verus!
