//! The shelves, buckets and bottles of client storage.
use vstd::prelude::*;

use crate::storage::condition;
use crate::storage::sql;
use crate::storage::sql::{Reply, ReplyView, Request, RequestView, Run, RunView, SqlValue, Statement, StatementView, StorageError, ErrorView, ValueView};

verus! {

/// How many bytes an origin may keep.
pub const STORAGE_SHELF_QUOTA_BYTES: u64 = 10 * 1024 * 1024 * 1024;

#[derive(Clone, Copy, Debug, PartialEq, Eq, Structural)]
pub enum StorageType {
    Local,
    Session,
}

pub open spec fn type_text(storage_type: StorageType) -> Seq<char> {
    match storage_type {
        StorageType::Local => "local"@,
        StorageType::Session => "session"@,
    }
}

impl StorageType {
    pub fn as_str(&self) -> (r: &'static str)
        ensures
            r@ == type_text(*self),
    {
        match self {
            StorageType::Local => "local",
            StorageType::Session => "session",
        }
    }
}

/// Whether a bucket may be dropped to make room.
#[derive(Clone, Copy, Debug, PartialEq, Eq, Structural)]
pub enum Mode {
    BestEffort,
    Persistent,
}

impl Default for Mode {
    fn default() -> (r: Mode)
        ensures
            r == Mode::BestEffort,
    {
        Mode::BestEffort
    }
}

pub open spec fn mode_text(mode: Mode) -> Seq<char> {
    match mode {
        Mode::BestEffort => "best-effort"@,
        Mode::Persistent => "persistent"@,
    }
}

/// The mode that a text names.
pub open spec fn mode_named(s: Seq<char>) -> Option<Mode> {
    if s == mode_text(Mode::BestEffort) {
        Some(Mode::BestEffort)
    } else if s == mode_text(Mode::Persistent) {
        Some(Mode::Persistent)
    } else {
        None
    }
}

impl Mode {
    pub fn as_str(&self) -> (r: &'static str)
        ensures
            r@ == mode_text(*self),
    {
        match self {
            Mode::BestEffort => "best-effort",
            Mode::Persistent => "persistent",
        }
    }

    /// The mode that a text names.
    pub fn parse(s: &String) -> (r: Option<Mode>)
        ensures
            r == mode_named(s@),
    {
        if *s == "best-effort".to_owned() {
            Some(Mode::BestEffort)
        } else if *s == "persistent".to_owned() {
            Some(Mode::Persistent)
        } else {
            None
        }
    }
}

/// A mode is read back from the text that stands for it.
pub proof fn law_mode_reads_back(mode: Mode)
    ensures
        mode_named(mode_text(mode)) == Some(mode),
{
    reveal_strlit("best-effort");
    reveal_strlit("persistent");
    assert("best-effort"@[0] != "persistent"@[0]);
}

/// What a bottle is for.
#[derive(Clone, Copy, Debug, PartialEq, Eq, Structural)]
pub enum StorageIdentifier {
    Caches,
    IndexedDB,
    LocalStorage,
    ServiceWorkerRegistrations,
    SessionStorage,
}

pub open spec fn identifier_text(identifier: StorageIdentifier) -> Seq<char> {
    match identifier {
        StorageIdentifier::Caches => "caches"@,
        StorageIdentifier::IndexedDB => "indexedDB"@,
        StorageIdentifier::LocalStorage => "localStorage"@,
        StorageIdentifier::ServiceWorkerRegistrations => "serviceWorkerRegistrations"@,
        StorageIdentifier::SessionStorage => "sessionStorage"@,
    }
}

impl StorageIdentifier {
    pub fn as_str(&self) -> (r: &'static str)
        ensures
            r@ == identifier_text(*self),
    {
        match self {
            StorageIdentifier::Caches => "caches",
            StorageIdentifier::IndexedDB => "indexedDB",
            StorageIdentifier::LocalStorage => "localStorage",
            StorageIdentifier::ServiceWorkerRegistrations => "serviceWorkerRegistrations",
            StorageIdentifier::SessionStorage => "sessionStorage",
        }
    }
}

/// What the bottles of a fresh bucket are for.
pub open spec fn endpoints(storage_type: StorageType) -> Seq<StorageIdentifier> {
    match storage_type {
        StorageType::Local => seq![
            StorageIdentifier::Caches,
            StorageIdentifier::IndexedDB,
            StorageIdentifier::LocalStorage,
            StorageIdentifier::ServiceWorkerRegistrations,
        ],
        StorageType::Session => seq![StorageIdentifier::SessionStorage],
    }
}

#[derive(Clone, Copy, Debug, PartialEq, Eq, Structural)]
pub struct StorageShelf {
    pub default_bucket_id: i64,
}

impl DeepView for StorageShelf {
    type V = StorageShelf;

    open spec fn deep_view(&self) -> StorageShelf {
        *self
    }
}

impl DeepView for Mode {
    type V = Mode;

    open spec fn deep_view(&self) -> Mode {
        *self
    }
}

/// Where the creation of a missing shed stands, and the number of the shed in the end. The
/// user agent has one local shed; each browsing context has its own.
pub open spec fn shed(
    storage_type: StorageType,
    browsing_context: Option<Seq<char>>,
    replies: Seq<ReplyView>,
    at: int,
) -> RunView<i64> {
    match browsing_context {
        Some(context) => {
            let values = sql::two(
                ValueView::Text(type_text(storage_type)),
                ValueView::Text(context),
            );
            sql::and_then(
                sql::done(
                    replies,
                    at,
                    sql::execute_view(
                        "INSERT INTO sheds (storage_type, browsing_context) VALUES (?1, ?2) ON CONFLICT DO NOTHING;"@,
                        values,
                    ),
                ),
                |_u: (), next: int|
                    sql::required_number(
                        replies,
                        next,
                        sql::query_view(
                            "SELECT id FROM sheds WHERE storage_type = ?1 AND browsing_context = ?2;"@,
                            values,
                        ),
                        "storage shed lookup"@,
                    ),
            )
        },
        None => {
            let values = sql::one(ValueView::Text(type_text(storage_type)));
            sql::and_then(
                sql::done(
                    replies,
                    at,
                    sql::execute_view(
                        "INSERT INTO sheds (storage_type, browsing_context) VALUES (?1, NULL) ON CONFLICT DO NOTHING;"@,
                        values,
                    ),
                ),
                |_u: (), next: int|
                    sql::required_number(
                        replies,
                        next,
                        sql::query_view(
                            "SELECT id FROM sheds WHERE storage_type = ?1 AND browsing_context IS NULL;"@,
                            values,
                        ),
                        "storage shed lookup"@,
                    ),
            )
        },
    }
}

pub open spec fn text_view(s: Option<String>) -> Option<Seq<char>> {
    match s {
        Some(s) => Some(s@),
        None => None,
    }
}

/// Find the number of a shed, creating the shed if it is missing.
pub fn ensure_storage_shed(
    storage_type: StorageType,
    browsing_context: &Option<String>,
    replies: &Vec<Reply>,
    at: usize,
) -> (r: Run<i64>)
    requires
        at <= replies@.len(),
    ensures
        r.deep_view() == shed(
            storage_type,
            text_view(*browsing_context),
            replies.deep_view(),
            at as int,
        ),
        r matches Run::Got(_, next) ==> next <= replies@.len(),
        r matches Run::Stop(_, next) ==> next <= replies@.len(),
{
    match browsing_context {
        Some(context) => {
            let values: Vec<SqlValue> = sql::bind_optional_text(
                sql::with_text(sql::no_values(), storage_type.as_str()),
                Some(context.as_str()),
            );
            let next: usize = match sql::execute(
                replies,
                at,
                "INSERT INTO sheds (storage_type, browsing_context) VALUES (?1, ?2) ON CONFLICT DO NOTHING;",
                values,
            ) {
                Run::Ask(request) => return Run::Ask(request),
                Run::Stop(error, next) => return Run::Stop(error, next),
                Run::Got(_, next) => next,
            };
            let values: Vec<SqlValue> = sql::bind_optional_text(
                sql::with_text(sql::no_values(), storage_type.as_str()),
                Some(context.as_str()),
            );
            sql::query_required_i64(
                replies,
                next,
                "SELECT id FROM sheds WHERE storage_type = ?1 AND browsing_context = ?2;",
                values,
                "storage shed lookup",
            )
        },
        None => {
            let next: usize = match sql::execute(
                replies,
                at,
                "INSERT INTO sheds (storage_type, browsing_context) VALUES (?1, NULL) ON CONFLICT DO NOTHING;",
                sql::with_text(sql::no_values(), storage_type.as_str()),
            ) {
                Run::Ask(request) => return Run::Ask(request),
                Run::Stop(error, next) => return Run::Stop(error, next),
                Run::Got(_, next) => next,
            };
            sql::query_required_i64(
                replies,
                next,
                "SELECT id FROM sheds WHERE storage_type = ?1 AND browsing_context IS NULL;",
                sql::with_text(sql::no_values(), storage_type.as_str()),
                "storage shed lookup",
            )
        },
    }
}

/// The statement that makes a bottle of a bucket.
pub open spec fn bottle_statement(bucket_id: i64, identifier: StorageIdentifier) -> StatementView {
    sql::statement_view(
        "INSERT INTO bottles (bucket_id, identifier) VALUES (?1, ?2) ON CONFLICT(bucket_id, identifier) DO NOTHING;"@,
        sql::two(ValueView::Int(bucket_id), ValueView::Text(identifier_text(identifier))),
    )
}

/// The statements that make the bottles of a bucket.
pub open spec fn bottle_statements(
    bucket_id: i64,
    identifiers: Seq<StorageIdentifier>,
) -> Seq<StatementView> {
    Seq::new(identifiers.len(), |i: int| bottle_statement(bucket_id, identifiers[i]))
}

/// The statement that makes the default bucket of a shelf. Only a local one has a mode.
pub open spec fn bucket_statement(shelf_id: i64, storage_type: StorageType) -> RequestView {
    match storage_type {
        StorageType::Local => sql::execute_view(
            "INSERT INTO buckets (mode, shelf_id) VALUES (?1, ?2) ON CONFLICT(shelf_id) DO NOTHING;"@,
            sql::two(ValueView::Text(mode_text(Mode::BestEffort)), ValueView::Int(shelf_id)),
        ),
        StorageType::Session => sql::execute_view(
            "INSERT INTO buckets (shelf_id) VALUES (?1) ON CONFLICT(shelf_id) DO NOTHING;"@,
            sql::one(ValueView::Int(shelf_id)),
        ),
    }
}

/// Where the creation of the default bucket of a shelf stands, with its bottles.
pub open spec fn bucket(
    shelf_id: i64,
    storage_type: StorageType,
    replies: Seq<ReplyView>,
    at: int,
) -> RunView<i64> {
    sql::and_then(
        sql::done(replies, at, bucket_statement(shelf_id, storage_type)),
        |_u: (), next: int|
            sql::and_then(
                sql::required_number(
                    replies,
                    next,
                    sql::query_view(
                        "SELECT id FROM buckets WHERE shelf_id = ?1;"@,
                        sql::one(ValueView::Int(shelf_id)),
                    ),
                    "bucket lookup"@,
                ),
                |bucket_id: i64, next: int|
                    sql::and_then(
                        sql::all_done(
                            replies,
                            next,
                            bottle_statements(bucket_id, endpoints(storage_type)),
                        ),
                        |_u: (), next: int| RunView::Got(bucket_id, next),
                    ),
            ),
    )
}

fn bottles(bucket_id: i64, storage_type: StorageType) -> (r: Vec<Statement>)
    ensures
        r.deep_view() == bottle_statements(bucket_id, endpoints(storage_type)),
{
    let identifiers: Vec<StorageIdentifier> = match storage_type {
        StorageType::Local => vec![
            StorageIdentifier::Caches,
            StorageIdentifier::IndexedDB,
            StorageIdentifier::LocalStorage,
            StorageIdentifier::ServiceWorkerRegistrations,
        ],
        StorageType::Session => vec![StorageIdentifier::SessionStorage],
    };
    assert(identifiers@ =~= endpoints(storage_type));
    let mut r: Vec<Statement> = sql::no_statements();
    let mut i: usize = 0;
    while i < identifiers.len()
        invariant
            i <= identifiers@.len(),
            r.deep_view() =~= bottle_statements(bucket_id, identifiers@.take(i as int)),
        decreases identifiers@.len() - i,
    {
        let statement: Statement = sql::statement(
            "INSERT INTO bottles (bucket_id, identifier) VALUES (?1, ?2) ON CONFLICT(bucket_id, identifier) DO NOTHING;",
            sql::with_text(
                sql::with_int(sql::no_values(), bucket_id),
                identifiers[i].as_str(),
            ),
        );
        r = sql::with_statement(r, statement);
        assert(identifiers@.take(i + 1) =~= identifiers@.take(i as int).push(
            identifiers@[i as int],
        ));
        i += 1;
    }
    assert(identifiers@.take(i as int) =~= identifiers@);
    r
}

/// Find the number of the default bucket of a shelf, creating the bucket and its bottles
/// if they are missing.
pub fn create_a_storage_bucket(
    shelf_id: i64,
    storage_type: StorageType,
    replies: &Vec<Reply>,
    at: usize,
) -> (r: Run<i64>)
    requires
        at <= replies@.len(),
    ensures
        r.deep_view() == bucket(shelf_id, storage_type, replies.deep_view(), at as int),
        r matches Run::Got(_, next) ==> next <= replies@.len(),
        r matches Run::Stop(_, next) ==> next <= replies@.len(),
{
    let made: Run<()> = match storage_type {
        StorageType::Local => sql::execute(
            replies,
            at,
            "INSERT INTO buckets (mode, shelf_id) VALUES (?1, ?2) ON CONFLICT(shelf_id) DO NOTHING;",
            sql::with_int(
                sql::with_text(sql::no_values(), Mode::default().as_str()),
                shelf_id,
            ),
        ),
        StorageType::Session => sql::execute(
            replies,
            at,
            "INSERT INTO buckets (shelf_id) VALUES (?1) ON CONFLICT(shelf_id) DO NOTHING;",
            sql::with_int(sql::no_values(), shelf_id),
        ),
    };
    let next: usize = match made {
        Run::Ask(request) => return Run::Ask(request),
        Run::Stop(error, next) => return Run::Stop(error, next),
        Run::Got(_, next) => next,
    };
    let (bucket_id, next): (i64, usize) = match sql::query_required_i64(
        replies,
        next,
        "SELECT id FROM buckets WHERE shelf_id = ?1;",
        sql::with_int(sql::no_values(), shelf_id),
        "bucket lookup",
    ) {
        Run::Ask(request) => return Run::Ask(request),
        Run::Stop(error, next) => return Run::Stop(error, next),
        Run::Got(bucket_id, next) => (bucket_id, next),
    };
    match sql::execute_all(replies, next, &bottles(bucket_id, storage_type)) {
        Run::Ask(request) => Run::Ask(request),
        Run::Stop(error, next) => Run::Stop(error, next),
        Run::Got(_, next) => Run::Got(bucket_id, next),
    }
}

/// Where the creation of a missing shelf stands, with its default bucket.
pub open spec fn shelf(
    shed: i64,
    origin: Seq<char>,
    storage_type: StorageType,
    replies: Seq<ReplyView>,
    at: int,
) -> RunView<StorageShelf> {
    let values = sql::two(ValueView::Int(shed), ValueView::Text(origin));
    sql::and_then(
        sql::done(
            replies,
            at,
            sql::execute_view(
                "INSERT INTO shelves (shed_id, origin) VALUES (?1, ?2) ON CONFLICT(shed_id, origin) DO NOTHING;"@,
                values,
            ),
        ),
        |_u: (), next: int|
            sql::and_then(
                sql::required_number(
                    replies,
                    next,
                    sql::query_view(
                        "SELECT id FROM shelves WHERE shed_id = ?1 AND origin = ?2;"@,
                        values,
                    ),
                    "storage shelf lookup"@,
                ),
                |shelf_id: i64, next: int|
                    sql::and_then(
                        bucket(shelf_id, storage_type, replies, next),
                        |bucket_id: i64, next: int|
                            RunView::Got(StorageShelf { default_bucket_id: bucket_id }, next),
                    ),
            ),
    )
}

/// Find the shelf of an origin in a shed, creating it if it is missing.
pub fn create_a_storage_shelf(
    shed: i64,
    origin: &str,
    storage_type: StorageType,
    replies: &Vec<Reply>,
    at: usize,
) -> (r: Run<StorageShelf>)
    requires
        at <= replies@.len(),
    ensures
        r.deep_view() == shelf(shed, origin@, storage_type, replies.deep_view(), at as int),
        r matches Run::Got(_, next) ==> next <= replies@.len(),
        r matches Run::Stop(_, next) ==> next <= replies@.len(),
{
    let next: usize = match sql::execute(
        replies,
        at,
        "INSERT INTO shelves (shed_id, origin) VALUES (?1, ?2) ON CONFLICT(shed_id, origin) DO NOTHING;",
        sql::with_text(sql::with_int(sql::no_values(), shed), origin),
    ) {
        Run::Ask(request) => return Run::Ask(request),
        Run::Stop(error, next) => return Run::Stop(error, next),
        Run::Got(_, next) => next,
    };
    let (shelf_id, next): (i64, usize) = match sql::query_required_i64(
        replies,
        next,
        "SELECT id FROM shelves WHERE shed_id = ?1 AND origin = ?2;",
        sql::with_text(sql::with_int(sql::no_values(), shed), origin),
        "storage shelf lookup",
    ) {
        Run::Ask(request) => return Run::Ask(request),
        Run::Stop(error, next) => return Run::Stop(error, next),
        Run::Got(shelf_id, next) => (shelf_id, next),
    };
    match create_a_storage_bucket(shelf_id, storage_type, replies, next) {
        Run::Ask(request) => Run::Ask(request),
        Run::Stop(error, next) => Run::Stop(error, next),
        Run::Got(bucket_id, next) => Run::Got(StorageShelf { default_bucket_id: bucket_id }, next),
    }
}

/// Find the shelf of an origin in a shed.
pub fn obtain_a_storage_shelf(
    shed: i64,
    origin: &str,
    storage_type: StorageType,
    replies: &Vec<Reply>,
    at: usize,
) -> (r: Run<StorageShelf>)
    requires
        at <= replies@.len(),
    ensures
        r.deep_view() == shelf(shed, origin@, storage_type, replies.deep_view(), at as int),
        r matches Run::Got(_, next) ==> next <= replies@.len(),
        r matches Run::Stop(_, next) ==> next <= replies@.len(),
{
    create_a_storage_shelf(shed, origin, storage_type, replies, at)
}

/// Where finding the local shelf of an origin stands. An opaque origin, which has no
/// serialization, has none.
pub open spec fn local_shelf(
    origin: Option<Seq<char>>,
    replies: Seq<ReplyView>,
    at: int,
) -> RunView<StorageShelf> {
    match origin {
        None => RunView::Stop(ErrorView::OpaqueOrigin, at),
        Some(origin) => sql::and_then(
            shed(StorageType::Local, None, replies, at),
            |shed_id: i64, next: int| shelf(shed_id, origin, StorageType::Local, replies, next),
        ),
    }
}

/// Finding the local shelf of an origin uses replies in order.
pub(crate) proof fn lemma_local_shelf_advances(
    origin: Option<Seq<char>>,
    replies: Seq<ReplyView>,
    at: int,
)
    ensures
        local_shelf(origin, replies, at) matches RunView::Got(_, next) ==> at <= next,
{
    match shed(StorageType::Local, None, replies, at) {
        RunView::Got(shed_id, next) => {
            let bottle_next = next + 4;
            match replies[next + 3] {
                ReplyView::Int(Some(bucket_id)) => {
                    sql::lemma_all_done_advances(
                        replies,
                        bottle_next,
                        bottle_statements(bucket_id, endpoints(StorageType::Local)),
                    );
                },
                _ => {},
            }
        },
        _ => {},
    }
}

/// Find the local shelf of an origin.
pub fn obtain_a_local_storage_shelf(
    origin: &Option<String>,
    replies: &Vec<Reply>,
    at: usize,
) -> (r: Run<StorageShelf>)
    requires
        at <= replies@.len(),
    ensures
        r.deep_view() == local_shelf(text_view(*origin), replies.deep_view(), at as int),
        r matches Run::Got(_, next) ==> next <= replies@.len(),
        r matches Run::Stop(_, next) ==> next <= replies@.len(),
{
    match origin {
        None => Run::Stop(StorageError::OpaqueOrigin, at),
        Some(origin) => match ensure_storage_shed(StorageType::Local, &None, replies, at) {
            Run::Ask(request) => Run::Ask(request),
            Run::Stop(error, next) => Run::Stop(error, next),
            Run::Got(shed, next) => obtain_a_storage_shelf(
                shed,
                origin.as_str(),
                StorageType::Local,
                replies,
                next,
            ),
        },
    }
}

/// Where reading the mode of a bucket stands.
pub open spec fn mode_of(bucket_id: i64, replies: Seq<ReplyView>, at: int) -> RunView<Mode> {
    sql::and_then(
        sql::required_text(
            replies,
            at,
            RequestView::QueryText(
                sql::statement_view(
                    "SELECT mode FROM buckets WHERE id = ?1;"@,
                    sql::one(ValueView::Int(bucket_id)),
                ),
            ),
            "bucket lookup"@,
        ),
        |s: Seq<char>, next: int|
            match mode_named(s) {
                Some(mode) => RunView::Got(mode, next),
                None => RunView::Stop(ErrorView::MissingRow("bucket mode parse"@), next),
            },
    )
}

/// Read the mode of a bucket.
pub fn bucket_mode(bucket_id: i64, replies: &Vec<Reply>, at: usize) -> (r: Run<Mode>)
    requires
        at <= replies@.len(),
    ensures
        r.deep_view() == mode_of(bucket_id, replies.deep_view(), at as int),
        r matches Run::Got(_, next) ==> next <= replies@.len(),
        r matches Run::Stop(_, next) ==> next <= replies@.len(),
{
    match sql::query_required_text(
        replies,
        at,
        "SELECT mode FROM buckets WHERE id = ?1;",
        sql::with_int(sql::no_values(), bucket_id),
        "bucket lookup",
    ) {
        Run::Ask(request) => Run::Ask(request),
        Run::Stop(error, next) => Run::Stop(error, next),
        Run::Got(s, next) => match Mode::parse(&s) {
            Some(mode) => Run::Got(mode, next),
            None => Run::Stop(StorageError::MissingRow("bucket mode parse".to_owned()), next),
        },
    }
}

/// The statement that sets the mode of a bucket.
pub open spec fn set_mode_statement(bucket_id: i64, mode: Mode) -> RequestView {
    sql::execute_view(
        "UPDATE buckets SET mode = ?1, persisted = ?2 WHERE id = ?3;"@,
        sql::three(
            ValueView::Text(mode_text(mode)),
            ValueView::Int(
                if mode == Mode::Persistent {
                    1
                } else {
                    0
                },
            ),
            ValueView::Int(bucket_id),
        ),
    )
}

/// Set the mode of a bucket.
pub fn set_bucket_mode(bucket_id: i64, mode: Mode, replies: &Vec<Reply>, at: usize) -> (r: Run<()>)
    requires
        at <= replies@.len(),
    ensures
        r.deep_view() == sql::done(
            replies.deep_view(),
            at as int,
            set_mode_statement(bucket_id, mode),
        ),
        r matches Run::Got(_, next) ==> next <= replies@.len(),
        r matches Run::Stop(_, next) ==> next <= replies@.len(),
{
    let persisted: i64 = if mode == Mode::Persistent {
        1
    } else {
        0
    };
    sql::execute(
        replies,
        at,
        "UPDATE buckets SET mode = ?1, persisted = ?2 WHERE id = ?3;",
        sql::with_int(
            sql::with_int(sql::with_text(sql::no_values(), mode.as_str()), persisted),
            bucket_id,
        ),
    )
}

pub open spec fn total(sizes: Seq<u64>) -> nat
    decreases sizes.len(),
{
    if sizes.len() == 0 {
        0
    } else {
        total(sizes.drop_last()) + sizes.last() as nat
    }
}

proof fn lemma_total_grows(sizes: Seq<u64>, i: int)
    requires
        0 <= i <= sizes.len(),
    ensures
        total(sizes.take(i)) <= total(sizes),
    decreases sizes.len() - i,
{
    if i < sizes.len() {
        assert(sizes.take(i + 1).drop_last() =~= sizes.take(i));
        lemma_total_grows(sizes, i + 1);
    } else {
        assert(sizes.take(i) =~= sizes);
    }
}

/// The sum of sizes, if it fits.
pub fn total_size(sizes: &Vec<u64>) -> (r: Option<u64>)
    ensures
        r == if total(sizes@) <= u64::MAX {
            Some(total(sizes@) as u64)
        } else {
            None
        },
{
    let mut sum: u64 = 0;
    let mut i: usize = 0;
    while i < sizes.len()
        invariant
            i <= sizes@.len(),
            sum == total(sizes@.take(i as int)),
        decreases sizes@.len() - i,
    {
        proof {
            assert(sizes@.take(i + 1).drop_last() =~= sizes@.take(i as int));
            lemma_total_grows(sizes@, i + 1);
        }
        match sum.checked_add(sizes[i]) {
            Some(next) => {
                sum = next;
            },
            None => return None,
        }
        i += 1;
    }
    assert(sizes@.take(i as int) =~= sizes@);
    Some(sum)
}

/// Where adding up what a bucket takes stands.
pub open spec fn usage(bucket_id: i64, replies: Seq<ReplyView>, at: int) -> RunView<u64> {
    sql::and_then(
        sql::texts(
            replies,
            at,
            RequestView::ListText(
                sql::statement_view(
                    "SELECT directories.path
         FROM directories
         JOIN databases ON directories.database_id = databases.id
         JOIN bottles ON databases.bottle_id = bottles.id
         WHERE bottles.bucket_id = ?1
         ORDER BY directories.id;"@,
                    sql::one(ValueView::Int(bucket_id)),
                ),
            ),
        ),
        |paths: Seq<Seq<char>>, next: int|
            if next >= replies.len() {
                RunView::Ask(RequestView::DirectorySizes(paths))
            } else {
                match replies[next] {
                    ReplyView::Sizes(sizes) => if total(sizes) <= u64::MAX {
                        RunView::Got(total(sizes) as u64, next + 1)
                    } else {
                        RunView::Stop(ErrorView::UsageTooLarge, next + 1)
                    },
                    _ => RunView::Stop(ErrorView::Backend, next + 1),
                }
            },
    )
}

/// Add up how many bytes the databases of a bucket take.
pub fn storage_usage_for_bucket(bucket_id: i64, replies: &Vec<Reply>, at: usize) -> (r: Run<u64>)
    requires
        at <= replies@.len(),
    ensures
        r.deep_view() == usage(bucket_id, replies.deep_view(), at as int),
        r matches Run::Got(_, next) ==> next <= replies@.len(),
        r matches Run::Stop(_, next) ==> next <= replies@.len(),
{
    match sql::list_text(
        replies,
        at,
        "SELECT directories.path
         FROM directories
         JOIN databases ON directories.database_id = databases.id
         JOIN bottles ON databases.bottle_id = bottles.id
         WHERE bottles.bucket_id = ?1
         ORDER BY directories.id;",
        sql::with_int(sql::no_values(), bucket_id),
    ) {
        Run::Ask(request) => Run::Ask(request),
        Run::Stop(error, next) => Run::Stop(error, next),
        Run::Got(paths, next) => {
            if next >= replies.len() {
                return Run::Ask(Request::DirectorySizes(paths));
            }
            assert(replies.deep_view()[next as int] == replies@[next as int].deep_view());
            match &replies[next] {
                Reply::Sizes(sizes) => match total_size(sizes) {
                    Some(sum) => Run::Got(sum, next + 1),
                    None => Run::Stop(StorageError::UsageTooLarge, next + 1),
                },
                _ => Run::Stop(StorageError::Backend, next + 1),
            }
        },
    }
}

/// How many bytes a bucket may take.
pub fn storage_quota_for_bucket(_bucket_id: i64) -> (r: u64)
    ensures
        r == STORAGE_SHELF_QUOTA_BYTES,
{
    STORAGE_SHELF_QUOTA_BYTES
}

proof fn lemma_shed_added(kind: ValueView, context: ValueView)
    ensures
        sql::statement_view("INSERT INTO sheds (storage_type, browsing_context) VALUES (?1, ?2) ON CONFLICT DO NOTHING;"@, sql::two(kind, context)) == condition::insertion("sheds"@, seq![("storage_type"@, kind), ("browsing_context"@, context)], " ON CONFLICT DO NOTHING;"@),
{
    reveal_strlit(")");
    reveal_strlit(" (");
    reveal_strlit("sheds");
    reveal_strlit(") VALUES (");
    reveal_strlit("INSERT INTO ");
    reveal_strlit("storage_type");
    reveal_strlit("browsing_context");
    reveal_strlit(" ON CONFLICT DO NOTHING;");
    reveal_strlit("INSERT INTO sheds (storage_type, browsing_context) VALUES (?1, ?2) ON CONFLICT DO NOTHING;");
    condition::lemma_two_cells(("storage_type"@, kind), ("browsing_context"@, context), 1, seq![]);
    assert("INSERT INTO sheds (storage_type, browsing_context) VALUES (?1, ?2) ON CONFLICT DO NOTHING;"@ =~= condition::insertion("sheds"@, seq![("storage_type"@, kind), ("browsing_context"@, context)], " ON CONFLICT DO NOTHING;"@).sql);
    assert(sql::two(kind, context) =~= condition::insertion("sheds"@, seq![("storage_type"@, kind), ("browsing_context"@, context)], " ON CONFLICT DO NOTHING;"@).values);
}

proof fn lemma_shed_read(kind: ValueView, context: ValueView)
    ensures
        sql::statement_view("SELECT id FROM sheds WHERE storage_type = ?1 AND browsing_context = ?2;"@, sql::two(kind, context)) == condition::reading("id"@, "sheds"@, seq![("storage_type"@, kind), ("browsing_context"@, context)], ";"@),
{
    reveal_strlit(";");
    reveal_strlit("id");
    reveal_strlit(" AND ");
    reveal_strlit("sheds");
    reveal_strlit(" FROM ");
    reveal_strlit(" WHERE ");
    reveal_strlit("SELECT ");
    reveal_strlit("storage_type");
    reveal_strlit("browsing_context");
    reveal_strlit("SELECT id FROM sheds WHERE storage_type = ?1 AND browsing_context = ?2;");
    condition::lemma_two_cells(("storage_type"@, kind), ("browsing_context"@, context), 1, " AND "@);
    assert("SELECT id FROM sheds WHERE storage_type = ?1 AND browsing_context = ?2;"@ =~= condition::reading("id"@, "sheds"@, seq![("storage_type"@, kind), ("browsing_context"@, context)], ";"@).sql);
    assert(sql::two(kind, context) =~= condition::reading("id"@, "sheds"@, seq![("storage_type"@, kind), ("browsing_context"@, context)], ";"@).values);
}

proof fn lemma_shelf_added(shed: ValueView, origin: ValueView)
    ensures
        sql::statement_view("INSERT INTO shelves (shed_id, origin) VALUES (?1, ?2) ON CONFLICT(shed_id, origin) DO NOTHING;"@, sql::two(shed, origin)) == condition::insertion("shelves"@, seq![("shed_id"@, shed), ("origin"@, origin)], " ON CONFLICT(shed_id, origin) DO NOTHING;"@),
{
    reveal_strlit(")");
    reveal_strlit(" (");
    reveal_strlit("origin");
    reveal_strlit("shed_id");
    reveal_strlit("shelves");
    reveal_strlit(") VALUES (");
    reveal_strlit("INSERT INTO ");
    reveal_strlit(" ON CONFLICT(shed_id, origin) DO NOTHING;");
    reveal_strlit("INSERT INTO shelves (shed_id, origin) VALUES (?1, ?2) ON CONFLICT(shed_id, origin) DO NOTHING;");
    condition::lemma_two_cells(("shed_id"@, shed), ("origin"@, origin), 1, seq![]);
    assert("INSERT INTO shelves (shed_id, origin) VALUES (?1, ?2) ON CONFLICT(shed_id, origin) DO NOTHING;"@ =~= condition::insertion("shelves"@, seq![("shed_id"@, shed), ("origin"@, origin)], " ON CONFLICT(shed_id, origin) DO NOTHING;"@).sql);
    assert(sql::two(shed, origin) =~= condition::insertion("shelves"@, seq![("shed_id"@, shed), ("origin"@, origin)], " ON CONFLICT(shed_id, origin) DO NOTHING;"@).values);
}

proof fn lemma_shelf_read(shed: ValueView, origin: ValueView)
    ensures
        sql::statement_view("SELECT id FROM shelves WHERE shed_id = ?1 AND origin = ?2;"@, sql::two(shed, origin)) == condition::reading("id"@, "shelves"@, seq![("shed_id"@, shed), ("origin"@, origin)], ";"@),
{
    reveal_strlit(";");
    reveal_strlit("id");
    reveal_strlit(" AND ");
    reveal_strlit(" FROM ");
    reveal_strlit("origin");
    reveal_strlit(" WHERE ");
    reveal_strlit("SELECT ");
    reveal_strlit("shed_id");
    reveal_strlit("shelves");
    reveal_strlit("SELECT id FROM shelves WHERE shed_id = ?1 AND origin = ?2;");
    condition::lemma_two_cells(("shed_id"@, shed), ("origin"@, origin), 1, " AND "@);
    assert("SELECT id FROM shelves WHERE shed_id = ?1 AND origin = ?2;"@ =~= condition::reading("id"@, "shelves"@, seq![("shed_id"@, shed), ("origin"@, origin)], ";"@).sql);
    assert(sql::two(shed, origin) =~= condition::reading("id"@, "shelves"@, seq![("shed_id"@, shed), ("origin"@, origin)], ";"@).values);
}

proof fn lemma_local_bucket_added(mode: ValueView, shelf: ValueView)
    ensures
        sql::statement_view("INSERT INTO buckets (mode, shelf_id) VALUES (?1, ?2) ON CONFLICT(shelf_id) DO NOTHING;"@, sql::two(mode, shelf)) == condition::insertion("buckets"@, seq![("mode"@, mode), ("shelf_id"@, shelf)], " ON CONFLICT(shelf_id) DO NOTHING;"@),
{
    reveal_strlit(")");
    reveal_strlit(" (");
    reveal_strlit("mode");
    reveal_strlit("buckets");
    reveal_strlit("shelf_id");
    reveal_strlit(") VALUES (");
    reveal_strlit("INSERT INTO ");
    reveal_strlit(" ON CONFLICT(shelf_id) DO NOTHING;");
    reveal_strlit("INSERT INTO buckets (mode, shelf_id) VALUES (?1, ?2) ON CONFLICT(shelf_id) DO NOTHING;");
    condition::lemma_two_cells(("mode"@, mode), ("shelf_id"@, shelf), 1, seq![]);
    assert("INSERT INTO buckets (mode, shelf_id) VALUES (?1, ?2) ON CONFLICT(shelf_id) DO NOTHING;"@ =~= condition::insertion("buckets"@, seq![("mode"@, mode), ("shelf_id"@, shelf)], " ON CONFLICT(shelf_id) DO NOTHING;"@).sql);
    assert(sql::two(mode, shelf) =~= condition::insertion("buckets"@, seq![("mode"@, mode), ("shelf_id"@, shelf)], " ON CONFLICT(shelf_id) DO NOTHING;"@).values);
}

proof fn lemma_session_bucket_added(shelf: ValueView)
    ensures
        sql::statement_view("INSERT INTO buckets (shelf_id) VALUES (?1) ON CONFLICT(shelf_id) DO NOTHING;"@, sql::one(shelf)) == condition::insertion("buckets"@, seq![("shelf_id"@, shelf)], " ON CONFLICT(shelf_id) DO NOTHING;"@),
{
    reveal_strlit(")");
    reveal_strlit(" (");
    reveal_strlit("buckets");
    reveal_strlit("shelf_id");
    reveal_strlit(") VALUES (");
    reveal_strlit("INSERT INTO ");
    reveal_strlit(" ON CONFLICT(shelf_id) DO NOTHING;");
    reveal_strlit("INSERT INTO buckets (shelf_id) VALUES (?1) ON CONFLICT(shelf_id) DO NOTHING;");
    condition::lemma_one_cell(("shelf_id"@, shelf), 1, seq![]);
    assert("INSERT INTO buckets (shelf_id) VALUES (?1) ON CONFLICT(shelf_id) DO NOTHING;"@ =~= condition::insertion("buckets"@, seq![("shelf_id"@, shelf)], " ON CONFLICT(shelf_id) DO NOTHING;"@).sql);
    assert(sql::one(shelf) =~= condition::insertion("buckets"@, seq![("shelf_id"@, shelf)], " ON CONFLICT(shelf_id) DO NOTHING;"@).values);
}

proof fn lemma_bucket_read(shelf: ValueView)
    ensures
        sql::statement_view("SELECT id FROM buckets WHERE shelf_id = ?1;"@, sql::one(shelf)) == condition::reading("id"@, "buckets"@, seq![("shelf_id"@, shelf)], ";"@),
{
    reveal_strlit(";");
    reveal_strlit("id");
    reveal_strlit(" AND ");
    reveal_strlit(" FROM ");
    reveal_strlit(" WHERE ");
    reveal_strlit("SELECT ");
    reveal_strlit("buckets");
    reveal_strlit("shelf_id");
    reveal_strlit("SELECT id FROM buckets WHERE shelf_id = ?1;");
    condition::lemma_one_cell(("shelf_id"@, shelf), 1, " AND "@);
    assert("SELECT id FROM buckets WHERE shelf_id = ?1;"@ =~= condition::reading("id"@, "buckets"@, seq![("shelf_id"@, shelf)], ";"@).sql);
    assert(sql::one(shelf) =~= condition::reading("id"@, "buckets"@, seq![("shelf_id"@, shelf)], ";"@).values);
}

proof fn lemma_mode_read(bucket: ValueView)
    ensures
        sql::statement_view("SELECT mode FROM buckets WHERE id = ?1;"@, sql::one(bucket)) == condition::reading("mode"@, "buckets"@, seq![("id"@, bucket)], ";"@),
{
    reveal_strlit(";");
    reveal_strlit("id");
    reveal_strlit("mode");
    reveal_strlit(" AND ");
    reveal_strlit(" FROM ");
    reveal_strlit(" WHERE ");
    reveal_strlit("SELECT ");
    reveal_strlit("buckets");
    reveal_strlit("SELECT mode FROM buckets WHERE id = ?1;");
    condition::lemma_one_cell(("id"@, bucket), 1, " AND "@);
    assert("SELECT mode FROM buckets WHERE id = ?1;"@ =~= condition::reading("mode"@, "buckets"@, seq![("id"@, bucket)], ";"@).sql);
    assert(sql::one(bucket) =~= condition::reading("mode"@, "buckets"@, seq![("id"@, bucket)], ";"@).values);
}

proof fn lemma_mode_changed(mode: ValueView, persisted: ValueView, bucket: ValueView)
    ensures
        sql::statement_view("UPDATE buckets SET mode = ?1, persisted = ?2 WHERE id = ?3;"@, sql::three(mode, persisted, bucket)) == condition::change("buckets"@, seq![("mode"@, mode), ("persisted"@, persisted)], seq![("id"@, bucket)]),
{
    reveal_strlit(";");
    reveal_strlit(", ");
    reveal_strlit("id");
    reveal_strlit("mode");
    reveal_strlit(" AND ");
    reveal_strlit(" SET ");
    reveal_strlit(" WHERE ");
    reveal_strlit("UPDATE ");
    reveal_strlit("buckets");
    reveal_strlit("persisted");
    reveal_strlit("UPDATE buckets SET mode = ?1, persisted = ?2 WHERE id = ?3;");
    condition::lemma_two_cells(("mode"@, mode), ("persisted"@, persisted), 1, ", "@);
    condition::lemma_one_cell(("id"@, bucket), 3, " AND "@);
    assert("UPDATE buckets SET mode = ?1, persisted = ?2 WHERE id = ?3;"@ =~= condition::change("buckets"@, seq![("mode"@, mode), ("persisted"@, persisted)], seq![("id"@, bucket)]).sql);
    assert(sql::three(mode, persisted, bucket) =~= condition::change("buckets"@, seq![("mode"@, mode), ("persisted"@, persisted)], seq![("id"@, bucket)]).values);
}

proof fn lemma_bottle_added(bucket: ValueView, identifier: ValueView)
    ensures
        sql::statement_view("INSERT INTO bottles (bucket_id, identifier) VALUES (?1, ?2) ON CONFLICT(bucket_id, identifier) DO NOTHING;"@, sql::two(bucket, identifier)) == condition::insertion("bottles"@, seq![("bucket_id"@, bucket), ("identifier"@, identifier)], " ON CONFLICT(bucket_id, identifier) DO NOTHING;"@),
{
    reveal_strlit(")");
    reveal_strlit(" (");
    reveal_strlit("bottles");
    reveal_strlit("bucket_id");
    reveal_strlit(") VALUES (");
    reveal_strlit("identifier");
    reveal_strlit("INSERT INTO ");
    reveal_strlit(" ON CONFLICT(bucket_id, identifier) DO NOTHING;");
    reveal_strlit("INSERT INTO bottles (bucket_id, identifier) VALUES (?1, ?2) ON CONFLICT(bucket_id, identifier) DO NOTHING;");
    condition::lemma_two_cells(("bucket_id"@, bucket), ("identifier"@, identifier), 1, seq![]);
    assert("INSERT INTO bottles (bucket_id, identifier) VALUES (?1, ?2) ON CONFLICT(bucket_id, identifier) DO NOTHING;"@ =~= condition::insertion("bottles"@, seq![("bucket_id"@, bucket), ("identifier"@, identifier)], " ON CONFLICT(bucket_id, identifier) DO NOTHING;"@).sql);
    assert(sql::two(bucket, identifier) =~= condition::insertion("bottles"@, seq![("bucket_id"@, bucket), ("identifier"@, identifier)], " ON CONFLICT(bucket_id, identifier) DO NOTHING;"@).values);
}

/// The shed of a browsing context is added, unless it is there, and found by its type and its
/// context; the one without a context by its type alone.
pub proof fn law_shed_is_obtained(storage_type: StorageType, context: Seq<char>, id: i64)
    ensures
        ({
            let own = seq![
                ("storage_type"@, ValueView::Text(type_text(storage_type))),
                ("browsing_context"@, ValueView::Text(context)),
            ];
            let start = Seq::<ReplyView>::empty();
            let added = start.push(ReplyView::Done);
            &&& shed(storage_type, Some(context), start, 0) == RunView::<i64>::Ask(
                RequestView::Execute(
                    condition::insertion("sheds"@, own, " ON CONFLICT DO NOTHING;"@),
                ),
            )
            &&& shed(storage_type, Some(context), added, 0) == RunView::<i64>::Ask(
                RequestView::QueryI64(condition::reading("id"@, "sheds"@, own, ";"@)),
            )
            &&& shed(storage_type, Some(context), added.push(ReplyView::Int(Some(id))), 0)
                == RunView::<i64>::Got(id, 2)
            &&& shed(storage_type, Some(context), added.push(ReplyView::Int(None)), 0) is Stop
            &&& shed(storage_type, None, added.push(ReplyView::Int(Some(id))), 0) == RunView::<
                i64,
            >::Got(id, 2)
            &&& shed(storage_type, None, start, 0) matches RunView::Ask(
                RequestView::Execute(statement),
            ) && statement.values == seq![ValueView::Text(type_text(storage_type))]
            &&& shed(storage_type, None, added, 0) matches RunView::Ask(
                RequestView::QueryI64(statement),
            ) && statement.values == seq![ValueView::Text(type_text(storage_type))]
        }),
{
    let kind = ValueView::Text(type_text(storage_type));
    lemma_shed_added(kind, ValueView::Text(context));
    lemma_shed_read(kind, ValueView::Text(context));
    assert(sql::one(kind) =~= seq![kind]);
}

/// The shelf of an origin is added to its shed, unless it is there, and found by both. Its
/// bucket is added after it, unless it is there, and found by the shelf: a local one begins
/// with best effort, a session one without a mode.
pub proof fn law_shelf_is_obtained(
    shed_id: i64,
    origin: Seq<char>,
    storage_type: StorageType,
    shelf_id: i64,
)
    ensures
        ({
            let own = seq![
                ("shed_id"@, ValueView::Int(shed_id)),
                ("origin"@, ValueView::Text(origin)),
            ];
            let place = ("shelf_id"@, ValueView::Int(shelf_id));
            let start = Seq::<ReplyView>::empty();
            let added = start.push(ReplyView::Done);
            let found = added.push(ReplyView::Int(Some(shelf_id)));
            &&& shelf(shed_id, origin, storage_type, start, 0) == RunView::<StorageShelf>::Ask(
                RequestView::Execute(
                    condition::insertion(
                        "shelves"@,
                        own,
                        " ON CONFLICT(shed_id, origin) DO NOTHING;"@,
                    ),
                ),
            )
            &&& shelf(shed_id, origin, storage_type, added, 0) == RunView::<StorageShelf>::Ask(
                RequestView::QueryI64(condition::reading("id"@, "shelves"@, own, ";"@)),
            )
            &&& storage_type == StorageType::Local ==> shelf(
                shed_id,
                origin,
                storage_type,
                found,
                0,
            ) == RunView::<StorageShelf>::Ask(
                RequestView::Execute(
                    condition::insertion(
                        "buckets"@,
                        seq![("mode"@, ValueView::Text("best-effort"@)), place],
                        " ON CONFLICT(shelf_id) DO NOTHING;"@,
                    ),
                ),
            )
            &&& storage_type == StorageType::Session ==> shelf(
                shed_id,
                origin,
                storage_type,
                found,
                0,
            ) == RunView::<StorageShelf>::Ask(
                RequestView::Execute(
                    condition::insertion(
                        "buckets"@,
                        seq![place],
                        " ON CONFLICT(shelf_id) DO NOTHING;"@,
                    ),
                ),
            )
            &&& shelf(shed_id, origin, storage_type, found.push(ReplyView::Done), 0) == RunView::<
                StorageShelf,
            >::Ask(RequestView::QueryI64(condition::reading("id"@, "buckets"@, seq![place], ";"@)))
        }),
{
    lemma_shelf_added(ValueView::Int(shed_id), ValueView::Text(origin));
    lemma_shelf_read(ValueView::Int(shed_id), ValueView::Text(origin));
    lemma_local_bucket_added(ValueView::Text("best-effort"@), ValueView::Int(shelf_id));
    lemma_session_bucket_added(ValueView::Int(shelf_id));
    lemma_bucket_read(ValueView::Int(shelf_id));
}

/// Every bucket gets a bottle for each endpoint of its type: the session storage is the one
/// endpoint of a session, and all others are those of local storage.
pub proof fn law_bottles_of_a_bucket(
    bucket_id: i64,
    storage_type: StorageType,
    identifier: StorageIdentifier,
)
    ensures
        endpoints(storage_type).contains(identifier) <==> ((identifier
            == StorageIdentifier::SessionStorage) <==> storage_type == StorageType::Session),
        bottle_statements(bucket_id, endpoints(storage_type)).len() == endpoints(
            storage_type,
        ).len(),
        endpoints(storage_type).contains(identifier) ==> bottle_statements(
            bucket_id,
            endpoints(storage_type),
        ).contains(
            condition::insertion(
                "bottles"@,
                seq![
                    ("bucket_id"@, ValueView::Int(bucket_id)),
                    ("identifier"@, ValueView::Text(identifier_text(identifier))),
                ],
                " ON CONFLICT(bucket_id, identifier) DO NOTHING;"@,
            ),
        ),
{
    let list = endpoints(storage_type);
    lemma_bottle_added(
        ValueView::Int(bucket_id),
        ValueView::Text(identifier_text(identifier)),
    );
    let local = seq![
        StorageIdentifier::Caches,
        StorageIdentifier::IndexedDB,
        StorageIdentifier::LocalStorage,
        StorageIdentifier::ServiceWorkerRegistrations,
    ];
    assert(local[0] == StorageIdentifier::Caches && local[1] == StorageIdentifier::IndexedDB
        && local[2] == StorageIdentifier::LocalStorage && local[3]
        == StorageIdentifier::ServiceWorkerRegistrations);
    assert(seq![StorageIdentifier::SessionStorage][0] == StorageIdentifier::SessionStorage);
    if list.contains(identifier) {
        let i = choose|i: int| 0 <= i < list.len() && list[i] == identifier;
        assert(bottle_statements(bucket_id, list)[i] == bottle_statement(bucket_id, identifier));
    }
}

/// The endpoints of client storage are told apart by their names.
pub proof fn law_identifiers_are_distinct(a: StorageIdentifier, b: StorageIdentifier)
    ensures
        identifier_text(a) == identifier_text(b) ==> a == b,
        type_text(StorageType::Local) != type_text(StorageType::Session),
{
    reveal_strlit("caches");
    reveal_strlit("indexedDB");
    reveal_strlit("localStorage");
    reveal_strlit("serviceWorkerRegistrations");
    reveal_strlit("sessionStorage");
    reveal_strlit("local");
    reveal_strlit("session");
    assert("caches"@.len() == 6 && "indexedDB"@.len() == 9 && "localStorage"@.len() == 12
        && "serviceWorkerRegistrations"@.len() == 26 && "sessionStorage"@.len() == 14);
    assert("local"@.len() == 5 && "session"@.len() == 7);
}

/// The mode of a bucket is kept in its own row, as text and as the flag that goes with it, and
/// is read back from there.
pub proof fn law_mode_is_kept(bucket_id: i64, mode: Mode, persisted: i64)
    requires
        mode == Mode::Persistent ==> persisted == 1,
        mode == Mode::BestEffort ==> persisted == 0,
    ensures
        set_mode_statement(bucket_id, mode) == RequestView::Execute(
            condition::change(
                "buckets"@,
                seq![
                    ("mode"@, ValueView::Text(mode_text(mode))),
                    ("persisted"@, ValueView::Int(persisted)),
                ],
                seq![("id"@, ValueView::Int(bucket_id))],
            ),
        ),
        mode_of(bucket_id, Seq::empty(), 0) == RunView::<Mode>::Ask(
            RequestView::QueryText(
                condition::reading(
                    "mode"@,
                    "buckets"@,
                    seq![("id"@, ValueView::Int(bucket_id))],
                    ";"@,
                ),
            ),
        ),
        mode_of(bucket_id, Seq::empty().push(ReplyView::Text(Some(mode_text(mode)))), 0)
            == RunView::<Mode>::Got(mode, 1),
{
    lemma_mode_changed(
        ValueView::Text(mode_text(mode)),
        ValueView::Int(persisted),
        ValueView::Int(bucket_id),
    );
    lemma_mode_read(ValueView::Int(bucket_id));
    law_mode_reads_back(mode);
}

/// The usage of a bucket is the sum of the sizes of its directories.
pub proof fn law_usage_is_the_sum(bucket_id: i64, paths: Seq<Seq<char>>, sizes: Seq<u64>, more: u64)
    ensures
        ({
            let known = Seq::<ReplyView>::empty().push(ReplyView::Texts(paths));
            &&& usage(bucket_id, known, 0) == RunView::<u64>::Ask(
                RequestView::DirectorySizes(paths),
            )
            &&& usage(bucket_id, known.push(ReplyView::Sizes(seq![])), 0) == RunView::<u64>::Got(
                0,
                2,
            )
            &&& usage(bucket_id, known.push(ReplyView::Sizes(sizes)), 0) matches RunView::Got(
                sum,
                next,
            ) ==> if sum + more <= u64::MAX {
                usage(bucket_id, known.push(ReplyView::Sizes(sizes.push(more))), 0)
                    == RunView::<u64>::Got((sum + more) as u64, 2)
            } else {
                usage(bucket_id, known.push(ReplyView::Sizes(sizes.push(more))), 0)
                    == RunView::<u64>::Stop(ErrorView::UsageTooLarge, 2)
            }
        }),
{
    assert(sizes.push(more).drop_last() =~= sizes);
    let known = Seq::<ReplyView>::empty().push(ReplyView::Texts(paths));
    assert(known.push(ReplyView::Sizes(sizes))[1] == ReplyView::Sizes(sizes));
}

} // verus!
