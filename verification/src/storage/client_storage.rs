//! The registry of client storage: which databases there are, and where they are kept.
use vstd::prelude::*;
use vstd::string::{StrSliceExecFns, StringExecFns};

use crate::storage::client_storage_shared as shared;
use crate::storage::client_storage_shared::{
    Mode, StorageIdentifier, StorageShelf, StorageType, STORAGE_SHELF_QUOTA_BYTES,
};
use crate::storage::condition;
use crate::storage::sql;
use crate::storage::sql::{
    ErrorView, Reply, ReplyView, Request, RequestView, Run, RunView, Statement, StatementView,
    StorageError, ValueView,
};

verus! {

/// The statements that set the registry up.
pub open spec fn schema_statements() -> Seq<Seq<char>> {
    Seq::empty().push(
        "CREATE TABLE IF NOT EXISTS sheds (
            id INTEGER PRIMARY KEY,
            storage_type TEXT NOT NULL,
            browsing_context TEXT
        );"@,
    ).push(
        "CREATE UNIQUE INDEX IF NOT EXISTS idx_sheds_local
        ON sheds(storage_type) WHERE browsing_context IS NULL;"@,
    ).push(
        "CREATE UNIQUE INDEX IF NOT EXISTS idx_sheds_session
        ON sheds(browsing_context) WHERE browsing_context IS NOT NULL;"@,
    ).push(
        "CREATE TABLE IF NOT EXISTS shelves (
            id INTEGER PRIMARY KEY,
            shed_id INTEGER NOT NULL,
            origin TEXT NOT NULL,
            UNIQUE (shed_id, origin),
            FOREIGN KEY (shed_id) REFERENCES sheds(id) ON DELETE CASCADE
        );"@,
    ).push(
        "CREATE TABLE IF NOT EXISTS buckets (
            id INTEGER PRIMARY KEY,
            shelf_id INTEGER NOT NULL UNIQUE,
            persisted BOOLEAN DEFAULT 0,
            name TEXT,
            mode TEXT,
            expires DATETIME,
            FOREIGN KEY (shelf_id) REFERENCES shelves(id) ON DELETE CASCADE
        );"@,
    ).push(
        "CREATE TABLE IF NOT EXISTS bottles (
                    id INTEGER PRIMARY KEY,
                    bucket_id INTEGER NOT NULL,
                    identifier TEXT NOT NULL,
                    UNIQUE (bucket_id, identifier),
                    FOREIGN KEY (bucket_id) REFERENCES buckets(id) ON DELETE CASCADE
                );"@,
    ).push(
        "CREATE TABLE IF NOT EXISTS databases (
                    id INTEGER PRIMARY KEY,
                    bottle_id INTEGER NOT NULL,
                    name TEXT NOT NULL,
                    UNIQUE (bottle_id, name),
                    FOREIGN KEY (bottle_id) REFERENCES bottles(id) ON DELETE CASCADE
                );
                "@,
    ).push(
        "CREATE TABLE IF NOT EXISTS directories (
                id INTEGER PRIMARY KEY,
                database_id INTEGER NOT NULL UNIQUE,
                path TEXT NOT NULL,
                FOREIGN KEY (database_id) REFERENCES databases(id) ON DELETE CASCADE
            );"@,
    ).push(
        "CREATE UNIQUE INDEX IF NOT EXISTS sheds_local_identity_idx
                ON sheds(storage_type)
                WHERE storage_type = 'local' AND browsing_context IS NULL;"@,
    ).push(
        "CREATE UNIQUE INDEX IF NOT EXISTS sheds_session_identity_idx
                ON sheds(storage_type, browsing_context)
                WHERE storage_type = 'session' AND browsing_context IS NOT NULL;"@,
    ).push(
        "CREATE UNIQUE INDEX IF NOT EXISTS shelves_origin_shed_identity_idx
                ON shelves(origin, shed_id);"@,
    )
}

/// Statements without values.
pub open spec fn bare(texts: Seq<Seq<char>>) -> Seq<StatementView> {
    Seq::new(texts.len(), |i: int| sql::statement_view(texts[i], Seq::empty()))
}

fn add(statements: Vec<Statement>, sql_text: &str) -> (r: Vec<Statement>)
    ensures
        forall|texts: Seq<Seq<char>>|
            statements.deep_view() == bare(texts) ==> #[trigger] bare(texts.push(sql_text@))
                == r.deep_view(),
{
    let r: Vec<Statement> = sql::with_statement(
        statements,
        sql::statement(sql_text, sql::no_values()),
    );
    assert forall|texts: Seq<Seq<char>>|
        statements.deep_view() == bare(texts) implies #[trigger] bare(texts.push(sql_text@))
        == r.deep_view() by {
        assert(bare(texts.push(sql_text@)) =~= r.deep_view());
    }
    r
}

fn schema() -> (r: Vec<Statement>)
    ensures
        r.deep_view() == bare(schema_statements()),
{
    let r: Vec<Statement> = sql::no_statements();
    assert(r.deep_view() =~= bare(Seq::empty()));
    let r: Vec<Statement> = self::add(
        r,
        "CREATE TABLE IF NOT EXISTS sheds (
            id INTEGER PRIMARY KEY,
            storage_type TEXT NOT NULL,
            browsing_context TEXT
        );",
    );
    let r: Vec<Statement> = self::add(
        r,
        "CREATE UNIQUE INDEX IF NOT EXISTS idx_sheds_local
        ON sheds(storage_type) WHERE browsing_context IS NULL;",
    );
    let r: Vec<Statement> = self::add(
        r,
        "CREATE UNIQUE INDEX IF NOT EXISTS idx_sheds_session
        ON sheds(browsing_context) WHERE browsing_context IS NOT NULL;",
    );
    let r: Vec<Statement> = self::add(
        r,
        "CREATE TABLE IF NOT EXISTS shelves (
            id INTEGER PRIMARY KEY,
            shed_id INTEGER NOT NULL,
            origin TEXT NOT NULL,
            UNIQUE (shed_id, origin),
            FOREIGN KEY (shed_id) REFERENCES sheds(id) ON DELETE CASCADE
        );",
    );
    let r: Vec<Statement> = self::add(
        r,
        "CREATE TABLE IF NOT EXISTS buckets (
            id INTEGER PRIMARY KEY,
            shelf_id INTEGER NOT NULL UNIQUE,
            persisted BOOLEAN DEFAULT 0,
            name TEXT,
            mode TEXT,
            expires DATETIME,
            FOREIGN KEY (shelf_id) REFERENCES shelves(id) ON DELETE CASCADE
        );",
    );
    let r: Vec<Statement> = self::add(
        r,
        "CREATE TABLE IF NOT EXISTS bottles (
                    id INTEGER PRIMARY KEY,
                    bucket_id INTEGER NOT NULL,
                    identifier TEXT NOT NULL,
                    UNIQUE (bucket_id, identifier),
                    FOREIGN KEY (bucket_id) REFERENCES buckets(id) ON DELETE CASCADE
                );",
    );
    let r: Vec<Statement> = self::add(
        r,
        "CREATE TABLE IF NOT EXISTS databases (
                    id INTEGER PRIMARY KEY,
                    bottle_id INTEGER NOT NULL,
                    name TEXT NOT NULL,
                    UNIQUE (bottle_id, name),
                    FOREIGN KEY (bottle_id) REFERENCES bottles(id) ON DELETE CASCADE
                );
                ",
    );
    let r: Vec<Statement> = self::add(
        r,
        "CREATE TABLE IF NOT EXISTS directories (
                id INTEGER PRIMARY KEY,
                database_id INTEGER NOT NULL UNIQUE,
                path TEXT NOT NULL,
                FOREIGN KEY (database_id) REFERENCES databases(id) ON DELETE CASCADE
            );",
    );
    let r: Vec<Statement> = self::add(
        r,
        "CREATE UNIQUE INDEX IF NOT EXISTS sheds_local_identity_idx
                ON sheds(storage_type)
                WHERE storage_type = 'local' AND browsing_context IS NULL;",
    );
    let r: Vec<Statement> = self::add(
        r,
        "CREATE UNIQUE INDEX IF NOT EXISTS sheds_session_identity_idx
                ON sheds(storage_type, browsing_context)
                WHERE storage_type = 'session' AND browsing_context IS NOT NULL;",
    );
    self::add(
        r,
        "CREATE UNIQUE INDEX IF NOT EXISTS shelves_origin_shed_identity_idx
                ON shelves(origin, shed_id);",
    )
}

/// Where setting the registry up stands.
pub open spec fn initialized(replies: Seq<ReplyView>) -> RunView<()> {
    sql::and_then(
        sql::all_done(replies, 0, bare(schema_statements())),
        |_u: (), next: int| sql::done(replies, next, RequestView::Commit),
    )
}

/// Set the registry up.
pub fn init(replies: &Vec<Reply>) -> (r: Run<()>)
    ensures
        r.deep_view() == initialized(replies.deep_view()),
{
    match sql::execute_all(replies, 0, &schema()) {
        Run::Got(_, next) => sql::ask(replies, next, Request::Commit),
        other => other,
    }
}

/// A path with one more component.
pub open spec fn joined(base: Seq<char>, part: Seq<char>) -> Seq<char> {
    if part.len() > 0 && part[0] == '/' {
        part
    } else if base.len() == 0 || base.last() == '/' {
        base + part
    } else {
        base + "/"@ + part
    }
}

fn join(base: &str, part: &str) -> (r: String)
    ensures
        r@ == joined(base@, part@),
{
    if part.unicode_len() > 0 && part.get_char(0) == '/' {
        return part.to_owned();
    }
    let len: usize = base.unicode_len();
    if len == 0 || base.get_char(len - 1) == '/' {
        base.to_owned().concat(part)
    } else {
        base.to_owned().concat("/").concat(part)
    }
}

/// Where a database is kept that has a directory name. The directories are spread over
/// clusters by the last character of their names.
pub open spec fn path_of(base_dir: Seq<char>, dir: Seq<char>) -> Seq<char> {
    joined(joined(joined(base_dir, "bottles"@), dir.skip(dir.len() - 1)), dir)
}

/// Where a database is kept that has a directory name.
pub fn database_path(base_dir: &str, dir: &str) -> (r: String)
    requires
        dir@.len() > 0,
    ensures
        r@ == path_of(base_dir@, dir@),
{
    let len: usize = dir.unicode_len();
    let cluster: &str = dir.substring_char(len - 1, len);
    assert(cluster@ =~= dir@.skip(dir@.len() - 1));
    let bottles: String = join(base_dir, "bottles");
    let cluster_path: String = join(bottles.as_str(), cluster);
    join(cluster_path.as_str(), dir)
}

/// Whether a character stands in a lower-case hyphenated identifier.
pub open spec fn is_name_char(c: char) -> bool {
    '0' <= c <= '9' || 'a' <= c <= 'f' || c == '-'
}

/// `uuid::Uuid::new_v4`, written out by `to_string`, gives a random identifier: thirty-six
/// lower-case hexadecimal digits and hyphens, of which the last is a digit.
#[verifier::external_body]
fn random_name() -> (r: String)
    ensures
        r@.len() == 36,
        forall|i: int| 0 <= i < 36 ==> is_name_char(#[trigger] r@[i]),
        r@[35] != '-',
{
    uuid::Uuid::new_v4().to_string()
}

/// Where a new database is to be kept.
pub fn fresh_path(base_dir: &str) -> (r: String)
    ensures
        exists|dir: Seq<char>| #[trigger]
            path_of(base_dir@, dir) == r@ && dir.len() == 36 && (forall|i: int|
                0 <= i < 36 ==> is_name_char(#[trigger] dir[i])),
{
    let dir: String = random_name();
    database_path(base_dir, dir.as_str())
}

/// Where finding the number of a database stands.
pub open spec fn database_id(
    bottle_id: i64,
    name: Seq<char>,
    replies: Seq<ReplyView>,
    at: int,
) -> RunView<i64> {
    sql::required_number(
        replies,
        at,
        sql::query_view(
            "SELECT id FROM databases WHERE bottle_id = ?1 AND name = ?2;"@,
            sql::two(ValueView::Int(bottle_id), ValueView::Text(name)),
        ),
        "database lookup"@,
    )
}

/// Where the creation of a database stands: the path that it is kept at, and whether it is
/// new. One that is there already keeps its path.
pub open spec fn created(
    bottle_id: i64,
    name: Seq<char>,
    path: Seq<char>,
    replies: Seq<ReplyView>,
) -> RunView<(Seq<char>, bool)> {
    sql::and_then(
        sql::done(
            replies,
            0,
            sql::execute_view(
                "INSERT INTO databases (bottle_id, name) VALUES (?1, ?2) ON CONFLICT(bottle_id, name) DO UPDATE SET name = excluded.name;"@,
                sql::two(ValueView::Int(bottle_id), ValueView::Text(name)),
            ),
        ),
        |_u: (), next: int|
            sql::and_then(
                database_id(bottle_id, name, replies, next),
                |id: i64, next: int|
                    sql::and_then(
                        sql::text(
                            replies,
                            next,
                            RequestView::QueryText(
                                sql::statement_view(
                                    "SELECT path FROM directories WHERE database_id = ?1;"@,
                                    sql::one(ValueView::Int(id)),
                                ),
                            ),
                        ),
                        |existing: Option<Seq<char>>, next: int|
                            match existing {
                                Some(existing) => RunView::Got((existing, false), next),
                                None => new_directory(id, path, replies, next),
                            },
                    ),
            ),
    )
}

/// Where recording and making the directory of a new database stands.
pub open spec fn new_directory(
    id: i64,
    path: Seq<char>,
    replies: Seq<ReplyView>,
    at: int,
) -> RunView<(Seq<char>, bool)> {
    sql::and_then(
        sql::done(
            replies,
            at,
            sql::execute_view(
                "INSERT INTO directories (database_id, path) VALUES (?1, ?2);"@,
                sql::two(ValueView::Int(id), ValueView::Text(path)),
            ),
        ),
        |_u: (), next: int|
            sql::and_then(
                sql::done(replies, next, RequestView::Commit),
                |_u: (), next: int|
                    match sql::done(replies, next, RequestView::CreateDirectory(path)) {
                        RunView::Ask(request) => RunView::Ask(request),
                        RunView::Stop(_, next) => RunView::Stop(
                            ErrorView::DirectoryCreationFailed,
                            next,
                        ),
                        RunView::Got(_, next) => RunView::Got((path, true), next),
                    },
            ),
    )
}

fn make_directory(id: i64, path: &str, replies: &Vec<Reply>, at: usize) -> (r: Run<(String, bool)>)
    requires
        at <= replies@.len(),
    ensures
        r.deep_view() == new_directory(id, path@, replies.deep_view(), at as int),
{
    let next: usize = match sql::execute(
        replies,
        at,
        "INSERT INTO directories (database_id, path) VALUES (?1, ?2);",
        sql::with_text(sql::with_int(sql::no_values(), id), path),
    ) {
        Run::Ask(request) => return Run::Ask(request),
        Run::Stop(error, next) => return Run::Stop(error, next),
        Run::Got(_, next) => next,
    };
    let next: usize = match sql::ask(replies, next, Request::Commit) {
        Run::Ask(request) => return Run::Ask(request),
        Run::Stop(error, next) => return Run::Stop(error, next),
        Run::Got(_, next) => next,
    };
    match sql::ask(replies, next, Request::CreateDirectory(path.to_owned())) {
        Run::Ask(request) => Run::Ask(request),
        Run::Stop(_, next) => Run::Stop(StorageError::DirectoryCreationFailed, next),
        Run::Got(_, next) => Run::Got((path.to_owned(), true), next),
    }
}

/// Create a database of a bottle; `path` is where it is kept if it is new.
pub fn create_database(
    bottle_id: i64,
    name: &str,
    path: &str,
    replies: &Vec<Reply>,
) -> (r: Run<(String, bool)>)
    ensures
        r.deep_view() == created(bottle_id, name@, path@, replies.deep_view()),
{
    let next: usize = match sql::execute(
        replies,
        0,
        "INSERT INTO databases (bottle_id, name) VALUES (?1, ?2) ON CONFLICT(bottle_id, name) DO UPDATE SET name = excluded.name;",
        sql::with_text(sql::with_int(sql::no_values(), bottle_id), name),
    ) {
        Run::Ask(request) => return Run::Ask(request),
        Run::Stop(error, next) => return Run::Stop(error, next),
        Run::Got(_, next) => next,
    };
    let (id, next): (i64, usize) = match sql::query_required_i64(
        replies,
        next,
        "SELECT id FROM databases WHERE bottle_id = ?1 AND name = ?2;",
        sql::with_text(sql::with_int(sql::no_values(), bottle_id), name),
        "database lookup",
    ) {
        Run::Ask(request) => return Run::Ask(request),
        Run::Stop(error, next) => return Run::Stop(error, next),
        Run::Got(id, next) => (id, next),
    };
    match sql::query_optional_text(
        replies,
        next,
        "SELECT path FROM directories WHERE database_id = ?1;",
        sql::with_int(sql::no_values(), id),
    ) {
        Run::Ask(request) => Run::Ask(request),
        Run::Stop(error, next) => Run::Stop(error, next),
        Run::Got(Some(existing), next) => Run::Got((existing, false), next),
        Run::Got(None, next) => make_directory(id, path, replies, next),
    }
}

/// The statements that take a database off the registry.
pub open spec fn removal(id: i64, bottle_id: i64, name: Seq<char>) -> Seq<StatementView> {
    Seq::empty().push(
        sql::statement_view(
            "DELETE FROM directories WHERE database_id = ?1;"@,
            sql::one(ValueView::Int(id)),
        ),
    ).push(
        sql::statement_view(
            "DELETE FROM databases WHERE bottle_id = ?1 AND name = ?2;"@,
            sql::two(ValueView::Int(bottle_id), ValueView::Text(name)),
        ),
    )
}

/// Where committing the removal of a database stands, and then of its directory.
pub open spec fn directory_removed(
    path: Seq<char>,
    replies: Seq<ReplyView>,
    at: int,
) -> RunView<()> {
    sql::and_then(
        sql::done(replies, at, RequestView::Commit),
        |_u: (), next: int|
            match sql::done(replies, next, RequestView::RemoveDirectory(path)) {
                RunView::Ask(request) => RunView::Ask(request),
                RunView::Stop(_, next) => RunView::Stop(ErrorView::DirectoryDeletionFailed, next),
                RunView::Got(_, next) => RunView::Got((), next),
            },
    )
}

/// Where the deletion of a database stands.
pub open spec fn deleted(bottle_id: i64, name: Seq<char>, replies: Seq<ReplyView>) -> RunView<()> {
    sql::and_then(
        database_id(bottle_id, name, replies, 0),
        |id: i64, next: int|
            sql::and_then(
                sql::required_text(
                    replies,
                    next,
                    RequestView::QueryText(
                        sql::statement_view(
                            "SELECT path FROM directories WHERE database_id = ?1;"@,
                            sql::one(ValueView::Int(id)),
                        ),
                    ),
                    "directory lookup"@,
                ),
                |path: Seq<char>, next: int|
                    sql::and_then(
                        sql::all_done(replies, next, removal(id, bottle_id, name)),
                        |_u: (), next: int|
                            sql::and_then(
                                sql::required_number(
                                    replies,
                                    next,
                                    sql::query_view("SELECT changes();"@, Seq::empty()),
                                    "OHOS RDB change count"@,
                                ),
                                |changes: i64, next: int|
                                    if changes == 0 {
                                        RunView::Stop(ErrorView::DatabaseDoesNotExist, next)
                                    } else {
                                        directory_removed(path, replies, next)
                                    },
                            ),
                    ),
            ),
    )
}

fn remove_directory(path: String, replies: &Vec<Reply>, at: usize) -> (r: Run<()>)
    requires
        at <= replies@.len(),
    ensures
        r.deep_view() == directory_removed(path@, replies.deep_view(), at as int),
{
    match sql::ask(replies, at, Request::Commit) {
        Run::Ask(request) => Run::Ask(request),
        Run::Stop(error, next) => Run::Stop(error, next),
        Run::Got(_, next) => match sql::ask(replies, next, Request::RemoveDirectory(path)) {
            Run::Ask(request) => Run::Ask(request),
            Run::Stop(_, next) => Run::Stop(StorageError::DirectoryDeletionFailed, next),
            Run::Got(_, next) => Run::Got((), next),
        },
    }
}

/// Delete a database of a bottle. Its directory goes only once the registry no longer
/// names it.
pub fn delete_database(bottle_id: i64, name: &str, replies: &Vec<Reply>) -> (r: Run<()>)
    ensures
        r.deep_view() == deleted(bottle_id, name@, replies.deep_view()),
{
    let (id, next): (i64, usize) = match sql::query_required_i64(
        replies,
        0,
        "SELECT id FROM databases WHERE bottle_id = ?1 AND name = ?2;",
        sql::with_text(sql::with_int(sql::no_values(), bottle_id), name),
        "database lookup",
    ) {
        Run::Ask(request) => return Run::Ask(request),
        Run::Stop(error, next) => return Run::Stop(error, next),
        Run::Got(id, next) => (id, next),
    };
    let (path, next): (String, usize) = match sql::query_required_text(
        replies,
        next,
        "SELECT path FROM directories WHERE database_id = ?1;",
        sql::with_int(sql::no_values(), id),
        "directory lookup",
    ) {
        Run::Ask(request) => return Run::Ask(request),
        Run::Stop(error, next) => return Run::Stop(error, next),
        Run::Got(path, next) => (path, next),
    };
    let first: Statement = sql::statement(
        "DELETE FROM directories WHERE database_id = ?1;",
        sql::with_int(sql::no_values(), id),
    );
    let second: Statement = sql::statement(
        "DELETE FROM databases WHERE bottle_id = ?1 AND name = ?2;",
        sql::with_text(sql::with_int(sql::no_values(), bottle_id), name),
    );
    let statements: Vec<Statement> = sql::with_statement(
        sql::with_statement(sql::no_statements(), first),
        second,
    );
    let next: usize = match sql::execute_all(replies, next, &statements) {
        Run::Ask(request) => return Run::Ask(request),
        Run::Stop(error, next) => return Run::Stop(error, next),
        Run::Got(_, next) => next,
    };
    match sql::query_required_i64(
        replies,
        next,
        "SELECT changes();",
        sql::no_values(),
        "OHOS RDB change count",
    ) {
        Run::Ask(request) => Run::Ask(request),
        Run::Stop(error, next) => Run::Stop(error, next),
        Run::Got(changes, next) => {
            if changes == 0 {
                Run::Stop(StorageError::DatabaseDoesNotExist, next)
            } else {
                remove_directory(path, replies, next)
            }
        },
    }
}

/// Where finding the shed of a kind of storage stands. Session storage belongs to a
/// browsing context.
pub open spec fn shed_of(
    storage_type: StorageType,
    webview: Option<Seq<char>>,
    replies: Seq<ReplyView>,
) -> RunView<i64> {
    match storage_type {
        StorageType::Local => shared::shed(storage_type, None, replies, 0),
        StorageType::Session => match webview {
            None => RunView::Stop(ErrorView::SessionStorageRequiresWindow, 0),
            Some(context) => shared::shed(storage_type, Some(context), replies, 0),
        },
    }
}

/// Where finding a bottle stands.
pub open spec fn bottle(
    storage_type: StorageType,
    webview: Option<Seq<char>>,
    identifier: StorageIdentifier,
    origin: Seq<char>,
    replies: Seq<ReplyView>,
) -> RunView<i64> {
    sql::and_then(
        shed_of(storage_type, webview, replies),
        |shed: i64, next: int|
            sql::and_then(
                shared::shelf(shed, origin, storage_type, replies, next),
                |shelf: StorageShelf, next: int|
                    sql::and_then(
                        sql::required_number(
                            replies,
                            next,
                            sql::query_view(
                                "SELECT id FROM bottles WHERE bucket_id = ?1 AND identifier = ?2;"@,
                                sql::two(
                                    ValueView::Int(shelf.default_bucket_id),
                                    ValueView::Text(shared::identifier_text(identifier)),
                                ),
                            ),
                            "bottle lookup"@,
                        ),
                        |id: i64, next: int|
                            sql::and_then(
                                sql::done(replies, next, RequestView::Commit),
                                |_u: (), next: int| RunView::Got(id, next),
                            ),
                    ),
            ),
    )
}

/// Find the bottle of an origin for a kind of storage, creating what is missing.
/// `webview` is the browsing context, and `origin` the serialization of the origin.
pub fn obtain_a_storage_bottle_map(
    storage_type: StorageType,
    webview: &Option<String>,
    storage_identifier: StorageIdentifier,
    origin: &str,
    replies: &Vec<Reply>,
) -> (r: Run<i64>)
    ensures
        r.deep_view() == bottle(
            storage_type,
            shared::text_view(*webview),
            storage_identifier,
            origin@,
            replies.deep_view(),
        ),
{
    let shed: Run<i64> = match storage_type {
        StorageType::Local => shared::ensure_storage_shed(storage_type, &None, replies, 0),
        StorageType::Session => {
            if webview.is_none() {
                return Run::Stop(StorageError::SessionStorageRequiresWindow, 0);
            }
            shared::ensure_storage_shed(storage_type, webview, replies, 0)
        },
    };
    let (shed, next): (i64, usize) = match shed {
        Run::Ask(request) => return Run::Ask(request),
        Run::Stop(error, next) => return Run::Stop(error, next),
        Run::Got(shed, next) => (shed, next),
    };
    let (shelf, next): (StorageShelf, usize) = match shared::obtain_a_storage_shelf(
        shed,
        origin,
        storage_type,
        replies,
        next,
    ) {
        Run::Ask(request) => return Run::Ask(request),
        Run::Stop(error, next) => return Run::Stop(error, next),
        Run::Got(shelf, next) => (shelf, next),
    };
    let (id, next): (i64, usize) = match sql::query_required_i64(
        replies,
        next,
        "SELECT id FROM bottles WHERE bucket_id = ?1 AND identifier = ?2;",
        sql::with_text(
            sql::with_int(sql::no_values(), shelf.default_bucket_id),
            storage_identifier.as_str(),
        ),
        "bottle lookup",
    ) {
        Run::Ask(request) => return Run::Ask(request),
        Run::Stop(error, next) => return Run::Stop(error, next),
        Run::Got(id, next) => (id, next),
    };
    match sql::ask(replies, next, Request::Commit) {
        Run::Ask(request) => Run::Ask(request),
        Run::Stop(error, next) => Run::Stop(error, next),
        Run::Got(_, next) => Run::Got(id, next),
    }
}

/// Where a commit stands whose failure answers `false`.
pub open spec fn committed(value: bool, replies: Seq<ReplyView>, at: int) -> RunView<bool> {
    match sql::done(replies, at, RequestView::Commit) {
        RunView::Ask(request) => RunView::Ask(request),
        RunView::Stop(_, next) => RunView::Got(false, next),
        RunView::Got(_, next) => RunView::Got(value, next),
    }
}

fn commit(value: bool, replies: &Vec<Reply>, at: usize) -> (r: Run<bool>)
    requires
        at <= replies@.len(),
    ensures
        r.deep_view() == committed(value, replies.deep_view(), at as int),
{
    match sql::ask(replies, at, Request::Commit) {
        Run::Ask(request) => Run::Ask(request),
        Run::Stop(_, next) => Run::Got(false, next),
        Run::Got(_, next) => Run::Got(value, next),
    }
}

/// Where asking whether the bucket of an origin is persistent stands. It is not where the
/// mode cannot be read.
pub open spec fn is_persisted(origin: Option<Seq<char>>, replies: Seq<ReplyView>) -> RunView<bool> {
    sql::and_then(
        shared::local_shelf(origin, replies, 0),
        |shelf: StorageShelf, next: int|
            match shared::mode_of(shelf.default_bucket_id, replies, next) {
                RunView::Ask(request) => RunView::Ask(request),
                RunView::Stop(_, next) => RunView::Got(false, next),
                RunView::Got(mode, next) => if mode == Mode::Persistent {
                    committed(true, replies, next)
                } else {
                    RunView::Got(false, next)
                },
            },
    )
}

/// Ask whether the bucket of an origin is persistent.
pub fn persisted(origin: &Option<String>, replies: &Vec<Reply>) -> (r: Run<bool>)
    ensures
        r.deep_view() == is_persisted(shared::text_view(*origin), replies.deep_view()),
{
    let (shelf, next): (StorageShelf, usize) = match shared::obtain_a_local_storage_shelf(
        origin,
        replies,
        0,
    ) {
        Run::Ask(request) => return Run::Ask(request),
        Run::Stop(error, next) => return Run::Stop(error, next),
        Run::Got(shelf, next) => (shelf, next),
    };
    match shared::bucket_mode(shelf.default_bucket_id, replies, next) {
        Run::Ask(request) => Run::Ask(request),
        Run::Stop(_, next) => Run::Got(false, next),
        Run::Got(mode, next) => {
            if mode == Mode::Persistent {
                commit(true, replies, next)
            } else {
                Run::Got(false, next)
            }
        },
    }
}

/// Where making a bucket persistent stands, once its mode is known.
pub open spec fn made_persistent(
    bucket_id: i64,
    already: bool,
    granted: bool,
    replies: Seq<ReplyView>,
    at: int,
) -> RunView<bool> {
    if !already && granted {
        match sql::done(replies, at, shared::set_mode_statement(bucket_id, Mode::Persistent)) {
            RunView::Ask(request) => RunView::Ask(request),
            RunView::Stop(_, next) => committed(false, replies, next),
            RunView::Got(_, next) => committed(true, replies, next),
        }
    } else {
        committed(already, replies, at)
    }
}

fn make_persistent(
    bucket_id: i64,
    already: bool,
    granted: bool,
    replies: &Vec<Reply>,
    at: usize,
) -> (r: Run<bool>)
    requires
        at <= replies@.len(),
    ensures
        r.deep_view() == made_persistent(
            bucket_id,
            already,
            granted,
            replies.deep_view(),
            at as int,
        ),
{
    if !already && granted {
        match shared::set_bucket_mode(bucket_id, Mode::Persistent, replies, at) {
            Run::Ask(request) => Run::Ask(request),
            Run::Stop(_, next) => commit(false, replies, next),
            Run::Got(_, next) => commit(true, replies, next),
        }
    } else {
        commit(already, replies, at)
    }
}

/// Where asking for the bucket of an origin to be persistent stands.
pub open spec fn persist_run(
    origin: Option<Seq<char>>,
    granted: bool,
    replies: Seq<ReplyView>,
) -> RunView<bool> {
    sql::and_then(
        shared::local_shelf(origin, replies, 0),
        |shelf: StorageShelf, next: int|
            match shared::mode_of(shelf.default_bucket_id, replies, next) {
                RunView::Ask(request) => RunView::Ask(request),
                RunView::Stop(_, next) => made_persistent(
                    shelf.default_bucket_id,
                    false,
                    granted,
                    replies,
                    next,
                ),
                RunView::Got(mode, next) => made_persistent(
                    shelf.default_bucket_id,
                    mode == Mode::Persistent,
                    granted,
                    replies,
                    next,
                ),
            },
    )
}

/// Make the bucket of an origin persistent, if that is permitted. Whether it is in the end.
pub fn persist(origin: &Option<String>, permission_granted: bool, replies: &Vec<Reply>) -> (r: Run<
    bool,
>)
    ensures
        r.deep_view() == persist_run(
            shared::text_view(*origin),
            permission_granted,
            replies.deep_view(),
        ),
{
    let (shelf, next): (StorageShelf, usize) = match shared::obtain_a_local_storage_shelf(
        origin,
        replies,
        0,
    ) {
        Run::Ask(request) => return Run::Ask(request),
        Run::Stop(error, next) => return Run::Stop(error, next),
        Run::Got(shelf, next) => (shelf, next),
    };
    match shared::bucket_mode(shelf.default_bucket_id, replies, next) {
        Run::Ask(request) => Run::Ask(request),
        Run::Stop(_, next) => make_persistent(
            shelf.default_bucket_id,
            false,
            permission_granted,
            replies,
            next,
        ),
        Run::Got(mode, next) => make_persistent(
            shelf.default_bucket_id,
            mode == Mode::Persistent,
            permission_granted,
            replies,
            next,
        ),
    }
}

/// Where estimating what an origin takes and may take stands.
pub open spec fn estimated(origin: Option<Seq<char>>, replies: Seq<ReplyView>) -> RunView<
    (u64, u64),
> {
    sql::and_then(
        shared::local_shelf(origin, replies, 0),
        |shelf: StorageShelf, next: int|
            sql::and_then(
                shared::usage(shelf.default_bucket_id, replies, next),
                |usage: u64, next: int|
                    sql::and_then(
                        sql::done(replies, next, RequestView::Commit),
                        |_u: (), next: int|
                            RunView::Got((usage, STORAGE_SHELF_QUOTA_BYTES), next),
                    ),
            ),
    )
}

/// Estimate how many bytes an origin takes, and how many it may take.
pub fn estimate(origin: &Option<String>, replies: &Vec<Reply>) -> (r: Run<(u64, u64)>)
    ensures
        r.deep_view() == estimated(shared::text_view(*origin), replies.deep_view()),
{
    let (shelf, next): (StorageShelf, usize) = match shared::obtain_a_local_storage_shelf(
        origin,
        replies,
        0,
    ) {
        Run::Ask(request) => return Run::Ask(request),
        Run::Stop(error, next) => return Run::Stop(error, next),
        Run::Got(shelf, next) => (shelf, next),
    };
    let (usage, next): (u64, usize) = match shared::storage_usage_for_bucket(
        shelf.default_bucket_id,
        replies,
        next,
    ) {
        Run::Ask(request) => return Run::Ask(request),
        Run::Stop(error, next) => return Run::Stop(error, next),
        Run::Got(usage, next) => (usage, next),
    };
    let quota: u64 = shared::storage_quota_for_bucket(shelf.default_bucket_id);
    match sql::ask(replies, next, Request::Commit) {
        Run::Ask(request) => Run::Ask(request),
        Run::Stop(error, next) => Run::Stop(error, next),
        Run::Got(_, next) => Run::Got((usage, quota), next),
    }
}

/// Storage is unavailable for opaque origins: nothing is asked for them.
pub proof fn law_opaque_origins_have_no_storage(granted: bool, replies: Seq<ReplyView>)
    ensures
        is_persisted(None, replies) == RunView::<bool>::Stop(ErrorView::OpaqueOrigin, 0),
        persist_run(None, granted, replies) == RunView::<bool>::Stop(ErrorView::OpaqueOrigin, 0),
        estimated(None, replies) == RunView::<(u64, u64)>::Stop(ErrorView::OpaqueOrigin, 0),
{
}

/// A bucket is reported persistent only where it was so before or permission was granted.
pub proof fn law_persistence_needs_permission(
    origin: Option<Seq<char>>,
    granted: bool,
    replies: Seq<ReplyView>,
    next: int,
)
    requires
        persist_run(origin, granted, replies) == RunView::<bool>::Got(true, next),
    ensures
        granted || exists|i: int|
            0 <= i < replies.len() && #[trigger] replies[i] == ReplyView::Text(
                Some(shared::mode_text(Mode::Persistent)),
            ),
{
    shared::lemma_local_shelf_advances(origin, replies, 0);
    match shared::local_shelf(origin, replies, 0) {
        RunView::Got(shelf, at) => {
            match shared::mode_of(shelf.default_bucket_id, replies, at) {
                RunView::Got(mode, _) => {
                    if mode == Mode::Persistent {
                        assert(replies[at] == ReplyView::Text(
                            Some(shared::mode_text(Mode::Persistent)),
                        ));
                    }
                },
                _ => {},
            }
        },
        _ => {},
    }
}

/// A database that is there already keeps its path, and no directory is made for it.
pub proof fn law_existing_database_keeps_its_path(
    bottle_id: i64,
    name: Seq<char>,
    path: Seq<char>,
    id: i64,
    existing: Seq<char>,
)
    ensures
        created(
            bottle_id,
            name,
            path,
            Seq::empty().push(ReplyView::Done).push(ReplyView::Int(Some(id))).push(
                ReplyView::Text(Some(existing)),
            ),
        ) == RunView::<(Seq<char>, bool)>::Got((existing, false), 3),
{
}

proof fn lemma_database_read(bottle: ValueView, name: ValueView)
    ensures
        sql::statement_view("SELECT id FROM databases WHERE bottle_id = ?1 AND name = ?2;"@, sql::two(bottle, name)) == condition::reading("id"@, "databases"@, seq![("bottle_id"@, bottle), ("name"@, name)], ";"@),
{
    reveal_strlit(";");
    reveal_strlit("id");
    reveal_strlit("name");
    reveal_strlit(" AND ");
    reveal_strlit(" FROM ");
    reveal_strlit(" WHERE ");
    reveal_strlit("SELECT ");
    reveal_strlit("bottle_id");
    reveal_strlit("databases");
    reveal_strlit("SELECT id FROM databases WHERE bottle_id = ?1 AND name = ?2;");
    condition::lemma_two_cells(("bottle_id"@, bottle), ("name"@, name), 1, " AND "@);
    assert("SELECT id FROM databases WHERE bottle_id = ?1 AND name = ?2;"@ =~= condition::reading("id"@, "databases"@, seq![("bottle_id"@, bottle), ("name"@, name)], ";"@).sql);
    assert(sql::two(bottle, name) =~= condition::reading("id"@, "databases"@, seq![("bottle_id"@, bottle), ("name"@, name)], ";"@).values);
}

proof fn lemma_database_added(bottle: ValueView, name: ValueView)
    ensures
        sql::statement_view("INSERT INTO databases (bottle_id, name) VALUES (?1, ?2) ON CONFLICT(bottle_id, name) DO UPDATE SET name = excluded.name;"@, sql::two(bottle, name)) == condition::insertion("databases"@, seq![("bottle_id"@, bottle), ("name"@, name)], " ON CONFLICT(bottle_id, name) DO UPDATE SET name = excluded.name;"@),
{
    reveal_strlit(")");
    reveal_strlit(" (");
    reveal_strlit("name");
    reveal_strlit("bottle_id");
    reveal_strlit("databases");
    reveal_strlit(") VALUES (");
    reveal_strlit("INSERT INTO ");
    reveal_strlit(" ON CONFLICT(bottle_id, name) DO UPDATE SET name = excluded.name;");
    reveal_strlit("INSERT INTO databases (bottle_id, name) VALUES (?1, ?2) ON CONFLICT(bottle_id, name) DO UPDATE SET name = excluded.name;");
    condition::lemma_two_cells(("bottle_id"@, bottle), ("name"@, name), 1, seq![]);
    assert("INSERT INTO databases (bottle_id, name) VALUES (?1, ?2) ON CONFLICT(bottle_id, name) DO UPDATE SET name = excluded.name;"@ =~= condition::insertion("databases"@, seq![("bottle_id"@, bottle), ("name"@, name)], " ON CONFLICT(bottle_id, name) DO UPDATE SET name = excluded.name;"@).sql);
    assert(sql::two(bottle, name) =~= condition::insertion("databases"@, seq![("bottle_id"@, bottle), ("name"@, name)], " ON CONFLICT(bottle_id, name) DO UPDATE SET name = excluded.name;"@).values);
}

proof fn lemma_path_read(database: ValueView)
    ensures
        sql::statement_view("SELECT path FROM directories WHERE database_id = ?1;"@, sql::one(database)) == condition::reading("path"@, "directories"@, seq![("database_id"@, database)], ";"@),
{
    reveal_strlit(";");
    reveal_strlit("path");
    reveal_strlit(" AND ");
    reveal_strlit(" FROM ");
    reveal_strlit(" WHERE ");
    reveal_strlit("SELECT ");
    reveal_strlit("database_id");
    reveal_strlit("directories");
    reveal_strlit("SELECT path FROM directories WHERE database_id = ?1;");
    condition::lemma_one_cell(("database_id"@, database), 1, " AND "@);
    assert("SELECT path FROM directories WHERE database_id = ?1;"@ =~= condition::reading("path"@, "directories"@, seq![("database_id"@, database)], ";"@).sql);
    assert(sql::one(database) =~= condition::reading("path"@, "directories"@, seq![("database_id"@, database)], ";"@).values);
}

proof fn lemma_directory_added(database: ValueView, path: ValueView)
    ensures
        sql::statement_view("INSERT INTO directories (database_id, path) VALUES (?1, ?2);"@, sql::two(database, path)) == condition::insertion("directories"@, seq![("database_id"@, database), ("path"@, path)], ";"@),
{
    reveal_strlit(")");
    reveal_strlit(";");
    reveal_strlit(" (");
    reveal_strlit("path");
    reveal_strlit(") VALUES (");
    reveal_strlit("database_id");
    reveal_strlit("directories");
    reveal_strlit("INSERT INTO ");
    reveal_strlit("INSERT INTO directories (database_id, path) VALUES (?1, ?2);");
    condition::lemma_two_cells(("database_id"@, database), ("path"@, path), 1, seq![]);
    assert("INSERT INTO directories (database_id, path) VALUES (?1, ?2);"@ =~= condition::insertion("directories"@, seq![("database_id"@, database), ("path"@, path)], ";"@).sql);
    assert(sql::two(database, path) =~= condition::insertion("directories"@, seq![("database_id"@, database), ("path"@, path)], ";"@).values);
}

proof fn lemma_directory_dropped(database: ValueView)
    ensures
        sql::statement_view("DELETE FROM directories WHERE database_id = ?1;"@, sql::one(database)) == condition::deletion("directories"@, seq![("database_id"@, database)]),
{
    reveal_strlit(";");
    reveal_strlit(" AND ");
    reveal_strlit(" WHERE ");
    reveal_strlit("database_id");
    reveal_strlit("directories");
    reveal_strlit("DELETE FROM ");
    reveal_strlit("DELETE FROM directories WHERE database_id = ?1;");
    condition::lemma_one_cell(("database_id"@, database), 1, " AND "@);
    assert("DELETE FROM directories WHERE database_id = ?1;"@ =~= condition::deletion("directories"@, seq![("database_id"@, database)]).sql);
    assert(sql::one(database) =~= condition::deletion("directories"@, seq![("database_id"@, database)]).values);
}

proof fn lemma_database_dropped(bottle: ValueView, name: ValueView)
    ensures
        sql::statement_view("DELETE FROM databases WHERE bottle_id = ?1 AND name = ?2;"@, sql::two(bottle, name)) == condition::deletion("databases"@, seq![("bottle_id"@, bottle), ("name"@, name)]),
{
    reveal_strlit(";");
    reveal_strlit("name");
    reveal_strlit(" AND ");
    reveal_strlit(" WHERE ");
    reveal_strlit("bottle_id");
    reveal_strlit("databases");
    reveal_strlit("DELETE FROM ");
    reveal_strlit("DELETE FROM databases WHERE bottle_id = ?1 AND name = ?2;");
    condition::lemma_two_cells(("bottle_id"@, bottle), ("name"@, name), 1, " AND "@);
    assert("DELETE FROM databases WHERE bottle_id = ?1 AND name = ?2;"@ =~= condition::deletion("databases"@, seq![("bottle_id"@, bottle), ("name"@, name)]).sql);
    assert(sql::two(bottle, name) =~= condition::deletion("databases"@, seq![("bottle_id"@, bottle), ("name"@, name)]).values);
}

proof fn lemma_bottle_read(bucket: ValueView, identifier: ValueView)
    ensures
        sql::statement_view("SELECT id FROM bottles WHERE bucket_id = ?1 AND identifier = ?2;"@, sql::two(bucket, identifier)) == condition::reading("id"@, "bottles"@, seq![("bucket_id"@, bucket), ("identifier"@, identifier)], ";"@),
{
    reveal_strlit(";");
    reveal_strlit("id");
    reveal_strlit(" AND ");
    reveal_strlit(" FROM ");
    reveal_strlit(" WHERE ");
    reveal_strlit("SELECT ");
    reveal_strlit("bottles");
    reveal_strlit("bucket_id");
    reveal_strlit("identifier");
    reveal_strlit("SELECT id FROM bottles WHERE bucket_id = ?1 AND identifier = ?2;");
    condition::lemma_two_cells(("bucket_id"@, bucket), ("identifier"@, identifier), 1, " AND "@);
    assert("SELECT id FROM bottles WHERE bucket_id = ?1 AND identifier = ?2;"@ =~= condition::reading("id"@, "bottles"@, seq![("bucket_id"@, bucket), ("identifier"@, identifier)], ";"@).sql);
    assert(sql::two(bucket, identifier) =~= condition::reading("id"@, "bottles"@, seq![("bucket_id"@, bucket), ("identifier"@, identifier)], ";"@).values);
}

/// How a database comes about: its row is added to its bottle and found again, its directory
/// is looked for, and where there is none its path is recorded and kept before the directory
/// itself is made. The path is the one that was given.
pub proof fn law_database_is_created(
    bottle_id: i64,
    name: Seq<char>,
    path: Seq<char>,
    id: i64,
)
    ensures
        ({
            let own = seq![
                ("bottle_id"@, ValueView::Int(bottle_id)),
                ("name"@, ValueView::Text(name)),
            ];
            let start = Seq::<ReplyView>::empty();
            let added = start.push(ReplyView::Done);
            let known = added.push(ReplyView::Int(Some(id)));
            let unplaced = known.push(ReplyView::Text(None));
            let placed = unplaced.push(ReplyView::Done);
            let kept = placed.push(ReplyView::Done);
            &&& created(bottle_id, name, path, start) == RunView::<(Seq<char>, bool)>::Ask(
                RequestView::Execute(
                    condition::insertion(
                        "databases"@,
                        own,
                        " ON CONFLICT(bottle_id, name) DO UPDATE SET name = excluded.name;"@,
                    ),
                ),
            )
            &&& created(bottle_id, name, path, added) == RunView::<(Seq<char>, bool)>::Ask(
                RequestView::QueryI64(condition::reading("id"@, "databases"@, own, ";"@)),
            )
            &&& created(bottle_id, name, path, known) == RunView::<(Seq<char>, bool)>::Ask(
                RequestView::QueryText(
                    condition::reading(
                        "path"@,
                        "directories"@,
                        seq![("database_id"@, ValueView::Int(id))],
                        ";"@,
                    ),
                ),
            )
            &&& created(bottle_id, name, path, unplaced) == RunView::<(Seq<char>, bool)>::Ask(
                RequestView::Execute(
                    condition::insertion(
                        "directories"@,
                        seq![
                            ("database_id"@, ValueView::Int(id)),
                            ("path"@, ValueView::Text(path)),
                        ],
                        ";"@,
                    ),
                ),
            )
            &&& created(bottle_id, name, path, placed) == RunView::<(Seq<char>, bool)>::Ask(
                RequestView::Commit,
            )
            &&& created(bottle_id, name, path, kept) == RunView::<(Seq<char>, bool)>::Ask(
                RequestView::CreateDirectory(path),
            )
            &&& created(bottle_id, name, path, kept.push(ReplyView::Done)) == RunView::<
                (Seq<char>, bool),
            >::Got((path, true), 6)
            &&& created(bottle_id, name, path, kept.push(ReplyView::Failed)) == RunView::<
                (Seq<char>, bool),
            >::Stop(ErrorView::DirectoryCreationFailed, 6)
        }),
{
    lemma_database_added(ValueView::Int(bottle_id), ValueView::Text(name));
    lemma_database_read(ValueView::Int(bottle_id), ValueView::Text(name));
    lemma_path_read(ValueView::Int(id));
    lemma_directory_added(ValueView::Int(id), ValueView::Text(path));
}

/// How a database goes: it is found by its bottle and its name, its directory by its number,
/// the row of the directory and then its own row are deleted, and only once that is kept is
/// the directory removed. A database that has no row left to delete was not there.
pub proof fn law_database_is_deleted(
    bottle_id: i64,
    name: Seq<char>,
    path: Seq<char>,
    id: i64,
    changes: i64,
)
    ensures
        ({
            let own = seq![
                ("bottle_id"@, ValueView::Int(bottle_id)),
                ("name"@, ValueView::Text(name)),
            ];
            let start = Seq::<ReplyView>::empty();
            let known = start.push(ReplyView::Int(Some(id)));
            &&& deleted(bottle_id, name, start) == RunView::<()>::Ask(
                RequestView::QueryI64(condition::reading("id"@, "databases"@, own, ";"@)),
            )
            &&& deleted(bottle_id, name, known) == RunView::<()>::Ask(
                RequestView::QueryText(
                    condition::reading(
                        "path"@,
                        "directories"@,
                        seq![("database_id"@, ValueView::Int(id))],
                        ";"@,
                    ),
                ),
            )
            &&& removal(id, bottle_id, name) == seq![
                condition::deletion("directories"@, seq![("database_id"@, ValueView::Int(id))]),
                condition::deletion("databases"@, own),
            ]
            &&& deleted(bottle_id, name, start.push(ReplyView::Int(None))) is Stop
            &&& deleted(bottle_id, name, known.push(ReplyView::Text(None))) is Stop
            &&& deleted(
                bottle_id,
                name,
                known.push(ReplyView::Text(Some(path))).push(ReplyView::Done).push(
                    ReplyView::Done,
                ).push(ReplyView::Int(Some(changes))),
            ) == if changes == 0 {
                RunView::<()>::Stop(ErrorView::DatabaseDoesNotExist, 5)
            } else {
                RunView::<()>::Ask(RequestView::Commit)
            }
        }),
{
    lemma_database_read(ValueView::Int(bottle_id), ValueView::Text(name));
    lemma_path_read(ValueView::Int(id));
    reveal_with_fuel(sql::all_done, 3);
    lemma_directory_dropped(ValueView::Int(id));
    lemma_database_dropped(ValueView::Int(bottle_id), ValueView::Text(name));
    let own = seq![("bottle_id"@, ValueView::Int(bottle_id)), ("name"@, ValueView::Text(name))];
    assert(removal(id, bottle_id, name) =~= seq![
        condition::deletion("directories"@, seq![("database_id"@, ValueView::Int(id))]),
        condition::deletion("databases"@, own),
    ]);
}

/// A directory is removed only after what was deleted is kept, and a failure is told.
pub proof fn law_directory_goes_last(path: Seq<char>, replies: Seq<ReplyView>)
    ensures
        directory_removed(path, replies, replies.len() as int) == RunView::<()>::Ask(
            RequestView::Commit,
        ),
        directory_removed(path, replies.push(ReplyView::Done), replies.len() as int) == RunView::<
            (),
        >::Ask(RequestView::RemoveDirectory(path)),
        directory_removed(
            path,
            replies.push(ReplyView::Done).push(ReplyView::Done),
            replies.len() as int,
        ) == RunView::<()>::Got((), replies.len() as int + 2),
        directory_removed(
            path,
            replies.push(ReplyView::Done).push(ReplyView::Failed),
            replies.len() as int,
        ) == RunView::<()>::Stop(ErrorView::DirectoryDeletionFailed, replies.len() as int + 2),
{
}

/// A database is kept below the base directory, in a directory of its name, grouped by the
/// last letter of that name.
pub proof fn law_path_of_a_database(base: Seq<char>, dir: Seq<char>)
    requires
        base.len() > 0 && base.last() != '/',
        dir.len() > 0 && dir[0] != '/' && dir.last() != '/',
    ensures
        path_of(base, dir) == base + "/bottles/"@ + seq![dir.last()] + "/"@ + dir,
{
    reveal_strlit("bottles");
    reveal_strlit("/bottles/");
    reveal_strlit("/");
    let group = dir.skip(dir.len() - 1);
    assert(group =~= seq![dir.last()]);
    let first = joined(base, "bottles"@);
    assert(first == base + "/"@ + "bottles"@);
    assert(first.last() == 's');
    let second = joined(first, group);
    assert(second == first + "/"@ + group);
    assert(second.last() == dir.last());
    assert(path_of(base, dir) =~= base + "/bottles/"@ + seq![dir.last()] + "/"@ + dir);
}

/// Session storage belongs to a window: without one there is none. Local storage does not ask
/// for one.
pub proof fn law_session_needs_a_window(
    webview: Option<Seq<char>>,
    context: Seq<char>,
    replies: Seq<ReplyView>,
)
    ensures
        shed_of(StorageType::Session, None, replies) == RunView::<i64>::Stop(
            ErrorView::SessionStorageRequiresWindow,
            0,
        ),
        shed_of(StorageType::Session, Some(context), replies) == shared::shed(
            StorageType::Session,
            Some(context),
            replies,
            0,
        ),
        shed_of(StorageType::Local, webview, replies) == shared::shed(
            StorageType::Local,
            None,
            replies,
            0,
        ),
{
}

/// A bottle is found by the bucket of its origin and by its endpoint.
pub proof fn law_bottle_is_found(
    storage_type: StorageType,
    webview: Option<Seq<char>>,
    identifier: StorageIdentifier,
    origin: Seq<char>,
    replies: Seq<ReplyView>,
    shed: i64,
    next: int,
    shelf: StorageShelf,
)
    requires
        shed_of(storage_type, webview, replies) == RunView::<i64>::Got(shed, next),
        shared::shelf(shed, origin, storage_type, replies, next) == RunView::<StorageShelf>::Got(
            shelf,
            replies.len() as int,
        ),
    ensures
        bottle(storage_type, webview, identifier, origin, replies) == RunView::<i64>::Ask(
            RequestView::QueryI64(
                condition::reading(
                    "id"@,
                    "bottles"@,
                    seq![
                        ("bucket_id"@, ValueView::Int(shelf.default_bucket_id)),
                        ("identifier"@, ValueView::Text(shared::identifier_text(identifier))),
                    ],
                    ";"@,
                ),
            ),
        ),
{
    lemma_bottle_read(
        ValueView::Int(shelf.default_bucket_id),
        ValueView::Text(shared::identifier_text(identifier)),
    );
}

/// Storage that is persistent stays so, storage that is not becomes so only with permission
/// and only where that could be kept, and without permission nothing is written.
pub proof fn law_persisting(
    bucket_id: i64,
    already: bool,
    granted: bool,
    replies: Seq<ReplyView>,
)
    ensures
        ({
            let at = replies.len() as int;
            &&& already || !granted ==> made_persistent(bucket_id, already, granted, replies, at)
                == RunView::<bool>::Ask(RequestView::Commit)
            &&& already || !granted ==> made_persistent(
                bucket_id,
                already,
                granted,
                replies.push(ReplyView::Done),
                at,
            ) == RunView::<bool>::Got(already, at + 1)
            &&& !already && granted ==> made_persistent(bucket_id, already, granted, replies, at)
                == RunView::<bool>::Ask(shared::set_mode_statement(bucket_id, Mode::Persistent))
            &&& !already && granted ==> made_persistent(
                bucket_id,
                already,
                granted,
                replies.push(ReplyView::Done).push(ReplyView::Done),
                at,
            ) == RunView::<bool>::Got(true, at + 2)
            &&& !already && granted ==> made_persistent(
                bucket_id,
                already,
                granted,
                replies.push(ReplyView::Failed).push(ReplyView::Done),
                at,
            ) == RunView::<bool>::Got(false, at + 2)
            &&& !already && granted ==> made_persistent(
                bucket_id,
                already,
                granted,
                replies.push(ReplyView::Done).push(ReplyView::Failed),
                at,
            ) == RunView::<bool>::Got(false, at + 2)
        }),
{
}

/// Storage is persisted exactly if the mode of its bucket says so and that could be kept.
pub proof fn law_persisted_is_the_mode(
    origin: Option<Seq<char>>,
    replies: Seq<ReplyView>,
    shelf: StorageShelf,
    mode: Mode,
)
    requires
        shared::local_shelf(origin, replies, 0) == RunView::<StorageShelf>::Got(
            shelf,
            replies.len() - 2,
        ),
        replies.len() >= 2,
        replies[replies.len() - 2] == ReplyView::Text(Some(shared::mode_text(mode))),
        replies.last() == ReplyView::Done,
    ensures
        is_persisted(origin, replies) matches RunView::Got(persisted, next) && (persisted <==> mode
            == Mode::Persistent),
{
    shared::law_mode_reads_back(mode);
}

/// An estimate is the usage of the bucket and the quota, which is ten gibibytes.
pub proof fn law_estimate(
    origin: Option<Seq<char>>,
    replies: Seq<ReplyView>,
    shelf: StorageShelf,
    usage: u64,
    next: int,
)
    requires
        shared::local_shelf(origin, replies, 0) == RunView::<StorageShelf>::Got(shelf, next),
        shared::usage(shelf.default_bucket_id, replies, next) == RunView::<u64>::Got(
            usage,
            replies.len() - 1,
        ),
        replies.len() >= 1,
        replies.last() == ReplyView::Done,
    ensures
        estimated(origin, replies) == RunView::<(u64, u64)>::Got(
            (usage, 10_737_418_240u64),
            replies.len() as int,
        ),
{
}

} // verus!
