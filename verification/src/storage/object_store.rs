//! The object stores and indexes of a database.
use vstd::prelude::*;

use crate::storage::condition;
use crate::storage::key_path;
use crate::storage::key_path::{KeyPath, KeyPathView};
use crate::storage::sql;
use crate::storage::sql::{ErrorView, MaybeBlob, Reply, ReplyView, RequestView, Run, RunView, SqlValue, Statement, StatementView, StorageError, ValueView};

verus! {

#[derive(Debug)]
pub struct ObjectStoreModel {
    pub id: i64,
    pub name: String,
    pub key_path: Option<Vec<u8>>,
    /// The current number of the key generator, or zero without one.
    pub auto_increment: i64,
}

pub struct StoreView {
    pub id: i64,
    pub name: Seq<char>,
    pub key_path: Option<Seq<u8>>,
    pub auto_increment: i64,
}

impl DeepView for ObjectStoreModel {
    type V = StoreView;

    open spec fn deep_view(&self) -> StoreView {
        StoreView {
            id: self.id,
            name: self.name@,
            key_path: sql::blob_view(self.key_path),
            auto_increment: self.auto_increment,
        }
    }
}

#[derive(Debug)]
pub struct ObjectStoreIndexModel {
    pub id: i64,
    pub object_store_id: i64,
    pub name: String,
    pub key_path: Vec<u8>,
    pub unique_index: bool,
    pub multi_entry_index: bool,
}

pub struct StoreIndexView {
    pub id: i64,
    pub object_store_id: i64,
    pub name: Seq<char>,
    pub key_path: Seq<u8>,
    pub unique_index: bool,
    pub multi_entry_index: bool,
}

impl DeepView for ObjectStoreIndexModel {
    type V = StoreIndexView;

    open spec fn deep_view(&self) -> StoreIndexView {
        StoreIndexView {
            id: self.id,
            object_store_id: self.object_store_id,
            name: self.name@,
            key_path: self.key_path@,
            unique_index: self.unique_index,
            multi_entry_index: self.multi_entry_index,
        }
    }
}

/// An index, as pages see it.
#[derive(Debug)]
pub struct IndexedDBIndex {
    pub name: String,
    pub key_path: KeyPath,
    pub unique: bool,
    pub multi_entry: bool,
}

pub struct IndexView {
    pub name: Seq<char>,
    pub key_path: KeyPathView,
    pub unique: bool,
    pub multi_entry: bool,
}

impl DeepView for IndexedDBIndex {
    type V = IndexView;

    open spec fn deep_view(&self) -> IndexView {
        IndexView {
            name: self.name@,
            key_path: self.key_path.deep_view(),
            unique: self.unique,
            multi_entry: self.multi_entry,
        }
    }
}

/// What became of the creation of a store or an index.
#[derive(Clone, Copy, Debug, PartialEq, Eq, Structural)]
pub enum CreateObjectResult {
    Created,
    AlreadyExists,
}

impl DeepView for CreateObjectResult {
    type V = CreateObjectResult;

    open spec fn deep_view(&self) -> CreateObjectResult {
        *self
    }
}

/// The statements that make the tables of a database.
pub open spec fn tables() -> Seq<StatementView> {
    Seq::empty().push(
        sql::statement_view(
            "
CREATE TABLE IF NOT EXISTS database (
    name    varchar          not null
        primary key,
    origin  varchar          not null,
    version bigint default 0 not null
) WITHOUT ROWID;"@,
            Seq::empty(),
        ),
    ).push(
        sql::statement_view(
            "
CREATE TABLE IF NOT EXISTS object_store (
    id             integer               not null
        primary key autoincrement,
    name           varchar               not null
        unique,
    key_path       varbinary_blob,
    auto_increment integer default FALSE not null
);"@,
            Seq::empty(),
        ),
    ).push(
        sql::statement_view(
            "
CREATE TABLE IF NOT EXISTS object_data (
    object_store_id integer not null
        references object_store,
    key             blob    not null,
    data            blob    not null,
    constraint \"pk-object_data\"
        primary key (object_store_id, key)
) WITHOUT ROWID;"@,
            Seq::empty(),
        ),
    ).push(
        sql::statement_view(
            "
CREATE TABLE IF NOT EXISTS object_store_index (
    id                integer        not null
    primary key autoincrement,
    object_store_id   integer        not null
    references object_store,
    name              varchar        not null
    unique,
    key_path          varbinary_blob not null,
    unique_index      boolean        not null,
    multi_entry_index boolean        not null
);"@,
            Seq::empty(),
        ),
    ).push(
        sql::statement_view(
            "
CREATE TABLE IF NOT EXISTS index_data (
    index_id INTEGER NOT NULL,
    value BLOB NOT NULL,
    object_data_key BLOB NOT NULL,
    object_store_id INTEGER NOT NULL,
    value_locale BLOB,
    PRIMARY KEY (index_id, value, object_data_key)
    FOREIGN KEY (index_id) REFERENCES object_store_index(id),
    FOREIGN KEY (object_store_id, object_data_key)
    REFERENCES object_data(object_store_id, key)
) WITHOUT ROWID;"@,
            Seq::empty(),
        ),
    ).push(
        sql::statement_view(
            "
CREATE TABLE IF NOT EXISTS unique_index_data (
    index_id INTEGER NOT NULL,
    value BLOB NOT NULL,
    object_store_id INTEGER NOT NULL,
    object_data_key BLOB NOT NULL,
    value_locale BLOB,
    PRIMARY KEY (index_id, value),
    FOREIGN KEY (index_id) REFERENCES object_store_index(id),
    FOREIGN KEY (object_store_id, object_data_key)
    REFERENCES object_data(object_store_id, key)
) WITHOUT ROWID;"@,
            Seq::empty(),
        ),
    )
}

fn plus(statements: Vec<Statement>, text: &str) -> (r: Vec<Statement>)
    ensures
        r.deep_view() == statements.deep_view().push(sql::statement_view(text@, Seq::empty())),
{
    sql::with_statement(statements, sql::statement(text, sql::no_values()))
}

fn create_tables() -> (r: Vec<Statement>)
    ensures
        r.deep_view() == tables(),
{
    let r: Vec<Statement> = sql::no_statements();
    let r: Vec<Statement> = plus(
        r,
        "
CREATE TABLE IF NOT EXISTS database (
    name    varchar          not null
        primary key,
    origin  varchar          not null,
    version bigint default 0 not null
) WITHOUT ROWID;",
    );
    let r: Vec<Statement> = plus(
        r,
        "
CREATE TABLE IF NOT EXISTS object_store (
    id             integer               not null
        primary key autoincrement,
    name           varchar               not null
        unique,
    key_path       varbinary_blob,
    auto_increment integer default FALSE not null
);",
    );
    let r: Vec<Statement> = plus(
        r,
        "
CREATE TABLE IF NOT EXISTS object_data (
    object_store_id integer not null
        references object_store,
    key             blob    not null,
    data            blob    not null,
    constraint \"pk-object_data\"
        primary key (object_store_id, key)
) WITHOUT ROWID;",
    );
    let r: Vec<Statement> = plus(
        r,
        "
CREATE TABLE IF NOT EXISTS object_store_index (
    id                integer        not null
    primary key autoincrement,
    object_store_id   integer        not null
    references object_store,
    name              varchar        not null
    unique,
    key_path          varbinary_blob not null,
    unique_index      boolean        not null,
    multi_entry_index boolean        not null
);",
    );
    let r: Vec<Statement> = plus(
        r,
        "
CREATE TABLE IF NOT EXISTS index_data (
    index_id INTEGER NOT NULL,
    value BLOB NOT NULL,
    object_data_key BLOB NOT NULL,
    object_store_id INTEGER NOT NULL,
    value_locale BLOB,
    PRIMARY KEY (index_id, value, object_data_key)
    FOREIGN KEY (index_id) REFERENCES object_store_index(id),
    FOREIGN KEY (object_store_id, object_data_key)
    REFERENCES object_data(object_store_id, key)
) WITHOUT ROWID;",
    );
    plus(
        r,
        "
CREATE TABLE IF NOT EXISTS unique_index_data (
    index_id INTEGER NOT NULL,
    value BLOB NOT NULL,
    object_store_id INTEGER NOT NULL,
    object_data_key BLOB NOT NULL,
    value_locale BLOB,
    PRIMARY KEY (index_id, value),
    FOREIGN KEY (index_id) REFERENCES object_store_index(id),
    FOREIGN KEY (object_store_id, object_data_key)
    REFERENCES object_data(object_store_id, key)
) WITHOUT ROWID;",
    )
}

/// Where setting a database up stands. Its description is recorded once.
pub open spec fn initialized(
    name: Seq<char>,
    origin: Seq<char>,
    replies: Seq<ReplyView>,
) -> RunView<()> {
    sql::and_then(
        sql::all_done(replies, 0, tables()),
        |_u: (), next: int|
            sql::and_then(
                sql::number(
                    replies,
                    next,
                    sql::query_view("SELECT version FROM database LIMIT 1;"@, Seq::empty()),
                ),
                |version: Option<i64>, next: int|
                    match version {
                        Some(_) => RunView::Got((), next),
                        None => sql::done(
                            replies,
                            next,
                            sql::execute_view(
                                "INSERT INTO database (name, origin, version) VALUES (?1, ?2, ?3);"@,
                                sql::three(
                                    ValueView::Text(name),
                                    ValueView::Text(origin),
                                    ValueView::Int(0),
                                ),
                            ),
                        ),
                    },
            ),
    )
}

/// Set a database of an origin up.
pub fn init_db(name: &str, origin: &str, replies: &Vec<Reply>) -> (r: Run<()>)
    ensures
        r.deep_view() == initialized(name@, origin@, replies.deep_view()),
{
    let next: usize = match sql::execute_all(replies, 0, &create_tables()) {
        Run::Ask(request) => return Run::Ask(request),
        Run::Stop(error, next) => return Run::Stop(error, next),
        Run::Got(_, next) => next,
    };
    match sql::query_optional_i64(
        replies,
        next,
        "SELECT version FROM database LIMIT 1;",
        sql::no_values(),
    ) {
        Run::Ask(request) => Run::Ask(request),
        Run::Stop(error, next) => Run::Stop(error, next),
        Run::Got(Some(_), next) => Run::Got((), next),
        Run::Got(None, next) => sql::execute(
            replies,
            next,
            "INSERT INTO database (name, origin, version) VALUES (?1, ?2, ?3);",
            sql::with_int(sql::with_text(sql::with_text(sql::no_values(), name), origin), 0),
        ),
    }
}

/// Where looking an object store up stands.
pub open spec fn store(name: Seq<char>, replies: Seq<ReplyView>, at: int) -> RunView<
    Option<StoreView>,
> {
    let values = sql::one(ValueView::Text(name));
    sql::and_then(
        sql::number(
            replies,
            at,
            sql::query_view("SELECT id FROM object_store WHERE name = ?1 LIMIT 1;"@, values),
        ),
        |id: Option<i64>, next: int|
            match id {
                None => RunView::Got(None, next),
                Some(id) => sql::and_then(
                    sql::required_number(
                        replies,
                        next,
                        sql::query_view(
                            "SELECT auto_increment FROM object_store WHERE name = ?1 LIMIT 1;"@,
                            values,
                        ),
                        "object_store.auto_increment"@,
                    ),
                    |auto_increment: i64, next: int|
                        sql::and_then(
                            sql::blob(
                                replies,
                                next,
                                RequestView::QueryBlob(
                                    sql::statement_view(
                                        "SELECT key_path FROM object_store WHERE name = ?1 LIMIT 1;"@,
                                        values,
                                    ),
                                ),
                            ),
                            |key_path: Option<Seq<u8>>, next: int|
                                RunView::Got(
                                    Some(StoreView { id, name, key_path, auto_increment }),
                                    next,
                                ),
                        ),
                ),
            },
    )
}

/// Look an object store up.
pub fn object_store_by_name(store_name: &str, replies: &Vec<Reply>, at: usize) -> (r: Run<
    Option<ObjectStoreModel>,
>)
    requires
        at <= replies@.len(),
    ensures
        r.deep_view() == store(store_name@, replies.deep_view(), at as int),
        r matches Run::Got(_, next) ==> next <= replies@.len(),
        r matches Run::Stop(_, next) ==> next <= replies@.len(),
{
    let (id, next): (i64, usize) = match sql::query_optional_i64(
        replies,
        at,
        "SELECT id FROM object_store WHERE name = ?1 LIMIT 1;",
        sql::with_text(sql::no_values(), store_name),
    ) {
        Run::Ask(request) => return Run::Ask(request),
        Run::Stop(error, next) => return Run::Stop(error, next),
        Run::Got(None, next) => return Run::Got(None, next),
        Run::Got(Some(id), next) => (id, next),
    };
    let (auto_increment, next): (i64, usize) = match sql::query_required_i64(
        replies,
        next,
        "SELECT auto_increment FROM object_store WHERE name = ?1 LIMIT 1;",
        sql::with_text(sql::no_values(), store_name),
        "object_store.auto_increment",
    ) {
        Run::Ask(request) => return Run::Ask(request),
        Run::Stop(error, next) => return Run::Stop(error, next),
        Run::Got(auto_increment, next) => (auto_increment, next),
    };
    match sql::query_optional_blob(
        replies,
        next,
        "SELECT key_path FROM object_store WHERE name = ?1 LIMIT 1;",
        sql::with_text(sql::no_values(), store_name),
    ) {
        Run::Ask(request) => Run::Ask(request),
        Run::Stop(error, next) => Run::Stop(error, next),
        Run::Got(MaybeBlob(key_path), next) => Run::Got(
            Some(ObjectStoreModel { id, name: store_name.to_owned(), key_path, auto_increment }),
            next,
        ),
    }
}

/// Where looking an object store up stands that has to be there.
pub open spec fn required_store(name: Seq<char>, replies: Seq<ReplyView>, at: int) -> RunView<
    StoreView,
> {
    sql::and_then(
        store(name, replies, at),
        |found: Option<StoreView>, next: int|
            match found {
                Some(found) => RunView::Got(found, next),
                None => RunView::Stop(ErrorView::MissingRow("object store lookup"@), next),
            },
    )
}

/// Look an object store up that has to be there.
pub fn object_store_by_name_required(store_name: &str, replies: &Vec<Reply>, at: usize) -> (r: Run<
    ObjectStoreModel,
>)
    requires
        at <= replies@.len(),
    ensures
        r.deep_view() == required_store(store_name@, replies.deep_view(), at as int),
        r matches Run::Got(_, next) ==> next <= replies@.len(),
        r matches Run::Stop(_, next) ==> next <= replies@.len(),
{
    match object_store_by_name(store_name, replies, at) {
        Run::Ask(request) => Run::Ask(request),
        Run::Stop(error, next) => Run::Stop(error, next),
        Run::Got(Some(store), next) => Run::Got(store, next),
        Run::Got(None, next) => Run::Stop(
            StorageError::MissingRow("object store lookup".to_owned()),
            next,
        ),
    }
}

/// List the names of the object stores, in the order in which they were made.
pub fn object_store_names(replies: &Vec<Reply>) -> (r: Run<Vec<String>>)
    ensures
        r.deep_view() == sql::texts(
            replies.deep_view(),
            0,
            RequestView::ListText(
                sql::statement_view("SELECT name FROM object_store ORDER BY id;"@, Seq::empty()),
            ),
        ),
{
    sql::list_text(
        replies,
        0,
        "SELECT name FROM object_store ORDER BY id;",
        sql::no_values(),
    )
}

/// Where looking an index of a store up stands.
pub open spec fn store_index(
    store_id: i64,
    name: Seq<char>,
    replies: Seq<ReplyView>,
    at: int,
) -> RunView<Option<StoreIndexView>> {
    let values = sql::two(ValueView::Int(store_id), ValueView::Text(name));
    sql::and_then(
        sql::number(
            replies,
            at,
            sql::query_view(
                "SELECT id FROM object_store_index WHERE object_store_id = ?1 AND name = ?2 LIMIT 1;"@,
                values,
            ),
        ),
        |id: Option<i64>, next: int|
            match id {
                None => RunView::Got(None, next),
                Some(id) => sql::and_then(
                    index_path(values, replies, next),
                    |key_path: Seq<u8>, next: int|
                        sql::and_then(
                            index_flags(values, replies, next),
                            |flags: (bool, bool), next: int|
                                RunView::Got(
                                    Some(
                                        StoreIndexView {
                                            id,
                                            object_store_id: store_id,
                                            name,
                                            key_path,
                                            unique_index: flags.0,
                                            multi_entry_index: flags.1,
                                        },
                                    ),
                                    next,
                                ),
                        ),
                ),
            },
    )
}

/// Where reading the key path of an index stands.
pub open spec fn index_path(
    values: Seq<ValueView>,
    replies: Seq<ReplyView>,
    at: int,
) -> RunView<Seq<u8>> {
    sql::and_then(
        sql::blob(
            replies,
            at,
            RequestView::QueryBlob(
                sql::statement_view(
                    "SELECT key_path FROM object_store_index WHERE object_store_id = ?1 AND name = ?2 LIMIT 1;"@,
                    values,
                ),
            ),
        ),
        |key_path: Option<Seq<u8>>, next: int|
            match key_path {
                Some(key_path) => RunView::Got(key_path, next),
                None => RunView::Stop(ErrorView::MissingRow("object_store_index.key_path"@), next),
            },
    )
}

/// Where reading whether an index is unique, and whether it has several entries for one
/// item, stands.
pub open spec fn index_flags(
    values: Seq<ValueView>,
    replies: Seq<ReplyView>,
    at: int,
) -> RunView<(bool, bool)> {
    sql::and_then(
        sql::required_number(
            replies,
            at,
            sql::query_view(
                "SELECT unique_index FROM object_store_index WHERE object_store_id = ?1 AND name = ?2 LIMIT 1;"@,
                values,
            ),
            "object_store_index.unique_index"@,
        ),
        |unique: i64, next: int|
            sql::and_then(
                sql::required_number(
                    replies,
                    next,
                    sql::query_view(
                        "SELECT multi_entry_index FROM object_store_index WHERE object_store_id = ?1 AND name = ?2 LIMIT 1;"@,
                        values,
                    ),
                    "object_store_index.multi_entry_index"@,
                ),
                |multi_entry: i64, next: int| RunView::Got((unique != 0, multi_entry != 0), next),
            ),
    )
}

fn index_values(store_id: i64, index_name: &str) -> (r: Vec<SqlValue>)
    ensures
        r.deep_view() == sql::two(ValueView::Int(store_id), ValueView::Text(index_name@)),
{
    sql::with_text(sql::with_int(sql::no_values(), store_id), index_name)
}

/// Look an index of a store up.
pub fn object_store_index_by_name(
    store_id: i64,
    index_name: &str,
    replies: &Vec<Reply>,
    at: usize,
) -> (r: Run<Option<ObjectStoreIndexModel>>)
    requires
        at <= replies@.len(),
    ensures
        r.deep_view() == store_index(store_id, index_name@, replies.deep_view(), at as int),
        r matches Run::Got(_, next) ==> next <= replies@.len(),
        r matches Run::Stop(_, next) ==> next <= replies@.len(),
{
    let (id, next): (i64, usize) = match sql::query_optional_i64(
        replies,
        at,
        "SELECT id FROM object_store_index WHERE object_store_id = ?1 AND name = ?2 LIMIT 1;",
        index_values(store_id, index_name),
    ) {
        Run::Ask(request) => return Run::Ask(request),
        Run::Stop(error, next) => return Run::Stop(error, next),
        Run::Got(None, next) => return Run::Got(None, next),
        Run::Got(Some(id), next) => (id, next),
    };
    let (key_path, next): (Vec<u8>, usize) = match sql::query_optional_blob(
        replies,
        next,
        "SELECT key_path FROM object_store_index WHERE object_store_id = ?1 AND name = ?2 LIMIT 1;",
        index_values(store_id, index_name),
    ) {
        Run::Ask(request) => return Run::Ask(request),
        Run::Stop(error, next) => return Run::Stop(error, next),
        Run::Got(MaybeBlob(None), next) => return Run::Stop(
            StorageError::MissingRow("object_store_index.key_path".to_owned()),
            next,
        ),
        Run::Got(MaybeBlob(Some(key_path)), next) => (key_path, next),
    };
    let (unique, next): (i64, usize) = match sql::query_required_i64(
        replies,
        next,
        "SELECT unique_index FROM object_store_index WHERE object_store_id = ?1 AND name = ?2 LIMIT 1;",
        index_values(store_id, index_name),
        "object_store_index.unique_index",
    ) {
        Run::Ask(request) => return Run::Ask(request),
        Run::Stop(error, next) => return Run::Stop(error, next),
        Run::Got(unique, next) => (unique, next),
    };
    match sql::query_required_i64(
        replies,
        next,
        "SELECT multi_entry_index FROM object_store_index WHERE object_store_id = ?1 AND name = ?2 LIMIT 1;",
        index_values(store_id, index_name),
        "object_store_index.multi_entry_index",
    ) {
        Run::Ask(request) => Run::Ask(request),
        Run::Stop(error, next) => Run::Stop(error, next),
        Run::Got(multi_entry, next) => Run::Got(
            Some(
                ObjectStoreIndexModel {
                    id,
                    object_store_id: store_id,
                    name: index_name.to_owned(),
                    key_path,
                    unique_index: unique != 0,
                    multi_entry_index: multi_entry != 0,
                },
            ),
            next,
        ),
    }
}

/// Where looking an index up stands that has to be there.
pub open spec fn required_index(
    store_id: i64,
    name: Seq<char>,
    replies: Seq<ReplyView>,
    at: int,
) -> RunView<StoreIndexView> {
    sql::and_then(
        store_index(store_id, name, replies, at),
        |found: Option<StoreIndexView>, next: int|
            match found {
                Some(found) => RunView::Got(found, next),
                None => RunView::Stop(ErrorView::MissingRow("object store index lookup"@), next),
            },
    )
}

/// Look an index of a store up that has to be there.
pub fn object_store_index_by_name_required(
    store_id: i64,
    index_name: &str,
    replies: &Vec<Reply>,
    at: usize,
) -> (r: Run<ObjectStoreIndexModel>)
    requires
        at <= replies@.len(),
    ensures
        r.deep_view() == required_index(store_id, index_name@, replies.deep_view(), at as int),
        r matches Run::Got(_, next) ==> next <= replies@.len(),
        r matches Run::Stop(_, next) ==> next <= replies@.len(),
{
    match object_store_index_by_name(store_id, index_name, replies, at) {
        Run::Ask(request) => Run::Ask(request),
        Run::Stop(error, next) => Run::Stop(error, next),
        Run::Got(Some(index), next) => Run::Got(index, next),
        Run::Got(None, next) => Run::Stop(
            StorageError::MissingRow("object store index lookup".to_owned()),
            next,
        ),
    }
}

/// Where reading one index of a store stands.
pub open spec fn one_index(
    store_id: i64,
    name: Seq<char>,
    replies: Seq<ReplyView>,
    at: int,
) -> RunView<IndexView> {
    sql::and_then(
        required_index(store_id, name, replies, at),
        |model: StoreIndexView, next: int|
            match key_path::key_path_in(model.key_path) {
                Some(path) => RunView::Got(
                    IndexView {
                        name: model.name,
                        key_path: path,
                        unique: model.unique_index,
                        multi_entry: model.multi_entry_index,
                    },
                    next,
                ),
                None => RunView::Stop(ErrorView::KeyPath, next),
            },
    )
}

fn read_index(store_id: i64, name: &str, replies: &Vec<Reply>, at: usize) -> (r: Run<
    IndexedDBIndex,
>)
    requires
        at <= replies@.len(),
    ensures
        r.deep_view() == one_index(store_id, name@, replies.deep_view(), at as int),
        r matches Run::Got(_, next) ==> next <= replies@.len(),
        r matches Run::Stop(_, next) ==> next <= replies@.len(),
{
    match object_store_index_by_name_required(store_id, name, replies, at) {
        Run::Ask(request) => Run::Ask(request),
        Run::Stop(error, next) => Run::Stop(error, next),
        Run::Got(model, next) => match key_path::decode_key_path(model.key_path.as_slice()) {
            Ok(path) => Run::Got(
                IndexedDBIndex {
                    name: model.name,
                    key_path: path,
                    unique: model.unique_index,
                    multi_entry: model.multi_entry_index,
                },
                next,
            ),
            Err(error) => Run::Stop(error, next),
        },
    }
}

/// Where reading indexes with the given names stands, after some of them were read.
pub open spec fn indexes_named(
    store_id: i64,
    names: Seq<Seq<char>>,
    read: Seq<IndexView>,
    replies: Seq<ReplyView>,
    at: int,
) -> RunView<Seq<IndexView>>
    decreases names.len(),
{
    if names.len() == 0 {
        RunView::Got(read, at)
    } else {
        match one_index(store_id, names[0], replies, at) {
            RunView::Ask(request) => RunView::Ask(request),
            RunView::Stop(error, next) => RunView::Stop(error, next),
            RunView::Got(index, next) => indexes_named(
                store_id,
                names.skip(1),
                read.push(index),
                replies,
                next,
            ),
        }
    }
}

/// Where reading the indexes of a store stands.
pub open spec fn store_indexes(name: Seq<char>, replies: Seq<ReplyView>) -> RunView<
    Seq<IndexView>,
> {
    sql::and_then(
        required_store(name, replies, 0),
        |found: StoreView, next: int|
            sql::and_then(
                sql::texts(
                    replies,
                    next,
                    RequestView::ListText(
                        sql::statement_view(
                            "SELECT name FROM object_store_index WHERE object_store_id = ?1 ORDER BY id;"@,
                            sql::one(ValueView::Int(found.id)),
                        ),
                    ),
                ),
                |names: Seq<Seq<char>>, next: int|
                    indexes_named(found.id, names, Seq::empty(), replies, next),
            ),
    )
}

/// Read the indexes of a store, in the order in which they were made.
pub fn indexes(store_name: &str, replies: &Vec<Reply>) -> (r: Run<Vec<IndexedDBIndex>>)
    ensures
        r.deep_view() == store_indexes(store_name@, replies.deep_view()),
{
    let (found, next): (ObjectStoreModel, usize) = match object_store_by_name_required(
        store_name,
        replies,
        0,
    ) {
        Run::Ask(request) => return Run::Ask(request),
        Run::Stop(error, next) => return Run::Stop(error, next),
        Run::Got(found, next) => (found, next),
    };
    let (names, next): (Vec<String>, usize) = match sql::list_text(
        replies,
        next,
        "SELECT name FROM object_store_index WHERE object_store_id = ?1 ORDER BY id;",
        sql::with_int(sql::no_values(), found.id),
    ) {
        Run::Ask(request) => return Run::Ask(request),
        Run::Stop(error, next) => return Run::Stop(error, next),
        Run::Got(names, next) => (names, next),
    };
    let ghost all = names.deep_view();
    let ghost start = next;
    let mut at: usize = next;
    let mut read: Vec<IndexedDBIndex> = Vec::new();
    let mut i: usize = 0;
    assert(all.skip(0) =~= all);
    assert(read.deep_view() =~= Seq::<IndexView>::empty());
    while i < names.len()
        invariant
            i <= names@.len(),
            all == names.deep_view(),
            at <= replies@.len(),
            store_indexes(store_name@, replies.deep_view()) == indexes_named(
                found.id,
                all,
                Seq::empty(),
                replies.deep_view(),
                start as int,
            ),
            indexes_named(found.id, all, Seq::empty(), replies.deep_view(), start as int)
                == indexes_named(
                found.id,
                all.skip(i as int),
                read.deep_view(),
                replies.deep_view(),
                at as int,
            ),
        decreases names@.len() - i,
    {
        assert(all.skip(i as int)[0] == names@[i as int]@);
        assert(all.skip(i as int).skip(1) =~= all.skip(i + 1));
        let ghost before = read.deep_view();
        match read_index(found.id, names[i].as_str(), replies, at) {
            Run::Ask(request) => return Run::Ask(request),
            Run::Stop(error, next) => return Run::Stop(error, next),
            Run::Got(index, next) => {
                let ghost one = index.deep_view();
                read.push(index);
                assert(read.deep_view() =~= before.push(one));
                at = next;
            },
        }
        i += 1;
    }
    Run::Got(read, at)
}

/// The current number of a key generator, if there is one.
pub open spec fn generator_number(found: Option<StoreView>) -> Option<i64> {
    match found {
        Some(found) => if found.auto_increment != 0 {
            Some(found.auto_increment)
        } else {
            None
        },
        None => None,
    }
}

/// Where reading the current number of a key generator stands.
pub open spec fn generator(name: Seq<char>, replies: Seq<ReplyView>) -> RunView<Option<i64>> {
    sql::and_then(
        store(name, replies, 0),
        |found: Option<StoreView>, next: int| RunView::Got(generator_number(found), next),
    )
}

/// Read the current number of the key generator of a store, if it has one.
pub fn key_generator_current_number(store_name: &str, replies: &Vec<Reply>) -> (r: Run<Option<i64>>)
    ensures
        r.deep_view() == generator(store_name@, replies.deep_view()),
{
    match object_store_by_name(store_name, replies, 0) {
        Run::Ask(request) => Run::Ask(request),
        Run::Stop(error, next) => Run::Stop(error, next),
        Run::Got(Some(store), next) => Run::Got(
            if store.auto_increment != 0 {
                Some(store.auto_increment)
            } else {
                None
            },
            next,
        ),
        Run::Got(None, next) => Run::Got(None, next),
    }
}

/// Where checking how many rows the last statement changed stands.
pub open spec fn rows_affected(
    expected: i64,
    context: Seq<char>,
    replies: Seq<ReplyView>,
    at: int,
) -> RunView<()> {
    sql::and_then(
        sql::number(replies, at, sql::query_view("SELECT changes();"@, Seq::empty())),
        |n: Option<i64>, next: int|
            if n == Some(expected) || (n is None && expected == 0) {
                RunView::Got((), next)
            } else {
                RunView::Stop(ErrorView::MissingRow(context), next)
            },
    )
}

fn ensure_rows_affected(
    expected: i64,
    context: &str,
    replies: &Vec<Reply>,
    at: usize,
) -> (r: Run<()>)
    requires
        at <= replies@.len(),
    ensures
        r.deep_view() == rows_affected(expected, context@, replies.deep_view(), at as int),
{
    match sql::query_optional_i64(replies, at, "SELECT changes();", sql::no_values()) {
        Run::Ask(request) => Run::Ask(request),
        Run::Stop(error, next) => Run::Stop(error, next),
        Run::Got(n, next) => {
            let affected: i64 = match n {
                Some(n) => n,
                None => 0,
            };
            if affected == expected {
                Run::Got((), next)
            } else {
                Run::Stop(StorageError::MissingRow(context.to_owned()), next)
            }
        },
    }
}

/// Where setting the current number of a key generator stands.
pub open spec fn generator_set(name: Seq<char>, number: i64, replies: Seq<ReplyView>) -> RunView<
    (),
> {
    sql::and_then(
        required_store(name, replies, 0),
        |found: StoreView, next: int|
            sql::and_then(
                sql::done(
                    replies,
                    next,
                    sql::execute_view(
                        "UPDATE object_store SET auto_increment = ?1 WHERE id = ?2;"@,
                        sql::two(ValueView::Int(number), ValueView::Int(found.id)),
                    ),
                ),
                |_u: (), next: int| rows_affected(1, "key generator update"@, replies, next),
            ),
    )
}

/// Set the current number of the key generator of a store.
pub fn set_key_generator_current_number(
    store_name: &str,
    current_number: i64,
    replies: &Vec<Reply>,
) -> (r: Run<()>)
    ensures
        r.deep_view() == generator_set(store_name@, current_number, replies.deep_view()),
{
    let (found, next): (ObjectStoreModel, usize) = match object_store_by_name_required(
        store_name,
        replies,
        0,
    ) {
        Run::Ask(request) => return Run::Ask(request),
        Run::Stop(error, next) => return Run::Stop(error, next),
        Run::Got(found, next) => (found, next),
    };
    match sql::execute(
        replies,
        next,
        "UPDATE object_store SET auto_increment = ?1 WHERE id = ?2;",
        sql::with_int(sql::with_int(sql::no_values(), current_number), found.id),
    ) {
        Run::Ask(request) => Run::Ask(request),
        Run::Stop(error, next) => Run::Stop(error, next),
        Run::Got(_, next) => ensure_rows_affected(1, "key generator update", replies, next),
    }
}

/// Where reading the key path of a store stands.
pub open spec fn store_path(name: Seq<char>, replies: Seq<ReplyView>) -> RunView<
    Option<KeyPathView>,
> {
    sql::and_then(
        store(name, replies, 0),
        |found: Option<StoreView>, next: int|
            match found {
                Some(found) => match found.key_path {
                    Some(data) => match key_path::key_path_in(data) {
                        Some(path) => RunView::Got(Some(path), next),
                        None => RunView::Stop(ErrorView::KeyPath, next),
                    },
                    None => RunView::Got(None, next),
                },
                None => RunView::Got(None, next),
            },
    )
}

/// Read the key path of a store, if it has one.
pub fn key_path(store_name: &str, replies: &Vec<Reply>) -> (r: Run<Option<KeyPath>>)
    ensures
        r.deep_view() == store_path(store_name@, replies.deep_view()),
{
    match object_store_by_name(store_name, replies, 0) {
        Run::Ask(request) => Run::Ask(request),
        Run::Stop(error, next) => Run::Stop(error, next),
        Run::Got(Some(store), next) => match store.key_path {
            Some(data) => match key_path::decode_key_path(data.as_slice()) {
                Ok(path) => Run::Got(Some(path), next),
                Err(error) => Run::Stop(error, next),
            },
            None => Run::Got(None, next),
        },
        Run::Got(None, next) => Run::Got(None, next),
    }
}

/// The bound value of a key path, if there is one.
pub open spec fn path_value(path: Option<KeyPathView>) -> ValueView {
    match path {
        Some(path) => ValueView::Blob(key_path::key_path_bytes(path)),
        None => ValueView::Null,
    }
}

pub open spec fn flag(b: bool) -> i64 {
    if b {
        1
    } else {
        0
    }
}

fn flag_of(b: bool) -> (r: i64)
    ensures
        r == flag(b),
{
    if b {
        1
    } else {
        0
    }
}

/// Where the creation of an object store stands. One that is there already is no error.
pub open spec fn store_created(
    name: Seq<char>,
    path: Option<KeyPathView>,
    auto_increment: bool,
    replies: Seq<ReplyView>,
) -> RunView<CreateObjectResult> {
    sql::and_then(
        store(name, replies, 0),
        |found: Option<StoreView>, next: int|
            match found {
                Some(_) => RunView::Got(CreateObjectResult::AlreadyExists, next),
                None => sql::and_then(
                    sql::done(
                        replies,
                        next,
                        sql::execute_view(
                            "INSERT INTO object_store (name, key_path, auto_increment) VALUES (?1, ?2, ?3);"@,
                            sql::three(
                                ValueView::Text(name),
                                path_value(path),
                                ValueView::Int(flag(auto_increment)),
                            ),
                        ),
                    ),
                    |_u: (), next: int| RunView::Got(CreateObjectResult::Created, next),
                ),
            },
    )
}

/// Create an object store.
pub fn create_store(
    store_name: &str,
    key_path: &Option<KeyPath>,
    auto_increment: bool,
    replies: &Vec<Reply>,
) -> (r: Run<CreateObjectResult>)
    ensures
        r.deep_view() == store_created(
            store_name@,
            key_path.deep_view(),
            auto_increment,
            replies.deep_view(),
        ),
{
    let next: usize = match object_store_by_name(store_name, replies, 0) {
        Run::Ask(request) => return Run::Ask(request),
        Run::Stop(error, next) => return Run::Stop(error, next),
        Run::Got(Some(_), next) => return Run::Got(CreateObjectResult::AlreadyExists, next),
        Run::Got(None, next) => next,
    };
    let named: Vec<SqlValue> = sql::with_text(sql::no_values(), store_name);
    let values: Vec<SqlValue> = match key_path {
        Some(path) => match key_path::encode_key_path(path) {
            Ok(encoded) => sql::with_blob(named, &encoded),
            Err(error) => return Run::Stop(error, next),
        },
        None => sql::with(named, SqlValue::Null),
    };
    match sql::execute(
        replies,
        next,
        "INSERT INTO object_store (name, key_path, auto_increment) VALUES (?1, ?2, ?3);",
        sql::with_int(values, flag_of(auto_increment)),
    ) {
        Run::Ask(request) => Run::Ask(request),
        Run::Stop(error, next) => Run::Stop(error, next),
        Run::Got(_, next) => Run::Got(CreateObjectResult::Created, next),
    }
}

/// The statements that take an object store away, with all that belongs to it.
pub open spec fn removal(id: i64) -> Seq<StatementView> {
    let values = sql::one(ValueView::Int(id));
    Seq::empty().push(
        sql::statement_view("DELETE FROM index_data WHERE object_store_id = ?1;"@, values),
    ).push(
        sql::statement_view("DELETE FROM unique_index_data WHERE object_store_id = ?1;"@, values),
    ).push(
        sql::statement_view("DELETE FROM object_store_index WHERE object_store_id = ?1;"@, values),
    ).push(
        sql::statement_view("DELETE FROM object_data WHERE object_store_id = ?1;"@, values),
    ).push(sql::statement_view("DELETE FROM object_store WHERE id = ?1;"@, values))
}

/// Where the deletion of an object store stands.
pub open spec fn store_deleted(name: Seq<char>, replies: Seq<ReplyView>) -> RunView<()> {
    sql::and_then(
        required_store(name, replies, 0),
        |found: StoreView, next: int|
            sql::and_then(
                sql::all_done(replies, next, removal(found.id)),
                |_u: (), next: int| rows_affected(1, "object store delete"@, replies, next),
            ),
    )
}

fn remove_by(statements: Vec<Statement>, text: &str, id: i64) -> (r: Vec<Statement>)
    ensures
        r.deep_view() == statements.deep_view().push(
            sql::statement_view(text@, sql::one(ValueView::Int(id))),
        ),
{
    sql::with_statement(statements, sql::statement(text, sql::with_int(sql::no_values(), id)))
}

/// Delete an object store, with its indexes and items.
pub fn delete_store(store_name: &str, replies: &Vec<Reply>) -> (r: Run<()>)
    ensures
        r.deep_view() == store_deleted(store_name@, replies.deep_view()),
{
    let (found, next): (ObjectStoreModel, usize) = match object_store_by_name_required(
        store_name,
        replies,
        0,
    ) {
        Run::Ask(request) => return Run::Ask(request),
        Run::Stop(error, next) => return Run::Stop(error, next),
        Run::Got(found, next) => (found, next),
    };
    let r: Vec<Statement> = sql::no_statements();
    let r: Vec<Statement> = remove_by(
        r,
        "DELETE FROM index_data WHERE object_store_id = ?1;",
        found.id,
    );
    let r: Vec<Statement> = remove_by(
        r,
        "DELETE FROM unique_index_data WHERE object_store_id = ?1;",
        found.id,
    );
    let r: Vec<Statement> = remove_by(
        r,
        "DELETE FROM object_store_index WHERE object_store_id = ?1;",
        found.id,
    );
    let r: Vec<Statement> = remove_by(
        r,
        "DELETE FROM object_data WHERE object_store_id = ?1;",
        found.id,
    );
    let r: Vec<Statement> = remove_by(r, "DELETE FROM object_store WHERE id = ?1;", found.id);
    match sql::execute_all(replies, next, &r) {
        Run::Ask(request) => Run::Ask(request),
        Run::Stop(error, next) => Run::Stop(error, next),
        Run::Got(_, next) => ensure_rows_affected(1, "object store delete", replies, next),
    }
}

/// Where the creation of an index stands. One that is there already is no error.
pub open spec fn index_created(
    store_name: Seq<char>,
    name: Seq<char>,
    path: KeyPathView,
    unique: bool,
    multi_entry: bool,
    replies: Seq<ReplyView>,
) -> RunView<CreateObjectResult> {
    sql::and_then(
        required_store(store_name, replies, 0),
        |found: StoreView, next: int|
            sql::and_then(
                store_index(found.id, name, replies, next),
                |index: Option<StoreIndexView>, next: int|
                    match index {
                        Some(_) => RunView::Got(CreateObjectResult::AlreadyExists, next),
                        None => sql::and_then(
                            sql::done(
                                replies,
                                next,
                                sql::execute_view(
                                    "INSERT INTO object_store_index (object_store_id, name, key_path, unique_index, multi_entry_index) VALUES (?1, ?2, ?3, ?4, ?5);"@,
                                    sql::three(
                                        ValueView::Int(found.id),
                                        ValueView::Text(name),
                                        path_value(Some(path)),
                                    ).push(ValueView::Int(flag(unique))).push(
                                        ValueView::Int(flag(multi_entry)),
                                    ),
                                ),
                            ),
                            |_u: (), next: int| RunView::Got(CreateObjectResult::Created, next),
                        ),
                    },
            ),
    )
}

/// Create an index of an object store.
pub fn create_index(
    store_name: &str,
    index_name: &str,
    key_path: &KeyPath,
    unique: bool,
    multi_entry: bool,
    replies: &Vec<Reply>,
) -> (r: Run<CreateObjectResult>)
    ensures
        r.deep_view() == index_created(
            store_name@,
            index_name@,
            key_path.deep_view(),
            unique,
            multi_entry,
            replies.deep_view(),
        ),
{
    let (found, next): (ObjectStoreModel, usize) = match object_store_by_name_required(
        store_name,
        replies,
        0,
    ) {
        Run::Ask(request) => return Run::Ask(request),
        Run::Stop(error, next) => return Run::Stop(error, next),
        Run::Got(found, next) => (found, next),
    };
    let next: usize = match object_store_index_by_name(found.id, index_name, replies, next) {
        Run::Ask(request) => return Run::Ask(request),
        Run::Stop(error, next) => return Run::Stop(error, next),
        Run::Got(Some(_), next) => return Run::Got(CreateObjectResult::AlreadyExists, next),
        Run::Got(None, next) => next,
    };
    let encoded: Vec<u8> = match key_path::encode_key_path(key_path) {
        Ok(encoded) => encoded,
        Err(error) => return Run::Stop(error, next),
    };
    let values: Vec<SqlValue> = sql::with_blob(index_values(found.id, index_name), &encoded);
    match sql::execute(
        replies,
        next,
        "INSERT INTO object_store_index (object_store_id, name, key_path, unique_index, multi_entry_index) VALUES (?1, ?2, ?3, ?4, ?5);",
        sql::with_int(sql::with_int(values, flag_of(unique)), flag_of(multi_entry)),
    ) {
        Run::Ask(request) => Run::Ask(request),
        Run::Stop(error, next) => Run::Stop(error, next),
        Run::Got(_, next) => Run::Got(CreateObjectResult::Created, next),
    }
}

/// Where renaming an index stands.
pub open spec fn index_renamed(
    store_name: Seq<char>,
    name: Seq<char>,
    new_name: Seq<char>,
    replies: Seq<ReplyView>,
) -> RunView<()> {
    sql::and_then(
        required_store(store_name, replies, 0),
        |found: StoreView, next: int|
            sql::done(
                replies,
                next,
                sql::execute_view(
                    "UPDATE object_store_index SET name = ?1 WHERE name = ?2 AND object_store_id = ?3;"@,
                    sql::three(
                        ValueView::Text(new_name),
                        ValueView::Text(name),
                        ValueView::Int(found.id),
                    ),
                ),
            ),
    )
}

/// Rename an index. Renaming an index that does not exist is not an error.
pub fn rename_index(
    store_name: &str,
    index_name: &str,
    new_name: &str,
    replies: &Vec<Reply>,
) -> (r: Run<()>)
    ensures
        r.deep_view() == index_renamed(
            store_name@,
            index_name@,
            new_name@,
            replies.deep_view(),
        ),
{
    match object_store_by_name_required(store_name, replies, 0) {
        Run::Ask(request) => Run::Ask(request),
        Run::Stop(error, next) => Run::Stop(error, next),
        Run::Got(found, next) => sql::execute(
            replies,
            next,
            "UPDATE object_store_index SET name = ?1 WHERE name = ?2 AND object_store_id = ?3;",
            sql::with_int(
                sql::with_text(sql::with_text(sql::no_values(), new_name), index_name),
                found.id,
            ),
        ),
    }
}

/// Where the deletion of an index stands.
pub open spec fn index_deleted(
    store_name: Seq<char>,
    name: Seq<char>,
    replies: Seq<ReplyView>,
) -> RunView<()> {
    sql::and_then(
        required_store(store_name, replies, 0),
        |found: StoreView, next: int|
            sql::done(
                replies,
                next,
                sql::execute_view(
                    "DELETE FROM object_store_index WHERE name = ?1 AND object_store_id = ?2;"@,
                    sql::two(ValueView::Text(name), ValueView::Int(found.id)),
                ),
            ),
    )
}

/// Delete an index of an object store.
pub fn delete_index(store_name: &str, index_name: &str, replies: &Vec<Reply>) -> (r: Run<()>)
    ensures
        r.deep_view() == index_deleted(store_name@, index_name@, replies.deep_view()),
{
    match object_store_by_name_required(store_name, replies, 0) {
        Run::Ask(request) => Run::Ask(request),
        Run::Stop(error, next) => Run::Stop(error, next),
        Run::Got(found, next) => sql::execute(
            replies,
            next,
            "DELETE FROM object_store_index WHERE name = ?1 AND object_store_id = ?2;",
            sql::with_int(sql::with_text(sql::no_values(), index_name), found.id),
        ),
    }
}

/// Where reading the version of a database stands. It is stored as a signed number with
/// the same bits.
pub open spec fn version_read(replies: Seq<ReplyView>) -> RunView<u64> {
    sql::and_then(
        sql::required_number(
            replies,
            0,
            sql::query_view("SELECT version FROM database LIMIT 1;"@, Seq::empty()),
            "database version lookup"@,
        ),
        |n: i64, next: int| RunView::Got(n as u64, next),
    )
}

/// Read the version of a database.
pub fn version(replies: &Vec<Reply>) -> (r: Run<u64>)
    ensures
        r.deep_view() == version_read(replies.deep_view()),
{
    match sql::query_required_i64(
        replies,
        0,
        "SELECT version FROM database LIMIT 1;",
        sql::no_values(),
        "database version lookup",
    ) {
        Run::Ask(request) => Run::Ask(request),
        Run::Stop(error, next) => Run::Stop(error, next),
        Run::Got(n, next) => Run::Got(n as u64, next),
    }
}

/// The number that a version is stored as.
pub open spec fn stored_version(version: u64) -> i64 {
    version as i64
}

/// Where setting the version of a database stands.
pub open spec fn version_set(version: u64, replies: Seq<ReplyView>) -> RunView<()> {
    sql::and_then(
        sql::number(
            replies,
            0,
            sql::query_view("SELECT 1 FROM database LIMIT 1;"@, Seq::empty()),
        ),
        |n: Option<i64>, next: int|
            match n {
                None => RunView::Stop(ErrorView::MissingRow("database version update"@), next),
                Some(_) => sql::done(
                    replies,
                    next,
                    sql::execute_view(
                        "UPDATE database SET version = ?1;"@,
                        sql::one(ValueView::Int(stored_version(version))),
                    ),
                ),
            },
    )
}

/// Set the version of a database.
pub fn set_version(version: u64, replies: &Vec<Reply>) -> (r: Run<()>)
    ensures
        r.deep_view() == version_set(version, replies.deep_view()),
{
    match sql::query_optional_i64(
        replies,
        0,
        "SELECT 1 FROM database LIMIT 1;",
        sql::no_values(),
    ) {
        Run::Ask(request) => Run::Ask(request),
        Run::Stop(error, next) => Run::Stop(error, next),
        Run::Got(None, next) => Run::Stop(
            StorageError::MissingRow("database version update".to_owned()),
            next,
        ),
        Run::Got(Some(_), next) => sql::execute(
            replies,
            next,
            "UPDATE database SET version = ?1;",
            sql::with_int(sql::no_values(), version as i64),
        ),
    }
}

/// A version that was set is read back, the largest too.
pub proof fn law_version_reads_back(version: u64)
    ensures
        version_read(Seq::empty().push(ReplyView::Int(Some(stored_version(version)))))
            == RunView::<u64>::Got(version, 1),
{
    assert((version as i64) as u64 == version) by (bit_vector);
}

/// Creating what is there already changes nothing: no statement is carried out.
pub proof fn law_creating_again_is_no_error(
    name: Seq<char>,
    path: Option<KeyPathView>,
    auto_increment: bool,
    id: i64,
    number: i64,
    stored: Option<Seq<u8>>,
)
    ensures
        store_created(
            name,
            path,
            auto_increment,
            Seq::empty().push(ReplyView::Int(Some(id))).push(ReplyView::Int(Some(number))).push(
                ReplyView::Blob(stored),
            ),
        ) == RunView::<CreateObjectResult>::Got(CreateObjectResult::AlreadyExists, 3),
{
}

/// The key path that a store was created with is the one that is read, if the stored
/// bytes come back.
pub proof fn law_key_path_reads_back(
    name: Seq<char>,
    path: KeyPathView,
    data: Seq<u8>,
    id: i64,
    number: i64,
)
    ensures
        key_path::key_path_in(data) == Some(path) ==> store_path(
            name,
            Seq::empty().push(ReplyView::Int(Some(id))).push(ReplyView::Int(Some(number))).push(
                ReplyView::Blob(Some(data)),
            ),
        ) == RunView::<Option<KeyPathView>>::Got(Some(path), 3),
{
}

proof fn lemma_store_id_read(name: ValueView)
    ensures
        sql::statement_view("SELECT id FROM object_store WHERE name = ?1 LIMIT 1;"@, sql::one(name)) == condition::reading("id"@, "object_store"@, seq![("name"@, name)], " LIMIT 1;"@),
{
    reveal_strlit("id");
    reveal_strlit("name");
    reveal_strlit(" AND ");
    reveal_strlit(" FROM ");
    reveal_strlit(" WHERE ");
    reveal_strlit("SELECT ");
    reveal_strlit(" LIMIT 1;");
    reveal_strlit("object_store");
    reveal_strlit("SELECT id FROM object_store WHERE name = ?1 LIMIT 1;");
    condition::lemma_one_cell(("name"@, name), 1, " AND "@);
    assert("SELECT id FROM object_store WHERE name = ?1 LIMIT 1;"@ =~= condition::reading("id"@, "object_store"@, seq![("name"@, name)], " LIMIT 1;"@).sql);
    assert(sql::one(name) =~= condition::reading("id"@, "object_store"@, seq![("name"@, name)], " LIMIT 1;"@).values);
}

proof fn lemma_store_number_read(name: ValueView)
    ensures
        sql::statement_view("SELECT auto_increment FROM object_store WHERE name = ?1 LIMIT 1;"@, sql::one(name)) == condition::reading("auto_increment"@, "object_store"@, seq![("name"@, name)], " LIMIT 1;"@),
{
    reveal_strlit("name");
    reveal_strlit(" AND ");
    reveal_strlit(" FROM ");
    reveal_strlit(" WHERE ");
    reveal_strlit("SELECT ");
    reveal_strlit(" LIMIT 1;");
    reveal_strlit("object_store");
    reveal_strlit("auto_increment");
    reveal_strlit("SELECT auto_increment FROM object_store WHERE name = ?1 LIMIT 1;");
    condition::lemma_one_cell(("name"@, name), 1, " AND "@);
    assert("SELECT auto_increment FROM object_store WHERE name = ?1 LIMIT 1;"@ =~= condition::reading("auto_increment"@, "object_store"@, seq![("name"@, name)], " LIMIT 1;"@).sql);
    assert(sql::one(name) =~= condition::reading("auto_increment"@, "object_store"@, seq![("name"@, name)], " LIMIT 1;"@).values);
}

proof fn lemma_store_path_read(name: ValueView)
    ensures
        sql::statement_view("SELECT key_path FROM object_store WHERE name = ?1 LIMIT 1;"@, sql::one(name)) == condition::reading("key_path"@, "object_store"@, seq![("name"@, name)], " LIMIT 1;"@),
{
    reveal_strlit("name");
    reveal_strlit(" AND ");
    reveal_strlit(" FROM ");
    reveal_strlit(" WHERE ");
    reveal_strlit("SELECT ");
    reveal_strlit("key_path");
    reveal_strlit(" LIMIT 1;");
    reveal_strlit("object_store");
    reveal_strlit("SELECT key_path FROM object_store WHERE name = ?1 LIMIT 1;");
    condition::lemma_one_cell(("name"@, name), 1, " AND "@);
    assert("SELECT key_path FROM object_store WHERE name = ?1 LIMIT 1;"@ =~= condition::reading("key_path"@, "object_store"@, seq![("name"@, name)], " LIMIT 1;"@).sql);
    assert(sql::one(name) =~= condition::reading("key_path"@, "object_store"@, seq![("name"@, name)], " LIMIT 1;"@).values);
}

proof fn lemma_index_id_read(own: ValueView, name: ValueView)
    ensures
        sql::statement_view("SELECT id FROM object_store_index WHERE object_store_id = ?1 AND name = ?2 LIMIT 1;"@, sql::two(own, name)) == condition::reading("id"@, "object_store_index"@, seq![("object_store_id"@, own), ("name"@, name)], " LIMIT 1;"@),
{
    reveal_strlit("id");
    reveal_strlit("name");
    reveal_strlit(" AND ");
    reveal_strlit(" FROM ");
    reveal_strlit(" WHERE ");
    reveal_strlit("SELECT ");
    reveal_strlit(" LIMIT 1;");
    reveal_strlit("object_store_id");
    reveal_strlit("object_store_index");
    reveal_strlit("SELECT id FROM object_store_index WHERE object_store_id = ?1 AND name = ?2 LIMIT 1;");
    condition::lemma_two_cells(("object_store_id"@, own), ("name"@, name), 1, " AND "@);
    assert("SELECT id FROM object_store_index WHERE object_store_id = ?1 AND name = ?2 LIMIT 1;"@ =~= condition::reading("id"@, "object_store_index"@, seq![("object_store_id"@, own), ("name"@, name)], " LIMIT 1;"@).sql);
    assert(sql::two(own, name) =~= condition::reading("id"@, "object_store_index"@, seq![("object_store_id"@, own), ("name"@, name)], " LIMIT 1;"@).values);
}

proof fn lemma_index_path_read(own: ValueView, name: ValueView)
    ensures
        sql::statement_view("SELECT key_path FROM object_store_index WHERE object_store_id = ?1 AND name = ?2 LIMIT 1;"@, sql::two(own, name)) == condition::reading("key_path"@, "object_store_index"@, seq![("object_store_id"@, own), ("name"@, name)], " LIMIT 1;"@),
{
    reveal_strlit("name");
    reveal_strlit(" AND ");
    reveal_strlit(" FROM ");
    reveal_strlit(" WHERE ");
    reveal_strlit("SELECT ");
    reveal_strlit("key_path");
    reveal_strlit(" LIMIT 1;");
    reveal_strlit("object_store_id");
    reveal_strlit("object_store_index");
    reveal_strlit("SELECT key_path FROM object_store_index WHERE object_store_id = ?1 AND name = ?2 LIMIT 1;");
    condition::lemma_two_cells(("object_store_id"@, own), ("name"@, name), 1, " AND "@);
    assert("SELECT key_path FROM object_store_index WHERE object_store_id = ?1 AND name = ?2 LIMIT 1;"@ =~= condition::reading("key_path"@, "object_store_index"@, seq![("object_store_id"@, own), ("name"@, name)], " LIMIT 1;"@).sql);
    assert(sql::two(own, name) =~= condition::reading("key_path"@, "object_store_index"@, seq![("object_store_id"@, own), ("name"@, name)], " LIMIT 1;"@).values);
}

proof fn lemma_index_unique_read(own: ValueView, name: ValueView)
    ensures
        sql::statement_view("SELECT unique_index FROM object_store_index WHERE object_store_id = ?1 AND name = ?2 LIMIT 1;"@, sql::two(own, name)) == condition::reading("unique_index"@, "object_store_index"@, seq![("object_store_id"@, own), ("name"@, name)], " LIMIT 1;"@),
{
    reveal_strlit("name");
    reveal_strlit(" AND ");
    reveal_strlit(" FROM ");
    reveal_strlit(" WHERE ");
    reveal_strlit("SELECT ");
    reveal_strlit(" LIMIT 1;");
    reveal_strlit("unique_index");
    reveal_strlit("object_store_id");
    reveal_strlit("object_store_index");
    reveal_strlit("SELECT unique_index FROM object_store_index WHERE object_store_id = ?1 AND name = ?2 LIMIT 1;");
    condition::lemma_two_cells(("object_store_id"@, own), ("name"@, name), 1, " AND "@);
    assert("SELECT unique_index FROM object_store_index WHERE object_store_id = ?1 AND name = ?2 LIMIT 1;"@ =~= condition::reading("unique_index"@, "object_store_index"@, seq![("object_store_id"@, own), ("name"@, name)], " LIMIT 1;"@).sql);
    assert(sql::two(own, name) =~= condition::reading("unique_index"@, "object_store_index"@, seq![("object_store_id"@, own), ("name"@, name)], " LIMIT 1;"@).values);
}

proof fn lemma_index_multi_read(own: ValueView, name: ValueView)
    ensures
        sql::statement_view("SELECT multi_entry_index FROM object_store_index WHERE object_store_id = ?1 AND name = ?2 LIMIT 1;"@, sql::two(own, name)) == condition::reading("multi_entry_index"@, "object_store_index"@, seq![("object_store_id"@, own), ("name"@, name)], " LIMIT 1;"@),
{
    reveal_strlit("name");
    reveal_strlit(" AND ");
    reveal_strlit(" FROM ");
    reveal_strlit(" WHERE ");
    reveal_strlit("SELECT ");
    reveal_strlit(" LIMIT 1;");
    reveal_strlit("object_store_id");
    reveal_strlit("multi_entry_index");
    reveal_strlit("object_store_index");
    reveal_strlit("SELECT multi_entry_index FROM object_store_index WHERE object_store_id = ?1 AND name = ?2 LIMIT 1;");
    condition::lemma_two_cells(("object_store_id"@, own), ("name"@, name), 1, " AND "@);
    assert("SELECT multi_entry_index FROM object_store_index WHERE object_store_id = ?1 AND name = ?2 LIMIT 1;"@ =~= condition::reading("multi_entry_index"@, "object_store_index"@, seq![("object_store_id"@, own), ("name"@, name)], " LIMIT 1;"@).sql);
    assert(sql::two(own, name) =~= condition::reading("multi_entry_index"@, "object_store_index"@, seq![("object_store_id"@, own), ("name"@, name)], " LIMIT 1;"@).values);
}

proof fn lemma_store_added(name: ValueView, path: ValueView, number: ValueView)
    ensures
        sql::statement_view("INSERT INTO object_store (name, key_path, auto_increment) VALUES (?1, ?2, ?3);"@, sql::three(name, path, number)) == condition::insertion("object_store"@, seq![("name"@, name), ("key_path"@, path), ("auto_increment"@, number)], ";"@),
{
    reveal_strlit(")");
    reveal_strlit(";");
    reveal_strlit(" (");
    reveal_strlit("name");
    reveal_strlit("key_path");
    reveal_strlit(") VALUES (");
    reveal_strlit("INSERT INTO ");
    reveal_strlit("object_store");
    reveal_strlit("auto_increment");
    reveal_strlit("INSERT INTO object_store (name, key_path, auto_increment) VALUES (?1, ?2, ?3);");
    condition::lemma_three_cells(("name"@, name), ("key_path"@, path), ("auto_increment"@, number));
    assert("INSERT INTO object_store (name, key_path, auto_increment) VALUES (?1, ?2, ?3);"@ =~= condition::insertion("object_store"@, seq![("name"@, name), ("key_path"@, path), ("auto_increment"@, number)], ";"@).sql);
    assert(sql::three(name, path, number) =~= condition::insertion("object_store"@, seq![("name"@, name), ("key_path"@, path), ("auto_increment"@, number)], ";"@).values);
}

proof fn lemma_database_added(name: ValueView, origin: ValueView, number: ValueView)
    ensures
        sql::statement_view("INSERT INTO database (name, origin, version) VALUES (?1, ?2, ?3);"@, sql::three(name, origin, number)) == condition::insertion("database"@, seq![("name"@, name), ("origin"@, origin), ("version"@, number)], ";"@),
{
    reveal_strlit(")");
    reveal_strlit(";");
    reveal_strlit(" (");
    reveal_strlit("name");
    reveal_strlit("origin");
    reveal_strlit("version");
    reveal_strlit("database");
    reveal_strlit(") VALUES (");
    reveal_strlit("INSERT INTO ");
    reveal_strlit("INSERT INTO database (name, origin, version) VALUES (?1, ?2, ?3);");
    condition::lemma_three_cells(("name"@, name), ("origin"@, origin), ("version"@, number));
    assert("INSERT INTO database (name, origin, version) VALUES (?1, ?2, ?3);"@ =~= condition::insertion("database"@, seq![("name"@, name), ("origin"@, origin), ("version"@, number)], ";"@).sql);
    assert(sql::three(name, origin, number) =~= condition::insertion("database"@, seq![("name"@, name), ("origin"@, origin), ("version"@, number)], ";"@).values);
}

proof fn lemma_index_added(own: ValueView, name: ValueView, path: ValueView, unique: ValueView, multi: ValueView)
    ensures
        sql::statement_view("INSERT INTO object_store_index (object_store_id, name, key_path, unique_index, multi_entry_index) VALUES (?1, ?2, ?3, ?4, ?5);"@, sql::three(own, name, path).push(unique).push(multi)) == condition::insertion("object_store_index"@, seq![("object_store_id"@, own), ("name"@, name), ("key_path"@, path), ("unique_index"@, unique), ("multi_entry_index"@, multi)], ";"@),
{
    reveal_strlit(")");
    reveal_strlit(";");
    reveal_strlit(" (");
    reveal_strlit("name");
    reveal_strlit("key_path");
    reveal_strlit(") VALUES (");
    reveal_strlit("INSERT INTO ");
    reveal_strlit("unique_index");
    reveal_strlit("object_store_id");
    reveal_strlit("multi_entry_index");
    reveal_strlit("object_store_index");
    reveal_strlit("INSERT INTO object_store_index (object_store_id, name, key_path, unique_index, multi_entry_index) VALUES (?1, ?2, ?3, ?4, ?5);");
    condition::lemma_five_cells(("object_store_id"@, own), ("name"@, name), ("key_path"@, path), ("unique_index"@, unique), ("multi_entry_index"@, multi));
    assert("INSERT INTO object_store_index (object_store_id, name, key_path, unique_index, multi_entry_index) VALUES (?1, ?2, ?3, ?4, ?5);"@ =~= condition::insertion("object_store_index"@, seq![("object_store_id"@, own), ("name"@, name), ("key_path"@, path), ("unique_index"@, unique), ("multi_entry_index"@, multi)], ";"@).sql);
    assert(sql::three(own, name, path).push(unique).push(multi) =~= condition::insertion("object_store_index"@, seq![("object_store_id"@, own), ("name"@, name), ("key_path"@, path), ("unique_index"@, unique), ("multi_entry_index"@, multi)], ";"@).values);
}

proof fn lemma_number_changed(number: ValueView, own: ValueView)
    ensures
        sql::statement_view("UPDATE object_store SET auto_increment = ?1 WHERE id = ?2;"@, sql::two(number, own)) == condition::change("object_store"@, seq![("auto_increment"@, number)], seq![("id"@, own)]),
{
    reveal_strlit(";");
    reveal_strlit(", ");
    reveal_strlit("id");
    reveal_strlit(" AND ");
    reveal_strlit(" SET ");
    reveal_strlit(" WHERE ");
    reveal_strlit("UPDATE ");
    reveal_strlit("object_store");
    reveal_strlit("auto_increment");
    reveal_strlit("UPDATE object_store SET auto_increment = ?1 WHERE id = ?2;");
    condition::lemma_one_cell(("auto_increment"@, number), 1, ", "@);
    condition::lemma_one_cell(("id"@, own), 2, " AND "@);
    assert("UPDATE object_store SET auto_increment = ?1 WHERE id = ?2;"@ =~= condition::change("object_store"@, seq![("auto_increment"@, number)], seq![("id"@, own)]).sql);
    assert(sql::two(number, own) =~= condition::change("object_store"@, seq![("auto_increment"@, number)], seq![("id"@, own)]).values);
}

proof fn lemma_name_changed(fresh: ValueView, name: ValueView, own: ValueView)
    ensures
        sql::statement_view("UPDATE object_store_index SET name = ?1 WHERE name = ?2 AND object_store_id = ?3;"@, sql::three(fresh, name, own)) == condition::change("object_store_index"@, seq![("name"@, fresh)], seq![("name"@, name), ("object_store_id"@, own)]),
{
    reveal_strlit(";");
    reveal_strlit(", ");
    reveal_strlit("name");
    reveal_strlit(" AND ");
    reveal_strlit(" SET ");
    reveal_strlit(" WHERE ");
    reveal_strlit("UPDATE ");
    reveal_strlit("object_store_id");
    reveal_strlit("object_store_index");
    reveal_strlit("UPDATE object_store_index SET name = ?1 WHERE name = ?2 AND object_store_id = ?3;");
    condition::lemma_one_cell(("name"@, fresh), 1, ", "@);
    condition::lemma_two_cells(("name"@, name), ("object_store_id"@, own), 2, " AND "@);
    assert("UPDATE object_store_index SET name = ?1 WHERE name = ?2 AND object_store_id = ?3;"@ =~= condition::change("object_store_index"@, seq![("name"@, fresh)], seq![("name"@, name), ("object_store_id"@, own)]).sql);
    assert(sql::three(fresh, name, own) =~= condition::change("object_store_index"@, seq![("name"@, fresh)], seq![("name"@, name), ("object_store_id"@, own)]).values);
}

proof fn lemma_index_dropped(name: ValueView, own: ValueView)
    ensures
        sql::statement_view("DELETE FROM object_store_index WHERE name = ?1 AND object_store_id = ?2;"@, sql::two(name, own)) == condition::deletion("object_store_index"@, seq![("name"@, name), ("object_store_id"@, own)]),
{
    reveal_strlit(";");
    reveal_strlit("name");
    reveal_strlit(" AND ");
    reveal_strlit(" WHERE ");
    reveal_strlit("DELETE FROM ");
    reveal_strlit("object_store_id");
    reveal_strlit("object_store_index");
    reveal_strlit("DELETE FROM object_store_index WHERE name = ?1 AND object_store_id = ?2;");
    condition::lemma_two_cells(("name"@, name), ("object_store_id"@, own), 1, " AND "@);
    assert("DELETE FROM object_store_index WHERE name = ?1 AND object_store_id = ?2;"@ =~= condition::deletion("object_store_index"@, seq![("name"@, name), ("object_store_id"@, own)]).sql);
    assert(sql::two(name, own) =~= condition::deletion("object_store_index"@, seq![("name"@, name), ("object_store_id"@, own)]).values);
}

proof fn lemma_index_data_dropped(own: ValueView)
    ensures
        sql::statement_view("DELETE FROM index_data WHERE object_store_id = ?1;"@, sql::one(own)) == condition::deletion("index_data"@, seq![("object_store_id"@, own)]),
{
    reveal_strlit(";");
    reveal_strlit(" AND ");
    reveal_strlit(" WHERE ");
    reveal_strlit("index_data");
    reveal_strlit("DELETE FROM ");
    reveal_strlit("object_store_id");
    reveal_strlit("DELETE FROM index_data WHERE object_store_id = ?1;");
    condition::lemma_one_cell(("object_store_id"@, own), 1, " AND "@);
    assert("DELETE FROM index_data WHERE object_store_id = ?1;"@ =~= condition::deletion("index_data"@, seq![("object_store_id"@, own)]).sql);
    assert(sql::one(own) =~= condition::deletion("index_data"@, seq![("object_store_id"@, own)]).values);
}

proof fn lemma_unique_data_dropped(own: ValueView)
    ensures
        sql::statement_view("DELETE FROM unique_index_data WHERE object_store_id = ?1;"@, sql::one(own)) == condition::deletion("unique_index_data"@, seq![("object_store_id"@, own)]),
{
    reveal_strlit(";");
    reveal_strlit(" AND ");
    reveal_strlit(" WHERE ");
    reveal_strlit("DELETE FROM ");
    reveal_strlit("object_store_id");
    reveal_strlit("unique_index_data");
    reveal_strlit("DELETE FROM unique_index_data WHERE object_store_id = ?1;");
    condition::lemma_one_cell(("object_store_id"@, own), 1, " AND "@);
    assert("DELETE FROM unique_index_data WHERE object_store_id = ?1;"@ =~= condition::deletion("unique_index_data"@, seq![("object_store_id"@, own)]).sql);
    assert(sql::one(own) =~= condition::deletion("unique_index_data"@, seq![("object_store_id"@, own)]).values);
}

proof fn lemma_indexes_dropped(own: ValueView)
    ensures
        sql::statement_view("DELETE FROM object_store_index WHERE object_store_id = ?1;"@, sql::one(own)) == condition::deletion("object_store_index"@, seq![("object_store_id"@, own)]),
{
    reveal_strlit(";");
    reveal_strlit(" AND ");
    reveal_strlit(" WHERE ");
    reveal_strlit("DELETE FROM ");
    reveal_strlit("object_store_id");
    reveal_strlit("object_store_index");
    reveal_strlit("DELETE FROM object_store_index WHERE object_store_id = ?1;");
    condition::lemma_one_cell(("object_store_id"@, own), 1, " AND "@);
    assert("DELETE FROM object_store_index WHERE object_store_id = ?1;"@ =~= condition::deletion("object_store_index"@, seq![("object_store_id"@, own)]).sql);
    assert(sql::one(own) =~= condition::deletion("object_store_index"@, seq![("object_store_id"@, own)]).values);
}

proof fn lemma_data_dropped(own: ValueView)
    ensures
        sql::statement_view("DELETE FROM object_data WHERE object_store_id = ?1;"@, sql::one(own)) == condition::deletion("object_data"@, seq![("object_store_id"@, own)]),
{
    reveal_strlit(";");
    reveal_strlit(" AND ");
    reveal_strlit(" WHERE ");
    reveal_strlit("object_data");
    reveal_strlit("DELETE FROM ");
    reveal_strlit("object_store_id");
    reveal_strlit("DELETE FROM object_data WHERE object_store_id = ?1;");
    condition::lemma_one_cell(("object_store_id"@, own), 1, " AND "@);
    assert("DELETE FROM object_data WHERE object_store_id = ?1;"@ =~= condition::deletion("object_data"@, seq![("object_store_id"@, own)]).sql);
    assert(sql::one(own) =~= condition::deletion("object_data"@, seq![("object_store_id"@, own)]).values);
}

proof fn lemma_store_dropped(own: ValueView)
    ensures
        sql::statement_view("DELETE FROM object_store WHERE id = ?1;"@, sql::one(own)) == condition::deletion("object_store"@, seq![("id"@, own)]),
{
    reveal_strlit(";");
    reveal_strlit("id");
    reveal_strlit(" AND ");
    reveal_strlit(" WHERE ");
    reveal_strlit("DELETE FROM ");
    reveal_strlit("object_store");
    reveal_strlit("DELETE FROM object_store WHERE id = ?1;");
    condition::lemma_one_cell(("id"@, own), 1, " AND "@);
    assert("DELETE FROM object_store WHERE id = ?1;"@ =~= condition::deletion("object_store"@, seq![("id"@, own)]).sql);
    assert(sql::one(own) =~= condition::deletion("object_store"@, seq![("id"@, own)]).values);
}

/// A store is read by its name: its number, the state of its key generator and its key path,
/// each from the row of that name, and they are what the store is found with. A name without
/// a row is no store.
pub proof fn law_store_is_read(
    name: Seq<char>,
    id: i64,
    number: i64,
    path: Option<Seq<u8>>,
)
    ensures
        ({
            let named = seq![("name"@, ValueView::Text(name))];
            let start = Seq::<ReplyView>::empty();
            let known = start.push(ReplyView::Int(Some(id)));
            let numbered = known.push(ReplyView::Int(Some(number)));
            &&& store(name, start, 0) == RunView::<Option<StoreView>>::Ask(
                RequestView::QueryI64(
                    condition::reading("id"@, "object_store"@, named, " LIMIT 1;"@),
                ),
            )
            &&& store(name, known, 0) == RunView::<Option<StoreView>>::Ask(
                RequestView::QueryI64(
                    condition::reading("auto_increment"@, "object_store"@, named, " LIMIT 1;"@),
                ),
            )
            &&& store(name, numbered, 0) == RunView::<Option<StoreView>>::Ask(
                RequestView::QueryBlob(
                    condition::reading("key_path"@, "object_store"@, named, " LIMIT 1;"@),
                ),
            )
            &&& store(name, numbered.push(ReplyView::Blob(path)), 0) == RunView::<
                Option<StoreView>,
            >::Got(Some(StoreView { id, name, key_path: path, auto_increment: number }), 3)
            &&& store(name, start.push(ReplyView::Int(None)), 0) == RunView::<
                Option<StoreView>,
            >::Got(None, 1)
            &&& required_store(name, start.push(ReplyView::Int(None)), 0) is Stop
            &&& generator(name, numbered.push(ReplyView::Blob(path))) == RunView::<
                Option<i64>,
            >::Got(
                if number == 0 {
                    None
                } else {
                    Some(number)
                },
                3,
            )
        }),
{
    lemma_store_id_read(ValueView::Text(name));
    lemma_store_number_read(ValueView::Text(name));
    lemma_store_path_read(ValueView::Text(name));
}

/// An index is read by its store and its name, and is found with the key path and the two
/// flags of that row: a flag is set exactly if its number is not zero.
pub proof fn law_index_is_read(
    store_id: i64,
    name: Seq<char>,
    id: i64,
    path: Seq<u8>,
    unique: i64,
    multi_entry: i64,
)
    ensures
        ({
            let own = seq![
                ("object_store_id"@, ValueView::Int(store_id)),
                ("name"@, ValueView::Text(name)),
            ];
            let start = Seq::<ReplyView>::empty();
            let known = start.push(ReplyView::Int(Some(id)));
            let placed = known.push(ReplyView::Blob(Some(path)));
            let flagged = placed.push(ReplyView::Int(Some(unique)));
            let all = flagged.push(ReplyView::Int(Some(multi_entry)));
            &&& store_index(store_id, name, start, 0) == RunView::<Option<StoreIndexView>>::Ask(
                RequestView::QueryI64(
                    condition::reading("id"@, "object_store_index"@, own, " LIMIT 1;"@),
                ),
            )
            &&& store_index(store_id, name, known, 0) == RunView::<Option<StoreIndexView>>::Ask(
                RequestView::QueryBlob(
                    condition::reading("key_path"@, "object_store_index"@, own, " LIMIT 1;"@),
                ),
            )
            &&& store_index(store_id, name, placed, 0) == RunView::<Option<StoreIndexView>>::Ask(
                RequestView::QueryI64(
                    condition::reading("unique_index"@, "object_store_index"@, own, " LIMIT 1;"@),
                ),
            )
            &&& store_index(store_id, name, flagged, 0) == RunView::<Option<StoreIndexView>>::Ask(
                RequestView::QueryI64(
                    condition::reading(
                        "multi_entry_index"@,
                        "object_store_index"@,
                        own,
                        " LIMIT 1;"@,
                    ),
                ),
            )
            &&& store_index(store_id, name, all, 0) matches RunView::Got(found, next) && next == 4
                && (found matches Some(index) && index.id == id && index.object_store_id == store_id
                && index.name == name && index.key_path == path && (index.unique_index <==> unique
                != 0) && (index.multi_entry_index <==> multi_entry != 0))
            &&& store_index(store_id, name, start.push(ReplyView::Int(None)), 0) == RunView::<
                Option<StoreIndexView>,
            >::Got(None, 1)
            &&& one_index(store_id, name, all, 0) matches RunView::Got(index, next) ==> index.name
                == name && Some(index.key_path) == key_path::key_path_in(path) && (index.unique
                <==> unique != 0) && (index.multi_entry <==> multi_entry != 0)
        }),
{
    lemma_index_id_read(ValueView::Int(store_id), ValueView::Text(name));
    lemma_index_path_read(ValueView::Int(store_id), ValueView::Text(name));
    lemma_index_unique_read(ValueView::Int(store_id), ValueView::Text(name));
    lemma_index_multi_read(ValueView::Int(store_id), ValueView::Text(name));
}

/// A store that is not there yet is added with its name, its key path and the start of its
/// key generator, which is one where it has a generator and zero where it has none.
pub proof fn law_store_is_created(
    name: Seq<char>,
    path: Option<KeyPathView>,
    auto_increment: bool,
    written: ValueView,
    start: i64,
)
    requires
        path matches Some(path) ==> written == ValueView::Blob(key_path::key_path_bytes(path)),
        path is None ==> written == ValueView::Null,
        auto_increment ==> start == 1,
        !auto_increment ==> start == 0,
    ensures
        ({
            let absent = Seq::<ReplyView>::empty().push(ReplyView::Int(None));
            &&& store_created(name, path, auto_increment, absent) == RunView::<
                CreateObjectResult,
            >::Ask(
                RequestView::Execute(
                    condition::insertion(
                        "object_store"@,
                        seq![
                            ("name"@, ValueView::Text(name)),
                            ("key_path"@, written),
                            ("auto_increment"@, ValueView::Int(start)),
                        ],
                        ";"@,
                    ),
                ),
            )
            &&& store_created(name, path, auto_increment, absent.push(ReplyView::Done))
                == RunView::<CreateObjectResult>::Got(CreateObjectResult::Created, 2)
            &&& store_created(name, path, auto_increment, absent.push(ReplyView::Failed))
                == RunView::<CreateObjectResult>::Stop(ErrorView::Backend, 2)
        }),
{
    lemma_store_added(ValueView::Text(name), written, ValueView::Int(start));
    assert(written == path_value(path));
    assert(start == flag(auto_increment));
}

/// An index that is not there yet is added to its store with its name, its key path and its
/// two flags.
pub proof fn law_index_is_created(
    store_name: Seq<char>,
    id: i64,
    number: i64,
    stored: Option<Seq<u8>>,
    name: Seq<char>,
    path: KeyPathView,
    unique: bool,
    multi_entry: bool,
)
    ensures
        ({
            let absent = Seq::<ReplyView>::empty().push(ReplyView::Int(Some(id))).push(
                ReplyView::Int(Some(number)),
            ).push(ReplyView::Blob(stored)).push(ReplyView::Int(None));
            &&& index_created(store_name, name, path, unique, multi_entry, absent) == RunView::<
                CreateObjectResult,
            >::Ask(
                RequestView::Execute(
                    condition::insertion(
                        "object_store_index"@,
                        seq![
                            ("object_store_id"@, ValueView::Int(id)),
                            ("name"@, ValueView::Text(name)),
                            ("key_path"@, ValueView::Blob(key_path::key_path_bytes(path))),
                            (
                                "unique_index"@,
                                ValueView::Int(
                                    if unique {
                                        1
                                    } else {
                                        0
                                    },
                                ),
                            ),
                            (
                                "multi_entry_index"@,
                                ValueView::Int(
                                    if multi_entry {
                                        1
                                    } else {
                                        0
                                    },
                                ),
                            ),
                        ],
                        ";"@,
                    ),
                ),
            )
            &&& index_created(
                store_name,
                name,
                path,
                unique,
                multi_entry,
                absent.push(ReplyView::Done),
            ) == RunView::<CreateObjectResult>::Got(CreateObjectResult::Created, 5)
        }),
{
    lemma_index_added(
        ValueView::Int(id),
        ValueView::Text(name),
        path_value(Some(path)),
        ValueView::Int(flag(unique)),
        ValueView::Int(flag(multi_entry)),
    );
}

/// Renaming and deleting an index concern the index of that name of that store, and setting
/// the key generator concerns the store alone and has to change one row.
pub proof fn law_one_row_is_changed(
    store_name: Seq<char>,
    id: i64,
    number: i64,
    stored: Option<Seq<u8>>,
    name: Seq<char>,
    new_name: Seq<char>,
    fresh: i64,
    changes: Option<i64>,
)
    ensures
        ({
            let found = Seq::<ReplyView>::empty().push(ReplyView::Int(Some(id))).push(
                ReplyView::Int(Some(number)),
            ).push(ReplyView::Blob(stored));
            let own = ("object_store_id"@, ValueView::Int(id));
            let named = ("name"@, ValueView::Text(name));
            &&& index_renamed(store_name, name, new_name, found) == RunView::<()>::Ask(
                RequestView::Execute(
                    condition::change(
                        "object_store_index"@,
                        seq![("name"@, ValueView::Text(new_name))],
                        seq![named, own],
                    ),
                ),
            )
            &&& index_deleted(store_name, name, found) == RunView::<()>::Ask(
                RequestView::Execute(condition::deletion("object_store_index"@, seq![named, own])),
            )
            &&& generator_set(store_name, fresh, found) == RunView::<()>::Ask(
                RequestView::Execute(
                    condition::change(
                        "object_store"@,
                        seq![("auto_increment"@, ValueView::Int(fresh))],
                        seq![("id"@, ValueView::Int(id))],
                    ),
                ),
            )
            &&& generator_set(
                store_name,
                fresh,
                found.push(ReplyView::Done).push(ReplyView::Int(changes)),
            ) is Got <==> changes == Some(1i64)
        }),
{
    lemma_name_changed(ValueView::Text(new_name), ValueView::Text(name), ValueView::Int(id));
    lemma_index_dropped(ValueView::Text(name), ValueView::Int(id));
    lemma_number_changed(ValueView::Int(fresh), ValueView::Int(id));
}

/// A store goes with everything that belongs to it: its entries in both kinds of indexes, its
/// indexes and its items are deleted first, and its own row last, all of them by its number.
pub proof fn law_store_goes_with_its_rows(id: i64)
    ensures
        ({
            let own = seq![("object_store_id"@, ValueView::Int(id))];
            &&& removal(id).len() == 5
            &&& removal(id).contains(condition::deletion("index_data"@, own))
            &&& removal(id).contains(condition::deletion("unique_index_data"@, own))
            &&& removal(id).contains(condition::deletion("object_store_index"@, own))
            &&& removal(id).contains(condition::deletion("object_data"@, own))
            &&& removal(id).last() == condition::deletion(
                "object_store"@,
                seq![("id"@, ValueView::Int(id))],
            )
        }),
{
    lemma_index_data_dropped(ValueView::Int(id));
    lemma_unique_data_dropped(ValueView::Int(id));
    lemma_indexes_dropped(ValueView::Int(id));
    lemma_data_dropped(ValueView::Int(id));
    lemma_store_dropped(ValueView::Int(id));
    let own = seq![("object_store_id"@, ValueView::Int(id))];
    assert(removal(id)[0] == condition::deletion("index_data"@, own));
    assert(removal(id)[1] == condition::deletion("unique_index_data"@, own));
    assert(removal(id)[2] == condition::deletion("object_store_index"@, own));
    assert(removal(id)[3] == condition::deletion("object_data"@, own));
}

/// A database that has no version yet gets its row, with its name, its origin and version
/// zero, once the tables are there; one that has a version is left as it is.
pub proof fn law_new_database_starts_at_zero(
    name: Seq<char>,
    origin: Seq<char>,
    replies: Seq<ReplyView>,
    at: int,
    version: i64,
)
    requires
        sql::all_done(replies, 0, tables()) == RunView::<()>::Got((), at),
        0 <= at,
        at + 1 == replies.len(),
    ensures
        replies[at] == ReplyView::Int(None) ==> initialized(name, origin, replies) == RunView::<
            (),
        >::Ask(
            RequestView::Execute(
                condition::insertion(
                    "database"@,
                    seq![
                        ("name"@, ValueView::Text(name)),
                        ("origin"@, ValueView::Text(origin)),
                        ("version"@, ValueView::Int(0)),
                    ],
                    ";"@,
                ),
            ),
        ),
        replies[at] == ReplyView::Int(Some(version)) ==> initialized(name, origin, replies)
            == RunView::<()>::Got((), at + 1),
{
    lemma_database_added(ValueView::Text(name), ValueView::Text(origin), ValueView::Int(0));
}

/// The version of a database that has one is set to the given one; there has to be one.
pub proof fn law_version_is_set(version: u64, n: i64)
    ensures
        version_set(version, Seq::empty().push(ReplyView::Int(Some(n)))) matches RunView::Ask(
            RequestView::Execute(statement),
        ) && statement.values.len() == 1 && (version <= i64::MAX ==> statement.values[0]
            == ValueView::Int(version as i64)),
        version_set(version, Seq::empty().push(ReplyView::Int(None))) is Stop,
        version_set(version, Seq::empty().push(ReplyView::Int(Some(n))).push(ReplyView::Done))
            == RunView::<()>::Got((), 2),
{
}

/// The indexes of a store are read one after the other: each name gives one index of that
/// name, in the order of the names, behind those that were read before.
pub proof fn law_indexes_in_order(
    store_id: i64,
    names: Seq<Seq<char>>,
    read: Seq<IndexView>,
    replies: Seq<ReplyView>,
    at: int,
)
    ensures
        indexes_named(store_id, names, read, replies, at) matches RunView::Got(all, next) ==> {
            &&& all.len() == read.len() + names.len()
            &&& all.take(read.len() as int) == read
            &&& forall|i: int|
                0 <= i < names.len() ==> (#[trigger] all[read.len() + i]).name == names[i]
        },
    decreases names.len(),
{
    if names.len() == 0 {
        assert(read.take(read.len() as int) =~= read);
    } else {
        if let RunView::Got(index, next) = one_index(store_id, names[0], replies, at) {
            let rest = names.skip(1);
            let more = read.push(index);
            law_indexes_in_order(store_id, rest, more, replies, next);
            if let RunView::Got(all, _) = indexes_named(store_id, names, read, replies, at) {
                assert(index.name == names[0]);
                assert forall|k: int| 0 <= k < more.len() implies all[k] == more[k] by {
                    assert(all.take(more.len() as int)[k] == more[k]);
                }
                assert(all.take(read.len() as int) =~= read);
                assert forall|i: int| 0 <= i < names.len() implies (#[trigger] all[read.len()
                    + i]).name == names[i] by {
                    if i > 0 {
                        assert(all[more.len() + (i - 1)].name == rest[i - 1]);
                    }
                }
            }
        }
    }
}

/// A change has to concern as many rows as it was meant to; a count that is not told counts as
/// none.
pub proof fn law_rows_are_counted(expected: i64, context: Seq<char>, n: Option<i64>)
    ensures
        rows_affected(expected, context, Seq::empty().push(ReplyView::Int(n)), 0) is Got <==> (
        match n {
            Some(n) => n,
            None => 0,
        }) == expected,
        rows_affected(expected, context, Seq::empty().push(ReplyView::Int(n)), 0) matches
            RunView::Stop(error, next) ==> error == ErrorView::MissingRow(context) && next == 1,
{
}

} // verus!
