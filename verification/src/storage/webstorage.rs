//! The key-value stores of pages: the local and the session storage of an origin.
use vstd::prelude::*;

use crate::storage::condition;
use crate::storage::sql;
use crate::storage::sql::{ErrorView, Reply, ReplyView, Request, RequestView, Run, RunView, Statement, StatementView, StorageError, ValueView};

verus! {

/// What an origin keeps: a value for each of its keys.
#[derive(Debug)]
pub struct OriginEntry {
    entries: Vec<(String, String)>,
}

/// The map that key-value pairs make; a later pair replaces an earlier one with its key.
pub open spec fn map_of(pairs: Seq<(Seq<char>, Seq<char>)>) -> Map<Seq<char>, Seq<char>>
    decreases pairs.len(),
{
    if pairs.len() == 0 {
        Map::empty()
    } else {
        map_of(pairs.drop_last()).insert(pairs.last().0, pairs.last().1)
    }
}

pub open spec fn distinct(pairs: Seq<(Seq<char>, Seq<char>)>) -> bool {
    forall|i: int, j: int|
        0 <= i < j < pairs.len() ==> (#[trigger] pairs[i]).0 != (#[trigger] pairs[j]).0
}

proof fn lemma_map_of(pairs: Seq<(Seq<char>, Seq<char>)>)
    requires
        distinct(pairs),
    ensures
        forall|k: Seq<char>|
            #[trigger] map_of(pairs).contains_key(k) ==> exists|i: int|
                0 <= i < pairs.len() && (#[trigger] pairs[i]).0 == k,
        forall|i: int|
            0 <= i < pairs.len() ==> map_of(pairs).contains_key((#[trigger] pairs[i]).0) && map_of(
                pairs,
            )[pairs[i].0] == pairs[i].1,
    decreases pairs.len(),
{
    if pairs.len() > 0 {
        let rest = pairs.drop_last();
        assert(distinct(rest)) by {
            assert forall|i: int, j: int| 0 <= i < j < rest.len() implies (#[trigger] rest[i]).0
                != (#[trigger] rest[j]).0 by {
                assert(rest[i] == pairs[i] && rest[j] == pairs[j]);
            }
        }
        lemma_map_of(rest);
        assert forall|k: Seq<char>| #[trigger] map_of(pairs).contains_key(k) implies exists|i: int|
            0 <= i < pairs.len() && (#[trigger] pairs[i]).0 == k by {
            if k == pairs.last().0 {
                assert(pairs[pairs.len() - 1].0 == k);
            } else {
                assert(map_of(rest).contains_key(k));
                let i = choose|i: int| 0 <= i < rest.len() && (#[trigger] rest[i]).0 == k;
                assert(pairs[i].0 == k);
            }
        }
        assert forall|i: int| 0 <= i < pairs.len() implies map_of(pairs).contains_key(
            (#[trigger] pairs[i]).0,
        ) && map_of(pairs)[pairs[i].0] == pairs[i].1 by {
            if i < pairs.len() - 1 {
                assert(rest[i] == pairs[i]);
            }
        }
    }
}

impl DeepView for OriginEntry {
    type V = Map<Seq<char>, Seq<char>>;

    closed spec fn deep_view(&self) -> Map<Seq<char>, Seq<char>> {
        map_of(self.entries.deep_view())
    }
}

impl OriginEntry {
    pub closed spec fn pairs(&self) -> Seq<(Seq<char>, Seq<char>)> {
        self.entries.deep_view()
    }

    pub closed spec fn wf(&self) -> bool {
        distinct(self.entries.deep_view())
    }

    pub fn new() -> (r: OriginEntry)
        ensures
            r.wf(),
            r.pairs() == Seq::<(Seq<char>, Seq<char>)>::empty(),
            r.deep_view() == Map::<Seq<char>, Seq<char>>::empty(),
    {
        let entries: Vec<(String, String)> = Vec::new();
        assert(entries.deep_view() =~= Seq::<(Seq<char>, Seq<char>)>::empty());
        OriginEntry { entries }
    }

    /// Keep a value for a key, in place of the one that it had.
    pub fn insert(&mut self, key: String, value: String)
        requires
            old(self).wf(),
        ensures
            final(self).wf(),
            final(self).deep_view() == old(self).deep_view().insert(key@, value@),
    {
        let ghost before = self.entries.deep_view();
        let ghost k = key@;
        let ghost v = value@;
        proof {
            lemma_map_of(before);
        }
        let mut i: usize = 0;
        while i < self.entries.len() && self.entries[i].0 != key
            invariant
                *self == *old(self),
                before == self.entries.deep_view(),
                i <= self.entries@.len(),
                k == key@,
                forall|j: int| 0 <= j < i ==> (#[trigger] before[j]).0 != k,
            decreases self.entries@.len() - i,
        {
            assert(before[i as int].0 == self.entries@[i as int].0@);
            i += 1;
        }
        if i < self.entries.len() {
            assert(before[i as int].0 == k);
            self.entries.set(i, (key, value));
            let ghost after = self.entries.deep_view();
            proof {
                assert(after =~= before.update(i as int, (k, v)));
                assert(distinct(after));
                lemma_map_of(after);
                assert forall|x: Seq<char>| map_of(after).contains_key(x) == map_of(before).insert(
                    k,
                    v,
                ).contains_key(x) by {
                    if map_of(after).contains_key(x) {
                        let j = choose|j: int| 0 <= j < after.len() && (#[trigger] after[j]).0 == x;
                        assert(before[j].0 == x);
                    }
                    if map_of(before).contains_key(x) {
                        let j = choose|j: int|
                            0 <= j < before.len() && (#[trigger] before[j]).0 == x;
                        assert(after[j].0 == x);
                    }
                    assert(after[i as int].0 == k);
                }
                assert forall|x: Seq<char>| map_of(after).contains_key(x) implies map_of(after)[x]
                    == map_of(before).insert(k, v)[x] by {
                    let j = choose|j: int| 0 <= j < after.len() && (#[trigger] after[j]).0 == x;
                    assert(before[j].0 == x);
                }
                assert(map_of(after) =~= map_of(before).insert(k, v));
            }
        } else {
            self.entries.push((key, value));
            proof {
                let after = self.entries.deep_view();
                assert(after =~= before.push((k, v)));
                assert(after.drop_last() =~= before);
            }
        }
    }

    /// The value of a key, if it has one.
    pub fn get(&self, key: &str) -> (r: Option<String>)
        requires
            self.wf(),
        ensures
            match r {
                Some(value) => self.deep_view().contains_key(key@) && self.deep_view()[key@]
                    == value@,
                None => !self.deep_view().contains_key(key@),
            },
    {
        let ghost pairs = self.entries.deep_view();
        proof {
            lemma_map_of(pairs);
        }
        let wanted: String = key.to_owned();
        let mut i: usize = 0;
        while i < self.entries.len()
            invariant
                pairs == self.entries.deep_view(),
                i <= self.entries@.len(),
                wanted@ == key@,
                forall|j: int| 0 <= j < i ==> (#[trigger] pairs[j]).0 != key@,
                forall|j: int|
                    0 <= j < pairs.len() ==> map_of(pairs).contains_key((#[trigger] pairs[j]).0)
                        && map_of(pairs)[pairs[j].0] == pairs[j].1,
            decreases self.entries@.len() - i,
        {
            assert(pairs[i as int].0 == self.entries@[i as int].0@);
            assert(pairs[i as int].1 == self.entries@[i as int].1@);
            if self.entries[i].0 == wanted {
                return Some(self.entries[i].1.clone());
            }
            i += 1;
        }
        None
    }

    /// The keys with their values.
    pub fn inner(&self) -> (r: &Vec<(String, String)>)
        ensures
            r.deep_view() == self.pairs(),
            map_of(r.deep_view()) == self.deep_view(),
    {
        &self.entries
    }
}

/// What was loaded, or the error that came in its place.
pub open spec fn contents<E>(r: Result<OriginEntry, E>) -> Result<Map<Seq<char>, Seq<char>>, E> {
    match r {
        Ok(data) => Ok(data.deep_view()),
        Err(e) => Err(e),
    }
}

/// An engine that keeps what an origin keeps.
pub trait WebStorageEngine: Sized {
    type Error;

    /// What is kept. An engine that is not verified leaves this open.
    closed spec fn stored(&self) -> Map<Seq<char>, Seq<char>> {
        arbitrary()
    }

    /// Whether loading may give a result. An engine that is not verified leaves this and
    /// the following open.
    closed spec fn may_load(&self, r: Result<Map<Seq<char>, Seq<char>>, Self::Error>) -> bool {
        arbitrary()
    }

    /// Whether clearing may give a result and leave the engine as `after`.
    closed spec fn may_clear(&self, r: Result<(), Self::Error>, after: &Self) -> bool {
        arbitrary()
    }

    /// Whether deleting a key may give a result and leave the engine as `after`.
    closed spec fn may_delete(
        &self,
        key: Seq<char>,
        r: Result<(), Self::Error>,
        after: &Self,
    ) -> bool {
        arbitrary()
    }

    /// Whether setting a key may give a result and leave the engine as `after`.
    closed spec fn may_set(
        &self,
        key: Seq<char>,
        value: Seq<char>,
        r: Result<(), Self::Error>,
        after: &Self,
    ) -> bool {
        arbitrary()
    }

    /// Whether an engine may be `after` once it was asked to save an entry with the
    /// given contents.
    closed spec fn may_save(&self, data: Map<Seq<char>, Seq<char>>, after: &Self) -> bool {
        arbitrary()
    }

    fn load(&self) -> (r: Result<OriginEntry, Self::Error>)
        ensures
            self.may_load(contents(r)),
            r matches Ok(data) ==> data.wf() && data.deep_view() == self.stored(),
    ;

    fn clear(&mut self) -> (r: Result<(), Self::Error>)
        ensures
            old(self).may_clear(r, &*final(self)),
            r is Ok ==> final(self).stored() == Map::<Seq<char>, Seq<char>>::empty(),
    ;

    fn delete(&mut self, key: &str) -> (r: Result<(), Self::Error>)
        ensures
            old(self).may_delete(key@, r, &*final(self)),
            r is Ok ==> final(self).stored() == old(self).stored().remove(key@),
    ;

    fn set(&mut self, key: &str, value: &str) -> (r: Result<(), Self::Error>)
        ensures
            old(self).may_set(key@, value@, r, &*final(self)),
            r is Ok ==> final(self).stored() == old(self).stored().insert(key@, value@),
    ;

    /// Keep all of an entry in place of what was kept. A failure is not reported, and leaves
    /// what was kept.
    fn save(&mut self, data: &OriginEntry)
        ensures
            old(self).may_save(data.deep_view(), &*final(self)),
            final(self).stored() == data.deep_view() || final(self).stored() == old(self).stored(),
    ;
}

/// Which engine a store is opened on.
#[derive(Clone, Copy, Debug, PartialEq, Eq, Structural)]
pub enum Backend {
    Sqlite,
    Rdb,
}

/// The engine that a preference selects.
pub fn select_backend(rdb_enabled: bool) -> (r: Backend)
    ensures
        r == if rdb_enabled {
            Backend::Rdb
        } else {
            Backend::Sqlite
        },
{
    if rdb_enabled {
        Backend::Rdb
    } else {
        Backend::Sqlite
    }
}

/// Either of two engines; which one was decided when the store was opened.
#[derive(Debug)]
pub enum TwinEngine<S, R> {
    Sqlite(S),
    Rdb(R),
}

/// An error of either of two engines.
#[derive(Debug)]
pub enum TwinError<S, R> {
    Sqlite(S),
    Rdb(R),
}

/// What the first of two engines gave, if the result is from it.
pub open spec fn from_sqlite<T, S, R>(r: Result<T, TwinError<S, R>>) -> Option<Result<T, S>> {
    match r {
        Ok(value) => Some(Ok(value)),
        Err(TwinError::Sqlite(e)) => Some(Err(e)),
        Err(TwinError::Rdb(_)) => None,
    }
}

/// What the second of two engines gave, if the result is from it.
pub open spec fn from_rdb<T, S, R>(r: Result<T, TwinError<S, R>>) -> Option<Result<T, R>> {
    match r {
        Ok(value) => Some(Ok(value)),
        Err(TwinError::Sqlite(_)) => None,
        Err(TwinError::Rdb(e)) => Some(Err(e)),
    }
}

/// Every call goes to the engine that was selected, which stays selected, and gives what
/// that engine gives.
impl<S: WebStorageEngine, R: WebStorageEngine> WebStorageEngine for TwinEngine<S, R> {
    type Error = TwinError<S::Error, R::Error>;

    open spec fn stored(&self) -> Map<Seq<char>, Seq<char>> {
        match *self {
            TwinEngine::Sqlite(engine) => engine.stored(),
            TwinEngine::Rdb(engine) => engine.stored(),
        }
    }

    open spec fn may_load(&self, r: Result<Map<Seq<char>, Seq<char>>, Self::Error>) -> bool {
        match *self {
            TwinEngine::Sqlite(engine) => from_sqlite(r) matches Some(r) && engine.may_load(r),
            TwinEngine::Rdb(engine) => from_rdb(r) matches Some(r) && engine.may_load(r),
        }
    }

    open spec fn may_clear(&self, r: Result<(), Self::Error>, after: &Self) -> bool {
        match (*self, *after) {
            (TwinEngine::Sqlite(before), TwinEngine::Sqlite(after)) => from_sqlite(
                r,
            ) matches Some(r) && before.may_clear(r, &after),
            (TwinEngine::Rdb(before), TwinEngine::Rdb(after)) => from_rdb(r) matches Some(r)
                && before.may_clear(r, &after),
            _ => false,
        }
    }

    open spec fn may_delete(&self, key: Seq<char>, r: Result<(), Self::Error>, after: &Self) -> bool {
        match (*self, *after) {
            (TwinEngine::Sqlite(before), TwinEngine::Sqlite(after)) => from_sqlite(
                r,
            ) matches Some(r) && before.may_delete(key, r, &after),
            (TwinEngine::Rdb(before), TwinEngine::Rdb(after)) => from_rdb(r) matches Some(r)
                && before.may_delete(key, r, &after),
            _ => false,
        }
    }

    open spec fn may_set(&self, key: Seq<char>, value: Seq<char>, r: Result<(), Self::Error>, after: &Self) -> bool {
        match (*self, *after) {
            (TwinEngine::Sqlite(before), TwinEngine::Sqlite(after)) => from_sqlite(
                r,
            ) matches Some(r) && before.may_set(key, value, r, &after),
            (TwinEngine::Rdb(before), TwinEngine::Rdb(after)) => from_rdb(r) matches Some(r)
                && before.may_set(key, value, r, &after),
            _ => false,
        }
    }

    open spec fn may_save(&self, data: Map<Seq<char>, Seq<char>>, after: &Self) -> bool {
        match (*self, *after) {
            (TwinEngine::Sqlite(before), TwinEngine::Sqlite(after)) => before.may_save(data, &after),
            (TwinEngine::Rdb(before), TwinEngine::Rdb(after)) => before.may_save(data, &after),
            _ => false,
        }
    }

    fn load(&self) -> (r: Result<OriginEntry, Self::Error>)
        ensures
            r matches Err(e) ==> (e is Sqlite <==> self is Sqlite),
    {
        match self {
            TwinEngine::Sqlite(engine) => match engine.load() {
                Ok(data) => Ok(data),
                Err(error) => Err(TwinError::Sqlite(error)),
            },
            TwinEngine::Rdb(engine) => match engine.load() {
                Ok(data) => Ok(data),
                Err(error) => Err(TwinError::Rdb(error)),
            },
        }
    }

    fn clear(&mut self) -> (r: Result<(), Self::Error>)
        ensures
            (*final(self)) is Sqlite <==> (*old(self)) is Sqlite,
            r matches Err(e) ==> (e is Sqlite <==> (*old(self)) is Sqlite),
    {
        match self {
            TwinEngine::Sqlite(engine) => match engine.clear() {
                Ok(done) => Ok(done),
                Err(error) => Err(TwinError::Sqlite(error)),
            },
            TwinEngine::Rdb(engine) => match engine.clear() {
                Ok(done) => Ok(done),
                Err(error) => Err(TwinError::Rdb(error)),
            },
        }
    }

    fn delete(&mut self, key: &str) -> (r: Result<(), Self::Error>)
        ensures
            (*final(self)) is Sqlite <==> (*old(self)) is Sqlite,
            r matches Err(e) ==> (e is Sqlite <==> (*old(self)) is Sqlite),
    {
        match self {
            TwinEngine::Sqlite(engine) => match engine.delete(key) {
                Ok(done) => Ok(done),
                Err(error) => Err(TwinError::Sqlite(error)),
            },
            TwinEngine::Rdb(engine) => match engine.delete(key) {
                Ok(done) => Ok(done),
                Err(error) => Err(TwinError::Rdb(error)),
            },
        }
    }

    fn set(&mut self, key: &str, value: &str) -> (r: Result<(), Self::Error>)
        ensures
            (*final(self)) is Sqlite <==> (*old(self)) is Sqlite,
            r matches Err(e) ==> (e is Sqlite <==> (*old(self)) is Sqlite),
    {
        match self {
            TwinEngine::Sqlite(engine) => match engine.set(key, value) {
                Ok(done) => Ok(done),
                Err(error) => Err(TwinError::Sqlite(error)),
            },
            TwinEngine::Rdb(engine) => match engine.set(key, value) {
                Ok(done) => Ok(done),
                Err(error) => Err(TwinError::Rdb(error)),
            },
        }
    }

    fn save(&mut self, data: &OriginEntry)
        ensures
            (*final(self)) is Sqlite <==> (*old(self)) is Sqlite,
    {
        match self {
            TwinEngine::Sqlite(engine) => engine.save(data),
            TwinEngine::Rdb(engine) => engine.save(data),
        }
    }
}

/// Where setting the store of an origin up stands.
pub open spec fn initialized(replies: Seq<ReplyView>) -> RunView<()> {
    sql::and_then(
        sql::done(
            replies,
            0,
            sql::execute_view(
                "CREATE TABLE IF NOT EXISTS data (
            id INTEGER PRIMARY KEY AUTOINCREMENT,
            key TEXT NOT NULL UNIQUE,
            value TEXT NOT NULL
        );"@,
                Seq::empty(),
            ),
        ),
        |_u: (), next: int| sql::done(replies, next, RequestView::Commit),
    )
}

/// Set the store of an origin up.
pub fn init(replies: &Vec<Reply>) -> (r: Run<()>)
    ensures
        r.deep_view() == initialized(replies.deep_view()),
{
    match sql::execute(
        replies,
        0,
        "CREATE TABLE IF NOT EXISTS data (
            id INTEGER PRIMARY KEY AUTOINCREMENT,
            key TEXT NOT NULL UNIQUE,
            value TEXT NOT NULL
        );",
        sql::no_values(),
    ) {
        Run::Got(_, next) => sql::ask(replies, next, Request::Commit),
        other => other,
    }
}

/// What rows come to: the entry that they make, or what the first incomplete one lacks.
pub open spec fn entry_of(rows: Seq<(Option<Seq<char>>, Option<Seq<char>>)>) -> Result<
    Map<Seq<char>, Seq<char>>,
    Seq<char>,
>
    decreases rows.len(),
{
    if rows.len() == 0 {
        Ok(Map::empty())
    } else {
        match entry_of(rows.drop_last()) {
            Err(context) => Err(context),
            Ok(map) => match rows.last() {
                (None, _) => Err("webstorage key lookup"@),
                (_, None) => Err("webstorage value lookup"@),
                (Some(key), Some(value)) => Ok(map.insert(key, value)),
            },
        }
    }
}

proof fn lemma_entry_of_prefix(rows: Seq<(Option<Seq<char>>, Option<Seq<char>>)>, i: int)
    requires
        0 <= i <= rows.len(),
        entry_of(rows.take(i)) is Err,
    ensures
        entry_of(rows) == entry_of(rows.take(i)),
    decreases rows.len() - i,
{
    if i < rows.len() {
        assert(rows.take(i + 1).drop_last() =~= rows.take(i));
        lemma_entry_of_prefix(rows, i + 1);
    } else {
        assert(rows.take(i) =~= rows);
    }
}

/// Where reading what an origin keeps stands.
pub open spec fn loaded(replies: Seq<ReplyView>) -> RunView<Map<Seq<char>, Seq<char>>> {
    if replies.len() == 0 {
        RunView::Ask(
            RequestView::ListPairs(
                sql::statement_view("SELECT key, value FROM data;"@, Seq::empty()),
            ),
        )
    } else {
        match replies[0] {
            ReplyView::Pairs(rows) => match entry_of(rows) {
                Ok(map) => RunView::Got(map, 1),
                Err(context) => RunView::Stop(ErrorView::MissingRow(context), 1),
            },
            _ => RunView::Stop(ErrorView::Backend, 1),
        }
    }
}

/// Read what an origin keeps.
pub fn load(replies: &Vec<Reply>) -> (r: Run<OriginEntry>)
    ensures
        r.deep_view() == loaded(replies.deep_view()),
        r matches Run::Got(entry, _) ==> entry.wf(),
{
    if replies.len() == 0 {
        return Run::Ask(
            Request::ListPairs(
                sql::statement("SELECT key, value FROM data;", sql::no_values()),
            ),
        );
    }
    assert(replies.deep_view()[0] == replies@[0].deep_view());
    let rows: &Vec<(Option<String>, Option<String>)> = match &replies[0] {
        Reply::Pairs(rows) => rows,
        _ => return Run::Stop(StorageError::Backend, 1),
    };
    let ghost all = rows.deep_view();
    let mut entry: OriginEntry = OriginEntry::new();
    let mut i: usize = 0;
    while i < rows.len()
        invariant
            i <= rows@.len(),
            all == rows.deep_view(),
            replies@.len() > 0,
            replies.deep_view()[0] == ReplyView::Pairs(all),
            entry.wf(),
            entry_of(all.take(i as int)) == Ok::<Map<Seq<char>, Seq<char>>, Seq<char>>(
                entry.deep_view(),
            ),
        decreases rows@.len() - i,
    {
        proof {
            assert(all.take(i + 1).drop_last() =~= all.take(i as int));
            assert(all[i as int] == rows@[i as int].deep_view());
            if entry_of(all.take(i + 1)) is Err {
                lemma_entry_of_prefix(all, i + 1);
            }
        }
        match (&rows[i].0, &rows[i].1) {
            (None, _) => return Run::Stop(
                StorageError::MissingRow("webstorage key lookup".to_owned()),
                1,
            ),
            (_, None) => return Run::Stop(
                StorageError::MissingRow("webstorage value lookup".to_owned()),
                1,
            ),
            (Some(key), Some(value)) => entry.insert(key.clone(), value.clone()),
        }
        i += 1;
    }
    assert(all.take(i as int) =~= all);
    Run::Got(entry, 1)
}

/// Where one statement stands, and then the commit.
pub open spec fn one_change(statement: StatementView, replies: Seq<ReplyView>) -> RunView<()> {
    sql::and_then(
        sql::done(replies, 0, RequestView::Execute(statement)),
        |_u: (), next: int| sql::done(replies, next, RequestView::Commit),
    )
}

fn change(statement: Statement, replies: &Vec<Reply>) -> (r: Run<()>)
    ensures
        r.deep_view() == one_change(statement.deep_view(), replies.deep_view()),
{
    match sql::ask(replies, 0, Request::Execute(statement)) {
        Run::Got(_, next) => sql::ask(replies, next, Request::Commit),
        other => other,
    }
}

/// Drop all that an origin keeps.
pub fn clear(replies: &Vec<Reply>) -> (r: Run<()>)
    ensures
        r.deep_view() == one_change(
            sql::statement_view("DELETE FROM data;"@, Seq::empty()),
            replies.deep_view(),
        ),
{
    change(sql::statement("DELETE FROM data;", sql::no_values()), replies)
}

/// Drop the value of a key.
pub fn delete(key: &str, replies: &Vec<Reply>) -> (r: Run<()>)
    ensures
        r.deep_view() == one_change(
            sql::statement_view(
                "DELETE FROM data WHERE key = ?1;"@,
                sql::one(ValueView::Text(key@)),
            ),
            replies.deep_view(),
        ),
{
    change(
        sql::statement("DELETE FROM data WHERE key = ?1;", sql::with_text(sql::no_values(), key)),
        replies,
    )
}

/// Keep a value for a key, in place of the one that it had.
pub fn set(key: &str, value: &str, replies: &Vec<Reply>) -> (r: Run<()>)
    ensures
        r.deep_view() == one_change(
            sql::statement_view(
                "INSERT INTO data (key, value) VALUES (?1, ?2) ON CONFLICT(key) DO UPDATE SET value = excluded.value;"@,
                sql::two(ValueView::Text(key@), ValueView::Text(value@)),
            ),
            replies.deep_view(),
        ),
{
    change(
        sql::statement(
            "INSERT INTO data (key, value) VALUES (?1, ?2) ON CONFLICT(key) DO UPDATE SET value = excluded.value;",
            sql::with_text(sql::with_text(sql::no_values(), key), value),
        ),
        replies,
    )
}

/// The statements that keep pairs in place of all that was kept.
pub open spec fn replacement(pairs: Seq<(Seq<char>, Seq<char>)>) -> Seq<StatementView>
    decreases pairs.len(),
{
    if pairs.len() == 0 {
        Seq::empty().push(sql::statement_view("DELETE FROM data;"@, Seq::empty()))
    } else {
        replacement(pairs.drop_last()).push(
            sql::statement_view(
                "INSERT INTO data (key, value) VALUES (?1, ?2);"@,
                sql::two(ValueView::Text(pairs.last().0), ValueView::Text(pairs.last().1)),
            ),
        )
    }
}

/// Where replacing all that an origin keeps stands.
pub open spec fn saved(pairs: Seq<(Seq<char>, Seq<char>)>, replies: Seq<ReplyView>) -> RunView<()> {
    sql::and_then(
        sql::all_done(replies, 0, replacement(pairs)),
        |_u: (), next: int| sql::done(replies, next, RequestView::Commit),
    )
}

/// Replace all that an origin keeps.
pub fn save_inner(data: &OriginEntry, replies: &Vec<Reply>) -> (r: Run<()>)
    ensures
        r.deep_view() == saved(data.pairs(), replies.deep_view()),
{
    let entries: &Vec<(String, String)> = data.inner();
    let ghost pairs = entries.deep_view();
    let mut statements: Vec<Statement> = sql::with_statement(
        sql::no_statements(),
        sql::statement("DELETE FROM data;", sql::no_values()),
    );
    let mut i: usize = 0;
    assert(pairs.take(0) =~= Seq::empty());
    while i < entries.len()
        invariant
            i <= entries@.len(),
            pairs == entries.deep_view(),
            statements.deep_view() == replacement(pairs.take(i as int)),
        decreases entries@.len() - i,
    {
        proof {
            assert(pairs.take(i + 1).drop_last() =~= pairs.take(i as int));
            assert(pairs[i as int] == entries@[i as int].deep_view());
        }
        let one: Statement = sql::statement(
            "INSERT INTO data (key, value) VALUES (?1, ?2);",
            sql::with_text(
                sql::with_text(sql::no_values(), entries[i].0.as_str()),
                entries[i].1.as_str(),
            ),
        );
        statements = sql::with_statement(statements, one);
        i += 1;
    }
    assert(pairs.take(i as int) =~= pairs);
    match sql::execute_all(replies, 0, &statements) {
        Run::Got(_, next) => sql::ask(replies, next, Request::Commit),
        other => other,
    }
}

proof fn lemma_rows_of_pairs(pairs: Seq<(Seq<char>, Seq<char>)>)
    ensures
        entry_of(rows_of(pairs)) == Ok::<Map<Seq<char>, Seq<char>>, Seq<char>>(map_of(pairs)),
    decreases pairs.len(),
{
    if pairs.len() > 0 {
        lemma_rows_of_pairs(pairs.drop_last());
        assert(rows_of(pairs).drop_last() =~= rows_of(pairs.drop_last()));
    }
}

/// The rows that hold pairs.
pub open spec fn rows_of(pairs: Seq<(Seq<char>, Seq<char>)>) -> Seq<
    (Option<Seq<char>>, Option<Seq<char>>),
> {
    Seq::new(pairs.len(), |i: int| (Some(pairs[i].0), Some(pairs[i].1)))
}

/// What was saved is loaded again, if the rows come back that were put in.
pub proof fn law_saved_is_loaded(pairs: Seq<(Seq<char>, Seq<char>)>)
    ensures
        loaded(Seq::empty().push(ReplyView::Pairs(rows_of(pairs)))) == RunView::<
            Map<Seq<char>, Seq<char>>,
        >::Got(map_of(pairs), 1),
{
    lemma_rows_of_pairs(pairs);
}

proof fn lemma_pair_added(key: ValueView, value: ValueView)
    ensures
        sql::statement_view("INSERT INTO data (key, value) VALUES (?1, ?2);"@, sql::two(key, value)) == condition::insertion("data"@, seq![("key"@, key), ("value"@, value)], ";"@),
{
    reveal_strlit(")");
    reveal_strlit(";");
    reveal_strlit(" (");
    reveal_strlit("key");
    reveal_strlit("data");
    reveal_strlit("value");
    reveal_strlit(") VALUES (");
    reveal_strlit("INSERT INTO ");
    reveal_strlit("INSERT INTO data (key, value) VALUES (?1, ?2);");
    condition::lemma_two_cells(("key"@, key), ("value"@, value), 1, seq![]);
    assert("INSERT INTO data (key, value) VALUES (?1, ?2);"@ =~= condition::insertion("data"@, seq![("key"@, key), ("value"@, value)], ";"@).sql);
    assert(sql::two(key, value) =~= condition::insertion("data"@, seq![("key"@, key), ("value"@, value)], ";"@).values);
}

/// Saving replaces all that was stored: everything is deleted first, and then each pair is
/// added as a row with its key and its value, in order.
pub proof fn law_saving_replaces(pairs: Seq<(Seq<char>, Seq<char>)>, i: int)
    ensures
        replacement(pairs).len() == pairs.len() + 1,
        replacement(pairs)[0] == sql::statement_view("DELETE FROM data;"@, Seq::empty()),
        0 <= i < pairs.len() ==> replacement(pairs)[i + 1] == condition::insertion(
            "data"@,
            seq![("key"@, ValueView::Text(pairs[i].0)), ("value"@, ValueView::Text(pairs[i].1))],
            ";"@,
        ),
    decreases pairs.len(),
{
    if pairs.len() > 0 {
        law_saving_replaces(pairs.drop_last(), i);
        lemma_pair_added(ValueView::Text(pairs.last().0), ValueView::Text(pairs.last().1));
        if 0 <= i < pairs.len() - 1 {
            assert(pairs.drop_last()[i] == pairs[i]);
        }
    }
}

/// What is loaded has the value of every row under its key; of two rows with one key the
/// later one counts. A row without a key or without a value is an error.
pub proof fn law_loaded_rows(
    rows: Seq<(Option<Seq<char>>, Option<Seq<char>>)>,
    key: Seq<char>,
    value: Seq<char>,
    other: Seq<char>,
)
    ensures
        entry_of(rows) matches Ok(map) ==> {
            &&& entry_of(rows.push((Some(key), Some(value)))) matches Ok(more) && more[key] == value
                && more.contains_key(key) && (other != key ==> more.contains_key(other)
                == map.contains_key(other) && (map.contains_key(other) ==> more[other]
                == map[other]))
            &&& entry_of(rows.push((None, Some(value)))) is Err
            &&& entry_of(rows.push((Some(key), None))) is Err
        },
        entry_of(rows) is Err ==> entry_of(rows.push((Some(key), Some(value)))) is Err,
        entry_of(Seq::empty()) == Ok::<Map<Seq<char>, Seq<char>>, Seq<char>>(Map::empty()),
{
    assert(rows.push((Some(key), Some(value))).drop_last() =~= rows);
    assert(rows.push((None, Some(value))).drop_last() =~= rows);
    assert(rows.push((Some(key), None)).drop_last() =~= rows);
}

/// A change is carried out, then kept, and has happened only once both have succeeded.
pub proof fn law_change_is_kept(statement: StatementView)
    ensures
        ({
            let start = Seq::<ReplyView>::empty();
            let carried = start.push(ReplyView::Done);
            &&& one_change(statement, start) == RunView::<()>::Ask(RequestView::Execute(statement))
            &&& one_change(statement, carried) == RunView::<()>::Ask(RequestView::Commit)
            &&& one_change(statement, carried.push(ReplyView::Done)) == RunView::<()>::Got((), 2)
            &&& one_change(statement, carried.push(ReplyView::Failed)) == RunView::<()>::Stop(
                ErrorView::Backend,
                2,
            )
            &&& one_change(statement, start.push(ReplyView::Failed)) == RunView::<()>::Stop(
                ErrorView::Backend,
                1,
            )
        }),
{
}

/// A later pair replaces an earlier one with its key, and no other.
pub proof fn law_later_pair_counts(
    pairs: Seq<(Seq<char>, Seq<char>)>,
    key: Seq<char>,
    value: Seq<char>,
    other: Seq<char>,
)
    ensures
        ({
            let before = map_of(pairs);
            let after = map_of(pairs.push((key, value)));
            &&& after.contains_key(key) && after[key] == value
            &&& other != key ==> after.contains_key(other) == before.contains_key(other) && (
            before.contains_key(other) ==> after[other] == before[other])
        }),
{
    assert(pairs.push((key, value)).drop_last() =~= pairs);
}

} // verus!
