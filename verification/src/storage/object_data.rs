//! The items of an object store. A key enters in its serialized form, whose order as bytes
//! is the order of keys.
use vstd::prelude::*;
use vstd::string::StringExecFns;

use crate::storage::condition;
use crate::storage::object_store::ObjectStoreModel;
use crate::storage::sql;
use crate::storage::sql::{
    ErrorView, Reply, ReplyView, RequestView, Run, RunView, SqlValue, Statement, StatementView,
    ValueView,
};
use crate::text;

verus! {

/// A range of keys.
#[derive(Debug)]
pub struct KeyRange {
    pub lower: Option<Vec<u8>>,
    pub upper: Option<Vec<u8>>,
    pub lower_open: bool,
    pub upper_open: bool,
}

pub struct RangeView {
    pub lower: Option<Seq<u8>>,
    pub upper: Option<Seq<u8>>,
    pub lower_open: bool,
    pub upper_open: bool,
}

impl DeepView for KeyRange {
    type V = RangeView;

    open spec fn deep_view(&self) -> RangeView {
        RangeView {
            lower: sql::blob_view(self.lower),
            upper: sql::blob_view(self.upper),
            lower_open: self.lower_open,
            upper_open: self.upper_open,
        }
    }
}

/// The one key that a range holds, if it is written so.
pub open spec fn singleton(range: RangeView) -> Option<Seq<u8>> {
    if range.lower is Some && range.lower == range.upper && !range.lower_open
        && !range.upper_open {
        range.lower
    } else {
        None
    }
}

impl KeyRange {
    /// The one key that a range holds, if it is written so.
    pub fn as_singleton(&self) -> (r: Option<&Vec<u8>>)
        ensures
            match singleton(self.deep_view()) {
                Some(key) => r matches Some(k) && k@ == key,
                None => r is None,
            },
    {
        if self.lower_open || self.upper_open {
            return None;
        }
        match (&self.lower, &self.upper) {
            (Some(lower), Some(upper)) => {
                if text::same(lower.as_slice(), upper.as_slice()) {
                    Some(lower)
                } else {
                    None
                }
            },
            _ => None,
        }
    }
}

/// The condition on keys that a range stands for, with the values bound to it, which are
/// numbered from an index on.
pub open spec fn range_clause(range: RangeView, index: int) -> (Seq<char>, Seq<ValueView>) {
    let upper_sign = if range.upper_open {
        "key < ?"@
    } else {
        "key <= ?"@
    };
    let lower_sign = if range.lower_open {
        "key > ?"@
    } else {
        "key >= ?"@
    };
    match singleton(range) {
        Some(key) => ("key = ?"@ + sql::digits(index as nat), sql::one(ValueView::Blob(key))),
        None => match (range.upper, range.lower) {
            (Some(upper), Some(lower)) => (
                upper_sign + sql::digits(index as nat) + " AND "@ + lower_sign + sql::digits(
                    (index + 1) as nat,
                ),
                sql::two(ValueView::Blob(upper), ValueView::Blob(lower)),
            ),
            (Some(upper), None) => (
                upper_sign + sql::digits(index as nat),
                sql::one(ValueView::Blob(upper)),
            ),
            (None, Some(lower)) => (
                lower_sign + sql::digits(index as nat),
                sql::one(ValueView::Blob(lower)),
            ),
            (None, None) => ("1"@, Seq::empty()),
        },
    }
}

/// The condition on keys that a range stands for; the values bound to it are added to
/// those given.
fn build_range_clause(range: &KeyRange, values: Vec<SqlValue>, next_index: usize) -> (r: (
    String,
    Vec<SqlValue>,
))
    requires
        next_index < usize::MAX,
    ensures
        r.0@ == range_clause(range.deep_view(), next_index as int).0,
        r.1.deep_view() == values.deep_view() + range_clause(
            range.deep_view(),
            next_index as int,
        ).1,
{
    let ghost given = values.deep_view();
    match range.as_singleton() {
        Some(key) => {
            let clause: String = "key = ?".to_owned().concat(sql::render(next_index).as_str());
            let values: Vec<SqlValue> = sql::with_blob(values, key);
            assert(values.deep_view() =~= given + sql::one(ValueView::Blob(key@)));
            return (clause, values);
        },
        None => {},
    }
    let upper_sign: &str = if range.upper_open {
        "key < ?"
    } else {
        "key <= ?"
    };
    let lower_sign: &str = if range.lower_open {
        "key > ?"
    } else {
        "key >= ?"
    };
    match (&range.upper, &range.lower) {
        (Some(upper), Some(lower)) => {
            let clause: String = upper_sign.to_owned().concat(
                sql::render(next_index).as_str(),
            ).concat(" AND ").concat(lower_sign).concat(sql::render(next_index + 1).as_str());
            let values: Vec<SqlValue> = sql::with_blob(sql::with_blob(values, upper), lower);
            assert(values.deep_view() =~= given + sql::two(
                ValueView::Blob(upper@),
                ValueView::Blob(lower@),
            ));
            (clause, values)
        },
        (Some(upper), None) => {
            let clause: String = upper_sign.to_owned().concat(sql::render(next_index).as_str());
            let values: Vec<SqlValue> = sql::with_blob(values, upper);
            assert(values.deep_view() =~= given + sql::one(ValueView::Blob(upper@)));
            (clause, values)
        },
        (None, Some(lower)) => {
            let clause: String = lower_sign.to_owned().concat(sql::render(next_index).as_str());
            let values: Vec<SqlValue> = sql::with_blob(values, lower);
            assert(values.deep_view() =~= given + sql::one(ValueView::Blob(lower@)));
            (clause, values)
        },
        (None, None) => {
            assert(values.deep_view() =~= given + Seq::<ValueView>::empty());
            ("1".to_owned(), values)
        },
    }
}

/// A statement on the items of a store within a range of keys: its beginning, the
/// condition, its end.
pub open spec fn ranged(
    start: Seq<char>,
    store_id: i64,
    range: RangeView,
    end: Seq<char>,
) -> StatementView {
    let clause = range_clause(range, 2);
    sql::statement_view(
        start + " FROM object_data WHERE object_store_id = ?1 AND "@ + clause.0 + end,
        sql::one(ValueView::Int(store_id)) + clause.1,
    )
}

/// The statement that selects items of a store.
pub open spec fn selection(
    select_list: Seq<char>,
    store_id: i64,
    range: RangeView,
    count: Option<u32>,
    order_by_key: bool,
) -> StatementView {
    let order = if order_by_key {
        " ORDER BY key ASC"@
    } else {
        Seq::empty()
    };
    let unlimited = ranged("SELECT "@ + select_list, store_id, range, order);
    match count {
        None => sql::statement_view(unlimited.sql + ";"@, unlimited.values),
        Some(count) => sql::statement_view(
            unlimited.sql + " LIMIT ?"@ + sql::digits((unlimited.values.len() + 1) as nat) + ";"@,
            unlimited.values.push(ValueView::Int(count as i64)),
        ),
    }
}

/// The statement that selects items of a store within a range of keys, at most so many,
/// and in the order of their keys or in none.
pub fn object_data_select_sql(
    select_list: &str,
    store_id: i64,
    key_range: &KeyRange,
    count: Option<u32>,
    order_by_key: bool,
) -> (r: Statement)
    ensures
        r.deep_view() == selection(
            select_list@,
            store_id,
            key_range.deep_view(),
            count,
            order_by_key,
        ),
{
    let values: Vec<SqlValue> = sql::with_int(sql::no_values(), store_id);
    let (clause, values): (String, Vec<SqlValue>) = build_range_clause(key_range, values, 2);
    let mut out: String = "SELECT ".to_owned().concat(select_list).concat(
        " FROM object_data WHERE object_store_id = ?1 AND ",
    ).concat(clause.as_str());
    let ghost order = if order_by_key {
        " ORDER BY key ASC"@
    } else {
        Seq::empty()
    };
    let ghost before = out@;
    if order_by_key {
        out.append(" ORDER BY key ASC");
    }
    let ghost unlimited = ranged("SELECT "@ + select_list@, store_id, key_range.deep_view(), order);
    assert(out@ =~= before + order);
    match count {
        Some(count) => {
            let values: Vec<SqlValue> = sql::with_int(values, count as i64);
            assert(values@.len() == values.deep_view().len());
            out.append(" LIMIT ?");
            out.append(sql::render(values.len()).as_str());
            out.append(";");
            sql::statement(out.as_str(), values)
        },
        None => {
            out.append(";");
            sql::statement(out.as_str(), values)
        },
    }
}

/// What became of putting an item.
#[derive(Debug)]
pub enum PutItemResult {
    /// The key of the item.
    Key(Vec<u8>),
    CannotOverwrite,
}

pub enum PutView {
    Key(Seq<u8>),
    CannotOverwrite,
}

impl DeepView for PutItemResult {
    type V = PutView;

    open spec fn deep_view(&self) -> PutView {
        match *self {
            PutItemResult::Key(key) => PutView::Key(key@),
            PutItemResult::CannotOverwrite => PutView::CannotOverwrite,
        }
    }
}

/// The statement that writes an item: over the one that is there, or as a new one.
pub open spec fn writing(store_id: i64, key: Seq<u8>, value: Seq<u8>, exists: bool) -> RequestView {
    if exists {
        sql::execute_view(
            "UPDATE object_data SET data = ?1 WHERE object_store_id = ?2 AND key = ?3;"@,
            sql::three(ValueView::Blob(value), ValueView::Int(store_id), ValueView::Blob(key)),
        )
    } else {
        sql::execute_view(
            "INSERT INTO object_data (object_store_id, key, data) VALUES (?1, ?2, ?3);"@,
            sql::three(ValueView::Int(store_id), ValueView::Blob(key), ValueView::Blob(value)),
        )
    }
}

/// Where putting an item stands, after it was written.
pub open spec fn generator_moved(
    store_id: i64,
    key: Seq<u8>,
    number: Option<i64>,
    replies: Seq<ReplyView>,
    at: int,
) -> RunView<PutView> {
    match number {
        None => RunView::Got(PutView::Key(key), at),
        Some(number) => sql::and_then(
            sql::done(
                replies,
                at,
                sql::execute_view(
                    "UPDATE object_store SET auto_increment = ?1 WHERE id = ?2;"@,
                    sql::two(ValueView::Int(number), ValueView::Int(store_id)),
                ),
            ),
            |_u: (), next: int| RunView::Got(PutView::Key(key), next),
        ),
    }
}

/// Where putting an item stands.
pub open spec fn put(
    store_id: i64,
    key: Seq<u8>,
    value: Seq<u8>,
    overwrite: bool,
    number: Option<i64>,
    replies: Seq<ReplyView>,
) -> RunView<PutView> {
    sql::and_then(
        sql::number(
            replies,
            0,
            sql::query_view(
                "SELECT 1 FROM object_data WHERE object_store_id = ?1 AND key = ?2 LIMIT 1;"@,
                sql::two(ValueView::Int(store_id), ValueView::Blob(key)),
            ),
        ),
        |existing: Option<i64>, next: int|
            if existing is Some && !overwrite {
                RunView::Got(PutView::CannotOverwrite, next)
            } else {
                sql::and_then(
                    sql::done(replies, next, writing(store_id, key, value, existing is Some)),
                    |_u: (), next: int| generator_moved(store_id, key, number, replies, next),
                )
            },
    )
}

/// Put an item under a key. The key generator of the store moves on to the given number,
/// if there is one.
pub fn put_item(
    store: &ObjectStoreModel,
    key: &Vec<u8>,
    value: &Vec<u8>,
    should_overwrite: bool,
    key_generator_current_number: Option<i64>,
    replies: &Vec<Reply>,
) -> (r: Run<PutItemResult>)
    ensures
        r.deep_view() == put(
            store.id,
            key@,
            value@,
            should_overwrite,
            key_generator_current_number,
            replies.deep_view(),
        ),
{
    let (existing, next): (Option<i64>, usize) = match sql::query_optional_i64(
        replies,
        0,
        "SELECT 1 FROM object_data WHERE object_store_id = ?1 AND key = ?2 LIMIT 1;",
        sql::with_blob(sql::with_int(sql::no_values(), store.id), key),
    ) {
        Run::Ask(request) => return Run::Ask(request),
        Run::Stop(error, next) => return Run::Stop(error, next),
        Run::Got(existing, next) => (existing, next),
    };
    let written: Run<()> = if existing.is_some() {
        if !should_overwrite {
            return Run::Got(PutItemResult::CannotOverwrite, next);
        }
        sql::execute(
            replies,
            next,
            "UPDATE object_data SET data = ?1 WHERE object_store_id = ?2 AND key = ?3;",
            sql::with_blob(
                sql::with_int(sql::with_blob(sql::no_values(), value), store.id),
                key,
            ),
        )
    } else {
        sql::execute(
            replies,
            next,
            "INSERT INTO object_data (object_store_id, key, data) VALUES (?1, ?2, ?3);",
            sql::with_blob(
                sql::with_blob(sql::with_int(sql::no_values(), store.id), key),
                value,
            ),
        )
    };
    let next: usize = match written {
        Run::Ask(request) => return Run::Ask(request),
        Run::Stop(error, next) => return Run::Stop(error, next),
        Run::Got(_, next) => next,
    };
    let next: usize = match key_generator_current_number {
        None => next,
        Some(number) => match sql::execute(
            replies,
            next,
            "UPDATE object_store SET auto_increment = ?1 WHERE id = ?2;",
            sql::with_int(sql::with_int(sql::no_values(), number), store.id),
        ) {
            Run::Ask(request) => return Run::Ask(request),
            Run::Stop(error, next) => return Run::Stop(error, next),
            Run::Got(_, next) => next,
        },
    };
    Run::Got(PutItemResult::Key(text::copy_bytes(key.as_slice())), next)
}

/// Delete the items of a store within a range of keys.
pub fn delete_item(store: &ObjectStoreModel, key_range: &KeyRange, replies: &Vec<Reply>) -> (r: Run<
    (),
>)
    ensures
        r.deep_view() == sql::done(
            replies.deep_view(),
            0,
            RequestView::Execute(ranged("DELETE"@, store.id, key_range.deep_view(), ";"@)),
        ),
{
    let values: Vec<SqlValue> = sql::with_int(sql::no_values(), store.id);
    let (clause, values): (String, Vec<SqlValue>) = build_range_clause(key_range, values, 2);
    let out: String = "DELETE FROM object_data WHERE object_store_id = ?1 AND ".to_owned().concat(
        clause.as_str(),
    ).concat(";");
    proof {
        reveal_strlit("DELETE FROM object_data WHERE object_store_id = ?1 AND ");
        reveal_strlit("DELETE");
        reveal_strlit(" FROM object_data WHERE object_store_id = ?1 AND ");
        assert("DELETE"@ + " FROM object_data WHERE object_store_id = ?1 AND "@
            =~= "DELETE FROM object_data WHERE object_store_id = ?1 AND "@);
    }
    sql::execute(replies, 0, out.as_str(), values)
}

/// Delete all items of a store.
pub fn clear(store: &ObjectStoreModel, replies: &Vec<Reply>) -> (r: Run<()>)
    ensures
        r.deep_view() == sql::done(
            replies.deep_view(),
            0,
            sql::execute_view(
                "DELETE FROM object_data WHERE object_store_id = ?1;"@,
                sql::one(ValueView::Int(store.id)),
            ),
        ),
{
    sql::execute(
        replies,
        0,
        "DELETE FROM object_data WHERE object_store_id = ?1;",
        sql::with_int(sql::no_values(), store.id),
    )
}

/// Where counting the items of a store within a range of keys stands.
pub open spec fn counted(store_id: i64, range: RangeView, replies: Seq<ReplyView>) -> RunView<
    usize,
> {
    sql::and_then(
        sql::number(
            replies,
            0,
            RequestView::QueryI64(ranged("SELECT COUNT(*)"@, store_id, range, ";"@)),
        ),
        |n: Option<i64>, next: int|
            RunView::Got(
                match n {
                    Some(n) => n as usize,
                    None => 0,
                },
                next,
            ),
    )
}

/// Count the items of a store within a range of keys.
pub fn count(store: &ObjectStoreModel, key_range: &KeyRange, replies: &Vec<Reply>) -> (r: Run<
    usize,
>)
    ensures
        r.deep_view() == counted(store.id, key_range.deep_view(), replies.deep_view()),
{
    let values: Vec<SqlValue> = sql::with_int(sql::no_values(), store.id);
    let (clause, values): (String, Vec<SqlValue>) = build_range_clause(key_range, values, 2);
    let out: String = "SELECT COUNT(*) FROM object_data WHERE object_store_id = ?1 AND ".to_owned().concat(
        clause.as_str(),
    ).concat(";");
    proof {
        reveal_strlit("SELECT COUNT(*) FROM object_data WHERE object_store_id = ?1 AND ");
        reveal_strlit("SELECT COUNT(*)");
        reveal_strlit(" FROM object_data WHERE object_store_id = ?1 AND ");
        assert("SELECT COUNT(*)"@ + " FROM object_data WHERE object_store_id = ?1 AND "@
            =~= "SELECT COUNT(*) FROM object_data WHERE object_store_id = ?1 AND "@);
    }
    match sql::query_optional_i64(replies, 0, out.as_str(), values) {
        Run::Ask(request) => Run::Ask(request),
        Run::Stop(error, next) => Run::Stop(error, next),
        Run::Got(n, next) => Run::Got(
            match n {
                Some(n) => n as usize,
                None => 0,
            },
            next,
        ),
    }
}

/// An item that is not to be overwritten is not: the put ends without a statement being
/// carried out.
pub proof fn law_items_are_not_overwritten(
    store_id: i64,
    key: Seq<u8>,
    value: Seq<u8>,
    number: Option<i64>,
    replies: Seq<ReplyView>,
)
    requires
        replies.len() > 0,
        replies[0] matches ReplyView::Int(n) && n is Some,
    ensures
        put(store_id, key, value, false, number, replies) == RunView::<PutView>::Got(
            PutView::CannotOverwrite,
            1,
        ),
{
}

/// A range binds as many values as its condition names, and they are its bounds.
pub proof fn law_bounds_are_bound(range: RangeView, index: int)
    ensures
        ({
            let values = range_clause(range, index).1;
            &&& values.len() <= 2
            &&& forall|i: int|
                0 <= i < values.len() ==> #[trigger] values[i] == ValueView::Blob(range.lower->0)
                    || values[i] == ValueView::Blob(range.upper->0)
            &&& values.len() == 0 <==> range.lower is None && range.upper is None
        }),
{
}

/// Whether a key lies in a range: above its lower bound and below its upper one, as far as
/// it has them, or on a bound that belongs to it.
pub open spec fn lies_in(range: RangeView, key: Seq<u8>) -> bool {
    &&& range.lower matches Some(lower) ==> condition::less(lower, key) || (key == lower
        && !range.lower_open)
    &&& range.upper matches Some(upper) ==> condition::less(key, upper) || (key == upper
        && !range.upper_open)
}

/// An item of a store, as a row of the table.
pub open spec fn item_row(store_id: i64, key: Seq<u8>) -> Map<Seq<char>, ValueView> {
    map!["object_store_id"@ => ValueView::Int(store_id), "key"@ => ValueView::Blob(key)]
}

proof fn lemma_signs()
    ensures
        "="@ != "<"@,
        "="@ != "<="@,
        "="@ != ">"@,
        "="@ != ">="@,
        "<"@ != "<="@,
        "<"@ != ">"@,
        "<"@ != ">="@,
        "<="@ != ">"@,
        "<="@ != ">="@,
        ">"@ != ">="@,
        !"="@.contains(' '),
        !"<"@.contains(' '),
        !"<="@.contains(' '),
        !">"@.contains(' '),
        !">="@.contains(' '),
        !"key"@.contains(' '),
        !"object_store_id"@.contains(' '),
        "key"@.len() > 0 && "key"@[0] != '?',
        "object_store_id"@.len() > 0 && "object_store_id"@[0] != '?',
        "key"@ != "object_store_id"@,
{
    reveal_strlit("=");
    reveal_strlit("<");
    reveal_strlit("<=");
    reveal_strlit(">");
    reveal_strlit(">=");
    reveal_strlit("key");
    reveal_strlit("object_store_id");
    assert("="@[0] == '=');
    assert("<"@[0] == '<' && "<="@[0] == '<');
    assert(">"@[0] == '>' && ">="@[0] == '>');
    assert("<"@.len() == 1 && "<="@.len() == 2);
    assert(">"@.len() == 1 && ">="@.len() == 2);
    assert("key"@.len() == 3 && "object_store_id"@.len() == 15);
}

proof fn lemma_written(number: nat)
    ensures
        "key = ?"@ + sql::digits(number) == condition::comparison("key"@, "="@, number),
        "key < ?"@ + sql::digits(number) == condition::comparison("key"@, "<"@, number),
        "key <= ?"@ + sql::digits(number) == condition::comparison("key"@, "<="@, number),
        "key > ?"@ + sql::digits(number) == condition::comparison("key"@, ">"@, number),
        "key >= ?"@ + sql::digits(number) == condition::comparison("key"@, ">="@, number),
        "object_store_id = ?"@ + sql::digits(number) == condition::comparison(
            "object_store_id"@,
            "="@,
            number,
        ),
{
    reveal_strlit("key = ?");
    reveal_strlit("key < ?");
    reveal_strlit("key <= ?");
    reveal_strlit("key > ?");
    reveal_strlit("key >= ?");
    reveal_strlit("object_store_id = ?");
    reveal_strlit("=");
    reveal_strlit("<");
    reveal_strlit("<=");
    reveal_strlit(">");
    reveal_strlit(">=");
    reveal_strlit("key");
    reveal_strlit("object_store_id");
    assert("key = ?"@ + sql::digits(number) =~= condition::comparison("key"@, "="@, number));
    assert("key < ?"@ + sql::digits(number) =~= condition::comparison("key"@, "<"@, number));
    assert("key <= ?"@ + sql::digits(number) =~= condition::comparison("key"@, "<="@, number));
    assert("key > ?"@ + sql::digits(number) =~= condition::comparison("key"@, ">"@, number));
    assert("key >= ?"@ + sql::digits(number) =~= condition::comparison("key"@, ">="@, number));
    assert("object_store_id = ?"@ + sql::digits(number) =~= condition::comparison(
        "object_store_id"@,
        "="@,
        number,
    ));
}

/// A key meets the condition of a range, with its values bound after those that are given,
/// exactly if it lies in the range.
pub proof fn law_condition_is_the_range(
    range: RangeView,
    given: Seq<ValueView>,
    store_id: i64,
    key: Seq<u8>,
)
    ensures
        ({
            let clause = range_clause(range, given.len() as int + 1);
            condition::meets(
                condition::words(clause.0),
                item_row(store_id, key),
                given + clause.1,
            ) <==> lies_in(range, key)
        }),
{
    let index = given.len() + 1;
    let clause = range_clause(range, index as int);
    let values = given + clause.1;
    let row = item_row(store_id, key);
    lemma_signs();
    lemma_written(index);
    lemma_written(index + 1);
    assert(row["key"@] == ValueView::Blob(key));
    let upper_sign = if range.upper_open {
        "<"@
    } else {
        "<="@
    };
    let lower_sign = if range.lower_open {
        ">"@
    } else {
        ">="@
    };
    let lower = condition::comparison("key"@, lower_sign, index + 1);
    condition::lemma_narrowed("key"@, "="@, index, lower, row, values);
    condition::lemma_narrowed("key"@, upper_sign, index, lower, row, values);
    condition::lemma_narrowed("key"@, lower_sign, index, lower, row, values);
    condition::lemma_narrowed("key"@, lower_sign, index + 1, lower, row, values);
    if let Some(only) = singleton(range) {
        condition::lemma_less(key, only);
        assert(values[index - 1] == ValueView::Blob(only));
    } else {
        match (range.upper, range.lower) {
            (Some(upper), Some(low)) => {
                assert(values[index - 1] == ValueView::Blob(upper));
                assert(values[index as int] == ValueView::Blob(low));
                let first = condition::comparison("key"@, upper_sign, index);
                let sign = if range.lower_open {
                    "key > ?"@
                } else {
                    "key >= ?"@
                };
                assert(clause.0 =~= first + " AND "@ + lower) by {
                    assert(sign + sql::digits(index + 1) == lower);
                    assert(first + " AND "@ + sign + sql::digits(index + 1) =~= first + " AND "@ + (
                    sign + sql::digits(index + 1)));
                }
            },
            (Some(upper), None) => {
                assert(values[index - 1] == ValueView::Blob(upper));
            },
            (None, Some(low)) => {
                assert(values[index - 1] == ValueView::Blob(low));
            },
            (None, None) => {
                reveal_strlit("1");
                assert(!"1"@.contains(' '));
                condition::lemma_one_word("1"@);
            },
        }
    }
}

/// Whether a statement on the table of items has a condition between its beginning and its
/// end.
pub open spec fn is_conditioned(
    text: Seq<char>,
    start: Seq<char>,
    wanted: Seq<char>,
    end: Seq<char>,
) -> bool {
    text == start + " FROM object_data WHERE "@ + wanted + end
}

/// A statement on a range of keys is about the items of the store whose keys lie in the
/// range, and about no others: that is what its condition says, with the values bound that
/// it has.
pub proof fn law_statement_is_about_the_range(
    start: Seq<char>,
    store_id: i64,
    range: RangeView,
    end: Seq<char>,
    other: i64,
    key: Seq<u8>,
)
    ensures
        exists|wanted: Seq<char>| #[trigger]
            is_conditioned(ranged(start, store_id, range, end).sql, start, wanted, end) && (
            condition::meets(
                condition::words(wanted),
                item_row(other, key),
                ranged(start, store_id, range, end).values,
            ) <==> other == store_id && lies_in(range, key)),
{
    let statement = ranged(start, store_id, range, end);
    let clause = range_clause(range, 2);
    let given = sql::one(ValueView::Int(store_id));
    let row = item_row(other, key);
    let own = condition::comparison("object_store_id"@, "="@, 1);
    let wanted = own + " AND "@ + clause.0;
    lemma_signs();
    lemma_written(1);
    law_condition_is_the_range(range, given, other, key);
    condition::lemma_narrowed("object_store_id"@, "="@, 1, clause.0, row, statement.values);
    assert(statement.values[0] == ValueView::Int(store_id));
    assert(row["object_store_id"@] == ValueView::Int(other));
    reveal_strlit(" FROM object_data WHERE object_store_id = ?1 AND ");
    reveal_strlit(" FROM object_data WHERE ");
    reveal_strlit("object_store_id = ?");
    reveal_strlit(" AND ");
    assert(sql::digits(1) =~= seq!['1']);
    assert(" FROM object_data WHERE object_store_id = ?1 AND "@ =~= " FROM object_data WHERE "@
        + own + " AND "@);
    assert(statement.sql =~= start + " FROM object_data WHERE "@ + wanted + end);
    assert(is_conditioned(statement.sql, start, wanted, end));
    assert(condition::meets(condition::words(wanted), row, statement.values) <==> other == store_id
        && lies_in(range, key));
}

/// An item is written under its store and its key: as a row of its own where there is none,
/// and else as the data of the row that is there, and of no other.
pub proof fn law_written_item(store_id: i64, key: Seq<u8>, value: Seq<u8>)
    ensures
        ({
            let own = ("object_store_id"@, ValueView::Int(store_id));
            let under = ("key"@, ValueView::Blob(key));
            let data = ("data"@, ValueView::Blob(value));
            &&& writing(store_id, key, value, false) == RequestView::Execute(
                condition::insertion("object_data"@, seq![own, under, data], ";"@),
            )
            &&& writing(store_id, key, value, true) == RequestView::Execute(
                condition::change("object_data"@, seq![data], seq![own, under]),
            )
        }),
{
    let own = ("object_store_id"@, ValueView::Int(store_id));
    let under = ("key"@, ValueView::Blob(key));
    let data = ("data"@, ValueView::Blob(value));
    reveal_strlit("object_store_id");
    reveal_strlit("key");
    reveal_strlit("data");
    reveal_strlit("object_data");
    reveal_strlit(";");
    reveal_strlit("INSERT INTO ");
    reveal_strlit(" (");
    reveal_strlit(") VALUES (");
    reveal_strlit(")");
    reveal_strlit("UPDATE ");
    reveal_strlit(" SET ");
    reveal_strlit(" WHERE ");
    reveal_strlit(" AND ");
    reveal_strlit("INSERT INTO object_data (object_store_id, key, data) VALUES (?1, ?2, ?3);");
    reveal_strlit("UPDATE object_data SET data = ?1 WHERE object_store_id = ?2 AND key = ?3;");
    condition::lemma_three_cells(own, under, data);
    condition::lemma_one_cell(data, 1, ", "@);
    condition::lemma_two_cells(own, under, 2, " AND "@);
    assert("INSERT INTO object_data (object_store_id, key, data) VALUES (?1, ?2, ?3);"@
        =~= condition::insertion("object_data"@, seq![own, under, data], ";"@).sql);
    assert("UPDATE object_data SET data = ?1 WHERE object_store_id = ?2 AND key = ?3;"@
        =~= condition::change("object_data"@, seq![data], seq![own, under]).sql);
    assert(sql::three(data.1, own.1, under.1) =~= sql::one(data.1) + sql::two(own.1, under.1));
}

proof fn lemma_item_looked_up(own: ValueView, under: ValueView)
    ensures
        sql::statement_view("SELECT 1 FROM object_data WHERE object_store_id = ?1 AND key = ?2 LIMIT 1;"@, sql::two(own, under)) == condition::reading("1"@, "object_data"@, seq![("object_store_id"@, own), ("key"@, under)], " LIMIT 1;"@),
{
    reveal_strlit("1");
    reveal_strlit("key");
    reveal_strlit(" AND ");
    reveal_strlit(" FROM ");
    reveal_strlit(" WHERE ");
    reveal_strlit("SELECT ");
    reveal_strlit(" LIMIT 1;");
    reveal_strlit("object_data");
    reveal_strlit("object_store_id");
    reveal_strlit("SELECT 1 FROM object_data WHERE object_store_id = ?1 AND key = ?2 LIMIT 1;");
    condition::lemma_two_cells(("object_store_id"@, own), ("key"@, under), 1, " AND "@);
    assert("SELECT 1 FROM object_data WHERE object_store_id = ?1 AND key = ?2 LIMIT 1;"@ =~= condition::reading("1"@, "object_data"@, seq![("object_store_id"@, own), ("key"@, under)], " LIMIT 1;"@).sql);
    assert(sql::two(own, under) =~= condition::reading("1"@, "object_data"@, seq![("object_store_id"@, own), ("key"@, under)], " LIMIT 1;"@).values);
}

proof fn lemma_generator_stored(number: ValueView, own: ValueView)
    ensures
        sql::statement_view("UPDATE object_store SET auto_increment = ?1 WHERE id = ?2;"@, sql::two(number, own)) == condition::change("object_store"@, seq![("auto_increment"@, number)], seq![("id"@, own)]),
{
    reveal_strlit(";");
    reveal_strlit(", ");
    reveal_strlit("id");
    reveal_strlit(" AND ");
    reveal_strlit(" SET ");
    reveal_strlit(" WHERE ");
    reveal_strlit("UPDATE ");
    reveal_strlit("object_store");
    reveal_strlit("auto_increment");
    reveal_strlit("UPDATE object_store SET auto_increment = ?1 WHERE id = ?2;");
    condition::lemma_one_cell(("auto_increment"@, number), 1, ", "@);
    condition::lemma_one_cell(("id"@, own), 2, " AND "@);
    assert("UPDATE object_store SET auto_increment = ?1 WHERE id = ?2;"@ =~= condition::change("object_store"@, seq![("auto_increment"@, number)], seq![("id"@, own)]).sql);
    assert(sql::two(number, own) =~= condition::change("object_store"@, seq![("auto_increment"@, number)], seq![("id"@, own)]).values);
}

/// How an item is put: it is asked whether the store has the key, the item is written over
/// the one that is there or as a new one, and then the key generator moves on, if it does.
/// Where the key is there and must not be overwritten, nothing is written.
pub proof fn law_putting_an_item(
    store_id: i64,
    key: Seq<u8>,
    value: Seq<u8>,
    overwrite: bool,
    number: i64,
    existing: Option<i64>,
)
    ensures
        ({
            let own = ("object_store_id"@, ValueView::Int(store_id));
            let under = ("key"@, ValueView::Blob(key));
            let start = Seq::<ReplyView>::empty();
            let looked = start.push(ReplyView::Int(existing));
            let wrote = looked.push(ReplyView::Done);
            let moved = wrote.push(ReplyView::Done);
            let writes = existing is None || overwrite;
            &&& put(store_id, key, value, overwrite, Some(number), start) == RunView::<
                PutView,
            >::Ask(
                RequestView::QueryI64(
                    condition::reading("1"@, "object_data"@, seq![own, under], " LIMIT 1;"@),
                ),
            )
            &&& !writes ==> put(store_id, key, value, overwrite, Some(number), looked)
                == RunView::<PutView>::Got(PutView::CannotOverwrite, 1)
            &&& writes ==> put(store_id, key, value, overwrite, Some(number), looked) == RunView::<
                PutView,
            >::Ask(writing(store_id, key, value, existing is Some))
            &&& writes ==> put(store_id, key, value, overwrite, None, wrote) == RunView::<
                PutView,
            >::Got(PutView::Key(key), 2)
            &&& writes ==> put(store_id, key, value, overwrite, Some(number), wrote) == RunView::<
                PutView,
            >::Ask(
                RequestView::Execute(
                    condition::change(
                        "object_store"@,
                        seq![("auto_increment"@, ValueView::Int(number))],
                        seq![("id"@, ValueView::Int(store_id))],
                    ),
                ),
            )
            &&& writes ==> put(store_id, key, value, overwrite, Some(number), moved) == RunView::<
                PutView,
            >::Got(PutView::Key(key), 3)
            &&& writes ==> put(
                store_id,
                key,
                value,
                overwrite,
                Some(number),
                looked.push(ReplyView::Failed),
            ) == RunView::<PutView>::Stop(ErrorView::Backend, 2)
        }),
{
    lemma_item_looked_up(ValueView::Int(store_id), ValueView::Blob(key));
    lemma_generator_stored(ValueView::Int(number), ValueView::Int(store_id));
}

/// A limit is bound behind the values of the range and named by its number, and an order is
/// asked for exactly if it is wanted. The range is selected as it is without them.
pub proof fn law_limit_and_order(
    select_list: Seq<char>,
    store_id: i64,
    range: RangeView,
    count: u32,
)
    ensures
        ({
            let plain = ranged("SELECT "@ + select_list, store_id, range, Seq::empty());
            let unordered = selection(select_list, store_id, range, None, false);
            let ordered = selection(select_list, store_id, range, None, true);
            let limited = selection(select_list, store_id, range, Some(count), true);
            &&& unordered.sql == plain.sql + ";"@
            &&& unordered.values == plain.values
            &&& ordered.sql == plain.sql + " ORDER BY key ASC"@ + ";"@
            &&& ordered.values == plain.values
            &&& limited.sql == plain.sql + " ORDER BY key ASC"@ + " LIMIT ?"@ + sql::digits(
                limited.values.len(),
            ) + ";"@
            &&& limited.values.drop_last() == plain.values
            &&& limited.values.last() == ValueView::Int(count as i64)
        }),
{
    let plain = ranged("SELECT "@ + select_list, store_id, range, Seq::empty());
    let limited = selection(select_list, store_id, range, Some(count), true);
    let start = "SELECT "@ + select_list + " FROM object_data WHERE object_store_id = ?1 AND "@
        + range_clause(range, 2).0;
    assert(plain.sql =~= start);
    assert(start + Seq::<char>::empty() =~= start);
    assert(limited.values.drop_last() =~= plain.values);
}

/// The number of items is the one that the database gives, and nothing where it gives none.
pub proof fn law_counted_items(store_id: i64, range: RangeView, n: u32)
    ensures
        counted(store_id, range, Seq::empty()) == RunView::<usize>::Ask(
            RequestView::QueryI64(ranged("SELECT COUNT(*)"@, store_id, range, ";"@)),
        ),
        counted(store_id, range, Seq::empty().push(ReplyView::Int(Some(n as i64)))) == RunView::<
            usize,
        >::Got(n as usize, 1),
        counted(store_id, range, Seq::empty().push(ReplyView::Int(None))) == RunView::<usize>::Got(
            0,
            1,
        ),
        counted(store_id, range, Seq::empty().push(ReplyView::Failed)) == RunView::<usize>::Stop(
            ErrorView::Backend,
            1,
        ),
{
}

} // verus!
