//! What statements say: the condition on the rows of a table, read from its text and the
//! values that are bound to it, and the cells of a row that are written.
use vstd::prelude::*;

use crate::storage::sql;
use crate::storage::sql::{StatementView, ValueView};

verus! {

/// The words of a text, which single spaces part.
pub open spec fn words(text: Seq<char>) -> Seq<Seq<char>>
    decreases text.len(),
{
    if text.len() == 0 {
        seq![Seq::empty()]
    } else {
        let before = words(text.drop_last());
        if text.last() == ' ' {
            before.push(Seq::empty())
        } else {
            before.drop_last().push(before.last().push(text.last()))
        }
    }
}

/// The number that decimal digits stand for.
pub open spec fn number_of(digits: Seq<char>) -> int
    decreases digits.len(),
{
    if digits.len() == 0 {
        0
    } else {
        number_of(digits.drop_last()) * 10 + (digits.last() as int - '0' as int)
    }
}

/// What a word stands for: the value that is bound under its number, or what a row holds in
/// the column of that name.
pub open spec fn operand(
    word: Seq<char>,
    row: Map<Seq<char>, ValueView>,
    values: Seq<ValueView>,
) -> ValueView {
    if word.len() > 0 && word[0] == '?' {
        values[number_of(word.skip(1)) - 1]
    } else {
        row[word]
    }
}

/// Whether bytes come before others: by the first in which they differ, or by their end.
pub open spec fn less(a: Seq<u8>, b: Seq<u8>) -> bool
    decreases a.len(),
{
    b.len() > 0 && (a.len() == 0 || a[0] < b[0] || a[0] == b[0] && less(a.skip(1), b.skip(1)))
}

/// Whether a value comes before another one of its kind.
pub open spec fn precedes(a: ValueView, b: ValueView) -> bool {
    match (a, b) {
        (ValueView::Int(a), ValueView::Int(b)) => a < b,
        (ValueView::Blob(a), ValueView::Blob(b)) => less(a, b),
        _ => false,
    }
}

/// What a sign says of two values.
pub open spec fn compares(a: ValueView, sign: Seq<char>, b: ValueView) -> bool {
    ||| sign == "="@ && a == b
    ||| sign == "<"@ && precedes(a, b)
    ||| sign == "<="@ && (precedes(a, b) || a == b)
    ||| sign == ">"@ && precedes(b, a)
    ||| sign == ">="@ && (precedes(b, a) || a == b)
}

/// Whether a row meets a condition: the word `1`, which every row meets, or comparisons that
/// are joined by `AND`.
pub open spec fn meets(
    condition: Seq<Seq<char>>,
    row: Map<Seq<char>, ValueView>,
    values: Seq<ValueView>,
) -> bool
    decreases condition.len(),
{
    if condition.len() == 1 {
        condition[0] == "1"@
    } else {
        &&& condition.len() == 3 || condition.len() > 4
        &&& compares(
            operand(condition[0], row, values),
            condition[1],
            operand(condition[2], row, values),
        )
        &&& condition.len() == 3 || condition[3] == "AND"@ && meets(condition.skip(4), row, values)
    }
}

/// A comparison of a column with a bound value, as it is written.
pub open spec fn comparison(column: Seq<char>, sign: Seq<char>, number: nat) -> Seq<char> {
    column + seq![' '] + (sign + seq![' '] + (seq!['?'] + sql::digits(number)))
}

/// Of two byte strings at most one comes before the other.
pub proof fn lemma_less(a: Seq<u8>, b: Seq<u8>)
    ensures
        !(less(a, b) && less(b, a)),
        !less(a, a),
    decreases a.len(),
{
    if a.len() > 0 {
        if b.len() > 0 {
            lemma_less(a.skip(1), b.skip(1));
        } else {
            lemma_less(a.skip(1), b);
        }
    }
}

/// Digits are read back as the number that they were written for.
pub proof fn lemma_digits(n: nat)
    ensures
        number_of(sql::digits(n)) == n,
        sql::digits(n).len() > 0,
        !sql::digits(n).contains(' '),
    decreases n,
{
    let d = sql::digits(n);
    if n >= 10 {
        lemma_digits(n / 10);
        let before = sql::digits(n / 10);
        assert(d.drop_last() =~= before);
        assert(number_of(d) == number_of(before) * 10 + n % 10);
        assert forall|i: int| 0 <= i < d.len() implies d[i] != ' ' by {
            if i < before.len() {
                assert(before[i] == d[i]);
                assert(before.contains(before[i]));
            }
        }
    } else {
        assert(d.drop_last() =~= Seq::<char>::empty());
        assert(number_of(d.drop_last()) == 0);
        assert(d.last() == sql::digit(n));
    }
}

/// A text without a space is one word.
pub proof fn lemma_one_word(text: Seq<char>)
    requires
        !text.contains(' '),
    ensures
        words(text) == seq![text],
    decreases text.len(),
{
    if text.len() > 0 {
        let front = text.drop_last();
        assert forall|i: int| 0 <= i < front.len() implies front[i] != ' ' by {
            assert(text[i] == front[i]);
        }
        assert(text[text.len() - 1] == text.last());
        lemma_one_word(front);
        assert(front.push(text.last()) =~= text);
        assert(words(text) =~= seq![text]);
    } else {
        assert(text =~= Seq::<char>::empty());
    }
}

/// Two texts with a space between them have the words of both.
pub proof fn lemma_words_joined(a: Seq<char>, b: Seq<char>)
    ensures
        words(a + seq![' '] + b) == words(a) + words(b),
        words(b).len() > 0,
    decreases b.len(),
{
    let joined = a + seq![' '] + b;
    if b.len() == 0 {
        assert(joined.drop_last() =~= a);
        assert(joined.last() == ' ');
        assert(words(joined) =~= words(a) + words(b));
    } else {
        let front = b.drop_last();
        lemma_words_joined(a, front);
        assert(joined.drop_last() =~= a + seq![' '] + front);
        assert(joined.last() == b.last());
        let before = words(a) + words(front);
        if b.last() != ' ' {
            assert(before.last() == words(front).last());
            assert(before.drop_last() =~= words(a) + words(front).drop_last());
        }
        assert(words(joined) =~= words(a) + words(b));
    }
}

/// A comparison has three words, and says of a row what its sign does.
pub proof fn lemma_comparison(column: Seq<char>, sign: Seq<char>, number: nat)
    requires
        !column.contains(' '),
        !sign.contains(' '),
    ensures
        words(comparison(column, sign, number)) == seq![
            column,
            sign,
            seq!['?'] + sql::digits(number),
        ],
        forall|row: Map<Seq<char>, ValueView>, values: Seq<ValueView>| #[trigger]
            operand(seq!['?'] + sql::digits(number), row, values) == values[number - 1],
{
    let bound = seq!['?'] + sql::digits(number);
    lemma_digits(number);
    assert forall|i: int| 0 <= i < bound.len() implies bound[i] != ' ' by {
        if i > 0 {
            assert(bound[i] == sql::digits(number)[i - 1]);
            assert(sql::digits(number).contains(bound[i]));
        }
    }
    lemma_one_word(column);
    lemma_one_word(sign);
    lemma_one_word(bound);
    lemma_words_joined(sign, bound);
    lemma_words_joined(column, sign + seq![' '] + bound);
    assert(seq![column] + (seq![sign] + seq![bound]) =~= seq![column, sign, bound]);
    assert(bound.skip(1) =~= sql::digits(number));
}

/// A comparison that is joined to a condition by `AND` narrows it down.
pub proof fn lemma_narrowed(
    column: Seq<char>,
    sign: Seq<char>,
    number: nat,
    rest: Seq<char>,
    row: Map<Seq<char>, ValueView>,
    values: Seq<ValueView>,
)
    requires
        !column.contains(' '),
        !sign.contains(' '),
        column.len() > 0 && column[0] != '?',
    ensures
        meets(words(comparison(column, sign, number)), row, values) == compares(
            row[column],
            sign,
            values[number - 1],
        ),
        meets(words(comparison(column, sign, number) + " AND "@ + rest), row, values) == (compares(
            row[column],
            sign,
            values[number - 1],
        ) && meets(words(rest), row, values)),
{
    reveal_strlit(" AND ");
    reveal_strlit("AND");
    let first = comparison(column, sign, number);
    lemma_comparison(column, sign, number);
    assert(!"AND"@.contains(' '));
    lemma_one_word("AND"@);
    lemma_words_joined("AND"@, rest);
    lemma_words_joined(first, "AND"@ + seq![' '] + rest);
    assert(first + " AND "@ + rest =~= first + seq![' '] + ("AND"@ + seq![' '] + rest));
    let all = words(first + " AND "@ + rest);
    assert(all == words(first) + (seq!["AND"@] + words(rest)));
    assert(all.len() == 4 + words(rest).len());
    assert(all[0] == column && all[1] == sign && all[2] == words(first)[2]);
    assert(all[3] == "AND"@);
    assert(all.skip(4) =~= words(rest));
}

/// The names of some cells of a row, with commas between them.
pub open spec fn names(cells: Seq<(Seq<char>, ValueView)>) -> Seq<char>
    decreases cells.len(),
{
    if cells.len() == 0 {
        seq![]
    } else if cells.len() == 1 {
        cells[0].0
    } else {
        names(cells.drop_last()) + seq![',', ' '] + cells.last().0
    }
}

/// The places of some bound values, numbered from the first, with commas between them.
pub open spec fn places(count: nat) -> Seq<char>
    decreases count,
{
    if count == 0 {
        seq![]
    } else if count == 1 {
        seq!['?'] + sql::digits(1)
    } else {
        places((count - 1) as nat) + seq![',', ' ', '?'] + sql::digits(count)
    }
}

/// Some cells, each with the place of its value, numbered from one on and with a text between
/// them.
pub open spec fn placed(
    cells: Seq<(Seq<char>, ValueView)>,
    from: nat,
    between: Seq<char>,
) -> Seq<char>
    decreases cells.len(),
{
    if cells.len() == 0 {
        seq![]
    } else {
        let last = cells.last().0 + seq![' ', '=', ' ', '?'] + sql::digits(
            (from + cells.len() - 1) as nat,
        );
        if cells.len() == 1 {
            last
        } else {
            placed(cells.drop_last(), from, between) + between + last
        }
    }
}

/// The values of some cells.
pub open spec fn held(cells: Seq<(Seq<char>, ValueView)>) -> Seq<ValueView> {
    Seq::new(cells.len(), |i: int| cells[i].1)
}

/// The statement that adds a row with some cells to a table.
pub open spec fn insertion(
    table: Seq<char>,
    cells: Seq<(Seq<char>, ValueView)>,
    end: Seq<char>,
) -> StatementView {
    StatementView {
        sql: "INSERT INTO "@ + table + " ("@ + names(cells) + ") VALUES ("@ + places(cells.len())
            + ")"@ + end,
        values: held(cells),
    }
}

/// The statement that reads a column of the rows of a table that have some cells.
pub open spec fn reading(
    column: Seq<char>,
    table: Seq<char>,
    having: Seq<(Seq<char>, ValueView)>,
    end: Seq<char>,
) -> StatementView {
    StatementView {
        sql: "SELECT "@ + column + " FROM "@ + table + " WHERE "@ + placed(having, 1, " AND "@)
            + end,
        values: held(having),
    }
}

/// The statement that deletes the rows of a table that have some cells.
pub open spec fn deletion(
    table: Seq<char>,
    having: Seq<(Seq<char>, ValueView)>,
) -> StatementView {
    StatementView {
        sql: "DELETE FROM "@ + table + " WHERE "@ + placed(having, 1, " AND "@) + ";"@,
        values: held(having),
    }
}

/// The statement that changes some cells of the rows of a table that have others.
pub open spec fn change(
    table: Seq<char>,
    cells: Seq<(Seq<char>, ValueView)>,
    having: Seq<(Seq<char>, ValueView)>,
) -> StatementView {
    StatementView {
        sql: "UPDATE "@ + table + " SET "@ + placed(cells, 1, ", "@) + " WHERE "@ + placed(
            having,
            cells.len() + 1,
            " AND "@,
        ) + ";"@,
        values: held(cells) + held(having),
    }
}

/// Lists of one cell, written out.
pub proof fn lemma_one_cell(a: (Seq<char>, ValueView), from: nat, between: Seq<char>)
    requires
        from < 10,
    ensures
        names(seq![a]) == a.0,
        places(1) == seq!['?', '1'],
        placed(seq![a], from, between) == a.0 + seq![' ', '=', ' ', '?', sql::digit(from)],
        held(seq![a]) == sql::one(a.1),
{
    assert(sql::digits(1) =~= seq!['1']);
    assert(sql::digits(from) =~= seq![sql::digit(from)]);
    assert(places(1) =~= seq!['?', '1']);
    assert(placed(seq![a], from, between) =~= a.0 + seq![' ', '=', ' ', '?', sql::digit(from)]);
    assert(held(seq![a]) =~= sql::one(a.1));
}

/// Lists of two cells, written out.
pub proof fn lemma_two_cells(
    a: (Seq<char>, ValueView),
    b: (Seq<char>, ValueView),
    from: nat,
    between: Seq<char>,
)
    requires
        from < 9,
    ensures
        names(seq![a, b]) == a.0 + seq![',', ' '] + b.0,
        places(2) == seq!['?', '1', ',', ' ', '?', '2'],
        placed(seq![a, b], from, between) == a.0 + seq![' ', '=', ' ', '?', sql::digit(from)]
            + between + (b.0 + seq![' ', '=', ' ', '?', sql::digit(from + 1)]),
        held(seq![a, b]) == sql::two(a.1, b.1),
{
    lemma_one_cell(a, from, between);
    assert(seq![a, b].drop_last() =~= seq![a]);
    assert(sql::digits(2) =~= seq!['2']);
    assert(sql::digits(from + 1) =~= seq![sql::digit(from + 1)]);
    assert(places(2) =~= seq!['?', '1', ',', ' ', '?', '2']);
    assert(placed(seq![a, b], from, between) =~= placed(seq![a], from, between) + between + (b.0
        + seq![' ', '=', ' ', '?', sql::digit(from + 1)]));
    assert(held(seq![a, b]) =~= sql::two(a.1, b.1));
}

/// Lists of three cells, written out.
pub proof fn lemma_three_cells(
    a: (Seq<char>, ValueView),
    b: (Seq<char>, ValueView),
    c: (Seq<char>, ValueView),
)
    ensures
        names(seq![a, b, c]) == a.0 + seq![',', ' '] + b.0 + seq![',', ' '] + c.0,
        places(3) == seq!['?', '1', ',', ' ', '?', '2', ',', ' ', '?', '3'],
        held(seq![a, b, c]) == sql::three(a.1, b.1, c.1),
{
    lemma_two_cells(a, b, 1, seq![]);
    assert(seq![a, b, c].drop_last() =~= seq![a, b]);
    assert(sql::digits(3) =~= seq!['3']);
    assert(places(3) =~= seq!['?', '1', ',', ' ', '?', '2', ',', ' ', '?', '3']);
    assert(held(seq![a, b, c]) =~= sql::three(a.1, b.1, c.1));
}

/// Lists of five cells, written out.
pub proof fn lemma_five_cells(
    a: (Seq<char>, ValueView),
    b: (Seq<char>, ValueView),
    c: (Seq<char>, ValueView),
    d: (Seq<char>, ValueView),
    e: (Seq<char>, ValueView),
)
    ensures
        names(seq![a, b, c, d, e]) == a.0 + seq![',', ' '] + b.0 + seq![',', ' '] + c.0 + seq![
            ',',
            ' ',
        ] + d.0 + seq![',', ' '] + e.0,
        places(5) == seq!['?', '1', ',', ' ', '?', '2', ',', ' ', '?', '3'] + seq![
            ',',
            ' ',
            '?',
            '4',
        ] + seq![',', ' ', '?', '5'],
        held(seq![a, b, c, d, e]) == sql::three(a.1, b.1, c.1).push(d.1).push(e.1),
{
    lemma_three_cells(a, b, c);
    assert(seq![a, b, c, d].drop_last() =~= seq![a, b, c]);
    assert(seq![a, b, c, d, e].drop_last() =~= seq![a, b, c, d]);
    assert(names(seq![a, b, c, d]) == names(seq![a, b, c]) + seq![',', ' '] + d.0);
    assert(names(seq![a, b, c, d, e]) == names(seq![a, b, c, d]) + seq![',', ' '] + e.0);
    assert(sql::digits(4) =~= seq!['4']);
    assert(sql::digits(5) =~= seq!['5']);
    assert(places(4) =~= places(3) + seq![',', ' ', '?', '4']);
    assert(places(5) =~= places(4) + seq![',', ' ', '?', '5']);
    assert(held(seq![a, b, c, d, e]) =~= sql::three(a.1, b.1, c.1).push(d.1).push(e.1));
}

} // verus!
