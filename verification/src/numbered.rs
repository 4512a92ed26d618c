//! Maps from numbers.
use std::collections::HashMap;

use vstd::prelude::*;

verus! {

/// The numbers that a map has values under.
pub fn numbers<T>(table: &HashMap<u64, T>) -> (r: Vec<u64>)
    ensures
        r@.no_duplicates(),
        forall|key: u64| #[trigger] r@.contains(key) <==> table@.contains_key(key),
{
    broadcast use vstd::std_specs::hash::group_hash_axioms;

    let mut r: Vec<u64> = Vec::new();
    let ghost given = vstd::std_specs::iter::IteratorSpec::remaining(
        &vstd::std_specs::hash::spec_keys_iter(table),
    );
    let ghost all = given.unref();
    for key in it: table.keys()
        invariant
            it.seq().unref() == all,
            r@ == all.take(it.index()),
    {
        r.push(*key);
        assert(all.take(it.index() + 1) =~= all.take(it.index()).push(*key));
    }
    proof {
        assert(r@ =~= all);
        assert forall|key: u64| #[trigger] r@.contains(key) <==> table@.contains_key(key) by {
            assert(all.to_set().contains(key) <==> all.contains(key));
        }
        assert(all.no_duplicates()) by {
            assert forall|i: int, j: int| 0 <= i < all.len() && 0 <= j < all.len() && i
                != j implies all[i] != all[j] by {
                assert(given[i] != given[j]);
            }
        }
    }
    r
}

/// What is among one more of some numbers.
pub proof fn lemma_take_more(keys: Seq<u64>, i: int)
    requires
        0 <= i < keys.len(),
    ensures
        forall|key: u64| #[trigger]
            keys.take(i + 1).contains(key) <==> keys.take(i).contains(key) || key == keys[i],
{
    let before = keys.take(i);
    assert(keys.take(i + 1) =~= before.push(keys[i]));
    assert forall|key: u64| #[trigger] keys.take(i + 1).contains(key) <==> before.contains(key)
        || key == keys[i] by {
        if before.contains(key) {
            let j = choose|j: int| 0 <= j < before.len() && before[j] == key;
            assert(before.push(keys[i])[j] == key);
        }
        if key == keys[i] {
            assert(before.push(keys[i])[before.len() as int] == key);
        }
    }
}

} // verus!
