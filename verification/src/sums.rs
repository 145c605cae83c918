//! Sums of sequences of natural numbers, and how they change when the
//! sequence does.

use vstd::prelude::*;
use vstd::seq_lib::{to_multiset_contains, to_multiset_len, to_multiset_remove};

verus! {

/// The sum of all elements.
pub open spec fn seq_sum(values: Seq<nat>) -> nat
    decreases values.len(),
{
    if values.len() == 0 {
        0
    } else {
        seq_sum(values.drop_last()) + values.last()
    }
}

/// Appending an element adds it to the sum.
pub proof fn lemma_sum_push(values: Seq<nat>, value: nat)
    ensures
        seq_sum(values.push(value)) == seq_sum(values) + value,
{
    assert(values.push(value).drop_last() =~= values);
}

/// The sum of a prefix and one more element is the sum of the longer prefix.
pub proof fn lemma_sum_take_next(values: Seq<nat>, count: int)
    requires
        0 <= count < values.len(),
    ensures
        seq_sum(values.take(count + 1)) == seq_sum(values.take(count)) + values[count],
{
    assert(values.take(count + 1).drop_last() =~= values.take(count));
}

/// Inserting an element anywhere adds it to the sum.
pub proof fn lemma_sum_insert(values: Seq<nat>, position: int, value: nat)
    requires
        0 <= position <= values.len(),
    ensures
        seq_sum(values.insert(position, value)) == seq_sum(values) + value,
    decreases values.len(),
{
    if position == values.len() {
        assert(values.insert(position, value) =~= values.push(value));
        lemma_sum_push(values, value);
    } else {
        let longer = values.insert(position, value);
        assert(longer.drop_last() =~= values.drop_last().insert(position, value));
        assert(longer.last() == values.last());
        lemma_sum_insert(values.drop_last(), position, value);
    }
}

/// Replacing an element changes the sum by the difference.
pub proof fn lemma_sum_update(values: Seq<nat>, position: int, value: nat)
    requires
        0 <= position < values.len(),
    ensures
        seq_sum(values.update(position, value)) + values[position] == seq_sum(values) + value,
    decreases values.len(),
{
    let changed = values.update(position, value);
    if position == values.len() - 1 {
        assert(changed.drop_last() =~= values.drop_last());
    } else {
        assert(changed.drop_last() =~= values.drop_last().update(position, value));
        lemma_sum_update(values.drop_last(), position, value);
    }
}

/// No element is larger than the sum.
pub proof fn lemma_sum_bounds_element(values: Seq<nat>, position: int)
    requires
        0 <= position < values.len(),
    ensures
        values[position] <= seq_sum(values),
    decreases values.len(),
{
    if position < values.len() - 1 {
        lemma_sum_bounds_element(values.drop_last(), position);
    }
}

/// A prefix sums to no more than the whole.
pub proof fn lemma_sum_prefix(values: Seq<nat>, count: int)
    requires
        0 <= count <= values.len(),
    ensures
        seq_sum(values.take(count)) <= seq_sum(values),
    decreases values.len() - count,
{
    if count < values.len() {
        lemma_sum_take_next(values, count);
        lemma_sum_prefix(values, count + 1);
    } else {
        assert(values.take(count) =~= values);
    }
}

/// A sequence of zeros sums to zero.
pub proof fn lemma_sum_zero(values: Seq<nat>)
    requires
        forall|i: int| 0 <= i < values.len() ==> values[i] == 0,
    ensures
        seq_sum(values) == 0,
    decreases values.len(),
{
    if values.len() > 0 {
        lemma_sum_zero(values.drop_last());
    }
}

/// For each pair its number if its key is `key`, else 0.
pub open spec fn keyed_values<K>(pairs: Seq<(K, nat)>, key: K) -> Seq<nat> {
    Seq::new(
        pairs.len(),
        |i: int|
            if pairs[i].0 == key {
                pairs[i].1
            } else {
                0
            },
    )
}

/// The sum of the numbers of the pairs with key `key`.
pub open spec fn keyed_total<K>(pairs: Seq<(K, nat)>, key: K) -> nat {
    seq_sum(keyed_values(pairs, key))
}

/// The numbers of the pairs, in order.
pub open spec fn pair_values<K>(pairs: Seq<(K, nat)>) -> Seq<nat> {
    Seq::new(pairs.len(), |i: int| pairs[i].1)
}

/// For each key the sum of the numbers of the pairs with that key.
pub open spec fn totals_of<K>(pairs: Seq<(K, nat)>, keys: Seq<K>) -> Seq<nat> {
    Seq::new(keys.len(), |j: int| keyed_total(pairs, keys[j]))
}

/// Whether the keys are pairwise different.
pub open spec fn distinct_keys<K>(keys: Seq<K>) -> bool {
    forall|i: int, j: int| 0 <= i < j < keys.len() ==> keys[i] != keys[j]
}

/// Whether `key` is among the keys.
pub open spec fn has_key<K>(keys: Seq<K>, key: K) -> bool {
    exists|j: int| 0 <= j < keys.len() && #[trigger] keys[j] == key
}

/// Whether the key of every pair is among the keys.
pub open spec fn covers_keys<K>(pairs: Seq<(K, nat)>, keys: Seq<K>) -> bool {
    forall|i: int| 0 <= i < pairs.len() ==> has_key(keys, (#[trigger] pairs[i]).0)
}

/// One more pair adds its number to the total of its key and to no other.
pub proof fn lemma_keyed_total_push<K>(pairs: Seq<(K, nat)>, pair: (K, nat), key: K)
    ensures
        keyed_total(pairs.push(pair), key) == keyed_total(pairs, key) + (if pair.0 == key {
            pair.1
        } else {
            0
        }),
{
    let added: nat = if pair.0 == key {
        pair.1
    } else {
        0
    };
    assert(keyed_values(pairs.push(pair), key) =~= keyed_values(pairs, key).push(added));
    lemma_sum_push(keyed_values(pairs, key), added);
}

/// Grouping by pairwise different keys loses nothing twice: the totals of
/// the keys sum to no more than all numbers, and to exactly as much where
/// every pair's key is among the keys.
pub proof fn lemma_keyed_partition<K>(pairs: Seq<(K, nat)>, keys: Seq<K>)
    requires
        distinct_keys(keys),
    ensures
        seq_sum(totals_of(pairs, keys)) <= seq_sum(pair_values(pairs)),
        covers_keys(pairs, keys) ==> seq_sum(totals_of(pairs, keys)) == seq_sum(pair_values(pairs)),
    decreases pairs.len(),
{
    if pairs.len() == 0 {
        assert forall|j: int| 0 <= j < keys.len() implies totals_of(pairs, keys)[j] == 0 by {
            assert(keyed_values(pairs, keys[j]) =~= Seq::<nat>::empty());
        }
        lemma_sum_zero(totals_of(pairs, keys));
        assert(pair_values(pairs) =~= Seq::<nat>::empty());
    } else {
        let shorter = pairs.drop_last();
        let pair = pairs.last();
        assert(pairs =~= shorter.push(pair));
        lemma_keyed_partition(shorter, keys);
        assert(pair_values(pairs) =~= pair_values(shorter).push(pair.1));
        lemma_sum_push(pair_values(shorter), pair.1);
        let before = totals_of(shorter, keys);
        let after = totals_of(pairs, keys);
        assert forall|j: int| 0 <= j < keys.len() implies after[j] == before[j] + (if pair.0
            == keys[j] {
            pair.1
        } else {
            0
        }) by {
            lemma_keyed_total_push(shorter, pair, keys[j]);
        }
        if exists|j: int| 0 <= j < keys.len() && keys[j] == pair.0 {
            let at = choose|j: int| 0 <= j < keys.len() && keys[j] == pair.0;
            assert forall|j: int| 0 <= j < keys.len() && j != at implies keys[j] != pair.0 by {
                if j < at {
                    assert(keys[j] != keys[at]);
                } else {
                    assert(keys[at] != keys[j]);
                }
            }
            assert(after =~= before.update(at, before[at] + pair.1));
            lemma_sum_update(before, at, before[at] + pair.1);
        } else {
            assert(after =~= before);
        }
        if covers_keys(pairs, keys) {
            assert forall|i: int| 0 <= i < shorter.len() implies has_key(
                keys,
                (#[trigger] shorter[i]).0,
            ) by {
                assert(shorter[i] == pairs[i]);
            }
            assert(has_key(keys, pairs[pairs.len() - 1].0));
        }
    }
}

/// Removing an element takes it from the sum.
pub proof fn lemma_sum_remove(values: Seq<nat>, position: int)
    requires
        0 <= position < values.len(),
    ensures
        seq_sum(values.remove(position)) + values[position] == seq_sum(values),
{
    let shorter = values.remove(position);
    assert(shorter.insert(position, values[position]) =~= values);
    lemma_sum_insert(shorter, position, values[position]);
}

/// The sum of the weights of the elements does not depend on their order.
pub proof fn lemma_weights_any_order<T>(first: Seq<T>, second: Seq<T>, weight: spec_fn(T) -> nat)
    requires
        first.to_multiset() == second.to_multiset(),
    ensures
        seq_sum(first.map_values(weight)) == seq_sum(second.map_values(weight)),
    decreases first.len(),
{
    to_multiset_len(first);
    to_multiset_len(second);
    if first.len() == 0 {
        assert(first.map_values(weight) =~= second.map_values(weight));
    } else {
        let last = first.last();
        let rest = first.drop_last();
        assert(first.contains(last));
        to_multiset_contains(first, last);
        to_multiset_contains(second, last);
        let at = choose|i: int| 0 <= i < second.len() && second[i] == last;
        let others = second.remove(at);
        assert(rest =~= first.remove(first.len() - 1));
        to_multiset_remove(first, first.len() - 1);
        to_multiset_remove(second, at);
        lemma_weights_any_order(rest, others, weight);
        assert(first.map_values(weight).drop_last() =~= rest.map_values(weight));
        assert(second.map_values(weight).remove(at) =~= others.map_values(weight));
        lemma_sum_remove(second.map_values(weight), at);
    }
}

} // verus!
