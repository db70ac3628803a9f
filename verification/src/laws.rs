//! What holds of every dictionary, whatever it contains: each law is stated over
//! the model and proved once for all.

use vstd::prelude::*;
use crate::model::{
    first_match, has_key, is_first_match, keys_of, lemma_first_match_unique, matching,
    positions_of, replaced, values_of, Entry,
};

verus! {

/// `entries` after the `items` have been added to it one by one, in their order.
pub open spec fn added_all(entries: Seq<Entry>, items: Seq<Entry>) -> Seq<Entry>
    decreases items.len(),
{
    if items.len() == 0 {
        entries
    } else {
        added_all(entries, items.drop_last()).push(items.last())
    }
}

/// How often `key` occurs among the keys of `entries`.
pub open spec fn count_of(entries: Seq<Entry>, key: Seq<char>) -> nat {
    keys_of(entries).to_multiset().count(key)
}

/// Some entry keyed `key` stands at or before position `n`, so a first one exists.
proof fn lemma_first_match_below(entries: Seq<Entry>, key: Seq<char>, n: int)
    requires
        0 <= n < entries.len(),
        entries[n].key == key,
    ensures
        exists|i: int| is_first_match(entries, key, i),
    decreases n,
{
    if exists|j: int| 0 <= j < n && (#[trigger] entries[j]).key == key {
        let j = choose|j: int| 0 <= j < n && (#[trigger] entries[j]).key == key;
        lemma_first_match_below(entries, key, j);
    } else {
        assert(is_first_match(entries, key, n));
    }
}

/// Every key that occurs has a first entry: where `has_key` holds, `first_match`
/// is a position of the key with no entry of that key before it.
pub proof fn lemma_present_key_has_first_entry(entries: Seq<Entry>, key: Seq<char>)
    requires
        has_key(entries, key),
    ensures
        is_first_match(entries, key, first_match(entries, key)),
{
    let n = choose|i: int| 0 <= i < entries.len() && (#[trigger] entries[i]).key == key;
    lemma_first_match_below(entries, key, n);
}

/// There are as many keys as entries and as many values, and the key and the
/// value at one position belong to the entry at that position.
pub proof fn lemma_keys_and_values_run_parallel(entries: Seq<Entry>)
    ensures
        keys_of(entries).len() == entries.len(),
        values_of(entries).len() == entries.len(),
        forall|i: int|
            0 <= i < entries.len() ==> (#[trigger] entries[i]) == (Entry {
                key: keys_of(entries)[i],
                value: values_of(entries)[i],
            }),
{
}

/// Adding keeps insertion order: after any run of additions the dictionary is
/// what it was, followed by the added items in the order of the calls, and so
/// are its keys. Started empty, its keys are the added keys.
pub proof fn lemma_additions_keep_order(entries: Seq<Entry>, items: Seq<Entry>)
    ensures
        added_all(entries, items) == entries + items,
        keys_of(added_all(entries, items)) == keys_of(entries) + keys_of(items),
        keys_of(added_all(Seq::empty(), items)) == keys_of(items),
    decreases items.len(),
{
    if items.len() > 0 {
        lemma_additions_keep_order(entries, items.drop_last());
        lemma_additions_keep_order(Seq::empty(), items.drop_last());
    }
}

/// An update for a key that no entry has changes nothing.
pub proof fn lemma_update_of_absent_key(entries: Seq<Entry>, item: Entry)
    requires
        !has_key(entries, item.key),
    ensures
        replaced(entries, item) == entries,
{
}

/// An update changes neither the number of entries nor any key, and leaves
/// every entry with another key as it was.
pub proof fn lemma_update_keeps_positions(entries: Seq<Entry>, item: Entry)
    ensures
        replaced(entries, item).len() == entries.len(),
        keys_of(replaced(entries, item)) == keys_of(entries),
        forall|i: int|
            0 <= i < entries.len() && (#[trigger] entries[i]).key != item.key ==> replaced(
                entries,
                item,
            )[i] == entries[i],
        forall|i: int|
            0 <= i < entries.len() && (#[trigger] entries[i]).key == item.key ==> replaced(
                entries,
                item,
            )[i] == item,
{
}

/// The same update made twice gives what it gives made once.
pub proof fn lemma_update_is_idempotent(entries: Seq<Entry>, item: Entry)
    ensures
        replaced(replaced(entries, item), item) == replaced(entries, item),
{
}

/// The entries found for a key all have that key, are as many as the key
/// occurs, and stand in the order in which the dictionary holds them: the
/// `i`-th of them is the entry at the `i`-th position, counted upwards, at which
/// the key occurs.
pub proof fn lemma_matching_in_order(entries: Seq<Entry>, key: Seq<char>)
    ensures
        matching(entries, key).len() == count_of(entries, key),
        matching(entries, key).len() == positions_of(entries, key).len(),
        forall|i: int|
            0 <= i < matching(entries, key).len() ==> {
                &&& 0 <= (#[trigger] positions_of(entries, key)[i]) < entries.len()
                &&& matching(entries, key)[i] == entries[positions_of(entries, key)[i]]
                &&& matching(entries, key)[i].key == key
            },
        forall|i: int, j: int|
            0 <= i < j < positions_of(entries, key).len() ==> (#[trigger] positions_of(
                entries,
                key,
            )[i]) < (#[trigger] positions_of(entries, key)[j]),
        forall|p: int|
            0 <= p < entries.len() && (#[trigger] entries[p]).key == key ==> positions_of(
                entries,
                key,
            ).contains(p),
    decreases entries.len(),
{
    reveal(Seq::filter);
    if entries.len() == 0 {
        keys_of(entries).to_multiset_ensures();
    } else {
        let rest = entries.drop_last();
        let last = entries.last();
        lemma_matching_in_order(rest, key);
        assert(keys_of(entries) =~= keys_of(rest).push(last.key));
        keys_of(rest).to_multiset_ensures();
        let at = positions_of(entries, key);
        let before = positions_of(rest, key);
        assert forall|p: int| 0 <= p < entries.len() && (#[trigger] entries[p]).key == key implies at.contains(
            p,
        ) by {
            if p < rest.len() {
                assert(rest[p].key == key);
                let n = choose|n: int| 0 <= n < before.len() && before[n] == p;
                assert(at[n] == p);
            } else {
                assert(at[at.len() - 1] == p);
            }
        }
    }
}

/// What a lookup of one entry finds is the first of what a lookup of all entries
/// finds for the same key.
pub proof fn lemma_first_found_is_first_match(entries: Seq<Entry>, key: Seq<char>)
    requires
        has_key(entries, key),
    ensures
        matching(entries, key).len() > 0,
        matching(entries, key)[0] == entries[first_match(entries, key)],
{
    lemma_matching_in_order(entries, key);
    lemma_first_match_unique(entries, key, positions_of(entries, key)[0]);
}

/// Adding an item whose key no entry has, and then removing the first entry
/// with that key, gives back the item and the dictionary as it was.
pub proof fn lemma_add_then_popone_restores(entries: Seq<Entry>, item: Entry)
    requires
        !has_key(entries, item.key),
    ensures
        has_key(entries.push(item), item.key),
        first_match(entries.push(item), item.key) == entries.len(),
        entries.push(item)[first_match(entries.push(item), item.key)] == item,
        entries.push(item).remove(first_match(entries.push(item), item.key)) == entries,
{
    lemma_first_match_unique(entries.push(item), item.key, entries.len() as int);
}

/// In the empty dictionary no key is found, there are no keys and no values,
/// no entry matches any key, and an update changes nothing.
pub proof fn lemma_empty_dictionary(key: Seq<char>, item: Entry)
    ensures
        !has_key(Seq::empty(), key),
        keys_of(Seq::empty()) == Seq::<Seq<char>>::empty(),
        values_of(Seq::empty()) == Seq::<Seq<char>>::empty(),
        matching(Seq::empty(), key) == Seq::<Entry>::empty(),
        replaced(Seq::empty(), item) == Seq::<Entry>::empty(),
{
}

/// In a dictionary of one entry that entry is the first and the only one with
/// its key, and removing it leaves the dictionary empty.
pub proof fn lemma_single_entry(item: Entry)
    ensures
        has_key(seq![item], item.key),
        first_match(seq![item], item.key) == 0,
        seq![item][first_match(seq![item], item.key)] == item,
        matching(seq![item], item.key) == seq![item],
        seq![item].remove(first_match(seq![item], item.key)) == Seq::<Entry>::empty(),
{
    lemma_first_match_unique(seq![item], item.key, 0);
    reveal(Seq::filter);
}

} // verus!
