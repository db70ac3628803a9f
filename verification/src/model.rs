//! The mathematical model of the dictionary: a sequence of entries, and what
//! each operation means on such a sequence.

use vstd::prelude::*;

verus! {

/// What one element holds: its key and its value, as sequences of characters.
pub struct Entry {
    pub key: Seq<char>,
    pub value: Seq<char>,
}

/// The keys of all entries, in order, duplicates included.
pub open spec fn keys_of(entries: Seq<Entry>) -> Seq<Seq<char>> {
    entries.map_values(|e: Entry| e.key)
}

/// The values of all entries, in order.
pub open spec fn values_of(entries: Seq<Entry>) -> Seq<Seq<char>> {
    entries.map_values(|e: Entry| e.value)
}

/// Whether at least one entry is keyed `key`.
pub open spec fn has_key(entries: Seq<Entry>, key: Seq<char>) -> bool {
    exists|i: int| 0 <= i < entries.len() && (#[trigger] entries[i]).key == key
}

/// Whether position `i` holds the first entry keyed `key`.
pub open spec fn is_first_match(entries: Seq<Entry>, key: Seq<char>, i: int) -> bool {
    &&& 0 <= i < entries.len()
    &&& entries[i].key == key
    &&& forall|j: int| 0 <= j < i ==> (#[trigger] entries[j]).key != key
}

/// The position of the first entry keyed `key`; meaningful where `has_key` holds.
pub open spec fn first_match(entries: Seq<Entry>, key: Seq<char>) -> int {
    choose|i: int| is_first_match(entries, key, i)
}

/// The positions at which `entries` holds an entry keyed `key`, in rising order.
pub open spec fn positions_of(entries: Seq<Entry>, key: Seq<char>) -> Seq<int>
    decreases entries.len(),
{
    if entries.len() == 0 {
        Seq::empty()
    } else {
        let earlier = positions_of(entries.drop_last(), key);
        if entries.last().key == key {
            earlier.push(entries.len() - 1)
        } else {
            earlier
        }
    }
}

/// The entries keyed `key`, in the order in which they stand in `entries`.
pub open spec fn matching(entries: Seq<Entry>, key: Seq<char>) -> Seq<Entry> {
    entries.filter(|e: Entry| e.key == key)
}

/// `entries` with every entry that shares `item`'s key replaced by `item`, each
/// at its own position.
pub open spec fn replaced(entries: Seq<Entry>, item: Entry) -> Seq<Entry> {
    entries.map_values(
        |e: Entry|
            if e.key == item.key {
                item
            } else {
                e
            },
    )
}

/// One entry as it stands in a listing: `"key":"value"`.
pub open spec fn quoted(entry: Entry) -> Seq<char> {
    "\""@ + entry.key + "\":\""@ + entry.value + "\""@
}

/// The entries in order, each quoted, with `, ` between neighbours.
pub open spec fn listed(entries: Seq<Entry>) -> Seq<char>
    decreases entries.len(),
{
    if entries.len() == 0 {
        Seq::empty()
    } else if entries.len() == 1 {
        quoted(entries[0])
    } else {
        listed(entries.drop_last()) + ", "@ + quoted(entries.last())
    }
}

/// The text that stands for one element.
pub open spec fn element_text(entry: Entry) -> Seq<char> {
    "MultiElement < "@ + quoted(entry) + " >"@
}

/// The text that stands for a whole dictionary.
pub open spec fn dict_text(entries: Seq<Entry>) -> Seq<char> {
    "MultiDict < "@ + listed(entries) + " >"@
}

/// A key has one first position only.
pub proof fn lemma_first_match_unique(entries: Seq<Entry>, key: Seq<char>, i: int)
    requires
        is_first_match(entries, key, i),
    ensures
        has_key(entries, key),
        first_match(entries, key) == i,
{
}

/// Some entry is keyed `key` exactly where the entries keyed `key` are not none.
pub proof fn lemma_matching_nonempty(entries: Seq<Entry>, key: Seq<char>)
    ensures
        has_key(entries, key) <==> matching(entries, key).len() > 0,
{
    let pred = |e: Entry| e.key == key;
    let found = matching(entries, key);
    if has_key(entries, key) {
        let i = choose|i: int| 0 <= i < entries.len() && (#[trigger] entries[i]).key == key;
        entries.lemma_filter_contains(pred, i);
    }
    if found.len() > 0 {
        entries.lemma_filter_contains_rev(pred, found[0]);
    }
}

} // verus!
