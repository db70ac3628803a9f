//! The dictionary: elements in insertion order, found by linear scan.

use vstd::prelude::*;
use vstd::string::StringExecFns;
use crate::element::{append_quoted, MultiElement};
use crate::laws::lemma_matching_in_order;
use crate::model::{
    dict_text, first_match, has_key, is_first_match, keys_of, lemma_first_match_unique,
    lemma_matching_nonempty, listed, matching, positions_of, replaced, values_of, Entry,
};
use crate::text::same_text;

verus! {

/// What `get`, `getall` and `popone` answer where no entry has the key.
pub const KEY_NOT_FOUND: &'static str = "No matching key found";

/// An ordered sequence of elements in which a key may occur any number of times.
#[derive(Debug)]
pub struct MultiDict {
    pub elements: Vec<MultiElement>,
}

impl View for MultiDict {
    type V = Seq<Entry>;

    open spec fn view(&self) -> Seq<Entry> {
        self.elements@.map_values(|e: MultiElement| e@)
    }
}

impl Default for MultiDict {
    /// An empty dictionary.
    fn default() -> (dict: Self)
        ensures
            dict@ == Seq::<Entry>::empty(),
    {
        MultiDict::new()
    }
}

impl Clone for MultiDict {
    /// An independent copy with the same elements in the same order.
    fn clone(&self) -> (copy: Self)
        ensures
            copy@ == self@,
    {
        MultiDict { elements: self.elements.clone() }
    }
}

/// Whether `position` is one of the first `count` of `positions`.
spec fn among(positions: Seq<int>, count: int, position: int) -> bool {
    exists|n: int| 0 <= n < count && (#[trigger] positions[n]) == position
}

impl MultiDict {
    /// An empty dictionary.
    pub fn new() -> (dict: Self)
        ensures
            dict@ == Seq::<Entry>::empty(),
    {
        MultiDict { elements: Vec::new() }
    }

    /// An empty dictionary with room asked for `capacity` elements. The number
    /// is a hint for the allocator and shows in nothing else: where the room
    /// cannot be had, the dictionary starts without it.
    pub fn new_capacity(capacity: &usize) -> (dict: Self)
        ensures
            dict@ == Seq::<Entry>::empty(),
    {
        let mut elements: Vec<MultiElement> = Vec::new();
        let _ = elements.try_reserve(*capacity);
        MultiDict { elements }
    }

    /// The number of elements; each occurrence of a key counts.
    pub fn len(&self) -> (n: usize)
        ensures
            n == self@.len(),
    {
        self.elements.len()
    }

    /// Whether the dictionary holds no element.
    pub fn is_empty(&self) -> (empty: bool)
        ensures
            empty == (self@.len() == 0),
    {
        self.elements.is_empty()
    }

    /// Appends `new_item` behind all elements, whether or not its key is there
    /// already.
    pub fn add(&mut self, new_item: MultiElement)
        ensures
            final(self)@ == old(self)@.push(new_item@),
            final(self)@.len() == old(self)@.len() + 1,
    {
        self.elements.push(new_item);
    }

    /// The first element keyed `key`, or `KEY_NOT_FOUND` where there is none.
    pub fn get(&self, key: &str) -> (found: Result<&MultiElement, &str>)
        ensures
            match found {
                Ok(item) => {
                    &&& has_key(self@, key@)
                    &&& is_first_match(self@, key@, first_match(self@, key@))
                    &&& item@ == self@[first_match(self@, key@)]
                },
                Err(message) => !has_key(self@, key@) && message@ == KEY_NOT_FOUND@,
            },
    {
        let mut i: usize = 0;
        while i < self.elements.len()
            invariant
                i <= self.elements@.len(),
                forall|j: int| 0 <= j < i ==> (#[trigger] self@[j]).key != key@,
            decreases self.elements@.len() - i,
        {
            let item = &self.elements[i];
            if same_text(item.key.as_str(), key) {
                proof {
                    lemma_first_match_unique(self@, key@, i as int);
                }
                return Ok(item);
            }
            i += 1;
        }
        Err(KEY_NOT_FOUND)
    }

    /// Whether at least one element is keyed `key`.
    pub fn contains(&self, key: &str) -> (present: bool)
        ensures
            present == has_key(self@, key@),
    {
        let mut i: usize = 0;
        while i < self.elements.len()
            invariant
                i <= self.elements@.len(),
                forall|j: int| 0 <= j < i ==> (#[trigger] self@[j]).key != key@,
            decreases self.elements@.len() - i,
        {
            if same_text(self.elements[i].key.as_str(), key) {
                assert(self@[i as int].key == key@);
                return true;
            }
            i += 1;
        }
        false
    }

    /// Removes the first element keyed `key` and hands it out; the others keep
    /// their order. Where no element has the key the dictionary stays as it is
    /// and the answer is `KEY_NOT_FOUND`.
    pub fn popone(&mut self, key: &str) -> (taken: Result<MultiElement, &str>)
        ensures
            match taken {
                Ok(item) => {
                    &&& has_key(old(self)@, key@)
                    &&& is_first_match(old(self)@, key@, first_match(old(self)@, key@))
                    &&& item@ == old(self)@[first_match(old(self)@, key@)]
                    &&& final(self)@ == old(self)@.remove(first_match(old(self)@, key@))
                },
                Err(message) => {
                    &&& !has_key(old(self)@, key@)
                    &&& message@ == KEY_NOT_FOUND@
                    &&& *final(self) == *old(self)
                },
            },
    {
        let mut i: usize = 0;
        while i < self.elements.len()
            invariant
                *self == *old(self),
                i <= self.elements@.len(),
                forall|j: int| 0 <= j < i ==> (#[trigger] self@[j]).key != key@,
            decreases self.elements@.len() - i,
        {
            if same_text(self.elements[i].key.as_str(), key) {
                proof {
                    lemma_first_match_unique(self@, key@, i as int);
                }
                let item = self.elements.remove(i);
                return Ok(item);
            }
            i += 1;
        }
        Err(KEY_NOT_FOUND)
    }

    /// A new dictionary with a copy of every element keyed `key`, in the order
    /// in which they stand here, or `KEY_NOT_FOUND` where there is none. The
    /// result shares nothing with this dictionary.
    pub fn getall(&self, key: &str) -> (found: Result<MultiDict, &str>)
        ensures
            match found {
                Ok(all) => {
                    &&& has_key(self@, key@)
                    &&& all@ == matching(self@, key@)
                    &&& all@.len() > 0
                },
                Err(message) => !has_key(self@, key@) && message@ == KEY_NOT_FOUND@,
            },
    {
        let mut results = MultiDict::new();
        let mut i: usize = 0;
        while i < self.elements.len()
            invariant
                i <= self.elements@.len(),
                results@ == matching(self@.take(i as int), key@),
            decreases self.elements@.len() - i,
        {
            let item = &self.elements[i];
            proof {
                assert(self@.take(i + 1) =~= self@.take(i as int).push(item@));
                self@.take(i as int).lemma_filter_push(item@, |e: Entry| e.key == key@);
            }
            if same_text(item.key.as_str(), key) {
                results.add(item.clone());
            }
            i += 1;
        }
        proof {
            assert(self@.take(i as int) =~= self@);
            lemma_matching_nonempty(self@, key@);
        }
        if !results.is_empty() {
            Ok(results)
        } else {
            Err(KEY_NOT_FOUND)
        }
    }

    /// Every key in insertion order, duplicates included.
    pub fn keys(&self) -> (keys: Vec<&String>)
        ensures
            keys.deep_view() == keys_of(self@),
            keys@.len() == self@.len(),
            forall|i: int| 0 <= i < self@.len() ==> (#[trigger] keys@[i])@ == self@[i].key,
    {
        let mut results: Vec<&String> = Vec::with_capacity(self.elements.len());
        let mut i: usize = 0;
        while i < self.elements.len()
            invariant
                i <= self.elements@.len(),
                results@.len() == i,
                forall|j: int| 0 <= j < i ==> (#[trigger] results@[j])@ == self@[j].key,
            decreases self.elements@.len() - i,
        {
            results.push(&self.elements[i].key);
            i += 1;
        }
        results
    }

    /// Every value in insertion order: the value at a position belongs to the
    /// key that `keys` gives at that position.
    pub fn values(&self) -> (values: Vec<&String>)
        ensures
            values.deep_view() == values_of(self@),
            values@.len() == self@.len(),
            forall|i: int| 0 <= i < self@.len() ==> (#[trigger] values@[i])@ == self@[i].value,
    {
        let mut results: Vec<&String> = Vec::with_capacity(self.elements.len());
        let mut i: usize = 0;
        while i < self.elements.len()
            invariant
                i <= self.elements@.len(),
                results@.len() == i,
                forall|j: int| 0 <= j < i ==> (#[trigger] results@[j])@ == self@[j].value,
            decreases self.elements@.len() - i,
        {
            results.push(&self.elements[i].value);
            i += 1;
        }
        results
    }

    /// Puts a copy of `new_item` in the place of every element that shares its
    /// key, each at its own position. Which elements share the key is settled
    /// before the first of them is replaced. Where none does, nothing changes.
    pub fn update(&mut self, new_item: MultiElement)
        ensures
            final(self)@ == replaced(old(self)@, new_item@),
            !has_key(old(self)@, new_item@.key) ==> *final(self) == *old(self),
    {
        let ghost at = positions_of(self@, new_item@.key);
        let mut ids_for_replace: Vec<usize> = Vec::new();
        let mut i: usize = 0;
        while i < self.elements.len()
            invariant
                *self == *old(self),
                i <= self.elements@.len(),
                ids_for_replace@.len() == positions_of(self@.take(i as int), new_item@.key).len(),
                forall|n: int|
                    0 <= n < ids_for_replace@.len() ==> (#[trigger] ids_for_replace@[n])
                        == positions_of(self@.take(i as int), new_item@.key)[n],
            decreases self.elements@.len() - i,
        {
            assert(self@.take(i + 1).drop_last() =~= self@.take(i as int));
            if same_text(self.elements[i].key.as_str(), new_item.key.as_str()) {
                ids_for_replace.push(i);
            }
            i += 1;
        }
        proof {
            assert(self@.take(i as int) =~= self@);
            lemma_matching_in_order(self@, new_item@.key);
            lemma_matching_nonempty(self@, new_item@.key);
        }
        let mut k: usize = 0;
        while k < ids_for_replace.len()
            invariant
                k <= ids_for_replace@.len() == at.len(),
                forall|n: int| 0 <= n < at.len() ==> (#[trigger] ids_for_replace@[n]) == at[n],
                forall|n: int| 0 <= n < at.len() ==> 0 <= (#[trigger] at[n]) < self@.len(),
                self@.len() == old(self)@.len(),
                at.len() == 0 ==> *self == *old(self),
                forall|j: int|
                    0 <= j < self@.len() ==> (#[trigger] self@[j]) == if among(at, k as int, j) {
                        new_item@
                    } else {
                        old(self)@[j]
                    },
            decreases ids_for_replace@.len() - k,
        {
            let idx = ids_for_replace[k];
            let ghost before = self@;
            self.elements.set(idx, new_item.clone());
            assert(forall|j: int|
                0 <= j < self@.len() && j != idx ==> (#[trigger] self@[j]) == before[j]);
            k += 1;
        }
    }

    /// The dictionary as text: every element in insertion order as
    /// `"key":"value"`, with `, ` between neighbours, inside `MultiDict < ` and
    /// ` >`. It is meant for reading, not for parsing.
    pub fn to_string(&self) -> (text: String)
        ensures
            text@ == dict_text(self@),
    {
        let mut text = "MultiDict < ".to_owned();
        let mut i: usize = 0;
        while i < self.elements.len()
            invariant
                i <= self.elements@.len(),
                text@ == "MultiDict < "@ + listed(self@.take(i as int)),
            decreases self.elements@.len() - i,
        {
            if i > 0 {
                text.append(", ");
            }
            append_quoted(&mut text, &self.elements[i]);
            proof {
                assert(self@.take(i + 1).drop_last() =~= self@.take(i as int));
            }
            i += 1;
        }
        assert(self@.take(i as int) =~= self@);
        text.append(" >");
        text
    }
}

} // verus!
