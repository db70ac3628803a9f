//! One element of the dictionary: a key with one value.

use vstd::prelude::*;
use vstd::string::StringExecFns;
use crate::model::{element_text, quoted, Entry};

verus! {

/// A key with one value. The dictionary changes no element in place: an update
/// puts a new element where the old one stood.
#[derive(Debug)]
pub struct MultiElement {
    pub key: String,
    pub value: String,
}

impl View for MultiElement {
    type V = Entry;

    open spec fn view(&self) -> Entry {
        Entry { key: self.key@, value: self.value@ }
    }
}

impl Clone for MultiElement {
    /// An independent copy with the same key and value.
    fn clone(&self) -> (copy: Self)
        ensures
            copy == *self,
    {
        MultiElement { key: self.key.clone(), value: self.value.clone() }
    }
}

impl MultiElement {
    /// The element whose key is the first string of the pair and whose value is
    /// the second.
    pub fn new(new_element: [String; 2]) -> (element: Self)
        ensures
            element@ == (Entry { key: new_element[0]@, value: new_element[1]@ }),
    {
        MultiElement { key: new_element[0].clone(), value: new_element[1].clone() }
    }

    /// The element as text: `MultiElement < "key":"value" >`.
    pub fn to_string(&self) -> (text: String)
        ensures
            text@ == element_text(self@),
    {
        let mut text = "MultiElement < ".to_owned();
        append_quoted(&mut text, self);
        text.append(" >");
        text
    }
}

/// Appends `"key":"value"` for `item` to `text`.
pub(crate) fn append_quoted(text: &mut String, item: &MultiElement)
    ensures
        final(text)@ == old(text)@ + quoted(item@),
{
    text.append("\"");
    text.append(item.key.as_str());
    text.append("\":\"");
    text.append(item.value.as_str());
    text.append("\"");
}

} // verus!
