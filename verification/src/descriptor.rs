//! Topic keys.

use vstd::prelude::*;

verus! {

/// A topic key: a hierarchical, path-like string that a subscriber registers
/// interest in and that a forwarded message is tagged with.
///
/// A descriptor owns its string data, so the subscription table can hold it
/// for as long as the subscription lasts. Its view is the character sequence
/// of that string.
#[derive(Debug)]
pub struct Descriptor {
    text: String,
}

impl View for Descriptor {
    type V = Seq<char>;

    closed spec fn view(&self) -> Seq<char> {
        self.text@
    }
}

impl DeepView for Descriptor {
    type V = Seq<char>;

    open spec fn deep_view(&self) -> Seq<char> {
        self.view()
    }
}

impl Descriptor {
    /// Wraps an owned string as a topic key.
    pub fn new(text: String) -> (d: Descriptor)
        ensures
            d@ == text@,
    {
        Descriptor { text }
    }

    /// Returns the key as a string slice.
    pub fn as_str(&self) -> (s: &str)
        ensures
            s@ == self@,
    {
        self.text.as_str()
    }

    /// Returns an owned copy of this key.
    pub fn duplicate(&self) -> (d: Descriptor)
        ensures
            d@ == self@,
    {
        Descriptor { text: self.text.clone() }
    }
}

impl PartialEq for Descriptor {
    fn eq(&self, other: &Descriptor) -> (r: bool) {
        self.text == other.text
    }
}

impl vstd::std_specs::cmp::PartialEqSpecImpl for Descriptor {
    open spec fn obeys_eq_spec() -> bool {
        true
    }

    open spec fn eq_spec(&self, other: &Descriptor) -> bool {
        self@ == other@
    }
}

} // verus!
