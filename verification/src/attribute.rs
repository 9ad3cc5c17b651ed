//! A name–value pair of markup text, filled one character at a time while a
//! tag is being read.

use vstd::prelude::*;

verus! {

/// One attribute of a markup element: a name and a value, both built up
/// character by character.
#[derive(Debug, Clone, PartialEq, Eq)]
pub struct Attribute {
    name: String,
    value: String,
}

impl Attribute {
    /// The name so far.
    pub closed spec fn name_model(&self) -> Seq<char> {
        self.name@
    }

    /// The value so far.
    pub closed spec fn value_model(&self) -> Seq<char> {
        self.value@
    }

    /// An attribute with empty name and value.
    pub fn new() -> (r: Attribute)
        ensures
            r.name_model() == Seq::<char>::empty(),
            r.value_model() == Seq::<char>::empty(),
    {
        Attribute { name: String::new(), value: String::new() }
    }

    pub fn name(&self) -> (r: String)
        ensures
            r@ == self.name_model(),
    {
        self.name.clone()
    }

    pub fn value(&self) -> (r: String)
        ensures
            r@ == self.value_model(),
    {
        self.value.clone()
    }

    /// Append one character to the name (`is_name` set) or to the value.
    pub fn add_char(&mut self, c: char, is_name: bool)
        ensures
            is_name ==> final(self).name_model() == old(self).name_model().push(c) && final(self).value_model() == old(self).value_model(),
            !is_name ==> final(self).value_model() == old(self).value_model().push(c) && final(self).name_model() == old(self).name_model(),
    {
        if is_name {
            push_char(&mut self.name, c);
        } else {
            push_char(&mut self.value, c);
        }
    }
}

/// Relies on `String::push`: appends exactly the one character to the end of
/// the string.
#[verifier::external_body]
fn push_char(s: &mut String, c: char)
    ensures
        final(s)@ == old(s)@.push(c),
{
    s.push(c);
}

impl Default for Attribute {
    fn default() -> (r: Self)
        ensures
            r.name_model() == Seq::<char>::empty(),
            r.value_model() == Seq::<char>::empty(),
    {
        Self::new()
    }
}

} // verus!
