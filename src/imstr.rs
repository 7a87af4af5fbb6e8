//! An immutable string that is either owned or borrowed for the whole program.

use vstd::prelude::*;

verus! {

/// Immutable string.
///
/// Use [`ImStr::new`] for a literal and [`ImStr::from`] for text built at run time.
#[derive(Debug)]
pub enum ImStr {
    Heap(String),
    Static(&'static str),
}

impl View for ImStr {
    type V = Seq<char>;

    open spec fn view(&self) -> Seq<char> {
        match self {
            ImStr::Heap(s) => s@,
            ImStr::Static(s) => s@,
        }
    }
}

impl ImStr {
    /// A string that refers to a literal, without allocating.
    pub fn new(string: &'static str) -> (r: Self)
        ensures
            r@ == string@,
    {
        ImStr::Static(string)
    }

    pub fn as_str(&self) -> (r: &str)
        ensures
            r@ == self@,
    {
        match self {
            ImStr::Heap(s) => s.as_str(),
            ImStr::Static(s) => s,
        }
    }

    /// An owned copy of the text.
    pub fn to_string(&self) -> (r: String)
        ensures
            r@ == self@,
    {
        self.as_str().to_owned()
    }
}

impl Clone for ImStr {
    fn clone(&self) -> (r: Self)
        ensures
            r@ == self@,
    {
        match self {
            ImStr::Heap(s) => ImStr::Heap(s.clone()),
            ImStr::Static(s) => ImStr::Static(s),
        }
    }
}

impl From<String> for ImStr {
    fn from(other: String) -> (r: Self)
        ensures
            r@ == other@,
    {
        ImStr::Heap(other)
    }
}

impl vstd::std_specs::convert::FromSpecImpl<String> for ImStr {
    open spec fn obeys_from_spec() -> bool {
        true
    }

    open spec fn from_spec(v: String) -> ImStr {
        ImStr::Heap(v)
    }
}

impl From<&str> for ImStr {
    fn from(other: &str) -> (r: Self)
        ensures
            r@ == other@,
    {
        ImStr::Heap(other.to_owned())
    }
}

impl vstd::std_specs::convert::FromSpecImpl<&str> for ImStr {
    open spec fn obeys_from_spec() -> bool {
        false
    }

    open spec fn from_spec(v: &str) -> ImStr {
        ImStr::Static("")
    }
}

impl Default for ImStr {
    fn default() -> (r: Self)
        ensures
            r@ == Seq::<char>::empty(),
    {
        ImStr::Heap(String::new())
    }
}

impl PartialEq for ImStr {
    fn eq(&self, other: &ImStr) -> (r: bool) {
        crate::text::str_eq(self.as_str(), other.as_str())
    }
}

impl vstd::std_specs::cmp::PartialEqSpecImpl for ImStr {
    open spec fn obeys_eq_spec() -> bool {
        true
    }

    open spec fn eq_spec(&self, other: &ImStr) -> bool {
        self@ == other@
    }
}

impl Eq for ImStr {}

impl core::ops::Deref for ImStr {
    type Target = str;

    fn deref(&self) -> (r: &str)
        ensures
            r@ == self@,
    {
        self.as_str()
    }
}

impl AsRef<str> for ImStr {
    fn as_ref(&self) -> (r: &str)
        ensures
            r@ == self@,
    {
        self.as_str()
    }
}

} // verus!
