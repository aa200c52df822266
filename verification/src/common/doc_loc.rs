//! The name of a document (its URI, as text).

use vstd::prelude::*;

use crate::common::table::ViewEq;

verus! {

/// Identifies a document by the text of its URI.
#[derive(Debug, Eq, Hash, Ord, PartialEq, PartialOrd)]
pub struct DocLoc(String);

impl View for DocLoc {
    type V = Seq<char>;

    closed spec fn view(&self) -> Seq<char> {
        self.0@
    }
}

impl Clone for DocLoc {
    fn clone(&self) -> (r: Self)
        ensures
            r == *self,
    {
        DocLoc(self.0.clone())
    }
}

impl ViewEq for DocLoc {
    fn view_eq(&self, other: &Self) -> (r: bool) {
        self.0 == other.0
    }
}

impl DocLoc {
    /// A document location with the given text.
    pub fn new(value: &str) -> (r: Self)
        ensures
            r@ == value@,
    {
        DocLoc(value.to_string())
    }

    /// The text of this location.
    pub fn as_str(&self) -> (r: &str)
        ensures
            r@ == self@,
    {
        self.0.as_str()
    }
}

} // verus!
