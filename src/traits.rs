//! Conversion of the accepted address forms into an owned string.
use vstd::prelude::*;

verus! {

/// Anything that can be turned into the text of an address.
pub trait IntoUri: Sized {
    /// The characters of the address.
    spec fn text(&self) -> Seq<char>;

    fn to_string(self) -> (r: String)
        ensures
            r@ == self.text(),
    ;
}

impl IntoUri for String {
    open spec fn text(&self) -> Seq<char> {
        self@
    }

    fn to_string(self) -> (r: String) {
        self
    }
}

impl<'a> IntoUri for &'a str {
    open spec fn text(&self) -> Seq<char> {
        (*self)@
    }

    fn to_string(self) -> (r: String) {
        self.to_owned()
    }
}

} // verus!
