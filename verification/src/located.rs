use vstd::prelude::*;

verus! {

/// A span of character positions in the source code, both ends inclusive.
#[derive(Debug, Clone, Copy, PartialEq, Eq)]
pub struct Location {
    pub start: usize,
    pub end: usize,
}

/// A value together with the span of source code it came from.
#[derive(Debug, Clone, PartialEq)]
pub struct Located<T> {
    pub val: T,
    pub loc: Location,
}

impl<T: View> View for Located<T> {
    type V = Located<T::V>;

    open spec fn view(&self) -> Located<T::V> {
        Located { val: self.val@, loc: self.loc }
    }
}

} // verus!
