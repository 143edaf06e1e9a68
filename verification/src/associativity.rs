use vstd::prelude::*;

verus! {

/// Which side operators of equal precedence group to.
#[derive(Debug, Clone, Copy, PartialEq, Eq)]
pub enum Associativity {
    Left,
    Right,
}

/// How strongly a binary operator binds: higher `prec` binds tighter.
#[derive(Debug, Clone, Copy, PartialEq, Eq)]
pub struct Precedence {
    pub prec: u8,
    pub assoc: Associativity,
}

} // verus!
