use vstd::prelude::*;

verus! {

/// A `(number, value)` pair: the unit competing for consensus.
///
/// Immutable once constructed; the protocol orders proposals by `number`
/// alone and treats `value` as opaque.
#[derive(Debug, Clone, Copy, PartialEq, Eq, Structural)]
pub struct Proposal {
    pub number: u32,
    pub value: u32,
}

impl Proposal {
    pub fn new(number: u32, value: u32) -> (p: Proposal)
        ensures
            p.number == number,
            p.value == value,
    {
        Proposal { number, value }
    }
}

} // verus!
