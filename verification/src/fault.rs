use vstd::prelude::*;

verus! {

/// A condition that terminates execution abnormally. Cell arithmetic never
/// faults: it wraps by design.
#[derive(Clone, Copy, PartialEq, Eq, Structural, Debug)]
pub enum Fault {
    /// A move-left with the data cursor already at 0.
    PointerUnderflow,
    /// A move-right with the data cursor already at the last cell.
    PointerOverflow,
    /// A loop bracket without a matching partner.
    UnbalancedLoop,
    /// An input instruction with no byte left to read.
    InputExhausted,
}

/// The name of a fault kind, as it appears in a diagnostic.
pub open spec fn fault_name(f: Fault) -> Seq<char> {
    match f {
        Fault::PointerUnderflow => "PointerUnderflow"@,
        Fault::PointerOverflow => "PointerOverflow"@,
        Fault::UnbalancedLoop => "UnbalancedLoop"@,
        Fault::InputExhausted => "InputExhausted"@,
    }
}

impl Fault {
    /// The fault's name, for a diagnostic header.
    pub fn message(&self) -> (r: &'static str)
        ensures
            r@ == fault_name(*self),
    {
        match self {
            Fault::PointerUnderflow => "PointerUnderflow",
            Fault::PointerOverflow => "PointerOverflow",
            Fault::UnbalancedLoop => "UnbalancedLoop",
            Fault::InputExhausted => "InputExhausted",
        }
    }
}

} // verus!
