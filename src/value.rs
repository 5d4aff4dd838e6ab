use vstd::prelude::*;

verus! {

/// A runtime value. A number is carried as the bit pattern of an IEEE-754
/// double: the library decides where numbers flow, and the host that runs a
/// program computes with them.
#[derive(Debug, Clone, Copy, PartialEq, Eq, Structural)]
pub enum Value {
    Numerical(u64),
    Boolean(bool),
    Void,
}

} // verus!
