use vstd::prelude::*;

verus! {

/// The simple value for `false`.
pub const SIMPLE_VALUE_FALSE: u8 = 20;

/// The simple value for `true`.
pub const SIMPLE_VALUE_TRUE: u8 = 21;

/// The simple value for `null`.
pub const SIMPLE_VALUE_NULL: u8 = 22;

/// The simple value for `undefined`.
pub const SIMPLE_VALUE_UNDEFINED: u8 = 23;

} // verus!
