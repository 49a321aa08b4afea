use vstd::prelude::*;

pub mod errors;
pub mod hexcode;
pub mod intstr;
pub mod model;
pub mod convert;
pub mod bridge;

verus! {

/// An integer whose magnitude stays within the range that a JSON number
/// can carry without precision loss (the safe-integer envelope).
pub open spec fn json_safe_integer(n: int) -> bool {
    -9007199254740991 <= n <= 9007199254740991
}

/// Decides whether `n` lies inside the safe-integer envelope.
pub fn is_json_safe_integer(n: i128) -> (r: bool)
    ensures
        r == json_safe_integer(n as int),
{
    -9007199254740991 <= n && n <= 9007199254740991
}

} // verus!
