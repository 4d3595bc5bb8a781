pub mod ascii;
pub mod num;
pub mod claims;
pub mod jwt;
pub mod auth;

use vstd::prelude::*;

verus! {

/// True when `b` is an ASCII decimal digit.
pub open spec fn is_digit(b: u8) -> bool {
    0x30 <= b && b <= 0x39
}

} // verus!
