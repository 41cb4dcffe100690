//! Colors, including one drawn at random for debug wireframes.

use vstd::prelude::*;
use crate::draw::RGB;

verus! {

/// Relies on `rand::random`: a fresh sample of the standard
/// distribution.  Nothing can be promised of a random byte.
#[verifier::external_body]
fn random_u8() -> u8 {
    rand::random::<u8>()
}

/// A color with each channel drawn at random.
pub fn rand() -> RGB {
    RGB { r: random_u8(), g: random_u8(), b: random_u8() }
}

} // verus!
