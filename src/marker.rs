//! Compile-time markers for the capacities that a fixed ring buffer accepts.
use vstd::prelude::*;

verus! {

/// Implemented by the markers whose condition holds.
pub trait True {

}

/// Holds for the powers of two from 2 to 8192.
pub struct IsPowerOfTwo<const N: usize>;

impl True for IsPowerOfTwo<2> {

}

impl True for IsPowerOfTwo<4> {

}

impl True for IsPowerOfTwo<8> {

}

impl True for IsPowerOfTwo<16> {

}

impl True for IsPowerOfTwo<32> {

}

impl True for IsPowerOfTwo<64> {

}

impl True for IsPowerOfTwo<128> {

}

impl True for IsPowerOfTwo<256> {

}

impl True for IsPowerOfTwo<512> {

}

impl True for IsPowerOfTwo<1024> {

}

impl True for IsPowerOfTwo<2048> {

}

impl True for IsPowerOfTwo<4096> {

}

impl True for IsPowerOfTwo<8192> {

}

} // verus!
