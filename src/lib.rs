//! Position of the smallest and largest element of an integer slice.
//!
//! The reference semantics is a left-to-right scan that replaces its running
//! extreme only on strict improvement, so the first occurrence of a repeated
//! extreme wins. The lane kernel splits a slice into a remainder and a
//! lane-aligned suffix, reduces the suffix lane by lane, and merges the two
//! partial results; every entry point is proved to return what the scan
//! returns.
use vstd::prelude::*;

pub mod order;
pub mod generic;
pub mod typed;
pub mod task;
mod lane;
pub mod simd;

pub use generic::{simple_argmax, simple_argmin};
pub use simd::{
    argmax_i16, argmax_i32, argmax_u16, argmax_u8, argmin_i16, argmin_i32, argmin_u16, argmin_u8,
};
pub use task::{find_final_index_max, find_final_index_min};
pub use typed::{simple_argmax_i32, simple_argmin_i32};

use order::extreme_index;

verus! {

/// `argmin` and `argmax` as methods on slices and vectors of the supported
/// element types.
pub trait ArgMinMax {
    /// The index `argmin` reports.
    spec fn argmin_spec(&self) -> Option<usize>;

    /// The index `argmax` reports.
    spec fn argmax_spec(&self) -> Option<usize>;

    fn argmin(&self) -> (r: Option<usize>)
        ensures
            r == self.argmin_spec(),
    ;

    fn argmax(&self) -> (r: Option<usize>)
        ensures
            r == self.argmax_spec(),
    ;
}

impl ArgMinMax for [i32] {
    open spec fn argmin_spec(&self) -> Option<usize> {
        extreme_index(self@, false)
    }

    open spec fn argmax_spec(&self) -> Option<usize> {
        extreme_index(self@, true)
    }

    fn argmin(&self) -> (r: Option<usize>) {
        argmin_i32(self)
    }

    fn argmax(&self) -> (r: Option<usize>) {
        argmax_i32(self)
    }
}

impl ArgMinMax for Vec<i32> {
    open spec fn argmin_spec(&self) -> Option<usize> {
        extreme_index(self@, false)
    }

    open spec fn argmax_spec(&self) -> Option<usize> {
        extreme_index(self@, true)
    }

    fn argmin(&self) -> (r: Option<usize>) {
        argmin_i32(self.as_slice())
    }

    fn argmax(&self) -> (r: Option<usize>) {
        argmax_i32(self.as_slice())
    }
}

impl<'a> ArgMinMax for &'a [i32] {
    open spec fn argmin_spec(&self) -> Option<usize> {
        extreme_index(self@, false)
    }

    open spec fn argmax_spec(&self) -> Option<usize> {
        extreme_index(self@, true)
    }

    fn argmin(&self) -> (r: Option<usize>) {
        argmin_i32(*self)
    }

    fn argmax(&self) -> (r: Option<usize>) {
        argmax_i32(*self)
    }
}

impl ArgMinMax for [i16] {
    open spec fn argmin_spec(&self) -> Option<usize> {
        extreme_index(self@, false)
    }

    open spec fn argmax_spec(&self) -> Option<usize> {
        extreme_index(self@, true)
    }

    fn argmin(&self) -> (r: Option<usize>) {
        argmin_i16(self)
    }

    fn argmax(&self) -> (r: Option<usize>) {
        argmax_i16(self)
    }
}

impl ArgMinMax for Vec<i16> {
    open spec fn argmin_spec(&self) -> Option<usize> {
        extreme_index(self@, false)
    }

    open spec fn argmax_spec(&self) -> Option<usize> {
        extreme_index(self@, true)
    }

    fn argmin(&self) -> (r: Option<usize>) {
        argmin_i16(self.as_slice())
    }

    fn argmax(&self) -> (r: Option<usize>) {
        argmax_i16(self.as_slice())
    }
}

impl<'a> ArgMinMax for &'a [i16] {
    open spec fn argmin_spec(&self) -> Option<usize> {
        extreme_index(self@, false)
    }

    open spec fn argmax_spec(&self) -> Option<usize> {
        extreme_index(self@, true)
    }

    fn argmin(&self) -> (r: Option<usize>) {
        argmin_i16(*self)
    }

    fn argmax(&self) -> (r: Option<usize>) {
        argmax_i16(*self)
    }
}

impl ArgMinMax for [u16] {
    open spec fn argmin_spec(&self) -> Option<usize> {
        extreme_index(self@, false)
    }

    open spec fn argmax_spec(&self) -> Option<usize> {
        extreme_index(self@, true)
    }

    fn argmin(&self) -> (r: Option<usize>) {
        argmin_u16(self)
    }

    fn argmax(&self) -> (r: Option<usize>) {
        argmax_u16(self)
    }
}

impl ArgMinMax for Vec<u16> {
    open spec fn argmin_spec(&self) -> Option<usize> {
        extreme_index(self@, false)
    }

    open spec fn argmax_spec(&self) -> Option<usize> {
        extreme_index(self@, true)
    }

    fn argmin(&self) -> (r: Option<usize>) {
        argmin_u16(self.as_slice())
    }

    fn argmax(&self) -> (r: Option<usize>) {
        argmax_u16(self.as_slice())
    }
}

impl<'a> ArgMinMax for &'a [u16] {
    open spec fn argmin_spec(&self) -> Option<usize> {
        extreme_index(self@, false)
    }

    open spec fn argmax_spec(&self) -> Option<usize> {
        extreme_index(self@, true)
    }

    fn argmin(&self) -> (r: Option<usize>) {
        argmin_u16(*self)
    }

    fn argmax(&self) -> (r: Option<usize>) {
        argmax_u16(*self)
    }
}

impl ArgMinMax for [u8] {
    open spec fn argmin_spec(&self) -> Option<usize> {
        extreme_index(self@, false)
    }

    open spec fn argmax_spec(&self) -> Option<usize> {
        extreme_index(self@, true)
    }

    fn argmin(&self) -> (r: Option<usize>) {
        argmin_u8(self)
    }

    fn argmax(&self) -> (r: Option<usize>) {
        argmax_u8(self)
    }
}

impl ArgMinMax for Vec<u8> {
    open spec fn argmin_spec(&self) -> Option<usize> {
        extreme_index(self@, false)
    }

    open spec fn argmax_spec(&self) -> Option<usize> {
        extreme_index(self@, true)
    }

    fn argmin(&self) -> (r: Option<usize>) {
        argmin_u8(self.as_slice())
    }

    fn argmax(&self) -> (r: Option<usize>) {
        argmax_u8(self.as_slice())
    }
}

impl<'a> ArgMinMax for &'a [u8] {
    open spec fn argmin_spec(&self) -> Option<usize> {
        extreme_index(self@, false)
    }

    open spec fn argmax_spec(&self) -> Option<usize> {
        extreme_index(self@, true)
    }

    fn argmin(&self) -> (r: Option<usize>) {
        argmin_u8(*self)
    }

    fn argmax(&self) -> (r: Option<usize>) {
        argmax_u8(*self)
    }
}

} // verus!
