//! Bit assignments of the task-class set.

use vstd::prelude::*;

verus! {

pub const CLASS_B: u8 = 1;

pub const CLASS_C: u8 = 2;

pub const CLASS_D: u8 = 4;

pub const CLASS_E: u8 = 8;

} // verus!
