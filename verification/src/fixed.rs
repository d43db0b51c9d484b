use vstd::prelude::*;

verus! {

/// A fractional setting, counted in thousandths: `1500` stands for 1.5.
pub type Milli = i32;

/// How many thousandths make one whole.
pub const SCALE: u32 = 1000;

} // verus!
