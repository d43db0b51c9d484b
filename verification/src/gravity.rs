use vstd::prelude::*;
use crate::fixed::{Milli, SCALE};

verus! {

/// The sample of the old frame at place `i`, or zero where the old frame is
/// too short to have one.
pub open spec fn padded(old_frame: Seq<u32>, i: int) -> u32 {
    if 0 <= i < old_frame.len() {
        old_frame[i]
    } else {
        0
    }
}

/// The peak held at place `i`: the new sample where it is above the old one,
/// else the old one.
pub open spec fn held(old_frame: Seq<u32>, new_frame: Seq<u32>, i: int) -> u32 {
    if new_frame[i] > padded(old_frame, i) {
        new_frame[i]
    } else {
        padded(old_frame, i)
    }
}

/// A peak after one step of decay: divided by the gravity, which is counted
/// in thousandths, and rounded down. A quotient beyond the largest sample is
/// held at the largest sample.
pub open spec fn decayed(peak: u32, gravity: u32) -> u32 {
    let quotient = peak * SCALE / (gravity as int);
    if quotient > u32::MAX {
        u32::MAX
    } else {
        quotient as u32
    }
}

/// The new frame smoothed against the old one: at each place of the new
/// frame the held peak, decayed once.
pub open spec fn smoothed(old_frame: Seq<u32>, new_frame: Seq<u32>, gravity: u32) -> Seq<u32> {
    Seq::new(new_frame.len(), |i: int| decayed(held(old_frame, new_frame, i), gravity))
}

/// The divisor by which held peaks decay under a configured gravity: one
/// whole and a quarter of the gravity, in thousandths, rounded down.
pub open spec fn decay_divisor(gravity: Milli) -> u32
    recommends
        gravity >= 0,
{
    (SCALE + gravity / 4) as u32
}

/// A divisor of one whole or more never lifts a peak.
pub proof fn lemma_decay_falls(peak: u32, gravity: u32)
    requires
        gravity >= SCALE,
    ensures
        decayed(peak, gravity) <= peak,
{
    assert(peak * SCALE / (gravity as int) <= peak) by (nonlinear_arith)
        requires
            gravity >= SCALE,
            SCALE == 1000,
            peak >= 0,
    ;
}

/// Computes the divisor by which held peaks decay under a configured
/// gravity, which is not negative.
pub fn effective_gravity(gravity: Milli) -> (divisor: u32)
    requires
        gravity >= 0,
    ensures
        divisor == decay_divisor(gravity),
        divisor == SCALE + gravity / 4,
        divisor >= SCALE,
{
    let quarter: u32 = (gravity / 4) as u32;
    SCALE + quarter
}

/// Decays one peak.
fn decay(peak: u32, gravity: u32) -> (sample: u32)
    requires
        gravity > 0,
    ensures
        sample == decayed(peak, gravity),
{
    let quotient: u64 = (peak as u64) * (SCALE as u64) / (gravity as u64);
    if quotient > u32::MAX as u64 {
        u32::MAX
    } else {
        quotient as u32
    }
}

/// Blends a new frame with the frame that was stored before it.
///
/// The old frame counts as zero where it is shorter than the new one. At
/// each place of the new frame the higher of the two samples is held, so a
/// rise shows at once, and the held peak is divided by `gravity`, so it
/// falls off step by step. The result has the length of the new frame; what
/// the old frame holds beyond that is left out.
pub fn buffer_gravity(old_buffer: Vec<u32>, new_buffer: Vec<u32>, gravity: u32) -> (output: Vec<u32>)
    requires
        gravity > 0,
    ensures
        output@ == smoothed(old_buffer@, new_buffer@, gravity),
        output@.len() == new_buffer@.len(),
        forall|i: int|
            0 <= i < new_buffer@.len() && new_buffer@[i] > padded(old_buffer@, i) ==> output@[i]
                == decayed(new_buffer@[i], gravity),
        forall|i: int|
            0 <= i < new_buffer@.len() && new_buffer@[i] <= padded(old_buffer@, i) ==> output@[i]
                == decayed(padded(old_buffer@, i), gravity),
{
    let len = new_buffer.len();
    let mut output: Vec<u32> = Vec::with_capacity(len);
    let mut i: usize = 0;
    while i < len
        invariant
            i <= len,
            len == new_buffer@.len(),
            gravity > 0,
            output@.len() == i,
            forall|j: int|
                0 <= j < i ==> output@[j] == decayed(held(old_buffer@, new_buffer@, j), gravity),
        decreases len - i,
    {
        let before = if i < old_buffer.len() {
            old_buffer[i]
        } else {
            0
        };
        let peak = if new_buffer[i] > before {
            new_buffer[i]
        } else {
            before
        };
        output.push(decay(peak, gravity));
        i += 1;
    }
    assert(output@ =~= smoothed(old_buffer@, new_buffer@, gravity));
    output
}

} // verus!
