use vstd::prelude::*;
use crate::fixed::{Milli, SCALE};

verus! {

/// The frames of a stack, newest first, each as the sequence of its samples.
pub open spec fn stack_view(stack: Vec<Vec<u32>>) -> Seq<Seq<u32>> {
    Seq::new(stack@.len(), |z: int| stack@[z]@)
}

/// The sample that a compared pair keeps: the second where the first is
/// lower, else the first.
pub open spec fn kept(first: u32, second: u32) -> u32 {
    if first < second {
        second
    } else {
        first
    }
}

/// A frame after its first `pairs` pairs have been compared.
///
/// The samples fall into runs of three. The first of a run stays as it is;
/// of the other two, the pair that is compared, the lower one leaves. What
/// lies behind the compared pairs is untouched.
pub open spec fn compared(frame: Seq<u32>, pairs: nat) -> Seq<u32> {
    Seq::new(
        (frame.len() - pairs) as nat,
        |j: int|
            if j < 2 * pairs {
                if j % 2 == 0 {
                    frame[3 * (j / 2)]
                } else {
                    kept(frame[3 * (j / 2) + 1], frame[3 * (j / 2) + 2])
                }
            } else {
                frame[j + pairs]
            },
    )
}

/// A frame after one elimination pass: every full run of three samples has
/// lost the lower one of its last two.
pub open spec fn thinned_once(frame: Seq<u32>) -> Seq<u32> {
    compared(frame, frame.len() / 3)
}

/// A frame after `passes` elimination passes.
pub open spec fn thinned(frame: Seq<u32>, passes: nat) -> Seq<u32>
    decreases passes,
{
    if passes == 0 {
        frame
    } else {
        thinned_once(thinned(frame, (passes - 1) as nat))
    }
}

/// How many passes the frame at depth `depth` gets: a tenth of the
/// resolution drop for each step of depth, rounded down and held at
/// `max_drop`; none where the resolution drop is not positive.
pub open spec fn drop_passes(depth: nat, resolution_drop: int, max_drop: nat) -> nat {
    if resolution_drop > 0 {
        vstd::math::min(max_drop as int, depth * resolution_drop / (10 * SCALE)) as nat
    } else {
        0
    }
}

/// A stack after depth thinning: each frame thinned by the passes that its
/// depth calls for.
pub open spec fn thinned_stack(stack: Seq<Seq<u32>>, resolution_drop: int, max_drop: nat) -> Seq<
    Seq<u32>,
> {
    Seq::new(
        stack.len(),
        |z: int| thinned(stack[z], drop_passes(z as nat, resolution_drop, max_drop)),
    )
}

/// One elimination pass as it runs, from position `pos` on: while two
/// samples lie ahead, the lower of them leaves, the second on a tie, and the
/// pass moves on by two places.
pub open spec fn sweep(buffer: Seq<u32>, pos: nat) -> Seq<u32>
    decreases buffer.len() + 1 - pos,
{
    if buffer.len() > pos + 1 {
        if buffer[pos as int] < buffer[pos as int + 1] {
            sweep(buffer.remove(pos as int), pos + 2)
        } else {
            sweep(buffer.remove(pos as int + 1), pos + 2)
        }
    } else {
        buffer
    }
}

/// From any point that a pass reaches, it ends in the frame with all of its
/// pairs compared.
proof fn lemma_sweep_from(frame: Seq<u32>, pairs: nat)
    requires
        pairs <= frame.len() / 3,
    ensures
        sweep(compared(frame, pairs), 2 * pairs + 1) == thinned_once(frame),
    decreases frame.len() / 3 - pairs,
{
    let before = compared(frame, pairs);
    let pos = 2 * pairs as int + 1;
    if pairs < frame.len() / 3 {
        let after = compared(frame, pairs + 1);
        let stepped = if before[pos] < before[pos + 1] {
            before.remove(pos)
        } else {
            before.remove(pos + 1)
        };
        assert(before[pos] == frame[3 * pairs as int + 1]);
        assert(before[pos + 1] == frame[3 * pairs as int + 2]);
        assert forall|j: int| 0 <= j < after.len() implies stepped[j] == after[j] by {
            if j < pos {
                assert(stepped[j] == before[j]);
            } else if j == pos {
            } else {
                assert(stepped[j] == before[j + 1]);
            }
        }
        assert(stepped =~= after);
        lemma_sweep_from(frame, pairs + 1);
    }
}

/// A pass that starts behind the first sample leaves the frame with all of
/// its pairs compared.
pub proof fn lemma_sweep_thins(frame: Seq<u32>)
    ensures
        sweep(frame, 1) == thinned_once(frame),
{
    assert(compared(frame, 0) =~= frame);
    lemma_sweep_from(frame, 0);
}

/// A pass takes one sample out of every full run of three.
pub proof fn lemma_thinned_once_len(frame: Seq<u32>)
    ensures
        thinned_once(frame).len() == frame.len() - frame.len() / 3,
        thinned_once(frame).len() <= frame.len(),
{
}

/// No number of passes lengthens a frame, and none takes its first sample.
pub proof fn lemma_anchor_stays(frame: Seq<u32>, passes: nat)
    ensures
        thinned(frame, passes).len() <= frame.len(),
        frame.len() > 0 ==> thinned(frame, passes).len() > 0 && thinned(frame, passes)[0]
            == frame[0],
    decreases passes,
{
    if passes > 0 {
        lemma_anchor_stays(frame, (passes - 1) as nat);
        lemma_thinned_once_len(thinned(frame, (passes - 1) as nat));
    }
}

/// Computes how many elimination passes the frame at depth `depth` gets.
pub fn drop_amount(depth: usize, resolution_drop: Milli, max_res_drop: u16) -> (amount: u16)
    ensures
        amount == drop_passes(depth as nat, resolution_drop as int, max_res_drop as nat),
{
    if resolution_drop <= 0 {
        return 0;
    }
    assert(depth * resolution_drop <= usize::MAX * i32::MAX) by (nonlinear_arith)
        requires
            0 <= depth <= usize::MAX,
            0 < resolution_drop <= i32::MAX,
    ;
    let steps: u128 = (depth as u128) * (resolution_drop as u128) / ((10 * SCALE) as u128);
    if steps > max_res_drop as u128 {
        max_res_drop
    } else {
        steps as u16
    }
}

/// Runs one elimination pass over a frame.
fn thin_once(frame: &Vec<u32>) -> (out: Vec<u32>)
    ensures
        out@ == thinned_once(frame@),
{
    let n = frame.len();
    let pairs = n / 3;
    let ghost target = thinned_once(frame@);
    let mut out: Vec<u32> = Vec::with_capacity(n - pairs);
    let mut t: usize = 0;
    while t < pairs
        invariant
            t <= pairs,
            pairs == n / 3,
            n == frame@.len(),
            target == thinned_once(frame@),
            out@.len() == 2 * t,
            forall|j: int| 0 <= j < 2 * t ==> out@[j] == target[j],
        decreases pairs - t,
    {
        let first = frame[3 * t + 1];
        let second = frame[3 * t + 2];
        out.push(frame[3 * t]);
        out.push(
            if first < second {
                second
            } else {
                first
            },
        );
        t += 1;
    }
    let mut i: usize = 3 * pairs;
    while i < n
        invariant
            3 * pairs <= i <= n,
            pairs == n / 3,
            n == frame@.len(),
            target == thinned_once(frame@),
            out@.len() == i - pairs,
            forall|j: int| 0 <= j < i - pairs ==> out@[j] == target[j],
        decreases n - i,
    {
        out.push(frame[i]);
        i += 1;
    }
    assert(out@ =~= target);
    out
}

/// Thins each frame of a stack by as many elimination passes as its depth
/// calls for: none for the newest frame, more for those behind it, never more
/// than `max_res_drop`. A resolution drop that is not positive thins nothing.
///
/// A pass starts behind the first sample, which stays. While two samples lie
/// ahead, it removes the lower of them, the second on a tie, and moves on by
/// two places.
pub fn reduce_buffer(buffer: &mut Vec<Vec<u32>>, resolution_drop: Milli, max_res_drop: u16)
    ensures
        stack_view(*final(buffer)) == thinned_stack(
            stack_view(*old(buffer)),
            resolution_drop as int,
            max_res_drop as nat,
        ),
        final(buffer)@.len() == old(buffer)@.len(),
        forall|z: int|
            0 <= z < old(buffer)@.len() ==> (#[trigger] final(buffer)@[z])@ == thinned(
                old(buffer)@[z]@,
                drop_passes(z as nat, resolution_drop as int, max_res_drop as nat),
            ),
{
    let ghost before = stack_view(*buffer);
    let depth = buffer.len();
    let mut z: usize = 0;
    while z < depth
        invariant
            z <= depth,
            depth == buffer@.len(),
            depth == before.len(),
            forall|i: int|
                0 <= i < z ==> (#[trigger] buffer@[i])@ == thinned(
                    before[i],
                    drop_passes(i as nat, resolution_drop as int, max_res_drop as nat),
                ),
            forall|i: int| z <= i < depth ==> (#[trigger] buffer@[i])@ == before[i],
        decreases depth - z,
    {
        let amount = drop_amount(z, resolution_drop, max_res_drop);
        if amount > 0 {
            let mut frame = thin_once(&buffer[z]);
            let mut done: u16 = 1;
            assert(thinned(before[z as int], 0) == before[z as int]);
            while done < amount
                invariant
                    1 <= done <= amount,
                    0 <= z < before.len(),
                    frame@ == thinned(before[z as int], done as nat),
                decreases amount - done,
            {
                frame = thin_once(&frame);
                done += 1;
            }
            buffer[z] = frame;
        }
        z += 1;
    }
    assert(stack_view(*buffer) =~= thinned_stack(
        before,
        resolution_drop as int,
        max_res_drop as nat,
    ));
}

} // verus!
