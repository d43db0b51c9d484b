use vstd::prelude::*;

verus! {

/// How many groups of `k` samples the scan collapses in a frame of `len`
/// samples: one for every full run of `k + 1` samples.
pub open spec fn group_count(len: nat, k: nat) -> nat {
    len / (k + 1)
}

/// How many samples a frame of `len` samples keeps under a factor `k` above
/// zero: each group takes `k` samples with it, and the drop at the end takes
/// `k` more, as far as there are any.
pub open spec fn reduced_len(len: nat, k: nat) -> nat {
    vstd::math::max(len - (group_count(len, k) + 1) * k, 0) as nat
}

/// The reduced frame. Under a factor `k` above zero its sample at `j` is
/// the one that followed the group at `j`: the sample at `(j + 1) * (k + 1) - 1`
/// of the frame. A factor of zero changes nothing.
pub open spec fn reduced(frame: Seq<u32>, k: nat) -> Seq<u32> {
    if k == 0 {
        frame
    } else {
        Seq::new(reduced_len(frame.len(), k), |j: int| frame[(j + 1) * (k + 1) - 1])
    }
}

/// The sum of the samples.
pub open spec fn total(samples: Seq<u32>) -> nat
    decreases samples.len(),
{
    if samples.len() == 0 {
        0
    } else {
        (total(samples.drop_last()) + samples.last()) as nat
    }
}

/// The mean of the samples, rounded down; zero where there are none.
pub open spec fn mean(samples: Seq<u32>) -> u32 {
    if samples.len() == 0 {
        0
    } else {
        (total(samples) / samples.len()) as u32
    }
}

/// The scan as it runs, from position `p` on: while a full group and one more
/// sample lie ahead, the mean of the group is written at `p`, the `k` places
/// from `p` on leave the frame, and the scan moves on by one place.
pub open spec fn scan(buffer: Seq<u32>, p: nat, k: nat) -> Seq<u32>
    decreases buffer.len() - p,
{
    if k > 0 && p + k < buffer.len() {
        let written = buffer.update(p as int, mean(buffer.subrange(p as int, (p + k) as int)));
        scan(
            written.subrange(0, p as int) + written.subrange((p + k) as int, buffer.len() as int),
            (p + 1) as nat,
            k,
        )
    } else {
        buffer
    }
}

/// A frame without its last `k` samples, or without any where it has no
/// more than `k`.
pub open spec fn trimmed(buffer: Seq<u32>, k: nat) -> Seq<u32> {
    buffer.take(vstd::math::max(buffer.len() - k, 0))
}

/// The frame once the scan has collapsed its first `groups` groups: each of
/// the first `groups` places holds the sample that followed a group, and the
/// untouched rest of the frame comes behind.
spec fn collapsed(frame: Seq<u32>, k: nat, groups: nat) -> Seq<u32> {
    Seq::new(
        (frame.len() - groups * k) as nat,
        |j: int| frame[j + vstd::math::min(j + 1, groups as int) * k],
    )
}

/// The bounds that integer division puts on the number of groups.
pub proof fn lemma_group_bounds(len: nat, k: nat)
    ensures
        group_count(len, k) * (k + 1) <= len < (group_count(len, k) + 1) * (k + 1),
        group_count(len, k) * k <= len,
        len <= k ==> group_count(len, k) == 0,
        len > k ==> group_count(len, k) >= 1,
{
    let d = (k + 1) as int;
    let q = group_count(len, k) as int;
    vstd::arithmetic::div_mod::lemma_fundamental_div_mod(len as int, d);
    vstd::arithmetic::div_mod::lemma_mod_bound(len as int, d);
    assert(d * q == q * (k + 1)) by (nonlinear_arith)
        requires
            d == k + 1,
    ;
    assert((q + 1) * (k + 1) == q * (k + 1) + (k + 1)) by (nonlinear_arith);
    assert(q * k <= q * (k + 1)) by (nonlinear_arith)
        requires
            q >= 0,
    ;
    if len <= k {
        assert(q == 0) by (nonlinear_arith)
            requires
                q >= 0,
                q * (k + 1) <= len,
                len <= k,
        ;
    } else {
        assert(q >= 1) by (nonlinear_arith)
            requires
                q >= 0,
                len < (q + 1) * (k + 1),
                len > k,
        ;
    }
}

/// Under a factor above zero no more samples are kept than there are groups,
/// and a frame that holds anything comes out shorter than it went in.
pub proof fn lemma_reduced_shorter(len: nat, k: nat)
    requires
        k > 0,
    ensures
        reduced_len(len, k) <= group_count(len, k),
        len > 0 ==> reduced_len(len, k) < len,
        len <= k ==> reduced_len(len, k) == 0,
{
    lemma_group_bounds(len, k);
    let groups = group_count(len, k);
    assert((groups + 1) * k == groups * k + k) by (nonlinear_arith);
    assert((groups + 1) * (k + 1) == groups * k + groups + k + 1) by (nonlinear_arith);
}

/// Under a factor above zero every sample that is kept is one of the frame.
pub proof fn lemma_reduced_samples(len: nat, k: nat, j: int)
    requires
        k > 0,
        0 <= j < reduced_len(len, k),
    ensures
        0 <= (j + 1) * (k + 1) - 1 < len,
        (j + 1) * (k + 1) - 1 == j + (j + 1) * k,
{
    lemma_group_bounds(len, k);
    lemma_reduced_shorter(len, k);
    let groups = group_count(len, k) as int;
    assert(j + (j + 1) * k == (j + 1) * (k + 1) - 1) by (nonlinear_arith);
    assert((j + 1) * (k + 1) <= groups * (k + 1)) by (nonlinear_arith)
        requires
            0 <= j + 1 <= groups,
    ;
    assert((j + 1) * (k + 1) >= 1) by (nonlinear_arith)
        requires
            j >= 0,
            k >= 0,
    ;
}

/// Collapsing one more group is one step of the scan: the mean that the
/// step writes leaves with the group.
proof fn lemma_scan_step(frame: Seq<u32>, k: nat, m: nat)
    requires
        k > 0,
        m + k < frame.len() - m * k,
    ensures
        ({
            let before = collapsed(frame, k, m);
            let written = before.update(
                m as int,
                mean(before.subrange(m as int, (m + k) as int)),
            );
            written.subrange(0, m as int) + written.subrange((m + k) as int, before.len() as int)
        }) == collapsed(frame, k, m + 1),
{
    let before = collapsed(frame, k, m);
    let written = before.update(m as int, mean(before.subrange(m as int, (m + k) as int)));
    let stepped = written.subrange(0, m as int) + written.subrange(
        (m + k) as int,
        before.len() as int,
    );
    let after = collapsed(frame, k, m + 1);
    assert((m + 1) * k == m * k + k) by (nonlinear_arith);
    assert(stepped.len() == after.len());
    assert forall|j: int| 0 <= j < stepped.len() implies stepped[j] == after[j] by {
        if j < m {
            assert(stepped[j] == before[j]);
        } else {
            assert(stepped[j] == before[j + k]);
            assert(vstd::math::min(j + k + 1, m as int) == m);
            assert(vstd::math::min(j + 1, (m + 1) as int) == m + 1);
        }
    }
    assert(stepped =~= after);
}

/// From any point that the scan reaches, it ends in the frame with all of
/// its groups collapsed.
proof fn lemma_scan_from(frame: Seq<u32>, k: nat, m: nat)
    requires
        k > 0,
        m <= group_count(frame.len(), k),
    ensures
        scan(collapsed(frame, k, m), m, k) == collapsed(frame, k, group_count(frame.len(), k)),
    decreases group_count(frame.len(), k) - m,
{
    let groups = group_count(frame.len(), k);
    let before = collapsed(frame, k, m);
    lemma_group_bounds(frame.len(), k);
    assert(m * k <= groups * k) by (nonlinear_arith)
        requires
            m <= groups,
    ;
    if m < groups {
        assert((m + 1) * (k + 1) <= groups * (k + 1)) by (nonlinear_arith)
            requires
                m + 1 <= groups,
        ;
        assert((m + 1) * (k + 1) == m * k + m + k + 1) by (nonlinear_arith);
        assert(m + k < before.len());
        lemma_scan_step(frame, k, m);
        lemma_scan_from(frame, k, m + 1);
    } else {
        assert((groups + 1) * (k + 1) == groups * k + groups + k + 1) by (nonlinear_arith);
        assert(!(m + k < before.len()));
    }
}

/// The reduced frame is what the scan and the drop behind it leave: the scan
/// run over the frame from its first sample, then the last `k` samples
/// dropped.
pub proof fn lemma_scan_reduces(frame: Seq<u32>, k: nat)
    requires
        k > 0,
    ensures
        trimmed(scan(frame, 0, k), k) == reduced(frame, k),
{
    let groups = group_count(frame.len(), k);
    let scanned = collapsed(frame, k, groups);
    assert(0 * k == 0) by (nonlinear_arith);
    assert(collapsed(frame, k, 0) =~= frame) by {
        assert forall|j: int| 0 <= j < frame.len() implies collapsed(frame, k, 0)[j] == frame[j] by {
            assert(vstd::math::min(j + 1, 0) == 0);
            assert(0 * k == 0) by (nonlinear_arith);
        }
    }
    lemma_scan_from(frame, k, 0);
    lemma_group_bounds(frame.len(), k);
    lemma_reduced_shorter(frame.len(), k);
    assert((groups + 1) * k == groups * k + k) by (nonlinear_arith);
    assert forall|j: int| 0 <= j < reduced_len(frame.len(), k) implies trimmed(scanned, k)[j]
        == reduced(frame, k)[j] by {
        lemma_reduced_samples(frame.len(), k, j);
        assert(vstd::math::min(j + 1, groups as int) == j + 1);
    }
    assert(trimmed(scanned, k) =~= reduced(frame, k));
}

/// Collapses adjacent samples of `buffer` by the factor `factor`.
///
/// The scan starts at the first sample. While a group of `factor` samples
/// and one more sample lie ahead of it, the mean of the group is written at
/// the head of the group, the group leaves the frame, and the scan moves on
/// by one place. After the scan the last `factor` samples are dropped, or
/// all that are left where these are fewer. So the frame keeps the samples
/// that followed the groups, but for the last of them. A factor of zero
/// leaves the frame as it is.
pub fn bar_reduction(buffer: &mut Vec<u32>, factor: u32)
    ensures
        final(buffer)@ == reduced(old(buffer)@, factor as nat),
        factor == 0 ==> final(buffer)@ == old(buffer)@,
        factor > 0 && old(buffer)@.len() > 0 ==> final(buffer)@.len() < old(buffer)@.len(),
{
    let n = buffer.len();
    let k = factor as usize;
    let ghost frame = buffer@;
    if k == 0 {
        return ;
    }
    proof {
        lemma_group_bounds(n as nat, k as nat);
        lemma_reduced_shorter(n as nat, k as nat);
    }
    if n <= k {
        buffer.clear();
        assert(buffer@ =~= reduced(frame, k as nat));
        return ;
    }
    let groups = n / (k + 1);
    let scanned = n - groups * k;
    let len = if scanned > k {
        scanned - k
    } else {
        0
    };
    assert(len == reduced_len(n as nat, k as nat)) by {
        assert((groups + 1) * k == groups * k + k) by (nonlinear_arith);
    }
    let mut out: Vec<u32> = Vec::with_capacity(len);
    let mut j: usize = 0;
    while j < len
        invariant
            j <= len,
            len == reduced_len(n as nat, k as nat),
            k > 0,
            n == buffer@.len(),
            buffer@ == frame,
            out@.len() == j,
            forall|i: int| 0 <= i < j ==> out@[i] == frame[(i + 1) * (k + 1) - 1],
        decreases len - j,
    {
        proof {
            lemma_reduced_samples(n as nat, k as nat, j as int);
        }
        out.push(buffer[j + (j + 1) * k]);
        j += 1;
    }
    assert(out@ =~= reduced(frame, k as nat));
    *buffer = out;
}

} // verus!
