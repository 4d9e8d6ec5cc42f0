//! Index planning: the pure map from a video's total frame count and a
//! requested frame count to the ordered set of frame indices to extract.

use vstd::prelude::*;
use vstd::arithmetic::div_mod::{
    lemma_div_is_ordered, lemma_div_multiples_vanish, lemma_div_of0, lemma_hoist_over_denominator,
};
use vstd::arithmetic::mul::{lemma_mul_inequality, lemma_mul_is_commutative,
    lemma_mul_is_distributive_add_other_way};
use crate::ExtractError;

verus! {

/// The frame index planned for position `i` of `n` requested frames out of
/// `total`: the midpoint for a single frame (biased toward the earlier
/// frame), else `floor(i * (total - 1) / (n - 1))`, which spreads the
/// indices as evenly as integer division allows.
pub open spec fn planned_index(total: u64, n: usize, i: int) -> int {
    if n == 1 {
        total as int / 2
    } else {
        (i * (total as int - 1)) / (n as int - 1)
    }
}

/// The whole planned index sequence for a request of `n` frames.
pub open spec fn plan_seq(total: u64, n: usize) -> Seq<u64> {
    Seq::new(n as nat, |i: int| planned_index(total, n, i) as u64)
}

/// What planning returns for any request: the planned sequence where the
/// request is valid, and the exact error otherwise.  A request for zero
/// frames and a request for more frames than the video holds are both
/// rejected here, before any extraction is attempted.
pub open spec fn plan_result(total: u64, n: usize) -> Result<Seq<u64>, ExtractError> {
    if n == 0 {
        Err(ExtractError::ZeroFramesRequested)
    } else if n as int > total as int {
        Err(ExtractError::InsufficientFrames { requested: n, available: total })
    } else {
        Ok(plan_seq(total, n))
    }
}

/// Each planned index of a valid request lies within the video.
proof fn lemma_planned_index_bound(total: u64, n: usize, i: int)
    requires
        2 <= n,
        n as int <= total as int,
        0 <= i < n,
    ensures
        0 <= planned_index(total, n, i) <= total as int - 1,
{
    let t = total as int - 1;
    let d = n as int - 1;
    lemma_div_of0(d);
    lemma_mul_inequality(0, i, t);
    lemma_div_is_ordered(0, i * t, d);
    lemma_mul_inequality(i, d, t);
    lemma_div_is_ordered(i * t, d * t, d);
    lemma_mul_is_commutative(d, t);
    lemma_div_multiples_vanish(t, d);
}

/// Each planned index of a valid request is strictly above the previous:
/// consecutive positions differ by at least one whole step.
proof fn lemma_planned_index_step(total: u64, n: usize, i: int)
    requires
        2 <= n,
        n as int <= total as int,
        0 <= i < n - 1,
    ensures
        planned_index(total, n, i) + 1 <= planned_index(total, n, i + 1),
{
    let t = total as int - 1;
    let d = n as int - 1;
    lemma_mul_is_distributive_add_other_way(t, i, 1);
    assert((i + 1) * t == i * t + t);
    lemma_hoist_over_denominator(i * t, 1, d as nat);
    assert((i * t) / d + 1 == (i * t + d) / d);
    lemma_div_is_ordered(i * t + d, i * t + t, d);
}

/// For a valid request the plan holds exactly `n` indices, each within
/// `[0, total - 1]`, in strictly ascending order — so they are distinct.
pub proof fn lemma_plan_valid(total: u64, n: usize)
    requires
        1 <= n,
        n as int <= total as int,
    ensures
        plan_seq(total, n).len() == n,
        forall|i: int|
            0 <= i < n ==> (#[trigger] plan_seq(total, n)[i]) as int == planned_index(
                total,
                n,
                i,
            ) && plan_seq(total, n)[i] < total,
        forall|i: int, j: int|
            0 <= i < j < n ==> #[trigger] plan_seq(total, n)[i] < #[trigger] plan_seq(
                total,
                n,
            )[j],
{
    let s = plan_seq(total, n);
    if n == 1 {
        assert(total as int / 2 <= total as int / 1) by {
            vstd::arithmetic::div_mod::lemma_div_is_ordered_by_denominator(total as int, 1, 2);
        }
        assert(s[0] as int == planned_index(total, n, 0));
    } else {
        assert forall|i: int| 0 <= i < n implies (#[trigger] s[i]) as int == planned_index(
            total,
            n,
            i,
        ) && s[i] < total by {
            lemma_planned_index_bound(total, n, i);
        }
        assert forall|i: int, j: int| 0 <= i < j < n implies #[trigger] s[i] < #[trigger] s[j] by {
            lemma_planned_monotone(total, n, i, j);
            lemma_planned_index_bound(total, n, i);
            lemma_planned_index_bound(total, n, j);
        }
    }
}

/// Between any two positions the planned index strictly grows.
proof fn lemma_planned_monotone(total: u64, n: usize, i: int, j: int)
    requires
        2 <= n,
        n as int <= total as int,
        0 <= i < j < n,
    ensures
        planned_index(total, n, i) < planned_index(total, n, j),
    decreases j - i,
{
    if j == i + 1 {
        lemma_planned_index_step(total, n, i);
    } else {
        lemma_planned_index_step(total, n, i);
        lemma_planned_monotone(total, n, i + 1, j);
    }
}

/// A request of one frame is planned as the midpoint, rounded down.
pub proof fn lemma_plan_single(total: u64)
    requires
        1 <= total,
    ensures
        plan_result(total, 1) == Ok::<Seq<u64>, ExtractError>(seq![total / 2]),
{
    assert(plan_seq(total, 1) =~= seq![total / 2]);
}

/// A request of more than one frame always plans the first and the last
/// frame of the video as its first and last indices.
pub proof fn lemma_plan_endpoints(total: u64, n: usize)
    requires
        2 <= n,
        n as int <= total as int,
    ensures
        plan_seq(total, n)[0] == 0,
        plan_seq(total, n)[n - 1] == (total - 1) as u64,
{
    let t = total as int - 1;
    let d = n as int - 1;
    lemma_div_of0(d);
    assert(planned_index(total, n, 0) == 0);
    lemma_mul_is_commutative(d, t);
    lemma_div_multiples_vanish(t, d);
    assert(planned_index(total, n, d) == t);
}

/// Plans which frame indices to extract.  A request of zero frames and a
/// request exceeding the available frames are rejected with their typed
/// errors; a valid request yields exactly the evenly-spread index set.
pub fn plan(total_frames: u64, n: usize) -> (r: Result<Vec<u64>, ExtractError>)
    ensures
        match r {
            Ok(v) => plan_result(total_frames, n) == Ok::<Seq<u64>, ExtractError>(v@),
            Err(e) => plan_result(total_frames, n) == Err::<Seq<u64>, ExtractError>(e),
        },
{
    if n == 0 {
        return Err(ExtractError::ZeroFramesRequested);
    }
    if n as u64 > total_frames {
        return Err(ExtractError::InsufficientFrames { requested: n, available: total_frames });
    }
    let mut v: Vec<u64> = Vec::new();
    if n == 1 {
        v.push(total_frames / 2);
        proof {
            assert(v@ =~= plan_seq(total_frames, 1));
        }
        return Ok(v);
    }
    let t64: u64 = total_frames - 1;
    let d64: u64 = (n - 1) as u64;
    let mut i: usize = 0;
    while i < n
        invariant
            2 <= n,
            n as int <= total_frames as int,
            t64 == total_frames - 1,
            d64 == n as int - 1,
            i <= n,
            v@.len() == i,
            forall|k: int|
                0 <= k < i ==> (#[trigger] v@[k]) as int == planned_index(total_frames, n, k),
        decreases n - i,
    {
        proof {
            lemma_mul_inequality(i as int, u64::MAX as int, t64 as int);
            lemma_mul_inequality(t64 as int, u64::MAX as int, u64::MAX as int);
            lemma_mul_is_commutative(t64 as int, u64::MAX as int);
            lemma_planned_index_bound(total_frames, n, i as int);
        }
        let num: u128 = (i as u128) * (t64 as u128);
        let idx128: u128 = num / (d64 as u128);
        proof {
            assert(idx128 as int == planned_index(total_frames, n, i as int));
        }
        let idx: u64 = idx128 as u64;
        v.push(idx);
        i += 1;
    }
    proof {
        assert(v@ =~= plan_seq(total_frames, n));
    }
    Ok(v)
}

} // verus!
