//! Adaptive width and scale of each filled slot.
//!
//! Widths are counted in half angle steps (an angle step is a full turn
//! divided by the slot count), so a slot that claims half of each
//! neighbouring gap has an integer width. The scale of a slot is
//! `min(sqrt(width / step), 5/2)`; it is kept as `4 * scale^2`, which is
//! the integer `min(2 * width_half_steps, 25)`.
use vstd::prelude::*;
use vstd::arithmetic::div_mod::{lemma_small_mod, lemma_mod_add_multiples_vanish};

use crate::layout::MenuConfig;

verus! {

/// `4 * scale^2` for the largest scale, 5/2.
pub const MAX_SCALE_SQ_QUARTERS: usize = 25;

/// Forward gap, in angle steps, from ring position `from` to ring position
/// `to` on a ring of `n` positions; a full turn when they coincide.
pub open spec fn ring_gap(from: int, to: int, n: int) -> int {
    if from == to {
        n
    } else {
        (to - from) % n
    }
}

/// Distinct ring positions below `n`.
pub open spec fn distinct_positions(filled: Seq<usize>, n: int) -> bool {
    &&& forall|i: int| 0 <= i < filled.len() ==> filled[i] < n
    &&& forall|i: int, j: int| 0 <= i < j < filled.len() ==> filled[i] != filled[j]
}

/// Positions listed in ascending ring order, all below `n`.
pub open spec fn ascending_positions(filled: Seq<usize>, n: int) -> bool {
    &&& forall|i: int| 0 <= i < filled.len() ==> filled[i] < n
    &&& forall|i: int, j: int| 0 <= i < j < filled.len() ==> filled[i] < filled[j]
}

/// The filled position listed before the one at `p`, circularly.
pub open spec fn prev_filled(filled: Seq<usize>, p: int) -> int {
    filled[(p + filled.len() - 1) % (filled.len() as int)] as int
}

/// The filled position listed after the one at `p`, circularly.
pub open spec fn next_filled(filled: Seq<usize>, p: int) -> int {
    filled[(p + 1) % (filled.len() as int)] as int
}

/// Width, in half angle steps, of the slot listed at `p`: the gap to its
/// predecessor plus the gap to its successor.
pub open spec fn width_at(filled: Seq<usize>, p: int, n: int) -> int {
    ring_gap(prev_filled(filled, p), filled[p] as int, n) + ring_gap(
        filled[p] as int,
        next_filled(filled, p),
        n,
    )
}

/// `4 * scale^2` of a slot whose width is `width_half_steps` half steps.
pub open spec fn scale_sq_quarters_of(width_half_steps: int) -> int {
    if 2 * width_half_steps <= MAX_SCALE_SQ_QUARTERS {
        2 * width_half_steps
    } else {
        MAX_SCALE_SQ_QUARTERS as int
    }
}

/// Sum of the widths of the slots listed before `m`.
pub open spec fn widths_before(filled: Seq<usize>, m: int, n: int) -> int
    decreases m,
{
    if m <= 0 {
        0
    } else {
        widths_before(filled, m - 1, n) + width_at(filled, m - 1, n)
    }
}

/// Placement-independent geometry of one filled slot. Its fixed angular
/// position follows from `index`; its on-screen size from `scale_sq_quarters`.
#[derive(Clone, Copy, Debug, PartialEq, Eq)]
pub struct SlotGeometry {
    /// Ring position of the slot.
    pub index: usize,
    /// Angular width claimed by the slot, in half angle steps.
    pub width_half_steps: usize,
    /// Four times the square of the slot's visual scale.
    pub scale_sq_quarters: usize,
}

/// The forward gap between two ring positions, without the modulus.
proof fn lemma_ring_gap_value(a: int, b: int, n: int)
    requires
        0 <= a < n,
        0 <= b < n,
    ensures
        ring_gap(a, b, n) == if a == b {
            n
        } else if a < b {
            b - a
        } else {
            b - a + n
        },
{
    if a < b {
        lemma_small_mod((b - a) as nat, n as nat);
    } else if b < a {
        lemma_mod_add_multiples_vanish(b - a, n);
        lemma_small_mod((b - a + n) as nat, n as nat);
    }
}

proof fn lemma_wrap_positions(p: int, len: int)
    requires
        0 <= p < len,
    ensures
        (p + len - 1) % len == if p == 0 { len - 1 } else { p - 1 },
        (p + 1) % len == if p + 1 == len { 0 } else { p + 1 },
{
    if p == 0 {
        lemma_small_mod((len - 1) as nat, len as nat);
    } else {
        lemma_mod_add_multiples_vanish(p - 1, len);
        lemma_small_mod((p - 1) as nat, len as nat);
    }
    if p + 1 == len {
        lemma_mod_add_multiples_vanish(0, len);
        lemma_small_mod(0, len as nat);
    } else {
        lemma_small_mod((p + 1) as nat, len as nat);
    }
}

/// Forward gap, in angle steps, from `from` to `to` on a ring of `n`.
fn gap_steps(from: usize, to: usize, n: usize) -> (r: usize)
    requires
        from < n,
        to < n,
    ensures
        r == ring_gap(from as int, to as int, n as int),
{
    proof {
        lemma_ring_gap_value(from as int, to as int, n as int);
    }
    if from == to {
        n
    } else if from < to {
        to - from
    } else {
        n - from + to
    }
}

/// Where `index` is listed in `filled`.
fn position_in(index: usize, filled: &[usize]) -> (p: usize)
    requires
        exists|q: int| 0 <= q < filled@.len() && filled@[q] == index,
    ensures
        p < filled@.len(),
        filled@[p as int] == index,
{
    let mut p: usize = 0;
    while p < filled.len()
        invariant
            p <= filled@.len(),
            forall|q: int| 0 <= q < p ==> filled@[q] != index,
            exists|q: int| 0 <= q < filled@.len() && filled@[q] == index,
        decreases filled@.len() - p,
    {
        if filled[p] == index {
            return p;
        }
        p = p + 1;
    }
    p
}

impl SlotGeometry {
    /// Width and scale of the filled slot at ring position `index`, given
    /// every filled position of the ring (listed in ring order, so that a
    /// slot's neighbours in the list are its neighbours on the ring).
    pub fn calculate(index: usize, filled_indices: &[usize], config: &MenuConfig) -> (r: Self)
        requires
            config.wf(),
            distinct_positions(filled_indices@, config.slot_count as int),
            exists|q: int| 0 <= q < filled_indices@.len() && filled_indices@[q] == index,
        ensures
            r.index == index,
            forall|p: int|
                0 <= p < filled_indices@.len() && filled_indices@[p] == index
                    ==> r.width_half_steps == width_at(
                    filled_indices@,
                    p,
                    config.slot_count as int,
                ),
            r.scale_sq_quarters == scale_sq_quarters_of(r.width_half_steps as int),
    {
        let n = config.slot_count;
        let len = filled_indices.len();
        let p = position_in(index, filled_indices);
        let prev_pos = if p == 0 { len - 1 } else { p - 1 };
        let next_pos = if p + 1 == len { 0 } else { p + 1 };
        proof {
            lemma_wrap_positions(p as int, len as int);
        }
        let prev = filled_indices[prev_pos];
        let next = filled_indices[next_pos];
        let left = gap_steps(prev, index, n);
        let right = gap_steps(index, next, n);
        let width = left + right;
        let scale_sq = if width <= MAX_SCALE_SQ_QUARTERS / 2 {
            2 * width
        } else {
            MAX_SCALE_SQ_QUARTERS
        };
        SlotGeometry { index, width_half_steps: width, scale_sq_quarters: scale_sq }
    }
}

/// Width of a slot of an ascending list of at least two filled positions,
/// spelled out as its two gaps.
proof fn lemma_width_at_ascending(filled: Seq<usize>, n: int, p: int)
    requires
        n >= 1,
        filled.len() >= 2,
        ascending_positions(filled, n),
        0 <= p < filled.len(),
    ensures
        width_at(filled, p, n) == (if p == 0 {
            filled[0] - filled[filled.len() - 1] + n
        } else {
            filled[p] - filled[p - 1]
        }) + (if p == filled.len() - 1 {
            filled[0] - filled[p] + n
        } else {
            filled[p + 1] - filled[p]
        }),
{
    let len = filled.len() as int;
    lemma_wrap_positions(p, len);
    let prev = if p == 0 { len - 1 } else { p - 1 };
    let next = if p + 1 == len { 0 } else { p + 1 };
    lemma_ring_gap_value(filled[prev] as int, filled[p] as int, n);
    lemma_ring_gap_value(filled[p] as int, filled[next] as int, n);
}

proof fn lemma_widths_prefix(filled: Seq<usize>, n: int, m: int)
    requires
        n >= 1,
        filled.len() >= 2,
        ascending_positions(filled, n),
        1 <= m < filled.len(),
    ensures
        widths_before(filled, m, n) == (filled[0] + n - filled[filled.len() - 1]) + (filled[m - 1]
            - filled[0]) + (filled[m] - filled[0]),
    decreases m,
{
    lemma_width_at_ascending(filled, n, m - 1);
    assert(widths_before(filled, m, n) == widths_before(filled, m - 1, n) + width_at(
        filled,
        m - 1,
        n,
    ));
    if m > 1 {
        lemma_widths_prefix(filled, n, m - 1);
    } else {
        assert(widths_before(filled, 0, n) == 0);
    }
}

/// Angular conservation: going once around the ring, the widths of the
/// filled slots add up to a full turn (twice the slot count, in half steps),
/// whichever non-empty set of positions is filled.
pub proof fn lemma_widths_cover_ring(filled: Seq<usize>, n: int)
    requires
        n >= 1,
        filled.len() >= 1,
        ascending_positions(filled, n),
    ensures
        widths_before(filled, filled.len() as int, n) == 2 * n,
{
    let len = filled.len() as int;
    if len == 1 {
        lemma_wrap_positions(0, 1);
        assert(widths_before(filled, 0, n) == 0);
    } else {
        lemma_widths_prefix(filled, n, len - 1);
        lemma_width_at_ascending(filled, n, len - 1);
    }
}

/// A lone filled slot claims the full turn on both sides: its width is a
/// whole turn, and its scale is `min(sqrt(n), 5/2)`, so `4 * scale^2` is
/// `min(4 * n, 25)`; on an eight-slot ring that is the cap, 5/2.
pub proof fn lemma_single_slot_scale(filled: Seq<usize>, n: int)
    requires
        n >= 1,
        filled.len() == 1,
        filled[0] < n,
    ensures
        width_at(filled, 0, n) == 2 * n,
        scale_sq_quarters_of(width_at(filled, 0, n)) == if 4 * n <= 25 {
            4 * n
        } else {
            25
        },
        n == 8 ==> scale_sq_quarters_of(width_at(filled, 0, n)) == 25,
{
    lemma_wrap_positions(0, 1);
}

/// On a fully populated ring every slot is one angle step wide (two half
/// steps) and has scale exactly one.
pub proof fn lemma_full_ring_unit_scale(filled: Seq<usize>, n: int, p: int)
    requires
        n >= 1,
        filled.len() == n,
        forall|i: int| 0 <= i < n ==> filled[i] == i,
        0 <= p < n,
    ensures
        width_at(filled, p, n) == 2,
        scale_sq_quarters_of(width_at(filled, p, n)) == 4,
{
    if n == 1 {
        lemma_wrap_positions(0, 1);
        assert(width_at(filled, p, n) == 2);
    } else {
        lemma_width_at_ascending(filled, n, p);
    }
}

} // verus!
