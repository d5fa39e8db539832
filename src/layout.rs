//! Layout configuration of a ring menu.
//!
//! Angles are measured in ticks: the circle is cut into
//! `slot_count * ticks_per_slot` equal ticks, counted from the position of
//! slot 0 in the direction of increasing slot index. Slot `i` sits at tick
//! `i * ticks_per_slot`. Lengths are in pixels at the reference display
//! height; a display scale factor multiplies them.
use vstd::prelude::*;

verus! {

/// Number of slots of the standard ring.
pub const SLOT_COUNT: usize = 8;

/// Ticks per slot of the standard ring.
pub const TICKS_PER_SLOT: u64 = 3600;

/// Display height at which the scale factor is one.
pub const REFERENCE_HEIGHT: u32 = 1440;

/// Radius of the neutral zone around the center.
pub const INNER_RADIUS: u32 = 50;

/// Distance beyond which a selection is committed.
pub const OUTER_RADIUS: u32 = 160;

/// Distance of each slot's center from the menu center.
pub const MENU_RADIUS: u32 = 150;

/// Draw radius of a slot at scale one.
pub const SLOT_RADIUS: u32 = 55;

/// Radius of the disc drawn at the menu center.
pub const CENTER_CIRCLE_RADIUS: u32 = 40;

/// Immutable configuration shared by the geometry calculator and the
/// selection state machine.
#[derive(Clone, Copy, Debug, PartialEq, Eq)]
pub struct MenuConfig {
    pub slot_count: usize,
    pub ticks_per_slot: u64,
    pub reference_height: u32,
    pub inner_radius: u32,
    pub outer_radius: u32,
    pub menu_radius: u32,
    pub slot_radius: u32,
    pub center_circle_radius: u32,
}

impl MenuConfig {
    /// A usable configuration: at least one slot, a positive angular
    /// resolution and reference height, a neutral zone inside the commit
    /// distance, and a ring whose tick count and doubled slot count fit the
    /// machine words.
    pub open spec fn wf(self) -> bool {
        &&& self.slot_count >= 1
        &&& self.inner_radius <= self.outer_radius
        &&& self.ticks_per_slot >= 1
        &&& self.reference_height >= 1
        &&& 2 * self.slot_count <= usize::MAX
        &&& self.slot_count * self.ticks_per_slot <= u64::MAX
    }

    /// Number of ticks in a full turn.
    pub open spec fn ring_ticks(self) -> int {
        self.slot_count * self.ticks_per_slot
    }

    /// Tick at which slot `i` sits.
    pub open spec fn slot_tick(self, i: int) -> int {
        i * self.ticks_per_slot
    }

    /// The standard eight-slot ring.
    pub fn standard() -> (r: MenuConfig)
        ensures
            r.wf(),
            r.slot_count == SLOT_COUNT,
            r.ticks_per_slot == TICKS_PER_SLOT,
            r.reference_height == REFERENCE_HEIGHT,
            r.inner_radius == INNER_RADIUS,
            r.outer_radius == OUTER_RADIUS,
            r.menu_radius == MENU_RADIUS,
            r.slot_radius == SLOT_RADIUS,
            r.center_circle_radius == CENTER_CIRCLE_RADIUS,
    {
        MenuConfig {
            slot_count: SLOT_COUNT,
            ticks_per_slot: TICKS_PER_SLOT,
            reference_height: REFERENCE_HEIGHT,
            inner_radius: INNER_RADIUS,
            outer_radius: OUTER_RADIUS,
            menu_radius: MENU_RADIUS,
            slot_radius: SLOT_RADIUS,
            center_circle_radius: CENTER_CIRCLE_RADIUS,
        }
    }

    /// Number of ticks in a full turn.
    pub fn ticks_per_turn(&self) -> (r: u64)
        requires
            self.wf(),
        ensures
            r == self.ring_ticks(),
    {
        self.slot_count as u64 * self.ticks_per_slot
    }
}

} // verus!
