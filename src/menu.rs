//! Menu state: slot bindings, hover, and the cursor-driven selection
//! state machine.
use vstd::prelude::*;
use vstd::arithmetic::div_mod::{lemma_small_mod, lemma_mod_add_multiples_vanish};

use crate::geometry::ascending_positions;
use crate::layout::MenuConfig;

verus! {

/// Lowercase form of a string, as `str::to_lowercase` computes it.
pub uninterp spec fn lower_of(s: Seq<char>) -> Seq<char>;

/// Relies on `str::to_lowercase`: its result depends on the characters of
/// the input alone.
#[verifier::external_body]
fn lowercase(s: &str) -> (r: String)
    ensures
        r@ == lower_of(s@),
{
    s.to_lowercase()
}

/// An application bound to a slot.
#[derive(Clone, Debug)]
pub struct AppInfo {
    /// Label shown when no icon is available.
    pub name: String,
    /// Window class that marks the application as running.
    pub class: String,
    /// Launch command; empty when the binding is broken.
    pub command: String,
    /// Path of the icon image; empty when there is none.
    pub icon: String,
}

/// One ring position, with its optional application.
#[derive(Debug)]
pub struct Slot {
    pub app: Option<AppInfo>,
}

/// A configured binding of an application to a ring position; either part
/// may be missing, and then the binding is ignored.
#[derive(Debug)]
pub struct SlotBinding {
    pub position: Option<usize>,
    pub app: Option<AppInfo>,
}

/// Whether some folded class of `active` equals `class`.
pub open spec fn class_listed(class: Seq<char>, active: Seq<String>) -> bool {
    exists|i: int| 0 <= i < active.len() && active[i]@ == class
}

/// Whether the class of `app` occurs in `active`, ignoring case.
pub open spec fn app_running(app: AppInfo, active: Seq<String>) -> bool {
    exists|i: int| 0 <= i < active.len() && lower_of(active[i]@) == lower_of(app.class@)
}

/// Whether `folded_class` occurs in `folded_active`.
pub fn contains_class(folded_class: &String, folded_active: &[String]) -> (r: bool)
    ensures
        r == class_listed(folded_class@, folded_active@),
{
    let mut i: usize = 0;
    while i < folded_active.len()
        invariant
            i <= folded_active@.len(),
            forall|j: int| 0 <= j < i ==> folded_active@[j]@ != folded_class@,
        decreases folded_active@.len() - i,
    {
        if folded_active[i] == *folded_class {
            return true;
        }
        i = i + 1;
    }
    false
}

impl Slot {
    /// Whether an application is bound to the slot.
    pub open spec fn is_filled(self) -> bool {
        self.app is Some
    }

    /// Whether the bound application is among the running classes.
    pub open spec fn runs_in(self, active: Seq<String>) -> bool {
        self.app is Some && app_running(self.app->0, active)
    }

    /// Whether the slot is bound with an empty launch command.
    pub open spec fn broken(self) -> bool {
        self.app is Some && self.app->0.command@.len() == 0
    }

    /// A slot holding `app`.
    pub fn new(app: Option<AppInfo>) -> (r: Slot)
        ensures
            r.app == app,
    {
        Slot { app }
    }

    /// The icon to load for the slot: the bound application's icon path,
    /// unless there is no application or the path is empty.
    pub fn icon_path(&self) -> (r: Option<&String>)
        ensures
            r is Some <==> (self.app is Some && self.app->0.icon@.len() > 0),
            r is Some ==> *r->0 == self.app->0.icon,
    {
        match &self.app {
            Some(a) => {
                if a.icon.as_str().is_empty() {
                    None
                } else {
                    Some(&a.icon)
                }
            },
            None => None,
        }
    }

    /// Whether the bound application's window class is among
    /// `active_classes`, ignoring case.
    pub fn is_running(&self, active_classes: &[String]) -> (r: bool)
        ensures
            r == self.runs_in(active_classes@),
    {
        match &self.app {
            Some(a) => {
                let target = lowercase(a.class.as_str());
                let mut folded: Vec<String> = Vec::new();
                let mut i: usize = 0;
                while i < active_classes.len()
                    invariant
                        i <= active_classes@.len(),
                        folded@.len() == i,
                        forall|j: int| 0 <= j < i ==> folded@[j]@ == lower_of(active_classes@[j]@),
                    decreases active_classes@.len() - i,
                {
                    folded.push(lowercase(active_classes[i].as_str()));
                    i = i + 1;
                }
                let r = contains_class(&target, folded.as_slice());
                proof {
                    if r {
                        let j = choose|j: int| 0 <= j < folded@.len() && folded@[j]@ == target@;
                        assert(lower_of(active_classes@[j]@) == lower_of(a.class@));
                    }
                    if app_running(*a, active_classes@) {
                        let j = choose|j: int|
                            0 <= j < active_classes@.len() && lower_of(active_classes@[j]@)
                                == lower_of(a.class@);
                        assert(folded@[j]@ == target@);
                    }
                }
                r
            },
            None => false,
        }
    }

    /// Whether the slot is bound but its launch command is empty.
    pub fn is_broken(&self) -> (r: bool)
        ensures
            r == self.broken(),
    {
        match &self.app {
            Some(a) => a.command.as_str().is_empty(),
            None => false,
        }
    }
}

/// A screen position, in whole pixels.
#[derive(Clone, Copy, Debug, PartialEq, Eq)]
pub struct Point {
    pub x: i32,
    pub y: i32,
}

impl Point {
    pub fn new(x: i32, y: i32) -> (r: Point)
        ensures
            r.x == x,
            r.y == y,
    {
        Point { x, y }
    }
}

/// Display-density multiplier `num / den`: the monitor height over the
/// reference height.
#[derive(Clone, Copy, Debug, PartialEq, Eq)]
pub struct ScaleFactor {
    pub num: u32,
    pub den: u32,
}

impl ScaleFactor {
    /// A positive factor.
    pub open spec fn wf(self) -> bool {
        self.num >= 1 && self.den >= 1
    }
}

/// What one cursor step asks of the caller.
#[derive(Clone, Copy, Debug, Default, PartialEq, Eq)]
pub struct CursorAction {
    pub should_redraw: bool,
    pub should_activate: bool,
}

/// How a filled slot is painted.
#[derive(Clone, Copy, Debug, PartialEq, Eq)]
pub enum SlotStyle {
    Broken,
    Hovered,
    Running,
    Idle,
}

/// Live state of an open menu.
#[derive(Debug)]
pub struct State {
    pub config: MenuConfig,
    pub center: Point,
    pub slots: Vec<Slot>,
    pub hover_index: Option<usize>,
    pub active_classes: Vec<String>,
    pub scale: ScaleFactor,
}

/// `hover` is absent or names a filled slot.
pub open spec fn hover_valid(slots: Seq<Slot>, hover: Option<usize>) -> bool {
    match hover {
        Some(i) => i < slots.len() && slots[i as int].is_filled(),
        None => true,
    }
}

/// Squared distance between two points.
pub open spec fn dist_sq(a: Point, b: Point) -> int {
    (b.x - a.x) * (b.x - a.x) + (b.y - a.y) * (b.y - a.y)
}

/// Whether a point at squared distance `d2` lies within `radius` scaled by
/// `scale`, that is `sqrt(d2) <= radius * num / den`.
pub open spec fn within_radius(d2: int, radius: int, scale: ScaleFactor) -> bool {
    d2 * (scale.den * scale.den) <= (radius * scale.num) * (radius * scale.num)
}

/// Circular distance, in ticks, between ticks `t` and `s` of a turn of
/// `total` ticks: the shorter way round.
pub open spec fn circ_dist(t: int, s: int, total: int) -> int {
    let d = (t - s) % total;
    if d <= total - d {
        d
    } else {
        total - d
    }
}

/// Angular distance from cursor tick `t` to the fixed position of slot `i`.
pub open spec fn angle_to_slot(config: MenuConfig, t: int, i: int) -> int {
    circ_dist(t, config.slot_tick(i), config.ring_ticks())
}

/// Slot `k` is filled, no filled slot is nearer to tick `t`, and every
/// filled slot of lower index is strictly farther: the first nearest.
pub open spec fn is_first_nearest(config: MenuConfig, slots: Seq<Slot>, t: int, k: int) -> bool {
    &&& 0 <= k < slots.len()
    &&& slots[k].is_filled()
    &&& forall|j: int|
        0 <= j < slots.len() && #[trigger] slots[j].is_filled() ==> angle_to_slot(config, t, k)
            <= angle_to_slot(config, t, j)
    &&& forall|j: int|
        0 <= j < k && #[trigger] slots[j].is_filled() ==> angle_to_slot(config, t, k)
            < angle_to_slot(config, t, j)
}

/// The filled slot nearest to tick `t`, the lowest index among equals;
/// absent when no slot is filled.
pub open spec fn nearest_slot(config: MenuConfig, slots: Seq<Slot>, t: int) -> Option<usize> {
    if exists|k: int| is_first_nearest(config, slots, t, k) {
        Some((choose|k: int| is_first_nearest(config, slots, t, k)) as usize)
    } else {
        None
    }
}

/// Whether `cursor` lies in the neutral zone of `s`.
pub open spec fn in_dead_zone(s: State, cursor: Point) -> bool {
    within_radius(dist_sq(s.center, cursor), s.config.inner_radius as int, s.scale)
}

/// Hover after a cursor step to `cursor`, whose direction from the center
/// is tick `t`.
pub open spec fn hover_after(s: State, cursor: Point, t: int) -> Option<usize> {
    if in_dead_zone(s, cursor) {
        None
    } else {
        nearest_slot(s.config, s.slots@, t)
    }
}

/// What a cursor step to `cursor`, at tick `t`, reports.
pub open spec fn action_after(s: State, cursor: Point, t: int) -> CursorAction {
    if in_dead_zone(s, cursor) {
        CursorAction { should_redraw: s.hover_index is Some, should_activate: false }
    } else {
        let h = hover_after(s, cursor, t);
        let activate = !within_radius(dist_sq(s.center, cursor), s.config.outer_radius as int, s.scale)
            && h is Some;
        CursorAction { should_redraw: s.hover_index != h || activate, should_activate: activate }
    }
}

/// The application that the last usable binding for `position` in
/// `bindings` puts there; absent when none does.
pub open spec fn bound_app(bindings: Seq<SlotBinding>, position: int) -> Option<AppInfo>
    decreases bindings.len(),
{
    if bindings.len() == 0 {
        None
    } else {
        let b = bindings.last();
        if b.position == Some(position as usize) && b.app is Some {
            b.app
        } else {
            bound_app(bindings.drop_last(), position)
        }
    }
}

/// How slot `i` of `s` is painted.
pub open spec fn style_of(s: State, i: int) -> SlotStyle {
    if s.slots@[i].broken() {
        SlotStyle::Broken
    } else if s.hover_index == Some(i as usize) {
        SlotStyle::Hovered
    } else if s.slots@[i].runs_in(s.active_classes@) {
        SlotStyle::Running
    } else {
        SlotStyle::Idle
    }
}

proof fn lemma_first_nearest_unique(config: MenuConfig, slots: Seq<Slot>, t: int, k: int)
    requires
        is_first_nearest(config, slots, t, k),
    ensures
        nearest_slot(config, slots, t) == Some(k as usize),
{
    let c = choose|c: int| is_first_nearest(config, slots, t, c);
    if c < k {
        assert(slots[c].is_filled());
    } else if k < c {
        assert(slots[k].is_filled());
    }
}

proof fn lemma_forward_ticks(t: int, s: int, total: int)
    requires
        0 <= t < total,
        0 <= s < total,
    ensures
        (t - s) % total == if s <= t { t - s } else { t - s + total },
{
    if s <= t {
        lemma_small_mod((t - s) as nat, total as nat);
    } else {
        lemma_mod_add_multiples_vanish(t - s, total);
        lemma_small_mod((t - s + total) as nat, total as nat);
    }
}

/// Whether `d2`, scaled by `scale`, exceeds `radius`.
fn beyond_radius(d2: u128, radius: u32, scale: ScaleFactor) -> (r: bool)
    requires
        scale.wf(),
    ensures
        r == !within_radius(d2 as int, radius as int, scale),
{
    assert(scale.den as int * scale.den as int <= u128::MAX) by (nonlinear_arith)
        requires
            scale.den <= u32::MAX,
    ;
    let den_sq = scale.den as u128 * scale.den as u128;
    assert(radius as int * scale.num as int <= u64::MAX) by (nonlinear_arith)
        requires
            radius <= u32::MAX,
            scale.num <= u32::MAX,
    ;
    let reach = radius as u128 * scale.num as u128;
    assert(reach * reach <= u128::MAX) by (nonlinear_arith)
        requires
            reach <= u64::MAX,
    ;
    let reach_sq = reach * reach;
    match d2.checked_mul(den_sq) {
        Some(lhs) => lhs > reach_sq,
        None => true,
    }
}

impl State {
    /// The state is consistent: a usable configuration, one slot per ring
    /// position, a positive scale and a hover on a filled slot if any.
    pub open spec fn wf(self) -> bool {
        &&& self.config.wf()
        &&& self.slots@.len() == self.config.slot_count
        &&& self.scale.wf()
        &&& hover_valid(self.slots@, self.hover_index)
    }

    /// A fresh state with no hover.
    pub fn new(
        config: MenuConfig,
        slots: Vec<Slot>,
        center: Point,
        active_classes: Vec<String>,
        scale: ScaleFactor,
    ) -> (r: State)
        requires
            config.wf(),
            slots@.len() == config.slot_count,
            scale.wf(),
        ensures
            r.wf(),
            r.config == config,
            r.slots == slots,
            r.center == center,
            r.active_classes == active_classes,
            r.scale == scale,
            r.hover_index is None,
    {
        State { config, center, slots, hover_index: None, active_classes, scale }
    }

    /// The filled slot whose fixed position is nearest to cursor tick `t`,
    /// the lowest index among equals; `None` when no slot is filled.
    pub fn nearest_filled(&self, t: u64) -> (r: Option<usize>)
        requires
            self.wf(),
            t < self.config.ring_ticks(),
        ensures
            r == nearest_slot(self.config, self.slots@, t as int),
    {
        let total = self.config.ticks_per_turn();
        let step = self.config.ticks_per_slot;
        let n = self.slots.len();
        let mut best: Option<usize> = None;
        let mut best_dist: u64 = 0;
        let mut tick: u64 = 0;
        let mut i: usize = 0;
        while i < n
            invariant
                self.wf(),
                n == self.slots@.len(),
                total == self.config.ring_ticks(),
                step == self.config.ticks_per_slot,
                t < total,
                i <= n,
                tick == self.config.slot_tick(i as int),
                tick <= total,
                i < n ==> tick < total,
                match best {
                    None => forall|j: int| 0 <= j < i ==> !#[trigger] self.slots@[j].is_filled(),
                    Some(k) => {
                        &&& k < i
                        &&& self.slots@[k as int].is_filled()
                        &&& best_dist == angle_to_slot(self.config, t as int, k as int)
                        &&& forall|j: int|
                            0 <= j < i && #[trigger] self.slots@[j].is_filled() ==> best_dist
                                <= angle_to_slot(self.config, t as int, j)
                        &&& forall|j: int|
                            0 <= j < k && #[trigger] self.slots@[j].is_filled() ==> best_dist
                                < angle_to_slot(self.config, t as int, j)
                    },
                },
            decreases n - i,
        {
            if self.slots[i].app.is_some() {
                let d = if tick <= t {
                    t - tick
                } else {
                    t + (total - tick)
                };
                let dist = if d <= total - d {
                    d
                } else {
                    total - d
                };
                proof {
                    lemma_forward_ticks(t as int, tick as int, total as int);
                }
                assert(dist == angle_to_slot(self.config, t as int, i as int));
                match best {
                    None => {
                        best = Some(i);
                        best_dist = dist;
                    },
                    Some(_) => {
                        if dist < best_dist {
                            best = Some(i);
                            best_dist = dist;
                        }
                    },
                }
            }
            proof {
                let (a, b, c) = (i as int, step as int, n as int);
                assert((a + 1) * b == a * b + b) by (nonlinear_arith);
                assert((a + 1) * b <= c * b) by (nonlinear_arith)
                    requires
                        a + 1 <= c,
                        b >= 1,
                ;
                if a + 1 < c {
                    assert((a + 1) * b < c * b) by (nonlinear_arith)
                        requires
                            a + 1 < c,
                            b >= 1,
                    ;
                }
            }
            i = i + 1;
            tick = tick + step;
        }
        proof {
            match best {
                Some(k) => lemma_first_nearest_unique(self.config, self.slots@, t as int, k as int),
                None => {
                    assert forall|k: int| !is_first_nearest(self.config, self.slots@, t as int, k) by {
                        if 0 <= k < n {
                            assert(!self.slots@[k].is_filled());
                        }
                    }
                },
            }
        }
        best
    }

    /// Moves the cursor to `cursor`, whose direction from the center is
    /// tick `cursor_angle`: inside the neutral zone the hover clears;
    /// elsewhere it moves to the nearest filled slot, and past the commit
    /// distance a hovered slot is activated.
    pub fn update_cursor(&mut self, cursor: Point, cursor_angle: u64) -> (r: CursorAction)
        requires
            old(self).wf(),
            cursor_angle < old(self).config.ring_ticks(),
        ensures
            final(self).wf(),
            final(self).hover_index == hover_after(*old(self), cursor, cursor_angle as int),
            r == action_after(*old(self), cursor, cursor_angle as int),
            final(self).config == old(self).config,
            final(self).center == old(self).center,
            final(self).slots == old(self).slots,
            final(self).active_classes == old(self).active_classes,
            final(self).scale == old(self).scale,
    {
        let dx = cursor.x as i64 - self.center.x as i64;
        let dy = cursor.y as i64 - self.center.y as i64;
        assert(0 <= dx * dx < 0x1_0000_0000_0000_0000) by (nonlinear_arith)
            requires
                -0x1_0000_0000 < dx < 0x1_0000_0000,
        ;
        assert(0 <= dy * dy < 0x1_0000_0000_0000_0000) by (nonlinear_arith)
            requires
                -0x1_0000_0000 < dy < 0x1_0000_0000,
        ;
        let sx = dx as i128 * dx as i128;
        let sy = dy as i128 * dy as i128;
        let d2: u128 = (sx + sy) as u128;
        assert(d2 == dist_sq(self.center, cursor));
        if !beyond_radius(d2, self.config.inner_radius, self.scale) {
            let changed = self.hover_index.is_some();
            self.hover_index = None;
            return CursorAction { should_redraw: changed, should_activate: false };
        }
        let new_idx = self.nearest_filled(cursor_angle);
        proof {
            if let Some(k) = new_idx {
                assert(is_first_nearest(self.config, self.slots@, cursor_angle as int, k as int));
            }
        }
        let changed = self.hover_index != new_idx;
        self.hover_index = new_idx;
        let activate = beyond_radius(d2, self.config.outer_radius, self.scale)
            && new_idx.is_some();
        CursorAction { should_redraw: changed || activate, should_activate: activate }
    }

    /// Repositions the menu: new center, running classes and scale
    /// `monitor_height / reference_height`; the hover always clears.
    pub fn refresh(&mut self, center: Point, active_classes: Vec<String>, monitor_height: u32)
        requires
            old(self).wf(),
            monitor_height >= 1,
        ensures
            final(self).wf(),
            final(self).hover_index is None,
            final(self).center == center,
            final(self).active_classes == active_classes,
            final(self).scale == (ScaleFactor {
                num: monitor_height,
                den: old(self).config.reference_height,
            }),
            final(self).config == old(self).config,
            final(self).slots == old(self).slots,
    {
        self.active_classes = active_classes;
        self.center = center;
        self.hover_index = None;
        self.scale = ScaleFactor { num: monitor_height, den: self.config.reference_height };
    }

    /// The application of the hovered slot, if any.
    pub fn get_hovered_app(&self) -> (r: Option<&AppInfo>)
        requires
            self.wf(),
        ensures
            r is Some <==> self.hover_index is Some,
            r is Some ==> *r->0 == self.slots@[self.hover_index->0 as int].app->0,
    {
        match self.hover_index {
            Some(i) => self.slots[i].app.as_ref(),
            None => None,
        }
    }

    /// The filled ring positions, in ascending order.
    pub fn filled_indices(&self) -> (r: Vec<usize>)
        requires
            self.wf(),
        ensures
            ascending_positions(r@, self.config.slot_count as int),
            forall|k: int| 0 <= k < r@.len() ==> self.slots@[r@[k] as int].is_filled(),
            forall|i: int|
                0 <= i < self.slots@.len() && #[trigger] self.slots@[i].is_filled() ==> r@.contains(
                    i as usize,
                ),
    {
        let mut r: Vec<usize> = Vec::new();
        let mut i: usize = 0;
        while i < self.slots.len()
            invariant
                self.wf(),
                i <= self.slots@.len(),
                forall|k: int| 0 <= k < r@.len() ==> r@[k] < i,
                forall|a: int, b: int| 0 <= a < b < r@.len() ==> r@[a] < r@[b],
                forall|k: int| 0 <= k < r@.len() ==> self.slots@[r@[k] as int].is_filled(),
                forall|j: int|
                    0 <= j < i && #[trigger] self.slots@[j].is_filled() ==> r@.contains(j as usize),
            decreases self.slots@.len() - i,
        {
            let ghost prev = r@;
            if self.slots[i].app.is_some() {
                r.push(i);
                assert(r@[r@.len() - 1] == i);
            }
            proof {
                assert forall|j: int|
                    0 <= j < i + 1 && #[trigger] self.slots@[j].is_filled() implies r@.contains(
                    j as usize,
                ) by {
                    if j < i {
                        assert(prev.contains(j as usize));
                        let k = choose|k: int| 0 <= k < prev.len() && prev[k] == j as usize;
                        assert(r@[k] == j as usize);
                    } else {
                        assert(r@[r@.len() - 1] == j as usize);
                    }
                }
            }
            i = i + 1;
        }
        r
    }

    /// How slot `i` is painted: broken first, then hovered, then running.
    pub fn slot_style(&self, i: usize) -> (r: SlotStyle)
        requires
            self.wf(),
            i < self.slots@.len(),
        ensures
            r == style_of(*self, i as int),
    {
        if self.slots[i].is_broken() {
            SlotStyle::Broken
        } else if self.hover_index == Some(i) {
            SlotStyle::Hovered
        } else if self.slots[i].is_running(self.active_classes.as_slice()) {
            SlotStyle::Running
        } else {
            SlotStyle::Idle
        }
    }

    /// Whether the icon of slot `i` is drawn faded: it is neither hovered
    /// nor running.
    pub fn icon_dimmed(&self, i: usize) -> (r: bool)
        requires
            self.wf(),
            i < self.slots@.len(),
        ensures
            r == (self.hover_index != Some(i) && !self.slots@[i as int].runs_in(
                self.active_classes@,
            )),
    {
        self.hover_index != Some(i) && !self.slots[i].is_running(self.active_classes.as_slice())
    }

    /// One slot per ring position, each holding the application that the
    /// last usable binding for its position names.
    pub fn init_slots(config: &MenuConfig, bindings: Vec<SlotBinding>) -> (r: Vec<Slot>)
        requires
            config.wf(),
            forall|k: int|
                0 <= k < bindings@.len() && (#[trigger] bindings@[k]).position is Some
                    ==> bindings@[k].position->0 < config.slot_count,
        ensures
            r@.len() == config.slot_count,
            forall|i: int| 0 <= i < r@.len() ==> (#[trigger] r@[i]).app == bound_app(bindings@, i),
    {
        let n = config.slot_count;
        let ghost all = bindings@;
        let mut slots: Vec<Slot> = Vec::new();
        let mut i: usize = 0;
        while i < n
            invariant
                i <= n,
                slots@.len() == i,
                forall|j: int| 0 <= j < i ==> (#[trigger] slots@[j]).app is None,
            decreases n - i,
        {
            slots.push(Slot::new(None));
            i = i + 1;
        }
        let mut rest = bindings;
        while rest.len() > 0
            invariant
                slots@.len() == n,
                n == config.slot_count,
                rest@.len() <= all.len(),
                rest@ == all.subrange(0, rest@.len() as int),
                forall|k: int|
                    0 <= k < all.len() && (#[trigger] all[k]).position is Some ==> all[k].position->0
                        < n,
                forall|j: int|
                    0 <= j < n ==> bound_app(all, j) == if (#[trigger] slots@[j]).app is Some {
                        slots@[j].app
                    } else {
                        bound_app(rest@, j)
                    },
            decreases rest@.len(),
        {
            let ghost before = rest@;
            let b = rest.pop().unwrap();
            proof {
                assert(before.drop_last() == rest@);
                assert(before.last() == b);
                assert(all[before.len() - 1] == b);
            }
            match b.position {
                Some(p) => {
                    if b.app.is_some() && slots[p].app.is_none() {
                        slots.set(p, Slot::new(b.app));
                    }
                },
                None => {},
            }
            proof {
                assert(rest@ == all.subrange(0, rest@.len() as int));
            }
        }
        slots
    }
}

proof fn lemma_slot_ticks(config: MenuConfig, j: int, k: int)
    requires
        config.wf(),
        0 <= j < config.slot_count,
        0 <= k < config.slot_count,
    ensures
        0 <= config.slot_tick(j) < config.ring_ticks(),
        j < k ==> config.slot_tick(j) < config.slot_tick(k),
        config.slot_tick(j) == config.slot_tick(k) <==> j == k,
{
    let r = config.ticks_per_slot as int;
    let n = config.slot_count as int;
    assert(0 <= j * r < n * r) by (nonlinear_arith)
        requires
            0 <= j < n,
            r >= 1,
    ;
    assert(j < k ==> j * r < k * r) by (nonlinear_arith)
        requires
            r >= 1,
    ;
    assert(k < j ==> k * r < j * r) by (nonlinear_arith)
        requires
            r >= 1,
    ;
}

/// A cursor exactly at the center clears the hover and never activates,
/// whatever the state and the direction reported.
pub proof fn lemma_center_clears_hover(s: State, t: int)
    requires
        s.wf(),
    ensures
        hover_after(s, s.center, t) is None,
        !action_after(s, s.center, t).should_activate,
{
    assert(dist_sq(s.center, s.center) == 0);
    let reach = s.config.inner_radius as int * s.scale.num as int;
    assert(reach * reach >= 0) by (nonlinear_arith);
}

/// A cursor aimed exactly at filled slot `k`, beyond the commit distance,
/// hovers `k` and activates it.
pub proof fn lemma_aimed_past_ring_activates(s: State, cursor: Point, k: int)
    requires
        s.wf(),
        0 <= k < s.slots@.len(),
        s.slots@[k].is_filled(),
        !within_radius(dist_sq(s.center, cursor), s.config.outer_radius as int, s.scale),
    ensures
        hover_after(s, cursor, s.config.slot_tick(k)) == Some(k as usize),
        action_after(s, cursor, s.config.slot_tick(k)).should_activate,
{
    let c = s.config;
    let num = s.scale.num as int;
    let inner = c.inner_radius as int;
    let outer = c.outer_radius as int;
    assert((inner * num) * (inner * num) <= (outer * num) * (outer * num)) by (nonlinear_arith)
        requires
            0 <= inner <= outer,
            num >= 0,
    ;
    let t = c.slot_tick(k);
    let total = c.ring_ticks();
    lemma_slot_ticks(c, k, k);
    lemma_small_mod(0, total as nat);
    assert(angle_to_slot(c, t, k) == 0);
    assert forall|j: int|
        0 <= j < s.slots@.len() && #[trigger] s.slots@[j].is_filled() implies angle_to_slot(
        c,
        t,
        k,
    ) <= angle_to_slot(c, t, j) && (j < k ==> angle_to_slot(c, t, k) < angle_to_slot(
        c,
        t,
        j,
    )) by {
        lemma_slot_ticks(c, j, k);
        lemma_forward_ticks(t, c.slot_tick(j), total);
    }
    lemma_first_nearest_unique(c, s.slots@, t, k);
}

/// With no filled slot, a cursor step never hovers nor activates anything.
pub proof fn lemma_empty_ring_no_hover(s: State, cursor: Point, t: int)
    requires
        s.wf(),
        forall|i: int| 0 <= i < s.slots@.len() ==> !#[trigger] s.slots@[i].is_filled(),
    ensures
        hover_after(s, cursor, t) is None,
        !action_after(s, cursor, t).should_activate,
{
    assert forall|k: int| !is_first_nearest(s.config, s.slots@, t, k) by {
        if 0 <= k < s.slots@.len() {
            assert(!s.slots@[k].is_filled());
        }
    }
}

proof fn lemma_scaled_sum_le(a: int, c: int, b: int, r: int)
    requires
        a + c <= b,
        r >= 0,
    ensures
        a * r + c * r <= b * r,
{
    assert(a * r + c * r <= b * r) by (nonlinear_arith)
        requires
            a + c <= b,
            r >= 0,
    ;
}

/// Tick reached by turning `u` ticks from slot `k` towards the next slot.
pub open spec fn sweep_tick(config: MenuConfig, k: int, u: int) -> int {
    (config.slot_tick(k) + u) % config.ring_ticks()
}

/// Ring position after `k`, circularly.
pub open spec fn next_position(config: MenuConfig, k: int) -> int {
    if k + 1 == config.slot_count {
        0
    } else {
        k + 1
    }
}

/// The slot that a sweep from filled slot `k` towards filled slot `next`
/// selects after `u` ticks: `next` once it is strictly nearer, or equally
/// near with a lower index.
pub open spec fn sweep_choice(r: int, k: int, next: int, u: int) -> int {
    if r - u < u || (r - u == u && next < k) {
        next
    } else {
        k
    }
}

proof fn lemma_sweep_nearest(config: MenuConfig, slots: Seq<Slot>, k: int, u: int)
    requires
        config.wf(),
        config.slot_count >= 2,
        slots.len() == config.slot_count,
        0 <= k < config.slot_count,
        slots[k].is_filled(),
        slots[next_position(config, k)].is_filled(),
        0 <= u <= config.ticks_per_slot,
    ensures
        nearest_slot(config, slots, sweep_tick(config, k, u)) == Some(
            sweep_choice(config.ticks_per_slot as int, k, next_position(config, k), u) as usize,
        ),
{
    let n = config.slot_count as int;
    let r = config.ticks_per_slot as int;
    let total = config.ring_ticks();
    let k1 = next_position(config, k);
    let kt = config.slot_tick(k);
    lemma_scaled_sum_le(k, 1, n, r);
    lemma_scaled_sum_le(1, 1, n, r);
    assert(1 * r == r);
    assert(kt + r == (k + 1) * r && total == n * r) by (nonlinear_arith)
        requires
            kt == k * r,
            total == n * r,
    ;
    if k + 2 <= n {
        lemma_scaled_sum_le(k, 2, n, r);
    }
    let seam = k + 1 == n && u == r;
    let t = sweep_tick(config, k, u);
    if seam {
        assert(kt + u == total);
        lemma_mod_add_multiples_vanish(0, total);
        lemma_small_mod(0, total as nat);
        assert(t == 0);
    } else {
        lemma_small_mod((kt + u) as nat, total as nat);
        assert(t == kt + u);
    }
    // the two neighbours
    lemma_slot_ticks(config, k, k1);
    lemma_slot_ticks(config, k1, k);
    lemma_forward_ticks(t, kt, total);
    lemma_small_mod(u as nat, total as nat);
    assert(angle_to_slot(config, t, k) == u);
    let k1t = config.slot_tick(k1);
    if k1 == k + 1 {
        assert(k1t == kt + r) by (nonlinear_arith)
            requires
                k1t == k1 * r,
                kt == k * r,
                k1 == k + 1,
        ;
    } else {
        assert(k1t == 0);
    }
    lemma_forward_ticks(t, k1t, total);
    assert(angle_to_slot(config, t, k1) == r - u);
    // every other slot is at least a full step away
    assert forall|j: int|
        0 <= j < n && j != k && j != k1 implies #[trigger] angle_to_slot(config, t, j) >= r by {
        let jt = config.slot_tick(j);
        lemma_slot_ticks(config, j, k);
        lemma_forward_ticks(t, jt, total);
        if seam {
            lemma_scaled_sum_le(1, 0, j, r);
            lemma_scaled_sum_le(j, 2, n, r);
        } else if j < k {
            lemma_scaled_sum_le(j, 1, k, r);
            lemma_scaled_sum_le(k, 2, n + j, r);
            assert((n + j) * r == total + jt) by (nonlinear_arith)
                requires
                    total == n * r,
                    jt == j * r,
            ;
        } else {
            lemma_scaled_sum_le(k, 2, j, r);
            lemma_scaled_sum_le(j, 1, n, r);
        }
    }
    let w = sweep_choice(r, k, k1, u);
    assert forall|j: int|
        0 <= j < slots.len() && #[trigger] slots[j].is_filled() implies angle_to_slot(config, t, w)
        <= angle_to_slot(config, t, j) && (j < w ==> angle_to_slot(config, t, w) < angle_to_slot(
        config,
        t,
        j,
    )) by {
        if j != k && j != k1 {
            assert(angle_to_slot(config, t, j) >= r);
        }
    }
    lemma_first_nearest_unique(config, slots, t, w);
}

/// Turning the cursor from filled slot `k` to the filled slot after it
/// selects one of the two throughout, and the selection moves to the second
/// exactly once: it starts on `k`, ends on the next slot, and never comes
/// back once it has moved.
pub proof fn lemma_sweep_flips_once(config: MenuConfig, slots: Seq<Slot>, k: int, u1: int, u2: int)
    requires
        config.wf(),
        config.slot_count >= 2,
        slots.len() == config.slot_count,
        0 <= k < config.slot_count,
        slots[k].is_filled(),
        slots[next_position(config, k)].is_filled(),
        0 <= u1 <= u2 <= config.ticks_per_slot,
    ensures
        nearest_slot(config, slots, sweep_tick(config, k, 0)) == Some(k as usize),
        nearest_slot(config, slots, sweep_tick(config, k, config.ticks_per_slot as int)) == Some(
            next_position(config, k) as usize,
        ),
        nearest_slot(config, slots, sweep_tick(config, k, u1)) == Some(k as usize)
            || nearest_slot(config, slots, sweep_tick(config, k, u1)) == Some(
            next_position(config, k) as usize,
        ),
        nearest_slot(config, slots, sweep_tick(config, k, u1)) == Some(
            next_position(config, k) as usize,
        ) ==> nearest_slot(config, slots, sweep_tick(config, k, u2)) == Some(
            next_position(config, k) as usize,
        ),
{
    let r = config.ticks_per_slot as int;
    lemma_sweep_nearest(config, slots, k, 0);
    lemma_sweep_nearest(config, slots, k, r);
    lemma_sweep_nearest(config, slots, k, u1);
    lemma_sweep_nearest(config, slots, k, u2);
}

} // verus!
