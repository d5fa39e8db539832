use halo::layout::MenuConfig;
use halo::menu::{
    contains_class, AppInfo, CursorAction, Point, ScaleFactor, Slot, SlotBinding, SlotStyle, State,
};

const STEP: u64 = 3600;

fn app(name: &str, class: &str, command: &str, icon: &str) -> AppInfo {
    AppInfo {
        name: name.to_string(),
        class: class.to_string(),
        command: command.to_string(),
        icon: icon.to_string(),
    }
}

fn state_with(filled: &[usize]) -> State {
    let config = MenuConfig::standard();
    let slots: Vec<Slot> = (0..8)
        .map(|i| {
            if filled.contains(&i) {
                Slot::new(Some(app(&format!("app{i}"), &format!("Class{i}"), "run", "")))
            } else {
                Slot::new(None)
            }
        })
        .collect();
    State::new(
        config,
        slots,
        Point::new(1000, 500),
        vec![],
        ScaleFactor { num: 1440, den: 1440 },
    )
}

fn at(dist: i32) -> Point {
    Point::new(1000 + dist, 500)
}

#[test]
fn cursor_at_center_clears_hover() {
    let mut s = state_with(&[0, 2]);
    s.update_cursor(at(200), 2 * STEP);
    assert_eq!(s.hover_index, Some(2));
    let a = s.update_cursor(Point::new(1000, 500), 0);
    assert_eq!(s.hover_index, None);
    assert_eq!(a, CursorAction { should_redraw: true, should_activate: false });
    let a = s.update_cursor(Point::new(1000, 500), 0);
    assert_eq!(a, CursorAction { should_redraw: false, should_activate: false });
}

#[test]
fn dead_zone_boundary_is_inclusive() {
    let mut s = state_with(&[0]);
    s.update_cursor(at(50), 0);
    assert_eq!(s.hover_index, None);
    s.update_cursor(at(51), 0);
    assert_eq!(s.hover_index, Some(0));
}

#[test]
fn aimed_past_ring_activates() {
    for k in 0..8usize {
        let mut s = state_with(&[0, 1, 2, 3, 4, 5, 6, 7]);
        let a = s.update_cursor(at(161), k as u64 * STEP);
        assert_eq!(s.hover_index, Some(k));
        assert_eq!(a, CursorAction { should_redraw: true, should_activate: true });
        let a = s.update_cursor(at(300), k as u64 * STEP);
        assert_eq!(a, CursorAction { should_redraw: true, should_activate: true });
    }
}

#[test]
fn inside_ring_hovers_without_activating() {
    let mut s = state_with(&[3]);
    let a = s.update_cursor(at(160), 0);
    assert_eq!(s.hover_index, Some(3));
    assert_eq!(a, CursorAction { should_redraw: true, should_activate: false });
    let a = s.update_cursor(at(120), 5);
    assert_eq!(a, CursorAction { should_redraw: false, should_activate: false });
}

#[test]
fn nearest_slot_wraps_around() {
    let s = state_with(&[0, 4]);
    assert_eq!(s.nearest_filled(7 * STEP), Some(0));
    assert_eq!(s.nearest_filled(3 * STEP), Some(4));
    assert_eq!(s.nearest_filled(2 * STEP), Some(0));
    assert_eq!(s.nearest_filled(2 * STEP + 1), Some(4));
    assert_eq!(s.nearest_filled(6 * STEP), Some(0));
    assert_eq!(s.nearest_filled(6 * STEP - 1), Some(4));
}

#[test]
fn sweep_between_neighbours_flips_once() {
    let s = state_with(&[2, 3]);
    let mut flips = 0;
    let mut last = s.nearest_filled(2 * STEP);
    assert_eq!(last, Some(2));
    for u in 1..=STEP {
        let h = s.nearest_filled(2 * STEP + u);
        assert!(h == Some(2) || h == Some(3));
        if h != last {
            flips += 1;
        }
        last = h;
    }
    assert_eq!(flips, 1);
    assert_eq!(s.nearest_filled(2 * STEP + STEP / 2), Some(2));
    assert_eq!(s.nearest_filled(2 * STEP + STEP / 2 + 1), Some(3));
}

#[test]
fn sweep_across_the_seam_prefers_lowest_index_on_tie() {
    let s = state_with(&[0, 7]);
    assert_eq!(s.nearest_filled(7 * STEP + STEP / 2), Some(0));
    assert_eq!(s.nearest_filled(7 * STEP + STEP / 2 - 1), Some(7));
}

#[test]
fn empty_ring_never_hovers() {
    let mut s = state_with(&[]);
    for t in [0, 1, STEP, 5 * STEP + 7] {
        let a = s.update_cursor(at(500), t);
        assert_eq!(s.hover_index, None);
        assert_eq!(a, CursorAction { should_redraw: false, should_activate: false });
    }
}

#[test]
fn refresh_clears_hover_and_rescales() {
    let mut s = state_with(&[1]);
    s.update_cursor(at(100), STEP);
    assert_eq!(s.hover_index, Some(1));
    s.refresh(Point::new(10, 20), vec!["x".to_string()], 2880);
    assert_eq!(s.hover_index, None);
    assert_eq!(s.center, Point::new(10, 20));
    assert_eq!(s.scale, ScaleFactor { num: 2880, den: 1440 });
    assert_eq!(s.active_classes, vec!["x".to_string()]);
    // the neutral zone is now 100 pixels wide
    s.update_cursor(Point::new(10 + 99, 20), STEP);
    assert_eq!(s.hover_index, None);
    s.update_cursor(Point::new(10 + 101, 20), STEP);
    assert_eq!(s.hover_index, Some(1));
}

#[test]
fn hovered_app_follows_hover() {
    let mut s = state_with(&[5]);
    assert!(s.get_hovered_app().is_none());
    s.update_cursor(at(100), 5 * STEP);
    assert_eq!(s.get_hovered_app().unwrap().name, "app5");
}

#[test]
fn filled_indices_are_ascending() {
    let s = state_with(&[6, 1, 3]);
    assert_eq!(s.filled_indices(), vec![1, 3, 6]);
    assert_eq!(state_with(&[]).filled_indices(), Vec::<usize>::new());
}

#[test]
fn running_ignores_case() {
    let slot = Slot::new(Some(app("Firefox", "Firefox", "firefox", "")));
    assert!(slot.is_running(&["kitty".to_string(), "FIREFOX".to_string()]));
    assert!(slot.is_running(&["firefox".to_string()]));
    assert!(!slot.is_running(&["kitty".to_string()]));
    assert!(!slot.is_running(&[]));
    assert!(!Slot::new(None).is_running(&["firefox".to_string()]));
}

#[test]
fn folded_class_lookup() {
    let folded = vec!["kitty".to_string(), "firefox".to_string()];
    assert!(contains_class(&"firefox".to_string(), &folded));
    assert!(!contains_class(&"Firefox".to_string(), &folded));
}

#[test]
fn broken_means_bound_without_command() {
    assert!(Slot::new(Some(app("a", "a", "", ""))).is_broken());
    assert!(!Slot::new(Some(app("a", "a", "run", ""))).is_broken());
    assert!(!Slot::new(None).is_broken());
}

#[test]
fn icon_path_only_when_set() {
    let with = Slot::new(Some(app("a", "a", "run", "/icons/a.png")));
    assert_eq!(with.icon_path(), Some(&"/icons/a.png".to_string()));
    assert_eq!(Slot::new(Some(app("a", "a", "run", ""))).icon_path(), None);
    assert_eq!(Slot::new(None).icon_path(), None);
}

#[test]
fn slot_styles_by_priority() {
    let config = MenuConfig::standard();
    let mut slots: Vec<Slot> = (0..8).map(|_| Slot::new(None)).collect();
    slots[0] = Slot::new(Some(app("a", "Term", "", "")));
    slots[1] = Slot::new(Some(app("b", "term", "run", "")));
    slots[2] = Slot::new(Some(app("c", "Other", "run", "")));
    let mut s = State::new(
        config,
        slots,
        Point::new(0, 0),
        vec!["TERM".to_string()],
        ScaleFactor { num: 1, den: 1 },
    );
    assert_eq!(s.slot_style(0), SlotStyle::Broken);
    assert_eq!(s.slot_style(1), SlotStyle::Running);
    assert_eq!(s.slot_style(2), SlotStyle::Idle);
    assert!(s.icon_dimmed(2));
    assert!(!s.icon_dimmed(1));
    s.update_cursor(Point::new(0, -100), 2 * STEP);
    assert_eq!(s.hover_index, Some(2));
    assert_eq!(s.slot_style(2), SlotStyle::Hovered);
    assert!(!s.icon_dimmed(2));
    s.update_cursor(Point::new(0, -100), 0);
    assert_eq!(s.slot_style(0), SlotStyle::Broken);
}

#[test]
fn init_slots_last_binding_wins() {
    let config = MenuConfig::standard();
    let bindings = vec![
        SlotBinding { position: Some(2), app: Some(app("first", "a", "a", "")) },
        SlotBinding { position: Some(2), app: Some(app("second", "b", "b", "")) },
        SlotBinding { position: Some(2), app: None },
        SlotBinding { position: None, app: Some(app("lost", "c", "c", "")) },
        SlotBinding { position: Some(7), app: Some(app("seven", "d", "d", "")) },
    ];
    let slots = State::init_slots(&config, bindings);
    assert_eq!(slots.len(), 8);
    assert_eq!(slots[2].app.as_ref().unwrap().name, "second");
    assert_eq!(slots[7].app.as_ref().unwrap().name, "seven");
    for i in [0, 1, 3, 4, 5, 6] {
        assert!(slots[i].app.is_none());
    }
}
