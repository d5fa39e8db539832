use halo::geometry::SlotGeometry;
use halo::layout::MenuConfig;

fn widths(filled: &[usize], config: &MenuConfig) -> Vec<(usize, usize)> {
    filled
        .iter()
        .map(|&i| {
            let g = SlotGeometry::calculate(i, filled, config);
            (g.width_half_steps, g.scale_sq_quarters)
        })
        .collect()
}

#[test]
fn single_slot_is_capped_at_two_and_a_half() {
    let config = MenuConfig::standard();
    let g = SlotGeometry::calculate(3, &[3], &config);
    assert_eq!(g.index, 3);
    assert_eq!(g.width_half_steps, 16);
    assert_eq!(g.scale_sq_quarters, 25);
    let scale = (g.scale_sq_quarters as f64).sqrt() / 2.0;
    assert_eq!(scale, 2.5);
}

#[test]
fn single_slot_on_small_ring_is_not_capped() {
    let mut config = MenuConfig::standard();
    config.slot_count = 4;
    let g = SlotGeometry::calculate(2, &[2], &config);
    assert_eq!(g.width_half_steps, 8);
    assert_eq!(g.scale_sq_quarters, 16);
}

#[test]
fn full_ring_has_unit_scale() {
    let config = MenuConfig::standard();
    let filled: Vec<usize> = (0..8).collect();
    for (w, s) in widths(&filled, &config) {
        assert_eq!(w, 2);
        assert_eq!(s, 4);
    }
}

#[test]
fn sparse_ring_widths_follow_gaps() {
    let config = MenuConfig::standard();
    assert_eq!(widths(&[0, 2, 5], &config), vec![(5, 10), (5, 10), (6, 12)]);
}

#[test]
fn adjacent_pair_splits_the_rest_of_the_ring() {
    let config = MenuConfig::standard();
    assert_eq!(widths(&[0, 1], &config), vec![(8, 16), (8, 16)]);
}

#[test]
fn widths_add_up_to_a_full_turn() {
    let config = MenuConfig::standard();
    for filled in [vec![0usize], vec![0, 3, 5], vec![1, 2, 6, 7], vec![4, 7], (0..8).collect()] {
        let total: usize = widths(&filled, &config).iter().map(|p| p.0).sum();
        assert_eq!(total, 16);
    }
}

#[test]
fn unsorted_listing_uses_list_neighbours() {
    let config = MenuConfig::standard();
    let g = SlotGeometry::calculate(5, &[5, 0, 2], &config);
    assert_eq!(g.width_half_steps, 3 + 3);
}

#[test]
fn standard_config_values() {
    let c = MenuConfig::standard();
    assert_eq!(c.slot_count, 8);
    assert_eq!(c.reference_height, 1440);
    assert_eq!(c.inner_radius, 50);
    assert_eq!(c.outer_radius, 160);
    assert_eq!(c.ticks_per_turn(), 8 * 3600);
}
