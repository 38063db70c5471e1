use demosim::heat::{heat_color, target_index, HeatError, HeatField, HEAT_ONE};

/// After construction, every cell of the bottom row is at full heat and
/// every other cell is cold.
#[test]
fn seeding_bottom_row_hot_rest_cold() {
    let f = HeatField::new(5, 4, 546).unwrap();
    assert_eq!(f.width, 5);
    assert_eq!(f.height, 4);
    assert_eq!(f.cooling_rate, 546);
    for x in 0..5 {
        for y in 0..3 {
            assert_eq!(f.heat_at(x, y), 0);
        }
        assert_eq!(f.heat_at(x, 3), HEAT_ONE);
    }
}

/// A zero width or height is rejected eagerly.
#[test]
fn zero_dimension_rejected() {
    assert!(matches!(HeatField::new(0, 5, 546), Err(HeatError::InvalidDimension)));
    assert!(matches!(HeatField::new(5, 0, 546), Err(HeatError::InvalidDimension)));
    assert!(matches!(HeatField::new(0, 0, 546), Err(HeatError::InvalidDimension)));
}

/// Propagation never creates energy: every cell stays at or below the
/// largest heat present before the call, never negative, and the seeded
/// bottom row is untouched.
#[test]
fn propagate_conserves_bounds() {
    let mut f = HeatField::new(40, 30, 546).unwrap();
    for _ in 0..10 {
        let max_before = f.cells.iter().copied().max().unwrap();
        f.propagate();
        for &c in f.cells.iter() {
            assert!(c <= max_before);
        }
        for x in 0..40 {
            assert_eq!(f.heat_at(x, 29), HEAT_ONE);
        }
    }
}

/// One propagation moves heat off the seed row: some cell above the
/// bottom row becomes hot, whatever the random draws were.
#[test]
fn propagate_spreads_heat_upward() {
    let mut f = HeatField::new(40, 30, 546).unwrap();
    f.propagate();
    let above_bottom = &f.cells[..40 * 29];
    assert!(above_bottom.iter().any(|&c| c > 0));
}

/// The wind offset is clamped so the target index never leaves the grid
/// and never reaches the seed row.
#[test]
fn wind_clamp_keeps_index_in_grid() {
    // cap is the first index of the bottom row
    assert_eq!(target_index(0, -2, 10), 0);
    assert_eq!(target_index(0, -1, 10), 0);
    assert_eq!(target_index(5, 1, 10), 6);
    assert_eq!(target_index(9, 2, 10), 9);
    assert_eq!(target_index(8, 2, 10), 9);
    assert_eq!(target_index(3, 0, 10), 3);
}

/// The color ramp hits the exact knot colors.
#[test]
fn palette_knot_colors() {
    let c0 = heat_color(0);
    assert_eq!((c0.r, c0.g, c0.b, c0.a), (0, 0, 0, 0));
    let c1 = heat_color(19661);
    assert_eq!((c1.r, c1.g, c1.b, c1.a), (64, 4, 0, 204));
    let c2 = heat_color(32768);
    assert_eq!((c2.r, c2.g, c2.b, c2.a), (115, 43, 18, 255));
    let c3 = heat_color(52429);
    assert_eq!((c3.r, c3.g, c3.b, c3.a), (217, 129, 41, 255));
    let c4 = heat_color(62259);
    assert_eq!((c4.r, c4.g, c4.b, c4.a), (245, 207, 39, 255));
    let c5 = heat_color(HEAT_ONE);
    assert_eq!((c5.r, c5.g, c5.b, c5.a), (255, 255, 255, 255));
}

/// Between knots the ramp interpolates linearly with truncation:
/// halfway into the first segment, each channel is `a + (b-a)*num/den`.
#[test]
fn palette_midpoint_formula() {
    let c = heat_color(9830);
    // r: 0 + 64 * 9830 / 19661 = 31;  g: 4 * 9830 / 19661 = 1
    // b: 0;                           a: 204 * 9830 / 19661 = 101
    assert_eq!((c.r, c.g, c.b, c.a), (31, 1, 0, 101));
}

/// The pixel buffer is row-major RGBA, four bytes per cell: cold rows are
/// transparent black, the seeded bottom row is white.
#[test]
fn to_pixels_layout() {
    let f = HeatField::new(3, 2, 546).unwrap();
    let px = f.to_pixels();
    assert_eq!(px.len(), 3 * 2 * 4);
    for i in 0..3 {
        assert_eq!(&px[4 * i..4 * i + 4], &[0, 0, 0, 0]);
    }
    for i in 3..6 {
        assert_eq!(&px[4 * i..4 * i + 4], &[255, 255, 255, 255]);
    }
}
