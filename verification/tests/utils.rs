use leptos_charts::utils::{
    get_extent, get_min_max, get_ticks, get_ticks_with_decimals, nice_num, nice_ticks, NiceNum,
    TickSpacing,
    POSITION_FULL,
};
use leptos_charts::ChartError;

fn spacing_value(spacing: NiceNum) -> f64 {
    spacing.mantissa as f64 * 10f64.powi(spacing.exponent as i32)
}

fn percent(position: u32) -> f64 {
    position as f64 / 10_000.0
}

fn min_max_of_tenths(values: &[f64]) -> (f64, f64) {
    let tenths: Vec<i64> = values.iter().map(|v| (v * 10.0).round() as i64).collect();
    let (low, high) = get_min_max(&tenths).unwrap();
    (low as f64 / 10.0, high as f64 / 10.0)
}

fn nice(mantissa: u8, exponent: i8) -> NiceNum {
    NiceNum { mantissa, exponent }
}

#[test]
fn min_max() {
    let values = vec![-4, 10, 0, 50, 2, -6, 7];
    assert_eq!(get_min_max(&values), Ok((-6, 50)));
    let values = vec![-4.9, 10.0, 0.8, 50.2, 2.7, -6.3, 7.5];
    assert_eq!(min_max_of_tenths(&values), (-6.3, 50.2));
    let values = vec![-4, -10, -3, -50, -2, -6, -7];
    assert_eq!(get_min_max(&values), Ok((-50, 0)));
    let values = vec![4, 10, 2, 50, 2, 6, 7];
    assert_eq!(get_min_max(&values), Ok((0, 50)));
}

#[test]
fn ticks() {
    let ticks = nice_ticks(-10, 10, 10).unwrap();
    assert_eq!(ticks.min_point as f64, -10.0);
    assert_eq!(ticks.max_point as f64, 10.0);
    assert_eq!(spacing_value(ticks.spacing), 2.0);
    assert_eq!(ticks.num_ticks, 11);

    let ticks = get_ticks(&ticks);
    assert_eq!(percent(ticks[0].0), 100.0);
    assert_eq!(ticks[0].1, "-10");
    assert_eq!(percent(ticks[4].0), 60.0);
    assert_eq!(ticks[4].1, "-2");
    assert_eq!(percent(ticks[10].0), 0.0);
    assert_eq!(ticks[10].1, "10");
}

#[test]
fn min_max_always_includes_zero() {
    assert_eq!(get_min_max(&vec![5]), Ok((0, 5)));
    assert_eq!(get_min_max(&vec![-5]), Ok((-5, 0)));
    assert_eq!(get_min_max(&vec![0]), Ok((0, 0)));
    assert_eq!(get_min_max(&vec![0, 0, 0]), Ok((0, 0)));
    assert_eq!(get_min_max(&vec![i64::MIN, i64::MAX]), Ok((i64::MIN, i64::MAX)));
    for values in [vec![3, 1, 2], vec![-3, -1, -2], vec![-3, 1, 2, 0], vec![7, -7]] {
        let (low, high) = get_min_max(&values).unwrap();
        assert!(low <= 0 && 0 <= high);
        assert_eq!(low, (*values.iter().min().unwrap()).min(0));
        assert_eq!(high, (*values.iter().max().unwrap()).max(0));
    }
}

#[test]
fn min_max_of_nothing_is_rejected() {
    assert_eq!(get_min_max(&Vec::new()), Err(ChartError::InvalidConfiguration));
}

#[test]
fn nice_numbers_round_to_the_nearest() {
    assert_eq!(nice_num(1, 1, true), Some(nice(1, 0)));
    assert_eq!(nice_num(149, 100, true), Some(nice(1, 0)));
    assert_eq!(nice_num(3, 2, true), Some(nice(2, 0)));
    assert_eq!(nice_num(299, 100, true), Some(nice(2, 0)));
    assert_eq!(nice_num(3, 1, true), Some(nice(5, 0)));
    assert_eq!(nice_num(699, 100, true), Some(nice(5, 0)));
    assert_eq!(nice_num(7, 1, true), Some(nice(1, 1)));
    assert_eq!(nice_num(999, 100, true), Some(nice(1, 1)));
    assert_eq!(nice_num(20, 9, true), Some(nice(2, 0)));
    assert_eq!(nice_num(1, 254, true), Some(nice(5, -3)));
    assert_eq!(nice_num(12345, 1, true), Some(nice(1, 4)));
    assert_eq!(nice_num(1, 8, true), Some(nice(1, -1)));
}

#[test]
fn nice_numbers_round_upwards() {
    assert_eq!(nice_num(1, 1, false), Some(nice(1, 0)));
    assert_eq!(nice_num(101, 100, false), Some(nice(2, 0)));
    assert_eq!(nice_num(2, 1, false), Some(nice(2, 0)));
    assert_eq!(nice_num(201, 100, false), Some(nice(5, 0)));
    assert_eq!(nice_num(5, 1, false), Some(nice(5, 0)));
    assert_eq!(nice_num(501, 100, false), Some(nice(1, 1)));
    assert_eq!(nice_num(20, 1, false), Some(nice(2, 1)));
    assert_eq!(nice_num(11, 1, false), Some(nice(2, 1)));
    assert_eq!(nice_num(100, 1, false), Some(nice(1, 2)));
    assert_eq!(nice_num(3, 1000, false), Some(nice(5, -3)));
    assert_eq!(nice_num(u64::MAX, 1, false), Some(nice(2, 19)));
    assert_eq!(nice_num(1, u64::MAX, false), Some(nice(1, -19)));
    assert_eq!(nice_num(1, u64::MAX, true), Some(nice(5, -20)));
}

#[test]
fn nice_number_of_nothing_is_none() {
    assert_eq!(nice_num(0, 1, true), None);
    assert_eq!(nice_num(0, 1, false), None);
    assert_eq!(nice_num(1, 0, true), None);
    assert_eq!(nice_num(0, 0, false), None);
}

#[test]
fn planned_axis_covers_the_range() {
    for (min, max, max_ticks) in [
        (0i64, 11i64, 5u8),
        (9, 19, 3),
        (-7, 3, 4),
        (0, 99, 10),
        (-1234, 5678, 7),
        (1, 2, 2),
        (0, 3, 10),
        (-1, 0, 255),
    ] {
        let axis = nice_ticks(min, max, max_ticks).unwrap();
        assert!(axis.is_well_formed());
        assert!(axis.min_point <= min && max <= axis.max_point);
        assert!(axis.num_ticks >= 2);
        let step = spacing_value(axis.spacing);
        let gaps = (axis.max_point - axis.min_point) as f64 / step;
        assert_eq!(gaps, (axis.num_ticks - 1) as f64);
        assert!((min - axis.min_point) as f64 + 1e-9 < step);
        assert!((axis.max_point - max) as f64 + 1e-9 < step);
    }
    let axis = nice_ticks(0, 11, 5).unwrap();
    assert_eq!(
        axis,
        TickSpacing { min_point: 0, max_point: 15, spacing: nice(5, 0), num_ticks: 4 }
    );
    let axis = nice_ticks(-1234, 5678, 7).unwrap();
    assert_eq!(
        axis,
        TickSpacing { min_point: -2000, max_point: 6000, spacing: nice(2, 3), num_ticks: 5 }
    );
}

#[test]
fn small_ranges_get_fractional_ticks() {
    let axis = nice_ticks(0, 2, 5).unwrap();
    assert_eq!(
        axis,
        TickSpacing { min_point: 0, max_point: 2, spacing: nice(5, -1), num_ticks: 5 }
    );
    let labels: Vec<String> = get_ticks(&axis).into_iter().map(|t| t.1).collect();
    assert_eq!(labels, ["0", "0.5", "1", "1.5", "2"]);
    let axis = nice_ticks(7, 8, 3).unwrap();
    assert_eq!(axis.spacing, nice(5, -1));
    let ticks = get_ticks(&axis);
    assert_eq!(ticks[1], (500_000, "7.5".to_string()));
    let axis = nice_ticks(-1, 0, 6).unwrap();
    let labels: Vec<String> = get_ticks(&axis).into_iter().map(|t| t.1).collect();
    assert_eq!(labels, ["-1", "-0.8", "-0.6", "-0.4", "-0.2", "0"]);
}

#[test]
fn equal_bounds_give_a_single_tick() {
    for max_ticks in [2u8, 3, 10, 255] {
        for value in [0i64, 7, -7, i64::MAX, i64::MIN] {
            let axis = nice_ticks(value, value, max_ticks).unwrap();
            assert_eq!(axis.min_point, value);
            assert_eq!(axis.max_point, value);
            assert_eq!(axis.num_ticks, 1);
            assert!(axis.is_well_formed());
            let ticks = get_ticks(&axis);
            assert_eq!(ticks, vec![(POSITION_FULL, value.to_string())]);
        }
    }
    assert_eq!(nice_ticks(3, 3, 2).unwrap().spacing, nice(1, 0));
    assert_eq!(nice_ticks(3, 3, 10).unwrap().spacing, nice(1, -1));
}

#[test]
fn planner_rejects_bad_configuration() {
    assert_eq!(nice_ticks(0, 10, 0), Err(ChartError::InvalidConfiguration));
    assert_eq!(nice_ticks(0, 10, 1), Err(ChartError::InvalidConfiguration));
    assert_eq!(nice_ticks(10, 0, 5), Err(ChartError::InvalidConfiguration));
    assert!(nice_ticks(0, 10, 2).is_ok());
}

#[test]
fn planner_reports_overflow() {
    assert_eq!(nice_ticks(i64::MIN, i64::MAX, 5), Err(ChartError::ArithmeticOverflow));
    assert_eq!(nice_ticks(i64::MAX - 15, i64::MAX, 2), Err(ChartError::ArithmeticOverflow));
    assert_eq!(nice_ticks(i64::MIN, i64::MIN + 15, 2), Err(ChartError::ArithmeticOverflow));
    assert_eq!(nice_ticks(i64::MAX - 1, i64::MAX, 2).map(|axis| axis.num_ticks), Ok(2));
    assert_eq!(nice_ticks(0, 1, 255).map(|axis| axis.num_ticks), Ok(201));
    assert_eq!(nice_ticks(1, 501, 168).map(|axis| axis.num_ticks), Ok(252));
}

#[test]
fn replanning_keeps_a_settled_axis() {
    for (min, max, max_ticks) in [(-10i64, 10i64, 10u8), (0, 11, 5), (0, 101, 3), (-7, 3, 4)] {
        let first = nice_ticks(min, max, max_ticks).unwrap();
        let second = nice_ticks(first.min_point, first.max_point, max_ticks).unwrap();
        assert_eq!(first, second);
    }
}

#[test]
fn replanning_can_widen_the_spacing() {
    let first = nice_ticks(9, 19, 3).unwrap();
    assert_eq!(
        first,
        TickSpacing { min_point: 5, max_point: 20, spacing: nice(5, 0), num_ticks: 4 }
    );
    let second = nice_ticks(first.min_point, first.max_point, 3).unwrap();
    assert_eq!(
        second,
        TickSpacing { min_point: 0, max_point: 20, spacing: nice(1, 1), num_ticks: 3 }
    );
    let third = nice_ticks(second.min_point, second.max_point, 3).unwrap();
    assert_eq!(second, third);
}

#[test]
fn tick_positions_divide_the_axis_evenly() {
    let axis = nice_ticks(0, 3, 4).unwrap();
    assert_eq!(axis.num_ticks, 3);
    let positions: Vec<u32> = get_ticks(&axis).into_iter().map(|t| t.0).collect();
    assert_eq!(positions, [1_000_000, 500_000, 0]);
    let axis = nice_ticks(0, 3, 10).unwrap();
    assert_eq!(axis.num_ticks, 7);
    let positions: Vec<u32> = get_ticks(&axis).into_iter().map(|t| t.0).collect();
    assert_eq!(positions, [1_000_000, 833_334, 666_667, 500_000, 333_334, 166_667, 0]);
}

#[test]
fn fixed_point_values_are_labelled_in_their_unit() {
    let axis = nice_ticks(-10_000_000, 10_000_000, 10).unwrap();
    assert_eq!(axis.spacing, nice(2, 6));
    let ticks = get_ticks_with_decimals(&axis, 6);
    assert_eq!(ticks.len(), 11);
    assert_eq!(ticks[0], (1_000_000, "-10".to_string()));
    assert_eq!(ticks[4], (600_000, "-2".to_string()));
    assert_eq!(ticks[10], (0, "10".to_string()));
    let axis = nice_ticks(0, 25, 6).unwrap();
    let labels: Vec<String> = get_ticks_with_decimals(&axis, 2).into_iter().map(|t| t.1).collect();
    assert_eq!(labels, ["0", "0.1", "0.2", "0.3"]);
    let axis = nice_ticks(0, 25, 10).unwrap();
    let labels: Vec<String> = get_ticks_with_decimals(&axis, 2).into_iter().map(|t| t.1).collect();
    assert_eq!(labels, ["0", "0.05", "0.1", "0.15", "0.2", "0.25"]);
    let axis = nice_ticks(0, 1, 3).unwrap();
    let labels: Vec<String> = get_ticks_with_decimals(&axis, 28).into_iter().map(|t| t.1).collect();
    assert_eq!(
        labels,
        [
            "0",
            "0.00000000000000000000000000005",
            "0.0000000000000000000000000001"
        ]
    );
}

#[test]
fn malformed_axes_are_recognised() {
    let good = nice_ticks(0, 11, 5).unwrap();
    assert!(good.is_well_formed());
    assert!(!TickSpacing { num_ticks: 5, ..good }.is_well_formed());
    assert!(!TickSpacing { num_ticks: 0, ..good }.is_well_formed());
    assert!(!TickSpacing { min_point: 16, ..good }.is_well_formed());
    assert!(!TickSpacing { spacing: nice(3, 0), ..good }.is_well_formed());
    assert!(!TickSpacing { spacing: nice(5, -4), ..good }.is_well_formed());
    assert!(!TickSpacing { spacing: nice(5, 21), ..good }.is_well_formed());
    assert!(
        TickSpacing { min_point: 0, max_point: 1, spacing: nice(5, -3), num_ticks: 201 }
            .is_well_formed()
    );
}

#[test]
fn extent_is_least_and_greatest() {
    assert_eq!(get_extent(&vec![-4, 10, 0, 50, 2, -6, 7]), Some((-6, 50)));
    assert_eq!(get_extent(&vec![4, 10, 2, 50, 2, 6, 7]), Some((2, 50)));
    assert_eq!(get_extent(&vec![-4, -10, -3]), Some((-10, -3)));
    assert_eq!(get_extent(&vec![9]), Some((9, 9)));
    assert_eq!(get_extent(&vec![i64::MAX, i64::MIN]), Some((i64::MIN, i64::MAX)));
    assert_eq!(get_extent(&Vec::new()), None);
}

#[test]
fn replanning_keeps_an_axis_within_its_range() {
    for max_ticks in [2u8, 3, 4, 5, 7, 10, 25, 100, 255] {
        for min in [-1234i64, -100, -7, -1, 0, 1, 9, 42, 999] {
            for width in [0i64, 1, 2, 3, 9, 10, 11, 19, 20, 21, 49, 50, 51, 99, 100, 101, 12345] {
                let max = min + width;
                let first = nice_ticks(min, max, max_ticks).unwrap();
                let range = nice_num(width.max(1) as u64, 1, false).unwrap();
                let range = range.mantissa as i64 * 10i64.pow(range.exponent as u32);
                let second = nice_ticks(first.min_point, first.max_point, max_ticks).unwrap();
                if first.max_point - first.min_point <= range {
                    assert_eq!(first, second, "{} {} {}", min, max, max_ticks);
                }
                if first.spacing == second.spacing {
                    assert_eq!(first, second, "{} {} {}", min, max, max_ticks);
                } else {
                    assert!(first.max_point - first.min_point > range);
                }
            }
        }
    }
}
