use leptos_charts::pie::{
    pie_segments, pie_slices, pie_total, PieSegment, PieSlice, SegmentSize, COORDINATE_ONE,
    PIE_RADIUS,
};
use leptos_charts::{ChartError, Series};

fn series_of(values: &[i64]) -> Series<i64> {
    values
        .iter()
        .enumerate()
        .map(|(i, v)| (*v, format!("entry {}", i)))
        .collect::<Vec<(i64, String)>>()
        .into()
}

fn corners_of(slices: &Vec<PieSlice>) -> Vec<(i32, i32)> {
    let total = pie_total(slices) as f64;
    slices
        .iter()
        .map(|slice| {
            let angle = slice.cumulative as f64 / total * std::f64::consts::TAU;
            (
                (angle.cos() * PIE_RADIUS as f64).round() as i32,
                (angle.sin() * PIE_RADIUS as f64).round() as i32,
            )
        })
        .collect()
}

fn segment(from: (i32, i32), to: (i32, i32)) -> PieSegment {
    PieSegment { from, to, value: 1, label: None }
}

#[test]
fn pie_of_seven_entries() {
    // 2.0, 3.0, 1.5, 7.0, 1.0, 2.5, 9.9 in tenths
    let series = series_of(&[20, 30, 15, 70, 10, 25, 99]);
    let slices = pie_slices(&series).unwrap();
    assert_eq!(slices.len(), 7);
    let values: Vec<i64> = slices.iter().map(|s| s.value).collect();
    assert_eq!(values, [10, 15, 20, 25, 30, 70, 99]);
    let indices: Vec<usize> = slices.iter().map(|s| s.index).collect();
    assert_eq!(indices, [4, 2, 0, 5, 1, 3, 6]);
    let sums: Vec<u128> = slices.iter().map(|s| s.cumulative).collect();
    assert_eq!(sums, [10, 25, 45, 70, 100, 170, 269]);
    assert_eq!(pie_total(&slices), 269);
    assert_eq!(slices.iter().map(|s| s.value).sum::<i64>(), 269);
    assert_eq!(slices[0].label, "entry 4");
    assert_eq!(slices[6].label, "entry 6");

    let corners = corners_of(&slices);
    let segments = pie_segments(&slices, &corners).unwrap();
    assert_eq!(segments.len(), 7);
    assert_eq!(segments.iter().map(|s| s.value).sum::<i64>(), 269);
    assert_eq!(segments[0].from, (99_000_000, 0));
    assert_eq!(segments[6].to, (99_000_000, 0));
    for k in 1..7 {
        assert_eq!(segments[k].from, segments[k - 1].to);
        assert_eq!(segments[k].label, Some(slices[k].label.clone()));
    }
    let paths: Vec<String> = segments.iter().map(|s| s.get_arc_path()).collect();
    assert_eq!(
        paths,
        [
            "M0 0 99 0 A100 100 0 0 1 96.311655 22.914299Z",
            "M0 0 96.311655 22.914299 A100 100 0 0 1 82.595444 54.580149Z",
            "M0 0 82.595444 54.580149 A100 100 0 0 1 49.16586 85.928565Z",
            "M0 0 49.16586 85.928565 A100 100 0 0 1 -6.354725 98.795837Z",
            "M0 0 -6.354725 98.795837 A100 100 0 0 1 -68.558327 71.419576Z",
            "M0 0 -68.558327 71.419576 A100 100 0 0 1 -66.87159 -73.001304Z",
            "M0 0 -66.87159 -73.001304 A100 100 0 0 1 99 0Z",
        ]
    );
    for s in &segments {
        assert_eq!(s.angle(), SegmentSize::LessThanHalf);
    }
}

#[test]
fn entries_without_a_positive_value_are_left_out() {
    let series = series_of(&[0, 5, -3, 5, 0, 1]);
    let slices = pie_slices(&series).unwrap();
    let picked: Vec<(usize, i64, u128)> =
        slices.iter().map(|s| (s.index, s.value, s.cumulative)).collect();
    assert_eq!(picked, [(5, 1, 1), (1, 5, 6), (3, 5, 11)]);
    assert_eq!(pie_total(&slices), 11);
}

#[test]
fn pie_without_positive_values_has_no_segments() {
    let series = series_of(&[0, 0, -1]);
    let slices = pie_slices(&series).unwrap();
    assert!(slices.is_empty());
    assert_eq!(pie_total(&slices), 0);
    assert_eq!(pie_segments(&slices, &Vec::new()), Ok(Vec::new()));
}

#[test]
fn pie_of_an_empty_series_is_rejected() {
    let series = series_of(&[]);
    assert_eq!(pie_slices(&series), Err(ChartError::InvalidConfiguration));
}

#[test]
fn corners_must_match_the_slices() {
    let series = series_of(&[1, 2]);
    let slices = pie_slices(&series).unwrap();
    assert_eq!(
        pie_segments(&slices, &vec![(0, 0)]),
        Err(ChartError::InvalidConfiguration)
    );
    assert_eq!(
        pie_segments(&slices, &vec![(0, 0), (1, 1), (2, 2)]),
        Err(ChartError::InvalidConfiguration)
    );
    let segments = pie_segments(&slices, &vec![(5, 6), (7, 8)]).unwrap();
    assert_eq!(
        segments,
        vec![
            PieSegment {
                from: (PIE_RADIUS, 0),
                to: (5, 6),
                value: 1,
                label: Some("entry 0".to_string())
            },
            PieSegment { from: (5, 6), to: (7, 8), value: 2, label: Some("entry 1".to_string()) },
        ]
    );
}

#[test]
fn large_values_add_up_without_overflow() {
    let series = series_of(&[i64::MAX, i64::MAX, i64::MAX]);
    let slices = pie_slices(&series).unwrap();
    assert_eq!(pie_total(&slices), 3 * (i64::MAX as u128));
    let indices: Vec<usize> = slices.iter().map(|s| s.index).collect();
    assert_eq!(indices, [0, 1, 2]);
}

#[test]
fn arc_size_follows_the_cross_product() {
    let r = PIE_RADIUS;
    assert_eq!(segment((r, 0), (0, r)).angle(), SegmentSize::LessThanHalf);
    assert_eq!(segment((r, 0), (-r, 0)).angle(), SegmentSize::Half);
    assert_eq!(segment((r, 0), (0, -r)).angle(), SegmentSize::MoreThanHalf);
    assert_eq!(segment((r, 0), (r, 0)).angle(), SegmentSize::Half);
    assert_eq!(segment((0, 0), (r, 5)).angle(), SegmentSize::Half);
    assert_eq!(segment((r, 0), (-r, 1)).angle(), SegmentSize::LessThanHalf);
    assert_eq!(segment((r, 0), (-r, -1)).angle(), SegmentSize::MoreThanHalf);
    assert_eq!(
        segment((i32::MIN, i32::MIN), (i32::MAX, i32::MIN)).angle(),
        SegmentSize::LessThanHalf
    );
    assert_eq!(
        segment((i32::MIN, i32::MAX), (i32::MIN, i32::MIN)).angle(),
        SegmentSize::LessThanHalf
    );
    assert_eq!(
        segment((i32::MAX, i32::MIN), (i32::MIN, i32::MIN)).angle(),
        SegmentSize::MoreThanHalf
    );
}

#[test]
fn arc_path_names_the_larger_arc() {
    let r = PIE_RADIUS;
    assert_eq!(segment((r, 0), (0, r)).get_arc_path(), "M0 0 99 0 A100 100 0 0 1 0 99Z");
    assert_eq!(segment((r, 0), (-r, 0)).get_arc_path(), "M0 0 99 0 A100 100 0 0 1 -99 0Z");
    assert_eq!(segment((r, 0), (0, -r)).get_arc_path(), "M0 0 99 0 A100 100 0 1 1 0 -99Z");
    assert_eq!(
        segment((-49_500_000, 85_736_515), (1, -2)).get_arc_path(),
        "M0 0 -49.5 85.736515 A100 100 0 0 1 0.000001 -0.000002Z"
    );
    assert_eq!(
        segment((i32::MIN, i32::MAX), (0, 0)).get_arc_path(),
        "M0 0 -2147.483648 2147.483647 A100 100 0 0 1 0 0Z"
    );
}

#[test]
fn single_wedge_pie() {
    let series = series_of(&[42]);
    let slices = pie_slices(&series).unwrap();
    let corners = corners_of(&slices);
    assert_eq!(corners, [(PIE_RADIUS, 0)]);
    let segments = pie_segments(&slices, &corners).unwrap();
    assert_eq!(segments[0].angle(), SegmentSize::Half);
    assert_eq!(segments[0].get_arc_path(), "M0 0 99 0 A100 100 0 0 1 99 0Z");
    assert_eq!(segments[0].get_center_unit_vector(), Some((0, -COORDINATE_ONE)));
}

#[test]
fn label_anchor_points_to_the_middle_of_the_arc() {
    let r = PIE_RADIUS;
    // a quarter: the middle lies at 45 degrees
    assert_eq!(segment((r, 0), (0, r)).get_center_unit_vector(), Some((707_106, 707_106)));
    // three quarters: the middle lies opposite the chord's middle
    assert_eq!(segment((r, 0), (0, -r)).get_center_unit_vector(), Some((-707_106, 707_106)));
    // half: the first corner turned a quarter clockwise
    assert_eq!(segment((r, 0), (-r, 0)).get_center_unit_vector(), Some((0, -1_000_000)));
    assert_eq!(segment((0, r), (0, -r)).get_center_unit_vector(), Some((1_000_000, 0)));
    assert_eq!(segment((3, 4), (-3, -4)).get_center_unit_vector(), Some((800_000, -600_000)));
    // no direction without a first corner
    assert_eq!(segment((0, 0), (r, 0)).get_center_unit_vector(), None);
    assert_eq!(segment((0, 0), (0, 0)).get_center_unit_vector(), None);
    // extreme corners
    assert_eq!(
        segment((i32::MIN, i32::MIN), (i32::MIN, i32::MIN)).get_center_unit_vector(),
        Some((-707_106, 707_106))
    );
    assert_eq!(
        segment((i32::MAX, 0), (i32::MAX, 1)).get_center_unit_vector(),
        Some((999_999, 0))
    );
}

#[test]
fn unit_vector_has_length_one() {
    for (from, to) in [
        ((96_311_655, 22_914_299), (82_595_444, 54_580_149)),
        ((-6_354_725, 98_795_837), (-68_558_327, 71_419_576)),
        ((99_000_000, 0), (-66_871_590, -73_001_304)),
        ((17, -4), (-5, 23)),
    ] {
        let (x, y) = segment(from, to).get_center_unit_vector().unwrap();
        let length = ((x as f64).powi(2) + (y as f64).powi(2)).sqrt();
        assert!(length <= 1_000_000.0 && length > 999_998.0, "{}", length);
    }
}
