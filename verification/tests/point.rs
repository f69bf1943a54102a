use leptos_charts::{Point, Series};

#[test]
fn point_from_pair() {
    let point: Point<i64> = (5, "five".to_string()).into();
    assert_eq!(point, Point { value: 5, label: "five".to_string() });
    let point = Point::from(("x", String::new()));
    assert_eq!(point.value, "x");
    assert_eq!(point.label, "");
}

#[test]
fn series_keeps_the_order_given() {
    let series: Series<i64> = vec![
        (3, "c".to_string()),
        (1, "a".to_string()),
        (2, "b".to_string()),
    ]
    .into();
    assert_eq!(series.len(), 3);
    assert_eq!(series.get(0), &Point { value: 3, label: "c".to_string() });
    assert_eq!(series.get(2), &Point { value: 2, label: "b".to_string() });
    assert_eq!(series.points().len(), 3);
    let values: Vec<i64> = series.clone().into_iter().map(|p| p.value).collect();
    assert_eq!(values, [3, 1, 2]);
    let labels: Vec<String> = series.into_iter().map(|p| p.label).collect();
    assert_eq!(labels, ["c", "a", "b"]);
}

#[test]
fn empty_series() {
    let series = Series::<u8>::from(Vec::new());
    assert_eq!(series.len(), 0);
    assert!(series.into_iter().next().is_none());
}
