use leptos_charts::text::decimal_string;

#[test]
fn whole_numbers_have_no_point() {
    assert_eq!(decimal_string(0, 0), "0");
    assert_eq!(decimal_string(7, 0), "7");
    assert_eq!(decimal_string(-10, 0), "-10");
    assert_eq!(decimal_string(1234567890, 0), "1234567890");
    assert_eq!(decimal_string(7_000_000, 6), "7");
    assert_eq!(decimal_string(-99_000_000, 6), "-99");
    assert_eq!(decimal_string(0, 31), "0");
}

#[test]
fn fractions_lose_their_trailing_zeros() {
    assert_eq!(decimal_string(75, 1), "7.5");
    assert_eq!(decimal_string(7_500_000, 6), "7.5");
    assert_eq!(decimal_string(-49_500_000, 6), "-49.5");
    assert_eq!(decimal_string(85_736_512, 6), "85.736512");
    assert_eq!(decimal_string(5, 3), "0.005");
    assert_eq!(decimal_string(-5, 3), "-0.005");
    assert_eq!(decimal_string(1_000_001, 6), "1.000001");
    assert_eq!(decimal_string(100, 6), "0.0001");
    assert_eq!(decimal_string(10_010, 4), "1.001");
}

#[test]
fn extreme_values_are_written_out() {
    assert_eq!(
        decimal_string(i128::MAX, 0),
        "170141183460469231731687303715884105727"
    );
    assert_eq!(
        decimal_string(i128::MIN + 1, 0),
        "-170141183460469231731687303715884105727"
    );
    assert_eq!(
        decimal_string(i128::MAX, 31),
        "17014118.3460469231731687303715884105727"
    );
    assert_eq!(decimal_string(1, 31), "0.0000000000000000000000000000001");
}
