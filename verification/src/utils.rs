//! The range of a series and the planning of an axis: tick positions and
//! tick labels.

use crate::arith::{
    ceil_div, ceil_quotient, floor_div, floor_quotient, lemma_ceil_bounds, lemma_floor_bounds,
    lemma_pow10_increases, lemma_pow10_positive, lemma_pow10_values, lemma_quotient_of_multiple,
    pow10, power_of_ten,
};
use crate::error::ChartError;
use crate::nice::{
    at_least_pow10, decade, in_decade, lemma_at_least_below, lemma_decade_at_least,
    lemma_decade_unique, lemma_nice_num_wf, lemma_nice_raise_steady, nice_num_wide,
    spec_nice_num, whole_value,
};
pub use crate::nice::{nice_num, NiceNum};
use crate::text::{decimal_string, decimal_text};
use vstd::prelude::*;

verus! {

/// An axis: its two ends, the distance between neighboring ticks, and
/// the number of ticks, both ends counted.
#[derive(Debug, Clone, Copy, PartialEq, Eq, Structural)]
pub struct TickSpacing {
    pub min_point: i64,
    pub max_point: i64,
    pub spacing: NiceNum,
    pub num_ticks: u8,
}

impl TickSpacing {
    /// The spacing is a nice number of at least a thousandth, the ends are
    /// in order, and the ticks, one spacing apart, lead from one end
    /// exactly to the other.
    pub open spec fn wf(&self) -> bool {
        &&& self.spacing.wf()
        &&& self.spacing.exponent >= -3
        &&& self.min_point <= self.max_point
        &&& self.num_ticks >= 1
        &&& (self.num_ticks - 1) * self.spacing.numer() == (self.max_point - self.min_point)
            * self.spacing.denom()
    }

    /// Tells whether the axis is well formed.
    pub fn is_well_formed(&self) -> (ok: bool)
        ensures
            ok == self.wf(),
    {
        let spacing = self.spacing;
        let mantissa_ok = spacing.mantissa == 1 || spacing.mantissa == 2 || spacing.mantissa == 5;
        if !mantissa_ok || spacing.exponent < -3 || spacing.exponent > 20 {
            return false;
        }
        if self.min_point > self.max_point || self.num_ticks < 1 {
            return false;
        }
        proof {
            lemma_pow10_values();
        }
        let (step, unit): (u128, u128) = if spacing.exponent >= 0 {
            (whole_value(spacing), 1)
        } else {
            proof {
                lemma_pow10_increases((-spacing.exponent) as nat, 3);
            }
            (spacing.mantissa as u128, power_of_ten((-spacing.exponent) as u8))
        };
        let gaps: u128 = (self.num_ticks - 1) as u128;
        let width: u128 = (self.max_point as i128 - self.min_point as i128) as u128;
        proof {
            assert(gaps * step <= 255 * (5 * pow10(20))) by (nonlinear_arith)
                requires
                    0 <= gaps <= 255,
                    0 <= step <= 5 * pow10(20),
            ;
            assert(width * unit <= 0x1_0000_0000_0000_0000 * 1000) by (nonlinear_arith)
                requires
                    0 <= width <= 0x1_0000_0000_0000_0000,
                    0 <= unit <= 1000,
            ;
        }
        gaps * step == width * unit
    }
}

/// The width that is planned for: the distance from `min` to `max`, and 1
/// where the two are equal.
pub open spec fn planned_span(min: int, max: int) -> nat {
    if max > min {
        (max - min) as nat
    } else {
        1
    }
}

/// The spacing planned for `min` to `max` with at most about `max_ticks`
/// ticks: the span is raised to a nice number, divided by the number of
/// gaps, and the quotient is rounded to a nice number.
pub open spec fn planned_spacing(min: int, max: int, max_ticks: int) -> NiceNum {
    let range = spec_nice_num(planned_span(min, max), 1, false);
    spec_nice_num(range.numer(), range.denom() * ((max_ticks - 1) as nat), true)
}

/// The number of the last tick position at or below `min`, counted in
/// spacings from zero.
pub open spec fn low_index(min: int, spacing: NiceNum) -> int {
    floor_quotient(min * spacing.denom(), spacing.numer() as int)
}

/// The number of the first tick position at or above `max`, counted in
/// spacings from zero.
pub open spec fn high_index(max: int, spacing: NiceNum) -> int {
    ceil_quotient(max * spacing.denom(), spacing.numer() as int)
}

/// The tick position with number `k`: `k` spacings from zero.
pub open spec fn point_at(k: int, spacing: NiceNum) -> int {
    k * spacing.numer() / (spacing.denom() as int)
}

/// The axis with the given spacing that covers `min` to `max`: it starts
/// at the last tick position at or below `min` and ends at the first at
/// or above `max`. `ArithmeticOverflow` where an end leaves the 64-bit
/// range or the ticks number more than 255.
pub open spec fn planned_axis(min: int, max: int, spacing: NiceNum) -> Result<
    TickSpacing,
    ChartError,
> {
    let low = low_index(min, spacing);
    let high = high_index(max, spacing);
    let min_point = point_at(low, spacing);
    let max_point = point_at(high, spacing);
    let count = high - low + 1;
    if min_point < i64::MIN || max_point > i64::MAX || count > 255 {
        Err(ChartError::ArithmeticOverflow)
    } else {
        Ok(
            TickSpacing {
                min_point: min_point as i64,
                max_point: max_point as i64,
                spacing,
                num_ticks: count as u8,
            },
        )
    }
}

/// The axis planned for the values `min` to `max` with at most about
/// `max_ticks` ticks. `InvalidConfiguration` for fewer than two ticks or
/// for bounds in the wrong order.
pub open spec fn spec_nice_ticks(min: int, max: int, max_ticks: int) -> Result<
    TickSpacing,
    ChartError,
> {
    if max_ticks < 2 || min > max {
        Err(ChartError::InvalidConfiguration)
    } else {
        planned_axis(min, max, planned_spacing(min, max, max_ticks))
    }
}

/// Plans an axis.
///
/// The span from `min` to `max` (1 where they are equal, which gives an
/// axis of a single tick) is raised to a nice number; that range, divided
/// by `max_ticks - 1`, is rounded to a nice number, the spacing; the two
/// ends are the multiples of the spacing that enclose `min` and `max`.
pub fn nice_ticks(min: i64, max: i64, max_ticks: u8) -> (res: Result<TickSpacing, ChartError>)
    ensures
        res == spec_nice_ticks(min as int, max as int, max_ticks as int),
        res matches Ok(axis) ==> {
            &&& axis.wf()
            &&& axis.min_point <= min
            &&& max <= axis.max_point
            &&& min < max ==> axis.num_ticks >= 2
            &&& min == max ==> axis.min_point == min && axis.num_ticks == 1
        },
{
    if max_ticks < 2 || min > max {
        return Err(ChartError::InvalidConfiguration);
    }
    let span: u128 = if max > min {
        (max as i128 - min as i128) as u128
    } else {
        1
    };
    proof {
        lemma_pow10_values();
        lemma_planned_spacing(min as int, max as int, max_ticks as int);
        lemma_nice_ticks_cover(min as int, max as int, max_ticks as int);
    }
    let range = nice_num_wide(span, 1, false);
    let range_value = whole_value(range);
    let gaps: u128 = (max_ticks - 1) as u128;
    proof {
        assert(1 * gaps == gaps) by (nonlinear_arith);
    }
    let spacing = nice_num_wide(range_value, gaps, true);
    if spacing.exponent >= 0 {
        plan_whole(min, max, spacing)
    } else {
        plan_fine(min, max, spacing)
    }
}

/// What is planned on the way to an axis: the range is a whole nice
/// number of at most `10^20`; the spacing is a nice number of at least a
/// thousandth, and for a span without width it is at most 1.
pub proof fn lemma_planned_spacing(min: int, max: int, max_ticks: int)
    requires
        i64::MIN <= min <= max <= i64::MAX,
        2 <= max_ticks <= 255,
    ensures
        planned_spacing(min, max, max_ticks).wf(),
        planned_spacing(min, max, max_ticks).exponent >= -3,
        spec_nice_num(planned_span(min, max), 1, false).exponent >= 0,
        1 <= spec_nice_num(planned_span(min, max), 1, false).numer() <= pow10(20),
        min == max && planned_spacing(min, max, max_ticks).exponent >= 0 ==> planned_spacing(
            min,
            max,
            max_ticks,
        ).numer() == 1,
{
    lemma_pow10_values();
    let span = planned_span(min, max);
    let gaps = (max_ticks - 1) as nat;
    lemma_nice_num_wf(span, 1, false);
    assert(span * 1 == span) by (nonlinear_arith);
    assert(at_least_pow10(span, 1, 0));
    lemma_decade_at_least(span, 1, 0);
    let range = spec_nice_num(span, 1, false);
    let e = range.exponent as nat;
    lemma_pow10_positive(e);
    assert(range.numer() >= 1) by (nonlinear_arith)
        requires
            range.numer() == range.mantissa * pow10(e),
            range.mantissa >= 1,
            pow10(e) >= 1,
    ;
    if e < 20 {
        lemma_pow10_increases(e, 19);
        assert(pow10(20) == 10 * pow10(19));
        assert(range.mantissa * pow10(e) <= 5 * pow10(19)) by (nonlinear_arith)
            requires
                1 <= range.mantissa <= 5,
                1 <= pow10(e) <= pow10(19),
        ;
    } else {
        assert(range.mantissa * pow10(e) == pow10(e)) by (nonlinear_arith)
            requires
                range.mantissa == 1,
        ;
    }
    assert(1 * gaps == gaps) by (nonlinear_arith);
    lemma_nice_num_wf(range.numer(), gaps, true);
    assert(at_least_pow10(range.numer(), gaps, -3)) by {
        assert(range.numer() * 1000 >= gaps);
    }
    lemma_decade_at_least(range.numer(), gaps, -3);
    if min == max {
        lemma_flat_spacing(range.numer(), gaps);
    }
}

/// A planned axis is well formed and covers what it was planned for; over
/// a range with width it has two ticks at least; and where every whole
/// number is a tick position, it ends where the range ends.
pub proof fn lemma_planned_axis(min: int, max: int, spacing: NiceNum)
    requires
        i64::MIN <= min <= max <= i64::MAX,
        spacing.wf(),
        spacing.exponent >= -3,
    ensures
        planned_axis(min, max, spacing) matches Ok(axis) ==> {
            &&& axis.wf()
            &&& axis.spacing == spacing
            &&& axis.min_point <= min
            &&& max <= axis.max_point
            &&& min < max ==> axis.num_ticks >= 2
            &&& spacing.exponent < 0 || spacing.numer() == 1 ==> {
                &&& axis.min_point == min
                &&& axis.max_point == max
                &&& min == max ==> axis.num_ticks == 1
            }
        },
{
    let numer = spacing.numer() as int;
    let denom = spacing.denom() as int;
    let low = low_index(min, spacing);
    let high = high_index(max, spacing);
    lemma_axis_ends_are_positions(min, max, spacing);
    lemma_pow10_values();
    if spacing.exponent >= 0 {
        lemma_pow10_positive(spacing.exponent as nat);
        assert(numer >= 1) by (nonlinear_arith)
            requires
                numer == spacing.mantissa * pow10(spacing.exponent as nat),
                spacing.mantissa >= 1,
                pow10(spacing.exponent as nat) >= 1,
        ;
        assert(min * 1 == min && max * 1 == max);
        lemma_floor_bounds(min, numer);
        lemma_ceil_bounds(max, numer);
        assert(low * numer / 1 == low * numer && high * numer / 1 == high * numer);
        assert(low <= high && (min < max ==> low < high)) by (nonlinear_arith)
            requires
                low * numer <= min,
                min <= max,
                max <= high * numer,
                numer > 0,
        ;
        assert((high - low) * numer == high * numer - low * numer) by (nonlinear_arith);
        assert((high * numer - low * numer) * 1 == high * numer - low * numer);
        if numer == 1 {
            lemma_quotient_of_multiple(min, 1);
            lemma_quotient_of_multiple(max, 1);
        }
    } else {
        lemma_pow10_increases((-spacing.exponent) as nat, 3);
        assert(denom == 10 || denom == 100 || denom == 1000) by {
            if spacing.exponent == -1 {
            } else if spacing.exponent == -2 {
            } else {
            }
        }
        lemma_fine_positions(min, numer, denom);
        lemma_fine_positions(max, numer, denom);
        let per_unit = denom / numer;
        assert(max * per_unit - min * per_unit == (max - min) * per_unit) by (nonlinear_arith);
        assert((max - min) * per_unit * numer == (max - min) * denom) by (nonlinear_arith)
            requires
                per_unit * numer == denom,
        ;
        assert(per_unit >= 1) by (nonlinear_arith)
            requires
                per_unit * numer == denom,
                denom >= 10,
                1 <= numer <= 5,
        ;
        assert(max - min >= 1 ==> (max - min) * per_unit >= 1) by (nonlinear_arith)
            requires
                per_unit >= 1,
        ;
        assert(max - min == 0 ==> (max - min) * per_unit == 0) by (nonlinear_arith);
    }
}

/// The spacing planned for a span of 1 is at most 1.
proof fn lemma_flat_spacing(range: nat, gaps: nat)
    requires
        range == spec_nice_num(1, 1, false).numer(),
        gaps >= 1,
        in_decade(1, gaps, decade(1, gaps)),
        -20 <= decade(1, gaps) <= 20,
    ensures
        range == 1,
        spec_nice_num(1, gaps, true).exponent >= 0 ==> spec_nice_num(1, gaps, true).numer() == 1,
{
    lemma_pow10_values();
    assert(in_decade(1, 1, 0)) by {
        assert(1 * pow10(0) == 1 && 1 * pow10(1) == 10) by (nonlinear_arith)
            requires
                pow10(0) == 1,
                pow10(1) == 10,
        ;
    }
    lemma_decade_unique(1, 1, 0);
    let d = decade(1, gaps);
    if d >= 1 {
        lemma_at_least_below(1, gaps, 1, d);
        assert(gaps * pow10(1) >= 10) by (nonlinear_arith)
            requires
                gaps >= 1,
                pow10(1) == 10,
        ;
    }
    if d == 0 {
        assert(gaps * pow10(0) == gaps) by (nonlinear_arith)
            requires
                pow10(0) == 1,
        ;
    }
    let nice = spec_nice_num(1, gaps, true);
    if nice.exponent >= 0 {
        assert(nice.mantissa == 1 && nice.exponent == 0);
        assert(1 * pow10(0) == 1) by (nonlinear_arith)
            requires
                pow10(0) == 1,
        ;
    }
}

/// The axis for a spacing that is a whole number.
fn plan_whole(min: i64, max: i64, spacing: NiceNum) -> (res: Result<TickSpacing, ChartError>)
    requires
        min <= max,
        spacing.wf(),
        spacing.exponent >= 0,
    ensures
        res == planned_axis(min as int, max as int, spacing),
{
    let step: i128 = whole_value(spacing) as i128;
    proof {
        lemma_pow10_values();
        assert(min * 1 == min && max * 1 == max) by (nonlinear_arith);
    }
    let low = floor_div(min as i128, step);
    let high = ceil_div(max as i128, step);
    proof {
        lemma_floor_bounds(min as int, step as int);
        lemma_ceil_bounds(max as int, step as int);
    }
    let min_point: i128 = low * step;
    let max_point: i128 = high * step;
    let count: i128 = high - low + 1;
    if min_point < i64::MIN as i128 || max_point > i64::MAX as i128 || count > 255 {
        Err(ChartError::ArithmeticOverflow)
    } else {
        Ok(
            TickSpacing {
                min_point: min_point as i64,
                max_point: max_point as i64,
                spacing,
                num_ticks: count as u8,
            },
        )
    }
}

/// With a spacing of `mantissa / power`, where the power of ten is at
/// least ten, every whole number `v` is a tick position: number
/// `v * (power / mantissa)`.
proof fn lemma_fine_positions(v: int, mantissa: int, power: int)
    requires
        mantissa == 1 || mantissa == 2 || mantissa == 5,
        power == 10 || power == 100 || power == 1000,
    ensures
        floor_quotient(v * power, mantissa) == v * (power / mantissa),
        ceil_quotient(v * power, mantissa) == v * (power / mantissa),
        (v * (power / mantissa)) * mantissa / power == v,
        (power / mantissa) * mantissa == power,
{
    let per_unit = power / mantissa;
    assert(per_unit * mantissa == power) by {
        if power == 10 {
            assert(10int / 1 == 10 && 10int / 2 == 5 && 10int / 5 == 2);
        } else if power == 100 {
            assert(100int / 1 == 100 && 100int / 2 == 50 && 100int / 5 == 20);
        } else {
            assert(1000int / 1 == 1000 && 1000int / 2 == 500 && 1000int / 5 == 200);
        }
    }
    assert(v * power == (v * per_unit) * mantissa) by (nonlinear_arith)
        requires
            per_unit * mantissa == power,
    ;
    lemma_quotient_of_multiple(v * per_unit, mantissa);
    lemma_quotient_of_multiple(v, power);
}

/// The axis for a spacing below one: a thousandth at least.
fn plan_fine(min: i64, max: i64, spacing: NiceNum) -> (res: Result<TickSpacing, ChartError>)
    requires
        min <= max,
        spacing.wf(),
        -3 <= spacing.exponent < 0,
    ensures
        res == planned_axis(min as int, max as int, spacing),
{
    let power: i128 = power_of_ten((-spacing.exponent) as u8) as i128;
    let mantissa: i128 = spacing.mantissa as i128;
    proof {
        lemma_pow10_values();
        lemma_fine_positions(min as int, mantissa as int, power as int);
        lemma_fine_positions(max as int, mantissa as int, power as int);
    }
    let per_unit: i128 = power / mantissa;
    let width: i128 = max as i128 - min as i128;
    proof {
        assert(max * per_unit - min * per_unit == width * per_unit) by (nonlinear_arith)
            requires
                width == max - min,
        ;
        assert(0 <= width * per_unit <= 0x1_0000_0000_0000_0000 * 1000) by (nonlinear_arith)
            requires
                0 <= width <= 0x1_0000_0000_0000_0000,
                0 <= per_unit <= 1000,
        ;
    }
    let count: i128 = width * per_unit + 1;
    if count > 255 {
        Err(ChartError::ArithmeticOverflow)
    } else {
        Ok(TickSpacing { min_point: min, max_point: max, spacing, num_ticks: count as u8 })
    }
}

/// Whether `low` is the least of the values and zero.
pub open spec fn is_least_with_zero(values: Seq<i64>, low: int) -> bool {
    &&& low <= 0
    &&& forall|i: int| 0 <= i < values.len() ==> low <= #[trigger] values[i]
    &&& low == 0 || exists|i: int| 0 <= i < values.len() && #[trigger] values[i] == low
}

/// Whether `high` is the greatest of the values and zero.
pub open spec fn is_greatest_with_zero(values: Seq<i64>, high: int) -> bool {
    &&& high >= 0
    &&& forall|i: int| 0 <= i < values.len() ==> high >= #[trigger] values[i]
    &&& high == 0 || exists|i: int| 0 <= i < values.len() && #[trigger] values[i] == high
}

/// The range that an axis has to cover to show a series from the zero
/// line: the least and the greatest of its values and zero.
/// `InvalidConfiguration` for an empty series.
pub fn get_min_max(values: &Vec<i64>) -> (res: Result<(i64, i64), ChartError>)
    ensures
        values@.len() == 0 <==> res is Err,
        res is Err ==> res == Err::<(i64, i64), ChartError>(ChartError::InvalidConfiguration),
        res matches Ok(range) ==> {
            &&& is_least_with_zero(values@, range.0 as int)
            &&& is_greatest_with_zero(values@, range.1 as int)
            &&& range.0 <= 0 <= range.1
        },
{
    if values.len() == 0 {
        return Err(ChartError::InvalidConfiguration);
    }
    let mut low: i64 = 0;
    let mut high: i64 = 0;
    let mut at: usize = 0;
    while at < values.len()
        invariant
            at <= values@.len(),
            low <= 0 <= high,
            forall|i: int| 0 <= i < at ==> low <= #[trigger] values@[i] <= high,
            low == 0 || exists|i: int| 0 <= i < at && #[trigger] values@[i] == low,
            high == 0 || exists|i: int| 0 <= i < at && #[trigger] values@[i] == high,
        decreases values@.len() - at,
    {
        let value = values[at];
        if value < low {
            low = value;
        }
        if value > high {
            high = value;
        }
        at = at + 1;
    }
    Ok((low, high))
}

/// Whether `low` is the least and `high` the greatest of the values.
pub open spec fn is_extent(values: Seq<i64>, low: int, high: int) -> bool {
    &&& forall|i: int| 0 <= i < values.len() ==> low <= #[trigger] values[i] <= high
    &&& exists|i: int| 0 <= i < values.len() && #[trigger] values[i] == low
    &&& exists|i: int| 0 <= i < values.len() && #[trigger] values[i] == high
}

/// The least and the greatest value of a series, as they are: the range
/// of an axis that need not show the zero line. `None` for an empty
/// series.
pub fn get_extent(values: &Vec<i64>) -> (res: Option<(i64, i64)>)
    ensures
        values@.len() == 0 <==> res is None,
        res matches Some(range) ==> is_extent(values@, range.0 as int, range.1 as int),
{
    if values.len() == 0 {
        return None;
    }
    let mut low: i64 = values[0];
    let mut high: i64 = values[0];
    let mut at: usize = 1;
    while at < values.len()
        invariant
            1 <= at <= values@.len(),
            forall|i: int| 0 <= i < at ==> low <= #[trigger] values@[i] <= high,
            exists|i: int| 0 <= i < at && #[trigger] values@[i] == low,
            exists|i: int| 0 <= i < at && #[trigger] values@[i] == high,
        decreases values@.len() - at,
    {
        let value = values[at];
        if value < low {
            low = value;
        }
        if value > high {
            high = value;
        }
        at = at + 1;
    }
    Some((low, high))
}

/// The number of ticks that a chart asks for where the caller names none.
pub const DEFAULT_MAX_TICKS: u8 = 5;

/// The position of the origin side of an axis: one hundred percent, in
/// ten-thousandths of a percent.
pub const POSITION_FULL: u32 = 1_000_000;

/// The number of digits after the decimal point that the ticks of a
/// spacing can need.
pub open spec fn fraction_digits(spacing: NiceNum) -> nat {
    if spacing.exponent >= 0 {
        0
    } else {
        (-spacing.exponent) as nat
    }
}

/// The value of tick `i` of an axis, counted in units of
/// `10^-fraction_digits`.
pub open spec fn tick_scaled_value(axis: TickSpacing, i: int) -> int {
    axis.min_point * axis.spacing.denom() + i * axis.spacing.numer()
}

/// The label of tick `i` of an axis whose values count units of
/// `10^-decimals`: the value of the tick in decimal notation.
pub open spec fn tick_label(axis: TickSpacing, i: int, decimals: nat) -> Seq<char> {
    decimal_text(tick_scaled_value(axis, i), fraction_digits(axis.spacing) + decimals)
}

/// The position of tick `i` of an axis, measured from the far side: the
/// first tick, the least, lies at `POSITION_FULL`, the last at 0, and the
/// others divide the way evenly. It is `100 - (value - min_point) /
/// (max_point - min_point) * 100` percent, with the part that is taken
/// off rounded down. The only tick of an axis without width lies at
/// `POSITION_FULL`.
pub open spec fn tick_position(axis: TickSpacing, i: int) -> int {
    if axis.num_ticks <= 1 {
        POSITION_FULL as int
    } else {
        POSITION_FULL - i * POSITION_FULL / (axis.num_ticks - 1)
    }
}

/// The ticks of an axis from the least to the greatest, each with its
/// position and its label.
pub fn get_ticks(ticks: &TickSpacing) -> (list: Vec<(u32, String)>)
    requires
        ticks.wf(),
    ensures
        list@.len() == ticks.num_ticks,
        forall|i: int|
            0 <= i < list@.len() ==> {
                &&& (#[trigger] list@[i]).0 == tick_position(*ticks, i)
                &&& list@[i].1@ == tick_label(*ticks, i, 0)
            },
{
    get_ticks_with_decimals(ticks, 0)
}

/// The ticks of an axis whose values are fixed-point numbers with
/// `decimals` digits after the point, at most 28: a value `v` of the axis
/// stands for `v / 10^decimals`, and is labelled so.
pub fn get_ticks_with_decimals(ticks: &TickSpacing, decimals: u8) -> (list: Vec<(u32, String)>)
    requires
        ticks.wf(),
        decimals <= 28,
    ensures
        list@.len() == ticks.num_ticks,
        forall|i: int|
            0 <= i < list@.len() ==> {
                &&& (#[trigger] list@[i]).0 == tick_position(*ticks, i)
                &&& list@[i].1@ == tick_label(*ticks, i, decimals as nat)
            },
{
    let count: u8 = ticks.num_ticks;
    let spacing = ticks.spacing;
    proof {
        lemma_pow10_values();
    }
    let (step, unit, digits): (i128, i128, u8) = if spacing.exponent >= 0 {
        (whole_value(spacing) as i128, 1, 0)
    } else {
        let digits: u8 = (-spacing.exponent) as u8;
        proof {
            lemma_pow10_increases(digits as nat, 3);
        }
        (spacing.mantissa as i128, power_of_ten(digits) as i128, digits)
    };
    proof {
        assert(-0x8000_0000_0000_0000 * 1000 <= ticks.min_point * unit <= 0x8000_0000_0000_0000
            * 1000) by (nonlinear_arith)
            requires
                -0x8000_0000_0000_0000 <= ticks.min_point <= 0x8000_0000_0000_0000,
                1 <= unit <= 1000,
        ;
    }
    let first: i128 = ticks.min_point as i128 * unit;
    let mut list: Vec<(u32, String)> = Vec::new();
    let mut i: u8 = 0;
    while i < count
        invariant
            i <= count,
            count == ticks.num_ticks,
            step == ticks.spacing.numer(),
            first == ticks.min_point * ticks.spacing.denom(),
            -0x8000_0000_0000_0000 * 1000 <= first <= 0x8000_0000_0000_0000 * 1000,
            1 <= step <= 5 * pow10(20),
            digits == fraction_digits(ticks.spacing),
            digits <= 3,
            decimals <= 28,
            list@.len() == i,
            forall|k: int|
                0 <= k < i ==> {
                    &&& (#[trigger] list@[k]).0 == tick_position(*ticks, k)
                    &&& list@[k].1@ == tick_label(*ticks, k, decimals as nat)
                },
        decreases count - i,
    {
        proof {
            lemma_pow10_values();
            assert(0 <= i * step <= 255 * (5 * pow10(20))) by (nonlinear_arith)
                requires
                    0 <= i <= 255,
                    1 <= step <= 5 * pow10(20),
            ;
        }
        let value: i128 = first + i as i128 * step;
        let label = decimal_string(value, digits + decimals);
        let position: u32 = if count <= 1 {
            POSITION_FULL
        } else {
            let gaps: u64 = (count - 1) as u64;
            let taken: u64 = i as u64 * POSITION_FULL as u64 / gaps;
            proof {
                assert(i * POSITION_FULL / (gaps as int) <= POSITION_FULL) by (nonlinear_arith)
                    requires
                        0 <= i <= gaps,
                        gaps > 0,
                        POSITION_FULL == 1_000_000,
                ;
            }
            POSITION_FULL - taken as u32
        };
        list.push((position, label));
        i = i + 1;
    }
    list
}

/// Every axis that is planned is well formed and covers the range that
/// it was planned for; over a range with width it has two ticks at least,
/// and over a single value it is that value with one tick.
pub proof fn lemma_nice_ticks_cover(min: int, max: int, max_ticks: int)
    requires
        i64::MIN <= min <= i64::MAX,
        i64::MIN <= max <= i64::MAX,
        max_ticks <= 255,
    ensures
        spec_nice_ticks(min, max, max_ticks) matches Ok(axis) ==> {
            &&& axis.wf()
            &&& axis.min_point <= min
            &&& max <= axis.max_point
            &&& min < max ==> axis.num_ticks >= 2
            &&& min == max ==> axis.min_point == min && axis.num_ticks == 1
        },
{
    if max_ticks >= 2 && min <= max {
        lemma_planned_spacing(min, max, max_ticks);
        lemma_planned_axis(min, max, planned_spacing(min, max, max_ticks));
    }
}

/// Planning again from the two ends of a planned axis gives the same
/// axis, wherever the second plan picks the spacing of the first. (It
/// picks another where the ends, moved outwards to tick positions, span a
/// range that is raised to a greater nice number.)
pub proof fn lemma_replan_keeps_axis(min: int, max: int, max_ticks: int, axis: TickSpacing)
    requires
        i64::MIN <= min <= i64::MAX,
        i64::MIN <= max <= i64::MAX,
        max_ticks <= 255,
        spec_nice_ticks(min, max, max_ticks) == Ok::<TickSpacing, ChartError>(axis),
        planned_spacing(axis.min_point as int, axis.max_point as int, max_ticks) == axis.spacing,
    ensures
        spec_nice_ticks(axis.min_point as int, axis.max_point as int, max_ticks) == Ok::<
            TickSpacing,
            ChartError,
        >(axis),
{
    let spacing = planned_spacing(min, max, max_ticks);
    let planned = planned_axis(min, max, spacing);
    lemma_planned_spacing(min, max, max_ticks);
    lemma_planned_axis(min, max, spacing);
    let low = low_index(min, spacing);
    let high = high_index(max, spacing);
    lemma_axis_ends_are_positions(min, max, spacing);
    assert(axis.min_point == point_at(low, spacing));
    assert(axis.max_point == point_at(high, spacing));
    assert(low_index(axis.min_point as int, spacing) == low);
    assert(high_index(axis.max_point as int, spacing) == high);
    assert(planned_axis(axis.min_point as int, axis.max_point as int, spacing) == planned);
}

/// Planning again from the two ends of a planned axis gives the same
/// axis, wherever the axis is no wider than the nice number that its span
/// was raised to.
pub proof fn lemma_replan_within_range(min: int, max: int, max_ticks: int, axis: TickSpacing)
    requires
        i64::MIN <= min <= i64::MAX,
        i64::MIN <= max <= i64::MAX,
        max_ticks <= 255,
        spec_nice_ticks(min, max, max_ticks) == Ok::<TickSpacing, ChartError>(axis),
        axis.max_point - axis.min_point <= spec_nice_num(planned_span(min, max), 1, false).numer(),
    ensures
        spec_nice_ticks(axis.min_point as int, axis.max_point as int, max_ticks) == Ok::<
            TickSpacing,
            ChartError,
        >(axis),
{
    lemma_pow10_values();
    lemma_nice_ticks_cover(min, max, max_ticks);
    let span = planned_span(min, max);
    let again = planned_span(axis.min_point as int, axis.max_point as int);
    lemma_planned_spacing(min, max, max_ticks);
    lemma_nice_raise_steady(span, again);
    lemma_replan_keeps_axis(min, max, max_ticks, axis);
}

/// The two ends of the axis that covers `min` to `max` are tick
/// positions: the axis that covers them is the same.
proof fn lemma_axis_ends_are_positions(min: int, max: int, spacing: NiceNum)
    requires
        spacing.wf(),
        spacing.exponent >= -3,
    ensures
        low_index(point_at(low_index(min, spacing), spacing), spacing) == low_index(min, spacing),
        high_index(point_at(high_index(max, spacing), spacing), spacing) == high_index(
            max,
            spacing,
        ),
        point_at(low_index(min, spacing), spacing) <= min,
        max <= point_at(high_index(max, spacing), spacing),
{
    let numer = spacing.numer() as int;
    let denom = spacing.denom() as int;
    let low = low_index(min, spacing);
    let high = high_index(max, spacing);
    lemma_pow10_values();
    if spacing.exponent >= 0 {
        lemma_pow10_positive(spacing.exponent as nat);
        assert(numer >= 1) by (nonlinear_arith)
            requires
                numer == spacing.mantissa * pow10(spacing.exponent as nat),
                spacing.mantissa >= 1,
                pow10(spacing.exponent as nat) >= 1,
        ;
        assert(low * numer / 1 == low * numer && high * numer / 1 == high * numer);
        assert(low * numer * 1 == low * numer && high * numer * 1 == high * numer);
        lemma_quotient_of_multiple(low, numer);
        lemma_quotient_of_multiple(high, numer);
        assert(min * 1 == min && max * 1 == max);
        lemma_floor_bounds(min, numer);
        lemma_ceil_bounds(max, numer);
    } else {
        lemma_pow10_increases((-spacing.exponent) as nat, 3);
        assert(denom == 10 || denom == 100 || denom == 1000) by {
            if spacing.exponent == -1 {
            } else if spacing.exponent == -2 {
            } else {
            }
        }
        lemma_fine_positions(min, numer, denom);
        lemma_fine_positions(max, numer, denom);
    }
}

} // verus!
