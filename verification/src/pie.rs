//! The wedges of a pie chart: which entries are drawn and in which order,
//! how large each arc is, the path that draws it and the direction in
//! which its label lies.
//!
//! The corners of the wedges lie on a circle; their coordinates come from
//! the caller, who has sine and cosine, between the two steps
//! [`pie_slices`] and [`pie_segments`].

use crate::arith::floor_sqrt;
use crate::error::ChartError;
use crate::point::{Point, Series};
use crate::text::{decimal_text, push_decimal};
use vstd::prelude::*;
use vstd::string::StringExecFns;

verus! {

/// The number of digits after the decimal point that a coordinate
/// carries: coordinates count millionths.
pub const COORDINATE_DIGITS: u8 = 6;

/// The length one, in the unit of the coordinates.
pub const COORDINATE_ONE: i32 = 1_000_000;

/// The radius on which the corners of the segments lie: 99 of the 100
/// that the drawn circle has, which leaves a margin of 1.
pub const PIE_RADIUS: i32 = 99_000_000;

/// How much of the circle a segment covers.
#[derive(Debug, Clone, Copy, PartialEq, Eq, Structural)]
pub enum SegmentSize {
    LessThanHalf,
    Half,
    MoreThanHalf,
}

/// One wedge of a pie: the two corners of its arc, in millionths, the
/// value that it stands for and its label.
#[derive(Debug, PartialEq, Eq)]
pub struct PieSegment {
    pub from: (i32, i32),
    pub to: (i32, i32),
    pub value: i64,
    pub label: Option<String>,
}

impl Clone for PieSegment {
    fn clone(&self) -> (copy: PieSegment)
        ensures
            copy == *self,
    {
        PieSegment { from: self.from, to: self.to, value: self.value, label: self.label.clone() }
    }
}

/// The cross product of two plane vectors: positive where the second
/// lies less than half a turn ahead of the first.
pub open spec fn cross_product(from: (i32, i32), to: (i32, i32)) -> int {
    from.0 * to.1 - to.0 * from.1
}

/// The size of the arc that leads from one corner to the other: half the
/// circle where the cross product of the corners is zero, less where it is
/// positive, more where it is negative.
pub open spec fn arc_size(from: (i32, i32), to: (i32, i32)) -> SegmentSize {
    if cross_product(from, to) == 0 {
        SegmentSize::Half
    } else if cross_product(from, to) > 0 {
        SegmentSize::LessThanHalf
    } else {
        SegmentSize::MoreThanHalf
    }
}

/// The digit of the large-arc flag: `1` for more than half the circle,
/// else `0`.
pub open spec fn large_arc_flag(size: SegmentSize) -> char {
    if size == SegmentSize::MoreThanHalf {
        '1'
    } else {
        '0'
    }
}

/// A coordinate in decimal notation.
pub open spec fn coordinate_text(c: i32) -> Seq<char> {
    decimal_text(c as int, COORDINATE_DIGITS as nat)
}

/// The path of a wedge: from the center to the first corner, along an
/// arc of radius 100 to the second, always in the positive sense of
/// rotation, and back.
pub open spec fn arc_path_text(from: (i32, i32), to: (i32, i32)) -> Seq<char> {
    "M0 0 "@ + coordinate_text(from.0) + " "@ + coordinate_text(from.1) + " A100 100 0 "@
        + seq![large_arc_flag(arc_size(from, to))] + " 1 "@ + coordinate_text(to.0) + " "@
        + coordinate_text(to.1) + "Z"@
}

/// The vector that points to the middle of the arc: the sum of the two
/// corners for less than half the circle, its opposite for more, and for
/// half the circle the first corner turned a quarter clockwise.
pub open spec fn center_direction(from: (i32, i32), to: (i32, i32)) -> (int, int) {
    match arc_size(from, to) {
        SegmentSize::Half => (from.1 as int, -from.0),
        SegmentSize::LessThanHalf => (from.0 + to.0, from.1 + to.1),
        SegmentSize::MoreThanHalf => (-(from.0 + to.0), -(from.1 + to.1)),
    }
}

/// Whether `unit` is the component `c` of a vector whose length squared
/// is `square`, after the vector was brought to length `COORDINATE_ONE`
/// and the component rounded towards zero: it has the sign of `c` and
/// the size of `|c| * COORDINATE_ONE / sqrt(square)`, rounded down.
pub open spec fn is_unit_component(c: int, square: int, unit: int) -> bool {
    let size = if unit < 0 {
        -unit
    } else {
        unit
    };
    let scaled = c * COORDINATE_ONE;
    &&& c >= 0 ==> unit >= 0
    &&& c <= 0 ==> unit <= 0
    &&& size * size * square <= scaled * scaled < (size + 1) * (size + 1) * square
}

/// Whether `unit` is the vector `(x, y)` brought to length
/// `COORDINATE_ONE`, each component rounded towards zero.
pub open spec fn is_unit_vector(x: int, y: int, unit: (i32, i32)) -> bool {
    &&& is_unit_component(x, x * x + y * y, unit.0 as int)
    &&& is_unit_component(y, x * x + y * y, unit.1 as int)
}

impl PieSegment {
    /// How much of the circle the segment covers.
    pub fn angle(&self) -> (size: SegmentSize)
        ensures
            size == arc_size(self.from, self.to),
    {
        proof {
            lemma_product_within(self.from.0 as int, self.to.1 as int);
            lemma_product_within(self.to.0 as int, self.from.1 as int);
        }
        let forward: i64 = self.from.0 as i64 * self.to.1 as i64;
        let backward: i64 = self.to.0 as i64 * self.from.1 as i64;
        if forward == backward {
            SegmentSize::Half
        } else if forward > backward {
            SegmentSize::LessThanHalf
        } else {
            SegmentSize::MoreThanHalf
        }
    }

    /// The path that draws the segment.
    pub fn get_arc_path(&self) -> (path: String)
        ensures
            path@ == arc_path_text(self.from, self.to),
    {
        let flag = match self.angle() {
            SegmentSize::LessThanHalf | SegmentSize::Half => "0",
            SegmentSize::MoreThanHalf => "1",
        };
        proof {
            reveal_strlit("0");
            reveal_strlit("1");
            assert(flag@ =~= seq![large_arc_flag(arc_size(self.from, self.to))]);
        }
        let mut path = String::from_str("M0 0 ");
        push_decimal(&mut path, self.from.0 as i128, COORDINATE_DIGITS);
        path.append(" ");
        push_decimal(&mut path, self.from.1 as i128, COORDINATE_DIGITS);
        path.append(" A100 100 0 ");
        path.append(flag);
        path.append(" 1 ");
        push_decimal(&mut path, self.to.0 as i128, COORDINATE_DIGITS);
        path.append(" ");
        push_decimal(&mut path, self.to.1 as i128, COORDINATE_DIGITS);
        path.append("Z");
        path
    }

    /// The direction from the center to the middle of the segment's arc,
    /// as a vector of length `COORDINATE_ONE`; `None` where the first
    /// corner lies in the center, which leaves no direction.
    pub fn get_center_unit_vector(&self) -> (res: Option<(i32, i32)>)
        ensures
            res is None <==> self.from == (0i32, 0i32),
            res matches Some(unit) ==> is_unit_vector(
                center_direction(self.from, self.to).0,
                center_direction(self.from, self.to).1,
                unit,
            ),
    {
        let (x, y): (i64, i64) = match self.angle() {
            SegmentSize::Half => (self.from.1 as i64, -(self.from.0 as i64)),
            SegmentSize::LessThanHalf => (
                self.from.0 as i64 + self.to.0 as i64,
                self.from.1 as i64 + self.to.1 as i64,
            ),
            SegmentSize::MoreThanHalf => (
                -(self.from.0 as i64 + self.to.0 as i64),
                -(self.from.1 as i64 + self.to.1 as i64),
            ),
        };
        proof {
            lemma_opposite_corners(self.from, self.to);
            lemma_square_within(x as int);
            lemma_square_within(y as int);
        }
        if x == 0 && y == 0 {
            None
        } else {
            let square: u128 = (x as i128 * x as i128 + y as i128 * y as i128) as u128;
            Some((unit_component(x, square), unit_component(y, square)))
        }
    }
}

/// Corners that lie opposite each other, or both in the center, have the
/// cross product zero.
proof fn lemma_opposite_corners(from: (i32, i32), to: (i32, i32))
    ensures
        from.0 + to.0 == 0 && from.1 + to.1 == 0 ==> cross_product(from, to) == 0,
        from == (0i32, 0i32) ==> cross_product(from, to) == 0,
{
    let a = from.0 as int;
    let b = from.1 as int;
    let c = to.0 as int;
    let d = to.1 as int;
    assert(a + c == 0 && b + d == 0 ==> a * d - c * b == 0) by (nonlinear_arith);
    assert(a == 0 && b == 0 ==> a * d - c * b == 0) by (nonlinear_arith);
}

/// The square of a sum of two 32-bit numbers stays below `2^66`, and is
/// zero for zero only.
proof fn lemma_square_within(x: int)
    requires
        -0x1_0000_0000 <= x <= 0x1_0000_0000,
    ensures
        0 <= x * x <= 0x1_0000_0000_0000_0000,
        x != 0 ==> x * x > 0,
{
    assert(0 <= x * x <= 0x1_0000_0000_0000_0000 && (x != 0 ==> x * x > 0)) by (nonlinear_arith)
        requires
            -0x1_0000_0000 <= x <= 0x1_0000_0000,
    ;
}

/// One component of a vector brought to length `COORDINATE_ONE`.
fn unit_component(c: i64, square: u128) -> (unit: i32)
    requires
        -0x1_0000_0000 <= c <= 0x1_0000_0000,
        c * c <= square,
        0 < square <= 0x2_0000_0000_0000_0000,
    ensures
        is_unit_component(c as int, square as int, unit as int),
{
    let magnitude: u128 = if c < 0 {
        (-c) as u128
    } else {
        c as u128
    };
    let scaled: u128 = magnitude * 1_000_000;
    assert(scaled * scaled <= 0x10_0000_0000_0000 * 0x10_0000_0000_0000) by (nonlinear_arith)
        requires
            0 <= scaled <= 0x10_0000_0000_0000,
    ;
    let area: u128 = scaled * scaled;
    let quotient: u128 = area / square;
    let root: u128 = floor_sqrt(quotient);
    proof {
        let signed = c as int * COORDINATE_ONE;
        assert(signed * signed == area) by (nonlinear_arith)
            requires
                signed == scaled || signed == -scaled,
                area == scaled * scaled,
        ;
        vstd::arithmetic::div_mod::lemma_fundamental_div_mod(area as int, square as int);
        vstd::arithmetic::div_mod::lemma_mod_bound(area as int, square as int);
        let rest = area as int % square as int;
        assert(root * root * square <= area < (root + 1) * (root + 1) * square)
            by (nonlinear_arith)
            requires
                area == square * quotient + rest,
                0 <= rest < square,
                root * root <= quotient < (root + 1) * (root + 1),
                0 <= root,
        ;
        assert(magnitude * magnitude == c * c) by (nonlinear_arith)
            requires
                magnitude == c || magnitude == -c,
        ;
        assert(root <= 1_000_000) by (nonlinear_arith)
            requires
                root * root * square <= area,
                area == magnitude * 1_000_000 * (magnitude * 1_000_000),
                magnitude * magnitude <= square,
                0 < square,
                0 <= root,
                0 <= magnitude,
        ;
        if c == 0 {
            assert(root == 0) by (nonlinear_arith)
                requires
                    root * root * square <= area,
                    area == 0,
                    0 < square,
                    0 <= root,
            ;
        }
    }
    if c < 0 {
        -(root as i32)
    } else {
        root as i32
    }
}

/// The product of two 32-bit numbers fits 64 bits with room to spare.
proof fn lemma_product_within(a: int, b: int)
    requires
        -0x8000_0000 <= a <= 0x8000_0000,
        -0x8000_0000 <= b <= 0x8000_0000,
    ensures
        -0x4000_0000_0000_0000 <= a * b <= 0x4000_0000_0000_0000,
{
    assert(-0x4000_0000_0000_0000 <= a * b <= 0x4000_0000_0000_0000) by (nonlinear_arith)
        requires
            -0x8000_0000 <= a <= 0x8000_0000,
            -0x8000_0000 <= b <= 0x8000_0000,
    ;
}

/// One entry of a pie in the order in which the wedges are laid out.
#[derive(Debug, PartialEq, Eq)]
pub struct PieSlice {
    /// The position of the entry in the series.
    pub index: usize,
    /// The value of the entry.
    pub value: i64,
    /// The sum of the values up to this entry, itself included: the wedge
    /// ends at this share of the sum of all.
    pub cumulative: u128,
    /// The label of the entry.
    pub label: String,
}

/// The number of entries with a positive value.
pub open spec fn positive_count(points: Seq<Point<i64>>) -> nat
    decreases points.len(),
{
    if points.len() == 0 {
        0
    } else {
        positive_count(points.drop_last()) + if points.last().value > 0 {
            1nat
        } else {
            0nat
        }
    }
}

/// The sum of the positive values.
pub open spec fn positive_sum(points: Seq<Point<i64>>) -> int
    decreases points.len(),
{
    if points.len() == 0 {
        0
    } else {
        positive_sum(points.drop_last()) + if points.last().value > 0 {
            points.last().value as int
        } else {
            0
        }
    }
}

/// The sum of the values of the first `n` slices.
pub open spec fn values_sum(slices: Seq<PieSlice>, n: int) -> int
    decreases n,
{
    if n <= 0 {
        0
    } else {
        values_sum(slices, n - 1) + slices[n - 1].value
    }
}

/// Whether the entry at `a` is laid out before the entry at `b`: the
/// smaller value first, and of equal values the one that was given first.
pub open spec fn comes_before(points: Seq<Point<i64>>, a: int, b: int) -> bool {
    points[a].value < points[b].value || (points[a].value == points[b].value && a < b)
}

/// Whether `order` lists the positions of the positive entries among the
/// first `upto`, each once, in the order in which they are laid out.
pub open spec fn is_layout_order(points: Seq<Point<i64>>, upto: int, order: Seq<usize>) -> bool {
    &&& forall|k: int|
        0 <= k < order.len() ==> (#[trigger] order[k]) < upto && points[order[k] as int].value > 0
    &&& forall|j: int, k: int|
        0 <= j < k < order.len() ==> comes_before(
            points,
            (#[trigger] order[j]) as int,
            (#[trigger] order[k]) as int,
        )
    &&& forall|p: int|
        0 <= p < upto && (#[trigger] points[p]).value > 0 ==> exists|k: int|
            0 <= k < order.len() && #[trigger] order[k] == p
}

/// Whether `slices` are the wedges of the series `points`: its entries
/// with a positive value, each once, the smaller value first and equal
/// values in the order given, each with the sum of the values so far.
pub open spec fn is_pie_layout(points: Seq<Point<i64>>, slices: Seq<PieSlice>) -> bool {
    &&& is_layout_order(points, points.len() as int, Seq::new(slices.len(), |k: int| slices[k].index))
    &&& forall|k: int|
        0 <= k < slices.len() ==> {
            &&& (#[trigger] slices[k]).value == points[slices[k].index as int].value
            &&& slices[k].label@ == points[slices[k].index as int].label@
            &&& slices[k].cumulative == values_sum(slices, k + 1)
        }
}

/// The sum of the values at the listed positions.
spec fn order_sum(points: Seq<Point<i64>>, order: Seq<usize>) -> int
    decreases order.len(),
{
    if order.len() == 0 {
        0
    } else {
        order_sum(points, order.drop_last()) + points[order.last() as int].value
    }
}

/// A position put into a list adds its value to the sum.
proof fn lemma_order_sum_insert(points: Seq<Point<i64>>, order: Seq<usize>, at: int, p: usize)
    requires
        0 <= at <= order.len(),
    ensures
        order_sum(points, order.insert(at, p)) == order_sum(points, order) + points[p as int].value,
    decreases order.len(),
{
    let longer = order.insert(at, p);
    if at == order.len() {
        assert(longer.drop_last() =~= order);
        assert(longer.last() == p);
    } else {
        assert(longer.drop_last() =~= order.drop_last().insert(at, p));
        assert(longer.last() == order.last());
        lemma_order_sum_insert(points, order.drop_last(), at, p);
    }
}

/// The sum of the first `n` values does not change where slices are
/// added behind them.
proof fn lemma_values_sum_push(slices: Seq<PieSlice>, slice: PieSlice, n: int)
    requires
        n <= slices.len(),
    ensures
        values_sum(slices.push(slice), n) == values_sum(slices, n),
    decreases n,
{
    if n > 0 {
        lemma_values_sum_push(slices, slice, n - 1);
    }
}

/// The positions of the positive entries in the order in which they are
/// laid out.
fn layout_order(series: &Series<i64>) -> (order: Vec<usize>)
    ensures
        is_layout_order(series@, series@.len() as int, order@),
        order@.len() == positive_count(series@),
        order_sum(series@, order@) == positive_sum(series@),
{
    let mut order: Vec<usize> = Vec::new();
    let count = series.len();
    let mut i: usize = 0;
    assert(series@.take(0) =~= Seq::<Point<i64>>::empty());
    while i < count
        invariant
            i <= count,
            count == series@.len(),
            is_layout_order(series@, i as int, order@),
            order@.len() == positive_count(series@.take(i as int)),
            order@.len() <= i,
            order_sum(series@, order@) == positive_sum(series@.take(i as int)),
        decreases count - i,
    {
        let value = series.get(i).value;
        proof {
            assert(series@.take(i + 1).drop_last() =~= series@.take(i as int));
            assert(series@.take(i + 1).last() == series@[i as int]);
        }
        if value > 0 {
            let mut at: usize = order.len();
            while at > 0 && series.get(order[at - 1]).value > value
                invariant
                    at <= order@.len(),
                    i < series@.len(),
                    value == series@[i as int].value,
                    is_layout_order(series@, i as int, order@),
                    forall|k: int|
                        at <= k < order@.len() ==> series@[(#[trigger] order@[k]) as int].value
                            > value,
                decreases at,
            {
                at = at - 1;
            }
            let ghost before = order@;
            proof {
                lemma_order_sum_insert(series@, before, at as int, i);
                assert forall|k: int| 0 <= k < at implies series@[(#[trigger] before[k]) as int].value
                    <= value by {
                    if k < at - 1 {
                        assert(comes_before(series@, before[k] as int, before[at - 1] as int));
                    }
                }
            }
            order.insert(at, i);
            proof {
                let after = order@;
                assert forall|k: int| 0 <= k < after.len() implies (#[trigger] after[k]) < i + 1
                    && series@[after[k] as int].value > 0 by {
                    if k < at {
                        assert(after[k] == before[k]);
                    } else if k > at {
                        assert(after[k] == before[k - 1]);
                    }
                }
                assert forall|j: int, k: int| 0 <= j < k < after.len() implies comes_before(
                    series@,
                    (#[trigger] after[j]) as int,
                    (#[trigger] after[k]) as int,
                ) by {
                    if k < at {
                        assert(after[j] == before[j] && after[k] == before[k]);
                    } else if k == at {
                        assert(after[j] == before[j]);
                    } else if j < at {
                        assert(after[j] == before[j] && after[k] == before[k - 1]);
                    } else if j == at {
                        assert(after[k] == before[k - 1]);
                    } else {
                        assert(after[j] == before[j - 1] && after[k] == before[k - 1]);
                    }
                }
                assert forall|p: int| 0 <= p < i + 1 && (#[trigger] series@[p]).value > 0 implies exists|
                    k: int,
                | 0 <= k < after.len() && #[trigger] after[k] == p by {
                    if p == i {
                        assert(after[at as int] == p);
                    } else {
                        let k0 = choose|k: int| 0 <= k < before.len() && #[trigger] before[k] == p;
                        if k0 < at {
                            assert(after[k0] == p);
                        } else {
                            assert(after[k0 + 1] == p);
                        }
                    }
                }
            }
        } else {
            proof {
                assert forall|p: int| 0 <= p < i + 1 && (#[trigger] series@[p]).value > 0 implies exists|
                    k: int,
                | 0 <= k < order@.len() && #[trigger] order@[k] == p by {
                    assert(p < i);
                }
            }
        }
        i = i + 1;
    }
    proof {
        assert(series@.take(count as int) =~= series@);
    }
    order
}

/// Lays out the wedges of a pie.
///
/// The entries with a positive value are kept, the smaller value first and
/// equal values in the order given, and each is given the sum of the
/// values up to it. A series without a positive value has no wedges.
/// `InvalidConfiguration` for an empty series.
pub fn pie_slices(series: &Series<i64>) -> (res: Result<Vec<PieSlice>, ChartError>)
    ensures
        series@.len() == 0 <==> res is Err,
        res is Err ==> res == Err::<Vec<PieSlice>, ChartError>(ChartError::InvalidConfiguration),
        res matches Ok(slices) ==> {
            &&& is_pie_layout(series@, slices@)
            &&& slices@.len() == positive_count(series@)
            &&& values_sum(slices@, slices@.len() as int) == positive_sum(series@)
        },
{
    if series.len() == 0 {
        return Err(ChartError::InvalidConfiguration);
    }
    let order = layout_order(series);
    let mut slices: Vec<PieSlice> = Vec::new();
    let mut total: u128 = 0;
    let mut k: usize = 0;
    assert(order@.take(0) =~= Seq::<usize>::empty());
    while k < order.len()
        invariant
            k <= order@.len(),
            is_layout_order(series@, series@.len() as int, order@),
            slices@.len() == k,
            total == values_sum(slices@, k as int),
            total == order_sum(series@, order@.take(k as int)),
            total <= k * 0x8000_0000_0000_0000,
            forall|j: int|
                0 <= j < k ==> {
                    &&& (#[trigger] slices@[j]).index == order@[j]
                    &&& slices@[j].value == series@[order@[j] as int].value
                    &&& slices@[j].label@ == series@[order@[j] as int].label@
                    &&& slices@[j].cumulative == values_sum(slices@, j + 1)
                },
        decreases order@.len() - k,
    {
        let index = order[k];
        let point = series.get(index);
        let ghost before = slices@;
        proof {
            assert(order@.take(k + 1).drop_last() =~= order@.take(k as int));
            assert(order@.take(k + 1).last() == index);
            assert(k * 0x8000_0000_0000_0000 + 0x8000_0000_0000_0000 == (k + 1)
                * 0x8000_0000_0000_0000) by (nonlinear_arith);
            assert(k * 0x8000_0000_0000_0000 <= 0xffff_ffff_ffff_ffff * 0x8000_0000_0000_0000)
                by (nonlinear_arith)
                requires
                    k <= 0xffff_ffff_ffff_ffff,
            ;
        }
        total = total + point.value as u128;
        let slice = PieSlice {
            index,
            value: point.value,
            cumulative: total,
            label: point.label.clone(),
        };
        slices.push(slice);
        proof {
            let after = slices@;
            lemma_values_sum_push(before, after[k as int], k as int);
            assert forall|j: int| 0 <= j < k + 1 implies {
                &&& (#[trigger] after[j]).index == order@[j]
                &&& after[j].value == series@[order@[j] as int].value
                &&& after[j].label@ == series@[order@[j] as int].label@
                &&& after[j].cumulative == values_sum(after, j + 1)
            } by {
                if j < k {
                    assert(after[j] == before[j]);
                    lemma_values_sum_push(before, after[k as int], j + 1);
                }
            }
        }
        k = k + 1;
    }
    proof {
        assert(order@.take(k as int) =~= order@);
        assert(Seq::new(slices@.len(), |j: int| slices@[j].index) =~= order@);
    }
    Ok(slices)
}

/// The corner at which the first wedge starts: on the radius, at angle
/// zero.
pub open spec fn start_corner() -> (i32, i32) {
    (PIE_RADIUS, 0i32)
}

/// Whether `segments` are the wedges drawn for `slices`, where
/// `corners[k]` is the corner at which wedge `k` ends: each wedge starts
/// where the one before it ended, the first at the start corner, and
/// carries the value and the label of its slice.
pub open spec fn is_pie_segments(
    slices: Seq<PieSlice>,
    corners: Seq<(i32, i32)>,
    segments: Seq<PieSegment>,
) -> bool {
    &&& segments.len() == slices.len()
    &&& forall|k: int|
        0 <= k < segments.len() ==> {
            &&& (#[trigger] segments[k]).from == if k == 0 {
                start_corner()
            } else {
                corners[k - 1]
            }
            &&& segments[k].to == corners[k]
            &&& segments[k].value == slices[k].value
            &&& segments[k].label is Some
            &&& segments[k].label.unwrap()@ == slices[k].label@
        }
}

/// The wedges of a pie, from its slices and the corner at which each
/// slice ends. `InvalidConfiguration` where the corners are not as many
/// as the slices.
pub fn pie_segments(slices: &Vec<PieSlice>, corners: &Vec<(i32, i32)>) -> (res: Result<
    Vec<PieSegment>,
    ChartError,
>)
    ensures
        corners@.len() != slices@.len() <==> res is Err,
        res is Err ==> res == Err::<Vec<PieSegment>, ChartError>(ChartError::InvalidConfiguration),
        res matches Ok(segments) ==> is_pie_segments(slices@, corners@, segments@),
{
    if corners.len() != slices.len() {
        return Err(ChartError::InvalidConfiguration);
    }
    let mut segments: Vec<PieSegment> = Vec::new();
    let mut from: (i32, i32) = (PIE_RADIUS, 0);
    let mut k: usize = 0;
    while k < slices.len()
        invariant
            k <= slices@.len(),
            corners@.len() == slices@.len(),
            segments@.len() == k,
            from == if k == 0 {
                start_corner()
            } else {
                corners@[k - 1]
            },
            forall|j: int|
                0 <= j < k ==> {
                    &&& (#[trigger] segments@[j]).from == if j == 0 {
                        start_corner()
                    } else {
                        corners@[j - 1]
                    }
                    &&& segments@[j].to == corners@[j]
                    &&& segments@[j].value == slices@[j].value
                    &&& segments@[j].label is Some
                    &&& segments@[j].label.unwrap()@ == slices@[j].label@
                },
        decreases slices@.len() - k,
    {
        let to = corners[k];
        let ghost before = segments@;
        segments.push(
            PieSegment { from, to, value: slices[k].value, label: Some(slices[k].label.clone()) },
        );
        proof {
            assert forall|j: int| 0 <= j < k implies segments@[j] == before[j] by {}
        }
        from = to;
        k = k + 1;
    }
    Ok(segments)
}

/// The sum of the values of all slices of a laid-out pie: the running sum
/// at its last slice, and zero for no slices.
pub fn pie_total(slices: &Vec<PieSlice>) -> (total: u128)
    ensures
        slices@.len() == 0 ==> total == 0,
        slices@.len() > 0 ==> total == slices@[slices@.len() - 1].cumulative,
{
    if slices.len() == 0 {
        0
    } else {
        slices[slices.len() - 1].cumulative
    }
}

} // verus!
