//! Series of labelled values.

use vstd::prelude::*;

verus! {

/// One entry of a series: a value and the text that names it.
#[derive(Clone, Debug, PartialEq, Eq)]
pub struct Point<T> {
    pub value: T,
    pub label: String,
}

impl<T> From<(T, String)> for Point<T> {
    fn from(point: (T, String)) -> (made: Point<T>)
        ensures
            made.value == point.0,
            made.label == point.1,
    {
        Point { value: point.0, label: point.1 }
    }
}

impl<T> vstd::std_specs::convert::FromSpecImpl<(T, String)> for Point<T> {
    open spec fn obeys_from_spec() -> bool {
        true
    }

    open spec fn from_spec(point: (T, String)) -> Point<T> {
        Point { value: point.0, label: point.1 }
    }
}

/// A series: entries in the order in which they were given.
#[derive(Clone, Debug, PartialEq, Eq)]
pub struct Series<T>(Vec<Point<T>>);

impl<T> View for Series<T> {
    type V = Seq<Point<T>>;

    closed spec fn view(&self) -> Seq<Point<T>> {
        self.0@
    }
}

impl<T> Series<T> {
    /// The number of entries.
    pub fn len(&self) -> (n: usize)
        ensures
            n == self@.len(),
    {
        self.0.len()
    }

    /// The entry at position `i`.
    pub fn get(&self, i: usize) -> (point: &Point<T>)
        requires
            i < self@.len(),
        ensures
            *point == self@[i as int],
    {
        &self.0[i]
    }

    /// The entries, in order.
    pub fn points(&self) -> (points: &Vec<Point<T>>)
        ensures
            points@ == self@,
    {
        &self.0
    }
}

impl<T> From<Vec<(T, String)>> for Series<T> {
    /// The series of the given pairs of value and label, in their order.
    fn from(values: Vec<(T, String)>) -> (series: Series<T>)
        ensures
            series@.len() == values@.len(),
            forall|i: int|
                0 <= i < values@.len() ==> (#[trigger] series@[i]).value == values@[i].0
                    && series@[i].label == values@[i].1,
    {
        let mut rest = values;
        let mut reversed: Vec<Point<T>> = Vec::new();
        while rest.len() > 0
            invariant
                rest@.len() + reversed@.len() == values@.len(),
                rest@ == values@.take(rest@.len() as int),
                forall|k: int|
                    0 <= k < reversed@.len() ==> (#[trigger] reversed@[k]).value == values@[values@.len()
                        - 1 - k].0 && reversed@[k].label == values@[values@.len() - 1 - k].1,
            decreases rest@.len(),
        {
            let pair = rest.pop().unwrap();
            reversed.push(Point { value: pair.0, label: pair.1 });
        }
        let mut points: Vec<Point<T>> = Vec::new();
        while reversed.len() > 0
            invariant
                points@.len() + reversed@.len() == values@.len(),
                forall|k: int|
                    0 <= k < reversed@.len() ==> (#[trigger] reversed@[k]).value == values@[values@.len()
                        - 1 - k].0 && reversed@[k].label == values@[values@.len() - 1 - k].1,
                forall|i: int|
                    0 <= i < points@.len() ==> (#[trigger] points@[i]).value == values@[i].0
                        && points@[i].label == values@[i].1,
            decreases reversed@.len(),
        {
            let point = reversed.pop().unwrap();
            points.push(point);
        }
        Series(points)
    }
}

impl<T> vstd::std_specs::convert::FromSpecImpl<Vec<(T, String)>> for Series<T> {
    /// A `Vec` is known in contracts by its view alone, so the conversion
    /// is stated by the `ensures` of `from`.
    open spec fn obeys_from_spec() -> bool {
        false
    }

    open spec fn from_spec(values: Vec<(T, String)>) -> Series<T> {
        arbitrary()
    }
}

impl<T> IntoIterator for Series<T> {
    type Item = Point<T>;

    type IntoIter = std::vec::IntoIter<Point<T>>;

    /// Hands the entries out in order.
    fn into_iter(self) -> (iter: std::vec::IntoIter<Point<T>>)
        ensures
            vstd::std_specs::iter::IteratorSpec::remaining(&iter) == self@,
    {
        broadcast use vstd::std_specs::vec::axiom_spec_into_iter;

        self.0.into_iter()
    }
}

} // verus!
