//! Terms: single values and arithmetic progressions.

use crate::numeric::{Numeric, Wide};
use vstd::arithmetic::div_mod::{lemma_basic_div, lemma_div_plus_one, lemma_fundamental_div_mod};
use vstd::arithmetic::div_mod::{lemma_div_pos_is_pos, lemma_mod_pos_bound};
use vstd::prelude::*;

verus! {

/// One term of a range set: a single value, or the progression that starts
/// at the first field, moves by the second and is bounded by the third.
#[derive(Debug, PartialEq, Eq)]
pub enum Number<T> {
    /// One value.
    Single(T),
    /// Start, step and end of a progression.
    Range(T, T, T),
}

impl<T: Copy> Clone for Number<T> {
    fn clone(&self) -> (copy: Self)
        ensures
            copy == *self,
    {
        *self
    }
}

impl<T: Copy> Copy for Number<T> {

}

impl<T: Numeric> View for Number<T> {
    type V = Number<int>;

    open spec fn view(&self) -> Number<int> {
        match *self {
            Number::Single(v) => Number::Single(v.as_int()),
            Number::Range(start, step, end) => Number::Range(
                start.as_int(),
                step.as_int(),
                end.as_int(),
            ),
        }
    }
}

/// Whether a progression moves from `start` towards `end`: upwards with a
/// positive step, downwards with a negative one. A zero step moves nowhere.
pub open spec fn range_valid(start: int, step: int, end: int) -> bool {
    (start <= end && step > 0) || (start >= end && step < 0)
}

/// How many values a progression has: those from `start`, `step` apart,
/// that do not pass `end`.
pub open spec fn range_len(start: int, step: int, end: int) -> nat {
    if start <= end && step > 0 {
        ((end - start) / step + 1) as nat
    } else if start >= end && step < 0 {
        ((start - end) / (-step) + 1) as nat
    } else {
        0
    }
}

/// The values of a progression, in order.
pub open spec fn range_values(start: int, step: int, end: int) -> Seq<int> {
    Seq::new(range_len(start, step, end), |k: int| start + k * step)
}

impl Number<int> {
    /// A single value is always valid; a range is valid when it moves
    /// towards its end.
    pub open spec fn valid(self) -> bool {
        match self {
            Number::Single(_) => true,
            Number::Range(start, step, end) => range_valid(start, step, end),
        }
    }

    /// The values that the term stands for, in order. An invalid range
    /// stands for none.
    pub open spec fn values(self) -> Seq<int> {
        match self {
            Number::Single(v) => seq![v],
            Number::Range(start, step, end) => range_values(start, step, end),
        }
    }

    /// The first value of a valid term.
    pub open spec fn head(self) -> int {
        match self {
            Number::Single(v) => v,
            Number::Range(start, _, _) => start,
        }
    }

    /// What is left of a term once its first value is taken: nothing of a
    /// single value, and of a range the range that starts one step later,
    /// unless that one is invalid. The sum is that of the integers, so a
    /// range whose next start lies beyond the number type has passed its
    /// end, and nothing is left of it.
    pub open spec fn rest(self) -> Option<Number<int>> {
        match self {
            Number::Single(_) => None,
            Number::Range(start, step, end) => if range_valid(start + step, step, end) {
                Some(Number::Range(start + step, step, end))
            } else {
                None
            },
        }
    }
}

/// Whether every number of `term` lies between `lower` and `upper`.
pub open spec fn term_within(term: Number<int>, lower: int, upper: int) -> bool {
    match term {
        Number::Single(v) => lower <= v <= upper,
        Number::Range(start, step, end) => {
            &&& lower <= start <= upper
            &&& lower <= step <= upper
            &&& lower <= end <= upper
        },
    }
}

/// Whether every number of every term lies between `lower` and `upper`.
pub open spec fn terms_within(terms: Seq<Number<int>>, lower: int, upper: int) -> bool {
    forall|i: int| 0 <= i < terms.len() ==> term_within(#[trigger] terms[i], lower, upper)
}

/// The values of what is left of a term, or none if nothing is left.
pub open spec fn rest_values(rest: Option<Number<int>>) -> Seq<int> {
    match rest {
        Some(term) => term.values(),
        None => Seq::empty(),
    }
}

/// Terms that stand for the same are the same: what a contract says of a
/// term's view, it says of the term.
pub proof fn lemma_view_injective<T: Numeric>(a: Number<T>, b: Number<T>)
    requires
        a@ == b@,
    ensures
        a == b,
{
    match (a, b) {
        (Number::Single(v), Number::Single(w)) => {
            v.lemma_injective(w);
        },
        (Number::Range(s, i, e), Number::Range(t, j, f)) => {
            s.lemma_injective(t);
            i.lemma_injective(j);
            e.lemma_injective(f);
        },
        _ => {},
    }
}

/// A valid range starts with its start, and goes on with the values of the
/// range that starts one step later.
pub proof fn lemma_range_unfold(start: int, step: int, end: int)
    requires
        range_valid(start, step, end),
    ensures
        range_values(start, step, end) == seq![start] + range_values(start + step, step, end),
{
    let here = range_len(start, step, end);
    let there = range_len(start + step, step, end);
    if step > 0 {
        lemma_quotient_step(end - start, step);
    } else {
        lemma_quotient_step(start - end, -step);
    }
    assert(here == there + 1);
    let whole = range_values(start, step, end);
    let glued = seq![start] + range_values(start + step, step, end);
    assert(whole.len() == glued.len());
    assert forall|k: int| 0 <= k < whole.len() implies whole[k] == glued[k] by {
        if k > 0 {
            assert(start + k * step == (start + step) + (k - 1) * step) by (nonlinear_arith);
        }
    }
    assert(whole == glued);
}

/// A valid term starts with its first value and goes on with the values of
/// its rest.
pub proof fn lemma_term_unfold(term: Number<int>)
    requires
        term.valid(),
    ensures
        term.values() == seq![term.head()] + rest_values(term.rest()),
{
    match term {
        Number::Single(v) => {
            assert(seq![v] + Seq::<int>::empty() == seq![v]);
        },
        Number::Range(start, step, end) => {
            lemma_range_unfold(start, step, end);
            if !range_valid(start + step, step, end) {
                assert(range_values(start + step, step, end) == Seq::<int>::empty());
            }
        },
    }
}

/// Every value of a range lies between its start and its end.
pub proof fn lemma_range_bounds(start: int, step: int, end: int, k: int)
    requires
        0 <= k < range_len(start, step, end),
    ensures
        step > 0 ==> start <= range_values(start, step, end)[k] <= end,
        step < 0 ==> end <= range_values(start, step, end)[k] <= start,
{
    if step > 0 {
        lemma_multiple_below(end - start, step, k);
    } else {
        lemma_multiple_below(start - end, -step, k);
        assert(k * step == -(k * (-step))) by (nonlinear_arith);
    }
}

/// The value one step after the last value of a range passes the end.
pub proof fn lemma_range_ends(start: int, step: int, end: int)
    requires
        range_valid(start, step, end),
    ensures
        step > 0 ==> start + range_len(start, step, end) * step > end,
        step < 0 ==> start + range_len(start, step, end) * step < end,
{
    let n = range_len(start, step, end) as int;
    if step > 0 {
        let gap = end - start;
        lemma_fundamental_div_mod(gap, step);
        lemma_mod_pos_bound(gap, step);
        assert(n * step == step * (gap / step) + step) by (nonlinear_arith)
            requires
                n == gap / step + 1,
        {
        }
    } else {
        let gap = start - end;
        let pace = -step;
        lemma_fundamental_div_mod(gap, pace);
        lemma_mod_pos_bound(gap, pace);
        assert(n * step == -(pace * (gap / pace) + pace)) by (nonlinear_arith)
            requires
                n == gap / pace + 1,
                pace == -step,
        {
        }
    }
}

/// Dividing a distance by a pace: one more pace fits for each pace that the
/// distance is longer, and none fits in a distance under one pace.
proof fn lemma_quotient_step(gap: int, pace: int)
    requires
        0 <= gap,
        0 < pace,
    ensures
        0 <= gap / pace,
        gap >= pace ==> gap / pace == (gap - pace) / pace + 1,
        gap < pace ==> gap / pace == 0,
{
    lemma_div_pos_is_pos(gap, pace);
    if gap >= pace {
        lemma_div_plus_one(gap - pace, pace);
        assert(pace + (gap - pace) == gap);
    } else {
        lemma_basic_div(gap, pace);
    }
}

/// As many paces as fit in a distance do not pass it.
proof fn lemma_multiple_below(gap: int, pace: int, k: int)
    requires
        0 <= gap,
        0 < pace,
        0 <= k <= gap / pace,
    ensures
        0 <= k * pace <= gap,
{
    lemma_fundamental_div_mod(gap, pace);
    lemma_mod_pos_bound(gap, pace);
    assert(0 <= k * pace <= pace * (gap / pace)) by (nonlinear_arith)
        requires
            0 <= k <= gap / pace,
            0 < pace,
    {
    }
}

impl<T: Numeric> Number<T> {
    /// Whether the term is valid.
    pub fn is_valid(&self) -> (b: bool)
        ensures
            b == self@.valid(),
    {
        match self {
            Number::Single(_) => true,
            Number::Range(start, step, end) => {
                let start: Wide = start.to_wide();
                let step: Wide = step.to_wide();
                let end: Wide = end.to_wide();
                (start.le(&end) && step.is_positive()) || (end.le(&start) && step.is_negative())
            },
        }
    }

    /// Whether the term is not valid.
    pub fn is_invalid(&self) -> (b: bool)
        ensures
            b == !self@.valid(),
    {
        !self.is_valid()
    }

    /// The first value of the term, as if it were valid.
    pub fn first(&self) -> (value: T)
        ensures
            value.as_int() == self@.head(),
    {
        match self {
            Number::Single(v) => *v,
            Number::Range(start, _, _) => *start,
        }
    }

    /// What is left of the term once its first value is taken.
    pub fn advance(&self) -> (next: Option<Number<T>>)
        ensures
            next matches Some(term) ==> self@.rest() == Some(term@),
            next is None ==> self@.rest() is None,
    {
        match self {
            Number::Single(_) => None,
            Number::Range(start, step, end) => {
                proof {
                    T::lemma_limits();
                    start.lemma_bounded();
                    step.lemma_bounded();
                    end.lemma_bounded();
                }
                let moved: Wide = match start.to_wide().sum(&step.to_wide()) {
                    Some(sum) => sum,
                    None => {
                        return None;
                    },
                };
                match T::from_wide(moved) {
                    Some(first) => {
                        let term: Number<T> = Number::Range(first, *step, *end);
                        if term.is_valid() {
                            Some(term)
                        } else {
                            None
                        }
                    },
                    None => None,
                }
            },
        }
    }
}

} // verus!
