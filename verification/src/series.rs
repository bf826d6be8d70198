//! The data model of the series engines, and the mathematical description of
//! a densified series.
//!
//! `value_at(ms, d)` gives the value a densified series holds on day `d`:
//! the measured value when `d` carries a measurement, the linear
//! interpolation between the two measurements around `d` when `d` lies
//! strictly between two of them, and the last measured value (forward-fill)
//! when `d` lies after the last one. The engines' contracts are stated over
//! `value_at`, `observed_at` and `window_sum`.

use vstd::prelude::*;
use vstd::arithmetic::div_mod::{
    lemma_div_is_ordered, lemma_div_nonincreasing, lemma_div_pos_is_pos,
    lemma_fundamental_div_mod_converse,
};
use crate::date::Date;

verus! {

/// The widest supported query range, in days. It spans more than every pair
/// of dates chrono can represent, so it does not restrict calendar input; it
/// keeps the interpolation arithmetic inside `i128`.
pub const MAX_RANGE_DAYS: i64 = 200_000_000;

/// One raw observation: a value measured on a calendar date. The value is a
/// plain integer scalar; a caller chooses the fixed-point scale.
#[derive(Clone, Copy, Debug, PartialEq, Eq, Structural)]
pub struct Measurement {
    pub date: Date,
    pub value: i64,
}

/// One day of a densified series. `observed` is true exactly when the value
/// is a real measurement of that day, false when it was interpolated or
/// forward-filled.
#[derive(Clone, Copy, Debug, PartialEq, Eq, Structural)]
pub struct DensifiedPoint {
    pub date: Date,
    pub value: i64,
    pub observed: bool,
}

/// One day of a rolling-average series: the exact sum over the trailing
/// window and the number of days the window actually held, so that no
/// precision is lost. `average` divides the two.
#[derive(Clone, Copy, Debug, PartialEq, Eq, Structural)]
pub struct AveragePoint {
    pub date: Date,
    pub sum: i128,
    pub count: u32,
}

/// The ways a range query can fail.
#[derive(Clone, Copy, Debug, PartialEq, Eq, Structural)]
pub enum Error {
    /// The requested range starts after it ends.
    InvalidRange { start_date: Date, end_date: Date },
    /// The requested window size lies outside `[1, MAX_WINDOW_DAYS]`.
    InvalidWindow { window_days: u32 },
    /// The measurement store could not be read. Never produced by the
    /// engines themselves; a store adapter maps its read failures to it.
    StoreUnavailable,
}

/// The measurements' dates strictly increase: sorted ascending, no duplicate
/// date.
pub open spec fn dates_strictly_increasing(ms: Seq<Measurement>) -> bool {
    forall|i: int, j: int| 0 <= i < j < ms.len() ==> ms[i].date@ < ms[j].date@
}

/// Every measurement's date lies in `[start, end]`.
pub open spec fn dates_within(ms: Seq<Measurement>, start: int, end: int) -> bool {
    forall|i: int| 0 <= i < ms.len() ==> start <= #[trigger] ms[i].date@ <= end
}

/// The index of the last measurement dated at or before day `d`, or `-1`
/// when every measurement comes after `d`.
pub open spec fn prev_index(ms: Seq<Measurement>, d: int) -> int
    decreases ms.len(),
{
    if ms.len() == 0 {
        -1
    } else if ms[ms.len() - 1].date@ <= d {
        ms.len() - 1
    } else {
        prev_index(ms.drop_last(), d)
    }
}

/// The value of the linear segment from `(d0, v0)` to `(d1, v1)` on day `d`,
/// rounded toward negative infinity.
pub open spec fn interp_value(d0: int, v0: int, d1: int, v1: int, d: int) -> int {
    v0 + ((d - d0) * (v1 - v0)) / (d1 - d0)
}

/// Whether day `d` carries a real measurement.
pub open spec fn observed_at(ms: Seq<Measurement>, d: int) -> bool {
    let j = prev_index(ms, d);
    j >= 0 && ms[j].date@ == d
}

/// The value a densified series holds on day `d` (meaningful for `d` between
/// the first measurement's date and the end of the range).
pub open spec fn value_at(ms: Seq<Measurement>, d: int) -> int {
    let j = prev_index(ms, d);
    if 0 <= j && j + 1 < ms.len() && ms[j].date@ < d {
        interp_value(ms[j].date@, ms[j].value as int, ms[j + 1].date@, ms[j + 1].value as int, d)
    } else {
        ms[j].value as int
    }
}

/// The densified point of day `d`.
pub open spec fn point_at(ms: Seq<Measurement>, d: int) -> DensifiedPoint {
    DensifiedPoint {
        date: (Date { day: d as i64 }),
        value: value_at(ms, d) as i64,
        observed: observed_at(ms, d),
    }
}

/// The whole densified series of `ms` up to day `end`: one point per day
/// from the first measurement's date through `end`, and empty when there are
/// no measurements.
pub open spec fn densified(ms: Seq<Measurement>, end: int) -> Seq<DensifiedPoint> {
    if ms.len() == 0 {
        Seq::empty()
    } else {
        Seq::new((end - ms[0].date@ + 1) as nat, |i: int| point_at(ms, ms[0].date@ + i))
    }
}

/// The sum of the densified values over the days `lo..=hi`.
pub open spec fn window_sum(ms: Seq<Measurement>, lo: int, hi: int) -> int
    decreases hi - lo + 1,
{
    if lo > hi {
        0
    } else {
        window_sum(ms, lo, hi - 1) + value_at(ms, hi)
    }
}

impl AveragePoint {
    /// The window average, rounded toward negative infinity.
    pub fn average(&self) -> (r: i128)
        requires
            self.count > 0,
        ensures
            r == self.sum as int / self.count as int,
    {
        proof {
            let s = self.sum as int;
            let c = self.count as int;
            if s >= 0 {
                lemma_div_pos_is_pos(s, c);
                lemma_div_nonincreasing(s, c);
            } else {
                lemma_div_is_ordered(s, 0, c);
                assert(0int / c == 0) by {
                    lemma_fundamental_div_mod_converse(0, c, 0, 0);
                }
                assert(s * c <= s) by (nonlinear_arith)
                    requires
                        s < 0,
                        c >= 1,
                ;
                assert((s * c) / c == s) by {
                    lemma_fundamental_div_mod_converse(s * c, c, s, 0);
                }
                lemma_div_is_ordered(s * c, s, c);
            }
        }
        match self.sum.checked_div_euclid(self.count as i128) {
            Some(q) => q,
            None => 0,  // cannot happen: the divisor is positive
        }
    }
}

/// An interpolated value stays between the two anchor values.
pub proof fn lemma_interp_bounds(d0: int, v0: int, d1: int, v1: int, d: int)
    requires
        d0 <= d <= d1,
        d0 < d1,
    ensures
        v0 <= v1 ==> v0 <= interp_value(d0, v0, d1, v1, d) <= v1,
        v1 <= v0 ==> v1 <= interp_value(d0, v0, d1, v1, d) <= v0,
{
    let e = d - d0;
    let g = d1 - d0;
    let dv = v1 - v0;
    assert(dv * g == dv * g + 0);
    lemma_fundamental_div_mod_converse(dv * g, g, dv, 0);
    if dv >= 0 {
        assert(0 <= e * dv && e * dv <= dv * g) by (nonlinear_arith)
            requires
                0 <= e,
                e <= g,
                0 <= dv,
        ;
        lemma_div_pos_is_pos(e * dv, g);
        lemma_div_is_ordered(e * dv, dv * g, g);
    } else {
        assert(dv * g <= e * dv && e * dv <= 0) by (nonlinear_arith)
            requires
                0 <= e,
                e <= g,
                dv < 0,
        ;
        lemma_div_is_ordered(dv * g, e * dv, g);
        lemma_div_is_ordered(e * dv, 0, g);
        assert(0int / g == 0) by {
            lemma_fundamental_div_mod_converse(0, g, 0, 0);
        }
    }
}

/// `prev_index` stays within `[-1, ms.len())`, and a non-negative result
/// points at a measurement dated at or before `d`.
pub proof fn lemma_prev_index_bounds(ms: Seq<Measurement>, d: int)
    ensures
        -1 <= prev_index(ms, d) < ms.len(),
        prev_index(ms, d) >= 0 ==> ms[prev_index(ms, d)].date@ <= d,
    decreases ms.len(),
{
    if ms.len() > 0 && ms[ms.len() - 1].date@ > d {
        lemma_prev_index_bounds(ms.drop_last(), d);
    }
}

/// On a sorted series, `prev_index` finds exactly the measurement whose date
/// reaches `d` while the next one (if any) lies beyond it.
pub proof fn lemma_prev_index_locates(ms: Seq<Measurement>, d: int, j: int)
    requires
        dates_strictly_increasing(ms),
        0 <= j < ms.len(),
        ms[j].date@ <= d,
        j == ms.len() - 1 || ms[j + 1].date@ > d,
    ensures
        prev_index(ms, d) == j,
    decreases ms.len(),
{
    if j == ms.len() - 1 {
    } else {
        assert(ms[j + 1].date@ <= ms[ms.len() - 1].date@);
        let rest = ms.drop_last();
        assert(rest[j] == ms[j]);
        assert(j == rest.len() - 1 || rest[j + 1] == ms[j + 1]);
        lemma_prev_index_locates(rest, d, j);
    }
}

/// On a sorted series, a measurement dated at or before `d` bounds
/// `prev_index` from below.
pub proof fn lemma_prev_index_at_least(ms: Seq<Measurement>, d: int, i: int)
    requires
        dates_strictly_increasing(ms),
        0 <= i < ms.len(),
        ms[i].date@ <= d,
    ensures
        prev_index(ms, d) >= i,
    decreases ms.len(),
{
    if ms[ms.len() - 1].date@ <= d {
    } else {
        let rest = ms.drop_last();
        assert(rest[i] == ms[i]);
        lemma_prev_index_at_least(rest, d, i);
    }
}

/// On a sorted series, the measurement after `prev_index` (when there is
/// one) is dated strictly after `d`.
pub proof fn lemma_prev_index_next_after(ms: Seq<Measurement>, d: int)
    requires
        dates_strictly_increasing(ms),
        0 <= prev_index(ms, d) < ms.len() - 1,
    ensures
        ms[prev_index(ms, d) + 1].date@ > d,
{
    let j = prev_index(ms, d);
    if ms[j + 1].date@ <= d {
        lemma_prev_index_at_least(ms, d, j + 1);
    }
}

/// On a sorted series, the value of every day at or after the first
/// measurement's date fits in an `i64`: it is either a measured value or an
/// interpolation between two of them.
pub proof fn lemma_value_at_in_range(ms: Seq<Measurement>, d: int)
    requires
        dates_strictly_increasing(ms),
        ms.len() > 0,
        ms[0].date@ <= d,
    ensures
        i64::MIN <= value_at(ms, d) <= i64::MAX,
{
    lemma_prev_index_at_least(ms, d, 0);
    lemma_prev_index_bounds(ms, d);
    let j = prev_index(ms, d);
    if 0 <= j && j + 1 < ms.len() && ms[j].date@ < d {
        lemma_prev_index_next_after(ms, d);
        lemma_interp_bounds(
            ms[j].date@,
            ms[j].value as int,
            ms[j + 1].date@,
            ms[j + 1].value as int,
            d,
        );
    }
}

/// Before the first measurement of a sorted series, `prev_index` is `-1`.
pub proof fn lemma_prev_index_before_first(ms: Seq<Measurement>, d: int)
    requires
        dates_strictly_increasing(ms),
        ms.len() > 0 ==> d < ms[0].date@,
    ensures
        prev_index(ms, d) == -1,
    decreases ms.len(),
{
    if ms.len() > 0 {
        assert(ms[0].date@ <= ms[ms.len() - 1].date@);
        let rest = ms.drop_last();
        if rest.len() > 0 {
            assert(rest[0] == ms[0]);
        }
        lemma_prev_index_before_first(rest, d);
    }
}

} // verus!
