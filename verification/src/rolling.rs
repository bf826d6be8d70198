//! The rolling-average engine: one trailing-window average per day of a
//! requested range, computed over the densified series.
//!
//! To give the first days of the range their full look-back, the series is
//! densified over the range extended back by `window_days - 1` days. A day
//! whose trailing window reaches no densified value (every day before the
//! first measurement) produces nothing; a window that holds fewer days than
//! `window_days` (right after the first measurement) averages over the days
//! it actually holds. Each output point carries the exact window sum and
//! that day count, so no precision is lost.

use vstd::prelude::*;
use crate::date::Date;
use crate::densify::densify;
use crate::series::{
    dates_strictly_increasing, dates_within, densified, point_at, window_sum, AveragePoint,
    DensifiedPoint, Error, Measurement, MAX_RANGE_DAYS,
};
use crate::series::lemma_value_at_in_range;

verus! {

/// The widest supported averaging window, in days.
pub const MAX_WINDOW_DAYS: u32 = 7;

/// The rolling-average point of day `d`: the sum of the densified values
/// over the trailing window of up to `w` days ending on `d`, clipped to the
/// days at or after the first measurement, and the number of days summed.
pub open spec fn average_point_at(ms: Seq<Measurement>, w: int, d: int) -> AveragePoint {
    let f = ms[0].date@;
    let lo = if d - (w - 1) >= f {
        d - (w - 1)
    } else {
        f
    };
    AveragePoint {
        date: (Date { day: d as i64 }),
        sum: window_sum(ms, lo, d) as i128,
        count: (d - lo + 1) as u32,
    }
}

/// The whole rolling-average series of window `w` over `[start, end]`: one
/// point per day from the first day at or after `start` whose window holds a
/// value (the first measurement's date, if it comes later) through `end`,
/// and empty when there are no measurements.
pub open spec fn rolling_averages(ms: Seq<Measurement>, w: int, start: int, end: int) -> Seq<
    AveragePoint,
> {
    if ms.len() == 0 {
        Seq::empty()
    } else {
        let f = ms[0].date@;
        let lo_day = if start >= f {
            start
        } else {
            f
        };
        Seq::new((end - lo_day + 1) as nat, |i: int| average_point_at(ms, w, lo_day + i))
    }
}

/// The sum of the values of points `lo..=hi` of a densified series.
spec fn point_sum(ps: Seq<DensifiedPoint>, lo: int, hi: int) -> int
    decreases hi - lo + 1,
{
    if lo > hi {
        0
    } else {
        point_sum(ps, lo, hi - 1) + ps[hi].value
    }
}

proof fn lemma_point_sum_bounds(ps: Seq<DensifiedPoint>, lo: int, hi: int)
    ensures
        lo > hi ==> point_sum(ps, lo, hi) == 0,
        lo <= hi ==> -(hi - lo + 1) * 0x8000_0000_0000_0000 <= point_sum(ps, lo, hi) <= (hi - lo
            + 1) * 0x8000_0000_0000_0000,
    decreases hi - lo + 1,
{
    if lo <= hi {
        lemma_point_sum_bounds(ps, lo, hi - 1);
    }
}

proof fn lemma_point_sum_front(ps: Seq<DensifiedPoint>, lo: int, hi: int)
    requires
        lo <= hi,
    ensures
        point_sum(ps, lo, hi) == ps[lo].value + point_sum(ps, lo + 1, hi),
    decreases hi - lo,
{
    if lo == hi {
        assert(point_sum(ps, lo, hi - 1) == 0);
        assert(point_sum(ps, lo + 1, hi) == 0);
    } else {
        lemma_point_sum_front(ps, lo, hi - 1);
        assert(point_sum(ps, lo + 1, hi) == point_sum(ps, lo + 1, hi - 1) + ps[hi].value);
    }
}

/// A block sum over a densified series equals the day-based window sum.
proof fn lemma_point_sum_matches(ms: Seq<Measurement>, end: int, lo: int, hi: int)
    requires
        dates_strictly_increasing(ms),
        ms.len() > 0,
        0 <= lo,
        hi < densified(ms, end).len(),
    ensures
        point_sum(densified(ms, end), lo, hi) == window_sum(
            ms,
            ms[0].date@ + lo,
            ms[0].date@ + hi,
        ),
    decreases hi - lo + 1,
{
    let f = ms[0].date@;
    if lo <= hi {
        lemma_point_sum_matches(ms, end, lo, hi - 1);
        lemma_value_at_in_range(ms, f + hi);
        assert(densified(ms, end)[hi] == point_at(ms, f + hi));
    }
}

/// Produces one trailing-window average per day of `[start_date, end_date]`
/// whose window holds at least one densified value.
///
/// The measurements must be sorted ascending by date, without duplicate
/// dates, and lie within the range extended back by `window_days - 1` days,
/// as the store's range read over the extended range returns them. Fails
/// with `InvalidWindow` exactly when `window_days` lies outside
/// `[1, MAX_WINDOW_DAYS]`, and otherwise with `InvalidRange` exactly when
/// the range is reversed.
pub fn rolling_average(
    measurements: &Vec<Measurement>,
    start_date: Date,
    end_date: Date,
    window_days: u32,
) -> (r: Result<Vec<AveragePoint>, Error>)
    requires
        dates_strictly_increasing(measurements@),
        (1 <= window_days <= MAX_WINDOW_DAYS && start_date@ <= end_date@) ==> dates_within(
            measurements@,
            start_date@ - (window_days - 1),
            end_date@,
        ),
        end_date@ < i64::MAX,
        i64::MIN + MAX_WINDOW_DAYS <= start_date@,
        end_date@ - start_date@ + MAX_WINDOW_DAYS <= MAX_RANGE_DAYS,
    ensures
        r is Ok <==> (1 <= window_days <= MAX_WINDOW_DAYS && start_date@ <= end_date@),
        (r matches Ok(out) ==> out@ == rolling_averages(
            measurements@,
            window_days as int,
            start_date@,
            end_date@,
        )),
        (r matches Err(e) ==> (if window_days < 1 || window_days > MAX_WINDOW_DAYS {
            e == (Error::InvalidWindow { window_days })
        } else {
            e == (Error::InvalidRange { start_date, end_date })
        })),
{
    if window_days < 1 || window_days > MAX_WINDOW_DAYS {
        return Err(Error::InvalidWindow { window_days });
    }
    if start_date.day > end_date.day {
        return Err(Error::InvalidRange { start_date, end_date });
    }
    let ghost ms = measurements@;
    if measurements.len() == 0 {
        let out: Vec<AveragePoint> = Vec::new();
        assert(out@ =~= rolling_averages(ms, window_days as int, start_date@, end_date@));
        return Ok(out);
    }
    let ext_start = Date { day: start_date.day - (window_days - 1) as i64 };
    assert(ext_start@ <= ms[0].date@ <= end_date@);
    let dense = match densify(measurements, ext_start, end_date) {
        Ok(dense) => dense,
        Err(e) => {
            proof {
                assert(false);
            }
            return Err(e);
        },
    };
    let ghost f = ms[0].date@;
    let ghost dn = dense@;
    let ghost w_int = window_days as int;
    let ghost lo_idx: int = if start_date@ - f >= 0 {
        start_date@ - f
    } else {
        0
    };
    let w: usize = window_days as usize;
    let mut out: Vec<AveragePoint> = Vec::new();
    let mut sum: i128 = 0;
    let mut i: usize = 0;
    while i < dense.len()
        invariant
            dates_strictly_increasing(ms),
            ms == measurements@,
            ms.len() > 0,
            f == ms[0].date@,
            dn == dense@,
            dn == densified(ms, end_date@),
            f <= end_date@,
            dn.len() == end_date@ - f + 1,
            1 <= window_days <= MAX_WINDOW_DAYS,
            w == window_days,
            w_int == window_days as int,
            start_date@ <= end_date@,
            lo_idx == (if start_date@ - f >= 0 {
                start_date@ - f
            } else {
                0
            }),
            0 <= lo_idx < dn.len(),
            i <= dn.len(),
            sum as int == point_sum(
                dn,
                if i >= w {
                    i - w
                } else {
                    0
                },
                i - 1,
            ),
            out@.len() == (if i as int >= lo_idx {
                i - lo_idx
            } else {
                0
            }),
            forall|t: int|
                0 <= t < out@.len() ==> out@[t] == average_point_at(ms, w_int, f + lo_idx + t),
        decreases dn.len() - i,
    {
        let ghost lo_cur: int = if i >= w {
            i - w
        } else {
            0
        };
        proof {
            lemma_point_sum_bounds(dn, lo_cur, i - 1);
            lemma_value_at_in_range(ms, f + i);
            assert(dn[i as int] == point_at(ms, f + i));
        }
        let v = dense[i].value;
        sum = sum + (v as i128);
        if i >= w {
            proof {
                lemma_value_at_in_range(ms, f + i - w);
                assert(dn[i - w] == point_at(ms, f + i - w));
                lemma_point_sum_front(dn, i - w, i as int);
                lemma_point_sum_bounds(dn, i - w, i as int);
            }
            let u = dense[i - w].value;
            sum = sum - (u as i128);
        }
        let ghost lo_new: int = if i + 1 >= w {
            i + 1 - w
        } else {
            0
        };
        assert(sum as int == point_sum(dn, lo_new, i as int));
        let date_i = dense[i].date;
        if date_i.day >= start_date.day {
            let count: u32 = if i + 1 >= w {
                window_days
            } else {
                (i + 1) as u32
            };
            proof {
                lemma_point_sum_matches(ms, end_date@, lo_new, i as int);
            }
            out.push(AveragePoint { date: date_i, sum, count });
            assert(out@.last() == average_point_at(ms, w_int, f + i));
        }
        i = i + 1;
    }
    proof {
        assert(out@ =~= rolling_averages(ms, w_int, start_date@, end_date@));
    }
    Ok(out)
}

} // verus!
