//! The densification engine: turns a sparse, sorted measurement series into
//! a gap-free day-by-day series over a requested range.
//!
//! Days strictly before the first measurement produce nothing (the series has
//! no value before its first observation). Days between two measurements are
//! linearly interpolated between them; days after the last measurement repeat
//! its value (forward-fill). The contract pins the output to `densified`.

use vstd::prelude::*;
use crate::date::Date;
use crate::series::{
    dates_strictly_increasing, dates_within, densified, interp_value, point_at, prev_index,
    DensifiedPoint, Error, Measurement, MAX_RANGE_DAYS,
};
use crate::series::{
    lemma_interp_bounds, lemma_prev_index_at_least, lemma_prev_index_before_first,
    lemma_prev_index_bounds, lemma_prev_index_locates,
};

verus! {

/// The value of the linear segment from `(d0, v0)` to `(d1, v1)` on day `d`,
/// rounded toward negative infinity.
fn interpolate(d0: i64, v0: i64, d1: i64, v1: i64, d: i64) -> (r: i64)
    requires
        d0 <= d <= d1,
        d0 < d1,
        d1 - d0 <= MAX_RANGE_DAYS,
    ensures
        r as int == interp_value(d0 as int, v0 as int, d1 as int, v1 as int, d as int),
{
    proof {
        lemma_interp_bounds(d0 as int, v0 as int, d1 as int, v1 as int, d as int);
    }
    let e: i128 = (d as i128) - (d0 as i128);
    let g: i128 = (d1 as i128) - (d0 as i128);
    let dv: i128 = (v1 as i128) - (v0 as i128);
    assert(-3689348814741910323000000000 <= e * dv <= 3689348814741910323000000000)
        by (nonlinear_arith)
        requires
            0 <= e <= 200_000_000,
            -18446744073709551615 <= dv <= 18446744073709551615,
    ;
    let num: i128 = e * dv;
    let q: i128 = match num.checked_div_euclid(g) {
        Some(q) => q,
        None => 0,  // cannot happen: the divisor is positive
    };
    (v0 as i128 + q) as i64
}

/// Produces the gap-free day-by-day series over `[start_date, end_date]`:
/// nothing for the days before the first measurement, the measured value on
/// a measurement's own day (`observed` set), linear interpolation strictly
/// between two measurements, and the last measured value after the last one.
///
/// The measurements must be sorted ascending by date, without duplicate
/// dates, and lie within the range, as the store's range read returns them.
/// Fails with `InvalidRange` exactly when the range is reversed.
pub fn densify(measurements: &Vec<Measurement>, start_date: Date, end_date: Date) -> (r: Result<
    Vec<DensifiedPoint>,
    Error,
>)
    requires
        dates_strictly_increasing(measurements@),
        dates_within(measurements@, start_date@, end_date@),
        end_date@ < i64::MAX,
        end_date@ - start_date@ <= MAX_RANGE_DAYS,
    ensures
        r is Ok <==> start_date@ <= end_date@,
        (r matches Ok(out) ==> out@ == densified(measurements@, end_date@)),
        (r matches Err(e) ==> e == (Error::InvalidRange { start_date, end_date })),
{
    if start_date.day > end_date.day {
        return Err(Error::InvalidRange { start_date, end_date });
    }
    let ghost ms = measurements@;
    let mut out: Vec<DensifiedPoint> = Vec::new();
    if measurements.len() == 0 {
        assert(out@ =~= densified(ms, end_date@));
        return Ok(out);
    }
    let first: i64 = measurements[0].date.day;
    let mut day: i64 = first;
    let mut k: usize = 0;
    proof {
        lemma_prev_index_before_first(ms, first - 1);
    }
    while day <= end_date.day
        invariant
            dates_strictly_increasing(ms),
            dates_within(ms, start_date@, end_date@),
            ms == measurements@,
            ms.len() > 0,
            first == ms[0].date@,
            end_date@ < i64::MAX,
            end_date@ - start_date@ <= MAX_RANGE_DAYS,
            start_date@ <= first && first <= day && day <= end_date@ + 1,
            k <= ms.len(),
            k as int == prev_index(ms, day - 1) + 1,
            out@.len() == day - first,
            forall|i: int| 0 <= i < out@.len() ==> out@[i] == point_at(ms, first + i),
        decreases end_date@ + 1 - day,
    {
        let has_observation = k < measurements.len() && measurements[k].date.day == day;
        if has_observation {
            proof {
                lemma_prev_index_locates(ms, day as int, k as int);
            }
            out.push(
                DensifiedPoint { date: Date { day }, value: measurements[k].value, observed: true },
            );
            k = k + 1;
        } else {
            proof {
                if k < ms.len() && ms[k as int].date@ <= day - 1 {
                    lemma_prev_index_at_least(ms, day - 1, k as int);
                }
                if k == 0 {
                    if first < day {
                        lemma_prev_index_at_least(ms, day - 1, 0);
                    }
                    assert(false);
                }
                lemma_prev_index_bounds(ms, day - 1);
                lemma_prev_index_locates(ms, day as int, k - 1);
            }
            if k < measurements.len() {
                let anchor = measurements[k - 1];
                let next = measurements[k];
                let v = interpolate(anchor.date.day, anchor.value, next.date.day, next.value, day);
                out.push(DensifiedPoint { date: Date { day }, value: v, observed: false });
            } else {
                let anchor = measurements[k - 1];
                out.push(
                    DensifiedPoint { date: Date { day }, value: anchor.value, observed: false },
                );
            }
        }
        day = day + 1;
    }
    proof {
        assert(out@ =~= densified(ms, end_date@));
    }
    Ok(out)
}

} // verus!
