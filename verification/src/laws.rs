//! Laws of the densification engine, stated and proved once and for all:
//! the observed points of a densified series reproduce the measurements
//! exactly; a series whose measurements reach back to the start of the range
//! covers the range day by day; and the value midway between two
//! measurements is the mean of their values.

use vstd::prelude::*;
use vstd::arithmetic::div_mod::{lemma_fundamental_div_mod, lemma_fundamental_div_mod_converse};
use crate::series::{
    dates_strictly_increasing, densified, interp_value, observed_at, point_at, prev_index,
    value_at, DensifiedPoint, Measurement,
};
use crate::series::{
    lemma_prev_index_at_least, lemma_prev_index_bounds, lemma_prev_index_locates,
};

verus! {

/// The measurements a densified series exhibits: its observed points, in
/// order, read back as measurements.
pub open spec fn observed_points(ds: Seq<DensifiedPoint>) -> Seq<Measurement>
    decreases ds.len(),
{
    if ds.len() == 0 {
        Seq::empty()
    } else {
        let rest = observed_points(ds.drop_last());
        if ds.last().observed {
            rest.push(Measurement { date: ds.last().date, value: ds.last().value })
        } else {
            rest
        }
    }
}

/// The observed points of the densified series up to day `end` are the
/// measurements dated up to `end`, exactly and in order.
proof fn lemma_observed_prefix(ms: Seq<Measurement>, end: int)
    requires
        dates_strictly_increasing(ms),
        ms.len() > 0,
        ms[0].date@ <= end,
    ensures
        observed_points(densified(ms, end)) == ms.take(prev_index(ms, end) + 1),
    decreases end - ms[0].date@,
{
    let f = ms[0].date@;
    let ds = densified(ms, end);
    lemma_prev_index_bounds(ms, end);
    lemma_prev_index_at_least(ms, end, 0);
    let j = prev_index(ms, end);
    if end == f {
        lemma_prev_index_locates(ms, end, 0);
        assert(ds.len() == 1);
        assert(ds.drop_last() =~= Seq::<DensifiedPoint>::empty());
        assert(observed_points(Seq::<DensifiedPoint>::empty()) == Seq::<Measurement>::empty());
        assert(ds.last() == point_at(ms, f));
        assert(observed_at(ms, f));
        assert(ds.last().date == ms[0].date);
        assert(ds.last().value == ms[0].value);
        assert(observed_points(ds) == Seq::<Measurement>::empty().push(ms[0]));
        assert(Seq::<Measurement>::empty().push(ms[0]) =~= ms.take(1));
    } else {
        let prev_ds = densified(ms, end - 1);
        lemma_observed_prefix(ms, end - 1);
        let p_end = point_at(ms, end);
        assert(ds.drop_last() =~= prev_ds);
        assert(ds.last() == p_end);
        let j1 = prev_index(ms, end - 1);
        if observed_at(ms, end) {
            assert(ms[j].date@ == end);
            assert(j >= 1);
            lemma_prev_index_locates(ms, end - 1, j - 1);
            assert(j1 == j - 1);
            assert(p_end.date == ms[j].date);
            assert(p_end.value == ms[j].value);
            assert(observed_points(ds) == ms.take(j).push(ms[j]));
            assert(ms.take(j).push(ms[j]) =~= ms.take(j + 1));
        } else {
            assert(ms[j].date@ <= end - 1);
            lemma_prev_index_at_least(ms, end - 1, j);
            lemma_prev_index_bounds(ms, end - 1);
            if j1 > j {
                assert(ms[j1].date@ <= end);
                lemma_prev_index_at_least(ms, end, j1);
                assert(false);
            }
            assert(j1 == j);
            assert(observed_points(ds) == observed_points(prev_ds));
        }
    }
}

/// Law: for a non-empty, sorted measurement series whose dates reach no
/// further than `end`, the observed points of the densified series are
/// exactly the measurements, with the same dates and values, in order.
pub proof fn lemma_observed_points_are_the_measurements(ms: Seq<Measurement>, end: int)
    requires
        dates_strictly_increasing(ms),
        ms.len() > 0,
        forall|i: int| 0 <= i < ms.len() ==> #[trigger] ms[i].date@ <= end,
    ensures
        observed_points(densified(ms, end)) == ms,
{
    lemma_observed_prefix(ms, end);
    lemma_prev_index_locates(ms, end, ms.len() - 1);
    assert(ms.take(ms.len() as int) =~= ms);
}

/// Law: when the first measurement falls on the first day of the range, the
/// densified series holds exactly one point per day of the range.
pub proof fn lemma_densified_covers_range(ms: Seq<Measurement>, start: int, end: int)
    requires
        ms.len() > 0,
        ms[0].date@ == start,
        start <= end,
    ensures
        densified(ms, end).len() == end - start + 1,
{
}

/// Law: between two measurements an even number of days apart, the densified
/// value on the midpoint day is the mean of the two values, rounded toward
/// negative infinity when their sum is odd.
pub proof fn lemma_midpoint_interpolation(m0: Measurement, m1: Measurement)
    requires
        m0.date@ < m1.date@,
        (m1.date@ - m0.date@) % 2 == 0,
    ensures
        value_at(seq![m0, m1], (m0.date@ + m1.date@) / 2) == (m0.value + m1.value) / 2,
{
    let d0 = m0.date@;
    let d1 = m1.date@;
    let v0 = m0.value as int;
    let v1 = m1.value as int;
    let g = d1 - d0;
    let h = g / 2;
    lemma_fundamental_div_mod(g, 2);
    assert(g == 2 * h);
    assert(h >= 1);
    lemma_fundamental_div_mod_converse(d0 + d1, 2, d0 + h, 0);
    let mid = (d0 + d1) / 2;
    assert(mid == d0 + h);
    let ms = seq![m0, m1];
    assert(ms[0] == m0 && ms[1] == m1);
    assert(dates_strictly_increasing(ms));
    lemma_prev_index_locates(ms, mid, 0);
    assert(value_at(ms, mid) == interp_value(d0, v0, d1, v1, mid));
    let dv = v1 - v0;
    lemma_fundamental_div_mod(dv, 2);
    let q = dv / 2;
    let r = dv % 2;
    assert(h * dv == q * g + h * r) by (nonlinear_arith)
        requires
            dv == 2 * q + r,
            g == 2 * h,
    ;
    assert(0 <= h * r < g) by (nonlinear_arith)
        requires
            0 <= r < 2,
            g == 2 * h,
            h >= 1,
    ;
    lemma_fundamental_div_mod_converse(h * dv, g, q, h * r);
    assert((h * dv) / g == q);
    assert(v0 + v1 == (v0 + q) * 2 + r);
    lemma_fundamental_div_mod_converse(v0 + v1, 2, v0 + q, r);
}

} // verus!
