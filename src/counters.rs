//! Counter groups: a cumulative series with its daily, weekly and
//! previous-week views.

use vstd::prelude::*;

use crate::calendar::Date;
use crate::series::{prefix_sum, Counters, TimeSeries, TimeSeriesKey};
use crate::views::{day_plus, value_at, Diff, TimeMap, ViewTimeSeries};

verus! {

/// A cumulative counter store; its views read it from a list of stores.
pub struct CounterGroup<K> {
    pub cum: Counters<K>,
}

impl<K: TimeSeriesKey> CounterGroup<K> {
    pub fn from_cum(cum: Counters<K>) -> (r: Self)
        ensures
            r.cum == cum,
    {
        CounterGroup { cum }
    }

    /// The group of daily counts `d1`: their running totals; `None` where a
    /// total would exceed `u64`.
    pub fn from_d1(d1: Counters<K>) -> (r: Option<Self>)
        requires
            d1.wf(),
        ensures
            r.is_some() == (forall|j: int| 0 <= j < d1.row_seq().len()
                ==> prefix_sum(#[trigger] d1.row_seq()[j], d1.slots() as int) <= u64::MAX),
            r.is_some() ==> ({
                let c = r.unwrap().cum;
                &&& c.wf()
                &&& c.start_day() == d1.start_day()
                &&& c.slots() == d1.slots()
                &&& c.key_seq() == d1.key_seq()
                &&& c.row_seq().len() == d1.row_seq().len()
                &&& forall|j: int| 0 <= j < d1.row_seq().len()
                    ==> crate::series::ints(#[trigger] c.row_seq()[j]) == crate::series::cumulated(d1.row_seq()[j])
            }),
    {
        if !d1.cumsum_fits() {
            return None;
        }
        let mut cum = d1;
        cum.cumsum();
        Some(CounterGroup { cum })
    }

    /// The group of trailing seven-day sums `d7`: unrolled to daily counts,
    /// then cumulated; `None` where a value would exceed `u64`.
    pub fn from_d7(d7: Counters<K>) -> (r: Option<Self>)
        requires
            d7.wf(),
        ensures
            r.is_some() ==> ({
                let c = r.unwrap().cum;
                &&& c.wf()
                &&& c.start_day() == d7.start_day()
                &&& c.slots() == d7.slots()
                &&& c.key_seq() == d7.key_seq()
                &&& c.row_seq().len() == d7.row_seq().len()
                &&& forall|j: int| 0 <= j < d7.row_seq().len()
                    ==> crate::series::ints(#[trigger] c.row_seq()[j])
                        == crate::series::cumulated_ints(crate::series::unrolled_seq(d7.row_seq()[j], 7))
            }),
            r.is_some() == (forall|j: int| 0 <= j < d7.row_seq().len()
                ==> crate::series::unroll_fits(#[trigger] d7.row_seq()[j], 7)
                && crate::series::int_sum(crate::series::unrolled_seq(d7.row_seq()[j], 7), d7.slots() as int) <= u64::MAX),
    {
        let d1 = match d7.unrolled(7) {
            Some(d1) => d1,
            None => { return None; },
        };
        proof {
            d1.lemma_wf_rows();
            assert forall|j: int| 0 <= j < d1.row_seq().len() implies
                prefix_sum(#[trigger] d1.row_seq()[j], d1.slots() as int)
                    == crate::series::int_sum(crate::series::unrolled_seq(d7.row_seq()[j], 7), d7.slots() as int) by {
                crate::series::lemma_prefix_sum_ints(d1.row_seq()[j], d1.slots() as int);
            }
            assert forall|j: int| 0 <= j < d1.row_seq().len() implies
                crate::series::cumulated(#[trigger] d1.row_seq()[j]) == crate::series::cumulated_ints(crate::series::unrolled_seq(d7.row_seq()[j], 7)) by {
                crate::series::lemma_cumulated_ints(d1.row_seq()[j]);
            }
        }
        let r = Self::from_d1(d1);
        proof {
            let n = d7.row_seq().len();
            assert(d1.row_seq().len() == n);
            let a = forall|j: int| 0 <= j < d1.row_seq().len()
                ==> prefix_sum(#[trigger] d1.row_seq()[j], d1.slots() as int) <= u64::MAX;
            let b = forall|j: int| 0 <= j < n
                ==> crate::series::unroll_fits(#[trigger] d7.row_seq()[j], 7)
                && crate::series::int_sum(crate::series::unrolled_seq(d7.row_seq()[j], 7), d7.slots() as int) <= u64::MAX;
            if a {
                assert forall|j: int| 0 <= j < n implies crate::series::unroll_fits(#[trigger] d7.row_seq()[j], 7)
                    && crate::series::int_sum(crate::series::unrolled_seq(d7.row_seq()[j], 7), d7.slots() as int) <= u64::MAX by {
                    assert(prefix_sum(d1.row_seq()[j], d1.slots() as int) <= u64::MAX);
                }
            }
            if b {
                assert forall|j: int| 0 <= j < d1.row_seq().len() implies
                    prefix_sum(#[trigger] d1.row_seq()[j], d1.slots() as int) <= u64::MAX by {
                    assert(crate::series::unroll_fits(d7.row_seq()[j], 7));
                }
            }
        }
        r
    }

    /// The group of the rekeyed cumulative store (see
    /// `TimeSeries::rekeyed`).
    pub fn rekeyed<U: TimeSeriesKey, F: Fn(&K) -> Option<U>>(&self, f: F) -> (r: CounterGroup<U>)
        requires
            self.cum.wf(),
            forall|k: &K| #[trigger] f.requires((k,)),
            crate::series::fan_in_fits(self.cum, f),
        ensures
            r.cum.wf(),
            r.cum.start_day() == self.cum.start_day(),
            r.cum.slots() == self.cum.slots(),
            exists|images: Seq<Option<U>>| {
                &&& images.len() == self.cum.key_seq().len()
                &&& forall|j: int| 0 <= j < images.len() ==> #[trigger] f.ensures((&self.cum.key_seq()[j],), images[j])
                &&& crate::series::fanned_in(r.cum, self.cum, images)
            },
    {
        CounterGroup { cum: self.cum.rekeyed(f) }
    }

    /// The cumulative view, where the store sits at position `slot` of the
    /// list of stores.
    pub fn cum(&self, slot: usize) -> (r: ViewTimeSeries)
        ensures
            r == ViewTimeSeries::Series(slot),
    {
        ViewTimeSeries::Series(slot)
    }

    /// The daily view: the cumulative value less that of the day before
    /// (zero before the first day).
    pub fn d1(&self, slot: usize) -> (r: ViewTimeSeries)
        ensures
            r == ViewTimeSeries::Diff(Diff { inner: Box::new(ViewTimeSeries::Series(slot)), window: 1, pad: Some(0) }),
    {
        ViewTimeSeries::Diff(Diff::padded(ViewTimeSeries::Series(slot), 1, 0))
    }

    /// The weekly view: the cumulative value less that of seven days before
    /// (zero before the first day).
    pub fn d7(&self, slot: usize) -> (r: ViewTimeSeries)
        ensures
            r == ViewTimeSeries::Diff(Diff { inner: Box::new(ViewTimeSeries::Series(slot)), window: 7, pad: Some(0) }),
    {
        ViewTimeSeries::Diff(Diff::padded(ViewTimeSeries::Series(slot), 7, 0))
    }

    /// The previous week's weekly view: the weekly view read seven days
    /// earlier.
    pub fn d7s7(&self, slot: usize) -> (r: ViewTimeSeries)
        ensures
            r == ViewTimeSeries::Shift(TimeMap {
                inner: Box::new(ViewTimeSeries::Diff(Diff { inner: Box::new(ViewTimeSeries::Series(slot)), window: 7, pad: Some(0) })),
                by: -7i64,
                from: None,
                until: None,
                pad: None,
            }),
    {
        ViewTimeSeries::Shift(TimeMap::shift(self.d7(slot), -7))
    }
}

/// Inside the calendar, the daily view is the difference of the cumulative
/// view over one day, and the weekly view its difference over seven days.
pub proof fn lemma_counter_group_views<K: TimeSeriesKey>(stores: Seq<Counters<K>>, slot: usize, k: K, d: Date, w: u32)
    requires
        0 <= slot < stores.len(),
        w == 1 || w == 7,
        value_at(ViewTimeSeries::Series(slot), stores, k, d).is_some(),
        day_plus(d, -(w as int)).is_some(),
        value_at(ViewTimeSeries::Series(slot), stores, k, day_plus(d, -(w as int)).unwrap()).is_some(),
    ensures
        value_at(ViewTimeSeries::Diff(Diff { inner: Box::new(ViewTimeSeries::Series(slot)), window: w, pad: Some(0) }), stores, k, d)
            == Some(value_at(ViewTimeSeries::Series(slot), stores, k, d).unwrap()
                - value_at(ViewTimeSeries::Series(slot), stores, k, day_plus(d, -(w as int)).unwrap()).unwrap()),
{
}

/// The previous-week view on day `d` is the weekly view on day `d - 7`
/// (absent where that day has no day number).
pub proof fn lemma_previous_week<K: TimeSeriesKey>(stores: Seq<Counters<K>>, slot: usize, k: K, d: Date)
    ensures
        ({
            let d7 = ViewTimeSeries::Diff(Diff { inner: Box::new(ViewTimeSeries::Series(slot)), window: 7, pad: Some(0) });
            let d7s7 = ViewTimeSeries::Shift(TimeMap { inner: Box::new(d7), by: -7i64, from: None, until: None, pad: None });
            value_at(d7s7, stores, k, d) == match day_plus(d, -7) {
                Some(d2) => value_at(d7, stores, k, d2),
                None => None,
            }
        }),
{
}

} // verus!
