//! Lazy read-only views over series stores: each answers "the value of key
//! `k` on day `d`", or that there is none.

use vstd::prelude::*;

use crate::calendar::Date;
use crate::series::{Counters, TimeSeriesKey};

verus! {

/// A view: a store of the surrounding list, or a view built on another.
pub enum ViewTimeSeries {
    /// The store at this position of the list of stores.
    Series(usize),
    Shift(TimeMap),
    Filled(Filled),
    Diff(Diff),
    MovingSum(MovingSum),
}

/// The inner view read `by` days later, absent outside `[from, until)`
/// where those bounds are given, and `pad` where the inner view has no
/// value.
pub struct TimeMap {
    pub inner: Box<ViewTimeSeries>,
    pub by: i64,
    pub from: Option<Date>,
    pub until: Option<Date>,
    pub pad: Option<i64>,
}

/// The inner view read on one fixed day, whatever the day asked for.
pub struct Filled {
    pub inner: Box<ViewTimeSeries>,
    pub from: Date,
}

/// The inner view's value less its value `window` days earlier (or `pad`
/// where that is absent).
pub struct Diff {
    pub inner: Box<ViewTimeSeries>,
    pub window: u32,
    pub pad: Option<i64>,
}

/// The sum of the inner view over the `window` days up to the day asked
/// for, absent where the day itself is absent; earlier absent days count as
/// zero.
pub struct MovingSum {
    pub inner: Box<ViewTimeSeries>,
    pub window: u32,
}

impl TimeMap {
    /// The inner view read `by` days later.
    pub fn shift(inner: ViewTimeSeries, by: i64) -> (r: TimeMap)
        ensures
            r.inner == Box::new(inner),
            r.by == by,
            r.from.is_none() && r.until.is_none() && r.pad.is_none(),
    {
        TimeMap { inner: Box::new(inner), by, from: None, until: None, pad: None }
    }

    /// The inner view, absent before `from` and from `until` on.
    pub fn clamp(inner: ViewTimeSeries, from: Option<Date>, until: Option<Date>) -> (r: TimeMap)
        ensures
            r.inner == Box::new(inner),
            r.by == 0,
            r.from == from && r.until == until && r.pad.is_none(),
    {
        TimeMap { inner: Box::new(inner), by: 0, from, until, pad: None }
    }
}

impl Filled {
    pub fn new(inner: ViewTimeSeries, from: Date) -> (r: Filled)
        ensures
            r.inner == Box::new(inner),
            r.from == from,
    {
        Filled { inner: Box::new(inner), from }
    }
}

impl Diff {
    pub fn padded(inner: ViewTimeSeries, window: u32, pad: i64) -> (r: Diff)
        ensures
            r.inner == Box::new(inner),
            r.window == window,
            r.pad == Some(pad),
    {
        Diff { inner: Box::new(inner), window, pad: Some(pad) }
    }
}

impl MovingSum {
    pub fn new(inner: ViewTimeSeries, window: u32) -> (r: MovingSum)
        ensures
            r.inner == Box::new(inner),
            r.window == window,
    {
        MovingSum { inner: Box::new(inner), window }
    }
}

/// The day `by` days after `d`, where it has a day number.
pub open spec fn day_plus(d: Date, by: int) -> Option<Date> {
    if i32::MIN <= d.ce_days + by <= i32::MAX {
        Some(Date { ce_days: (d.ce_days + by) as i32 })
    } else {
        None
    }
}

/// `o`'s value, or zero.
pub open spec fn or_zero(o: Option<int>) -> int {
    match o {
        Some(v) => v,
        None => 0,
    }
}

/// Whether every store that the view names is in a list of `n`.
pub open spec fn refs_ok(v: ViewTimeSeries, n: nat) -> bool
    decreases v,
{
    match v {
        ViewTimeSeries::Series(i) => i < n,
        ViewTimeSeries::Shift(t) => refs_ok(*t.inner, n),
        ViewTimeSeries::Filled(f) => refs_ok(*f.inner, n),
        ViewTimeSeries::Diff(x) => refs_ok(*x.inner, n),
        ViewTimeSeries::MovingSum(m) => refs_ok(*m.inner, n),
    }
}

pub open spec fn abs(v: int) -> int {
    if v < 0 {
        -v
    } else {
        v
    }
}

pub open spec fn max(a: int, b: int) -> int {
    if a >= b {
        a
    } else {
        b
    }
}

/// A bound on the magnitude of every value the view gives.
pub open spec fn bound(v: ViewTimeSeries) -> int
    decreases v,
{
    match v {
        ViewTimeSeries::Series(i) => u64::MAX as int,
        ViewTimeSeries::Shift(t) => max(bound(*t.inner), match t.pad { Some(p) => abs(p as int), None => 0 }),
        ViewTimeSeries::Filled(f) => bound(*f.inner),
        ViewTimeSeries::Diff(x) => bound(*x.inner) + max(bound(*x.inner), match x.pad { Some(p) => abs(p as int), None => 0 }),
        ViewTimeSeries::MovingSum(m) => max(m.window as int, 1) * bound(*m.inner),
    }
}

pub proof fn lemma_bound_nonneg(v: ViewTimeSeries)
    ensures
        bound(v) >= 0,
    decreases v,
{
    match v {
        ViewTimeSeries::Series(i) => {},
        ViewTimeSeries::Shift(t) => lemma_bound_nonneg(*t.inner),
        ViewTimeSeries::Filled(f) => lemma_bound_nonneg(*f.inner),
        ViewTimeSeries::Diff(x) => lemma_bound_nonneg(*x.inner),
        ViewTimeSeries::MovingSum(m) => {
            lemma_bound_nonneg(*m.inner);
            assert(max(m.window as int, 1) * bound(*m.inner) >= 0) by (nonlinear_arith)
                requires max(m.window as int, 1) >= 1, bound(*m.inner) >= 0;
        },
    }
}

/// The value of the view for key `k` on day `d`, over the list of stores.
pub open spec fn value_at<K: TimeSeriesKey>(v: ViewTimeSeries, stores: Seq<Counters<K>>, k: K, d: Date) -> Option<int>
    decreases v, 0nat,
{
    match v {
        ViewTimeSeries::Series(i) => {
            let s = stores[i as int];
            match s.slot_of(d) {
                Some(slot) => Some(if s.has_key(k) { s.series(k)[slot] as int } else { 0 }),
                None => None,
            }
        },
        ViewTimeSeries::Shift(t) => {
            let outside = (match t.from { Some(f) => d.ce_days < f.ce_days, None => false })
                || (match t.until { Some(u) => d.ce_days >= u.ce_days, None => false });
            if outside {
                None
            } else {
                let inner = match day_plus(d, t.by as int) {
                    Some(d2) => value_at(*t.inner, stores, k, d2),
                    None => None,
                };
                match inner {
                    Some(x) => Some(x),
                    None => match t.pad {
                        Some(p) => Some(p as int),
                        None => None,
                    },
                }
            }
        },
        ViewTimeSeries::Filled(f) => value_at(*f.inner, stores, k, f.from),
        ViewTimeSeries::Diff(x) => match value_at(*x.inner, stores, k, d) {
            None => None,
            Some(vr) => {
                let back = match day_plus(d, -(x.window as int)) {
                    Some(d2) => value_at(*x.inner, stores, k, d2),
                    None => None,
                };
                let vl = match back {
                    Some(y) => Some(y),
                    None => match x.pad {
                        Some(p) => Some(p as int),
                        None => None,
                    },
                };
                match vl {
                    Some(y) => Some(vr - y),
                    None => None,
                }
            },
        },
        ViewTimeSeries::MovingSum(m) => match value_at(*m.inner, stores, k, d) {
            None => None,
            Some(vr) => Some(vr + earlier_sum(*m.inner, stores, k, d, m.window as int - 1)),
        },
    }
}

/// The sum of the view over the `n` days before `d`, absent days counting
/// as zero.
pub open spec fn earlier_sum<K: TimeSeriesKey>(v: ViewTimeSeries, stores: Seq<Counters<K>>, k: K, d: Date, n: int) -> int
    decreases v, 1nat, n,
{
    if n <= 0 {
        0
    } else {
        earlier_sum(v, stores, k, d, n - 1) + match day_plus(d, -n) {
            Some(d2) => or_zero(value_at(v, stores, k, d2)),
            None => 0,
        }
    }
}

/// Whether every store of the list is well formed.
pub open spec fn stores_wf<K: TimeSeriesKey>(stores: Seq<Counters<K>>) -> bool {
    forall|i: int| 0 <= i < stores.len() ==> (#[trigger] stores[i]).wf()
}

fn day_plus_exec(d: Date, by: i64) -> (r: Option<Date>)
    ensures
        r == day_plus(d, by as int),
{
    d.add_days(by)
}

impl ViewTimeSeries {
    /// The value of the view for key `k` on day `d` (see `value_at`).
    pub fn getf<K: TimeSeriesKey>(&self, stores: &Vec<Counters<K>>, k: &K, d: Date) -> (r: Option<i128>)
        requires
            stores_wf(stores@),
            refs_ok(*self, stores@.len()),
            bound(*self) <= i128::MAX,
        ensures
            r.is_some() == value_at(*self, stores@, *k, d).is_some(),
            r.is_some() ==> r.unwrap() == value_at(*self, stores@, *k, d).unwrap(),
            r.is_some() ==> abs(r.unwrap() as int) <= bound(*self),
        decreases *self, 0nat,
    {
        proof { lemma_bound_nonneg(*self); }
        match self {
            ViewTimeSeries::Series(i) => {
                let s = &stores[*i];
                assert(s.wf());
                match s.date_index(d) {
                    Some(slot) => Some(s.value_or_zero(k, slot) as i128),
                    None => None,
                }
            },
            ViewTimeSeries::Shift(t) => {
                proof { lemma_bound_nonneg(*t.inner); }
                let before = match t.from {
                    Some(f) => d.ce_days < f.ce_days,
                    None => false,
                };
                let after = match t.until {
                    Some(u) => d.ce_days >= u.ce_days,
                    None => false,
                };
                if before || after {
                    return None;
                }
                let inner = match day_plus_exec(d, t.by) {
                    Some(d2) => t.inner.getf(stores, k, d2),
                    None => None,
                };
                match inner {
                    Some(x) => Some(x),
                    None => match t.pad {
                        Some(p) => Some(p as i128),
                        None => None,
                    },
                }
            },
            ViewTimeSeries::Filled(f) => f.inner.getf(stores, k, f.from),
            ViewTimeSeries::Diff(x) => {
                proof { lemma_bound_nonneg(*x.inner); }
                let vr = match x.inner.getf(stores, k, d) {
                    Some(v) => v,
                    None => { return None; },
                };
                let back = match day_plus_exec(d, -(x.window as i64)) {
                    Some(d2) => x.inner.getf(stores, k, d2),
                    None => None,
                };
                let vl = match back {
                    Some(y) => y,
                    None => match x.pad {
                        Some(p) => p as i128,
                        None => { return None; },
                    },
                };
                Some(vr - vl)
            },
            ViewTimeSeries::MovingSum(m) => {
                proof {
                    lemma_bound_nonneg(*m.inner);
                    let bi = bound(*m.inner);
                    assert(bi <= max(m.window as int, 1) * bi) by (nonlinear_arith)
                        requires bi >= 0, max(m.window as int, 1) >= 1;
                }
                let vr = match m.inner.getf(stores, k, d) {
                    Some(v) => v,
                    None => { return None; },
                };
                proof {
                    let bi = bound(*m.inner);
                    assert(max(m.window as int - 1, 0) * bi <= max(m.window as int, 1) * bi) by (nonlinear_arith)
                        requires bi >= 0;
                }
                let rest = earlier_sum_exec(&m.inner, stores, k, d, m.window as i64 - 1);
                proof {
                    let bi = bound(*m.inner);
                    let w = max(m.window as int, 1);
                    assert(abs(vr as int) + abs(rest as int) <= w * bi) by (nonlinear_arith)
                        requires abs(vr as int) <= bi, abs(rest as int) <= max(m.window as int - 1, 0) * bi,
                            w == max(m.window as int, 1), bi >= 0;
                }
                let acc = vr + rest;
                Some(acc)
            },
        }
    }
}

/// The sum of the view over the `n` days before `d` (see `earlier_sum`).
fn earlier_sum_exec<K: TimeSeriesKey>(v: &ViewTimeSeries, stores: &Vec<Counters<K>>, k: &K, d: Date, n: i64) -> (r: i128)
    requires
        stores_wf(stores@),
        refs_ok(*v, stores@.len()),
        max(n as int, 0) * bound(*v) <= i128::MAX,
        bound(*v) <= i128::MAX,
        n <= u32::MAX,
    ensures
        r == earlier_sum(*v, stores@, *k, d, n as int),
        abs(r as int) <= max(n as int, 0) * bound(*v),
    decreases *v, 1nat, n,
{
    proof { lemma_bound_nonneg(*v); }
    if n <= 0 {
        return 0;
    }
    let ghost b = bound(*v);
    proof {
        assert(max(n - 1, 0) * b <= max(n as int, 0) * b) by (nonlinear_arith)
            requires n >= 1, b >= 0;
        assert(max(n as int, 0) * b == max(n - 1, 0) * b + b) by (nonlinear_arith)
            requires n >= 1;
    }
    let before = earlier_sum_exec(v, stores, k, d, n - 1);
    let here: i128 = match day_plus_exec(d, -n) {
        Some(d2) => match v.getf(stores, k, d2) {
            Some(y) => y,
            None => 0,
        },
        None => 0,
    };
    before + here
}

} // verus!
