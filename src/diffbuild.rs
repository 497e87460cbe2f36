//! The publication-diff builder: merges dated line-listing snapshots into
//! publication-axis counters and writes them back as diff rows.

use vstd::prelude::*;

use crate::calendar::{Date, MAX_FOUR_DIGIT_YEAR_CE_DAYS};
use crate::records::{DiffRecord, InfectionRecord, PartialCaseKey, ReportFlag};
use crate::series::{Counters, TimeSeries, TimeSeriesKey};

verus! {

/// Cases reported more than this many days after their report date count as
/// late, not as delayed.
pub const DELAY_CUTOFF: i64 = 28;

/// `x` clamped into the range of `u64`.
pub open spec fn sat(x: int) -> u64 {
    if x < 0 {
        0
    } else if x > u64::MAX {
        u64::MAX
    } else {
        x as u64
    }
}

/// Adds a signed delta to a counter, clamping at zero and at the largest
/// `u64`.
pub fn saturating_add_u64_i32(reg: &mut u64, v: i32)
    ensures
        *final(reg) == sat(*old(reg) + v),
{
    saturating_add_u64_i64(reg, v as i64);
}

/// Adds a signed delta to a counter, clamping at zero and at the largest
/// `u64`.
pub fn saturating_add_u64_i64(reg: &mut u64, v: i64)
    ensures
        *final(reg) == sat(*old(reg) + v),
{
    if v < 0 {
        let m: u64 = if v == i64::MIN { 0x8000_0000_0000_0000u64 } else { (-v) as u64 };
        *reg = reg.saturating_sub(m);
    } else {
        *reg = reg.saturating_add(v as u64);
    }
}

/// The contents of `s` after `delta` is added, clamped, at slot `i` of `k`
/// (created with zeros if missing).
pub open spec fn bumped(s: Counters<PartialCaseKey>, k: PartialCaseKey, i: int, delta: int) -> Map<PartialCaseKey, Seq<u64>> {
    s.with_value(k, i, sat(s.series_or_zeros(k)[i] + delta))
}

/// Adds `delta`, clamped, at slot `i` of `k`, creating `k` if missing.
fn bump(s: &mut Counters<PartialCaseKey>, k: PartialCaseKey, i: usize, delta: i64)
    requires
        old(s).wf(),
        i < old(s).slots(),
    ensures
        final(s).wf(),
        final(s).start_day() == old(s).start_day(),
        final(s).slots() == old(s).slots(),
        final(s).key_seq() == old(s).keys_with(k),
        final(s).contents() == bumped(*old(s), k, i as int, delta as int),
{
    let mut v = s.value_or_zero(&k, i);
    saturating_add_u64_i64(&mut v, delta);
    s.set_value(k, i, v);
}

/// The sum of `row` over the seven slots up to and including `idx` (fewer
/// near the start).
pub open spec fn rep_window(row: Seq<u64>, idx: int) -> int {
    crate::series::range_sum(row, if idx - 6 < 0 { 0 } else { idx - 6 }, idx + 1)
}

proof fn lemma_prefix_contains<K>(s: Seq<K>, j: int, k2: K)
    requires
        0 <= j < s.len(),
        k2 != s[j],
    ensures
        s.subrange(0, j + 1).contains(k2) == s.subrange(0, j).contains(k2),
{
    if s.subrange(0, j + 1).contains(k2) {
        let q = choose|q: int| 0 <= q < j + 1 && #[trigger] s.subrange(0, j + 1)[q] == k2;
        assert(s.subrange(0, j)[q] == k2);
    }
    if s.subrange(0, j).contains(k2) {
        let q = choose|q: int| 0 <= q < j && #[trigger] s.subrange(0, j)[q] == k2;
        assert(s.subrange(0, j + 1)[q] == k2);
    }
}

/// The lines of `rows`, one after the other.
pub open spec fn lines(rows: Seq<DiffRecord>) -> Seq<u8>
    decreases rows.len(),
{
    if rows.len() == 0 {
        Seq::empty()
    } else {
        lines(rows.drop_last()) + rows.last().line()
    }
}

/// Appends the line of every row.
pub fn write_rows(rows: &Vec<DiffRecord>, out: &mut Vec<u8>)
    requires
        forall|t: int| 0 <= t < rows@.len() ==> 1 <= (#[trigger] rows@[t]).date.ce_days <= MAX_FOUR_DIGIT_YEAR_CE_DAYS,
    ensures
        final(out)@ == old(out)@ + lines(rows@),
{
    let mut i: usize = 0;
    while i < rows.len()
        invariant
            i <= rows@.len(),
            forall|t: int| 0 <= t < rows@.len() ==> 1 <= (#[trigger] rows@[t]).date.ce_days <= MAX_FOUR_DIGIT_YEAR_CE_DAYS,
            out@ == old(out)@ + lines(rows@.subrange(0, i as int)),
        decreases rows@.len() - i,
    {
        rows[i].write(out);
        proof {
            let next = rows@.subrange(0, i + 1);
            assert(next.drop_last() =~= rows@.subrange(0, i as int));
            assert(out@ =~= old(out)@ + lines(next));
        }
        i = i + 1;
    }
    assert(rows@.subrange(0, rows@.len() as int) =~= rows@);
}

/// The key of a diff row.
pub open spec fn record_key(r: DiffRecord) -> PartialCaseKey {
    PartialCaseKey { district_id: r.district_id, age_group: r.age_group, sex: r.sex }
}

/// The artifact field numbered `f` of a row (see `PartialDiffData::store`).
pub open spec fn field_of(r: DiffRecord, f: int) -> u64 {
    if f == 0 {
        r.cases
    } else if f == 1 {
        r.deaths
    } else if f == 2 {
        r.recovered
    } else if f == 3 {
        r.delay_total
    } else if f == 4 {
        r.cases_delayed
    } else if f == 5 {
        r.late_cases
    } else if f == 6 {
        r.cases_rep_d7
    } else {
        r.cases_retracted
    }
}

/// The contents of a store after the field `f` of each row is set, in
/// order, at the row's key and day (keys created with zeros).
pub open spec fn loaded(c: Map<PartialCaseKey, Seq<u64>>, slots: nat, start: Date, rows: Seq<DiffRecord>, f: int) -> Map<PartialCaseKey, Seq<u64>>
    decreases rows.len(),
{
    if rows.len() == 0 {
        c
    } else {
        let prev = loaded(c, slots, start, rows.drop_last(), f);
        let r = rows.last();
        let k = record_key(r);
        let base = if prev.contains_key(k) { prev[k] } else { crate::series::zeros(slots) };
        prev.insert(k, base.update(r.date.ce_days - start.ce_days, field_of(r, f)))
    }
}

/// `acc` followed by the elements of `more` that are not already there,
/// in order.
pub open spec fn with_new<K>(acc: Seq<K>, more: Seq<K>) -> Seq<K>
    decreases more.len(),
{
    if more.len() == 0 {
        acc
    } else {
        let a = with_new(acc, more.drop_last());
        if a.contains(more.last()) {
            a
        } else {
            a.push(more.last())
        }
    }
}

pub proof fn lemma_with_new<K>(acc: Seq<K>, more: Seq<K>)
    ensures
        forall|x: K| #[trigger] with_new(acc, more).contains(x) <==> acc.contains(x) || more.contains(x),
    decreases more.len(),
{
    if more.len() > 0 {
        let pre = more.drop_last();
        lemma_with_new(acc, pre);
        let a = with_new(acc, pre);
        assert forall|x: K| #[trigger] with_new(acc, more).contains(x) <==> acc.contains(x) || more.contains(x) by {
            if more.contains(x) && !pre.contains(x) {
                let t = choose|t: int| 0 <= t < more.len() && more[t] == x;
                if t < more.len() - 1 {
                    assert(pre[t] == x);
                }
                assert(x == more.last());
                if !a.contains(x) {
                    assert(a.push(x)[a.len() as int] == x);
                }
            }
            if pre.contains(x) {
                let t = choose|t: int| 0 <= t < pre.len() && pre[t] == x;
                assert(more[t] == x);
            }
            if with_new(acc, more).contains(x) && !a.contains(x) {
                let t = choose|t: int| 0 <= t < with_new(acc, more).len() && with_new(acc, more)[t] == x;
                if t < a.len() {
                    assert(a.push(more.last())[t] == a[t]);
                }
                assert(more[more.len() - 1] == x);
            }
            if a.contains(x) && !a.contains(more.last()) {
                let t = choose|t: int| 0 <= t < a.len() && a[t] == x;
                assert(a.push(more.last())[t] == x);
            }
        }
    }
}

proof fn lemma_with_new_fresh<K>(more: Seq<K>)
    requires
        more.no_duplicates(),
    ensures
        with_new(Seq::<K>::empty(), more) == more,
    decreases more.len(),
{
    if more.len() > 0 {
        let pre = more.drop_last();
        assert(pre.no_duplicates());
        lemma_with_new_fresh(pre);
        lemma_with_new(Seq::<K>::empty(), pre);
        if pre.contains(more.last()) {
            let t = choose|t: int| 0 <= t < pre.len() && pre[t] == more.last();
            assert(more[t] == more[more.len() - 1]);
        }
        assert(pre.push(more.last()) =~= more);
    }
}

/// Appends each element of `more` that `acc` does not hold yet.
pub fn extend_new<K: TimeSeriesKey>(acc: &mut Vec<K>, more: &Vec<K>)
    ensures
        final(acc)@ == with_new(old(acc)@, more@),
{
    let mut j: usize = 0;
    while j < more.len()
        invariant
            j <= more@.len(),
            acc@ == with_new(old(acc)@, more@.subrange(0, j as int)),
        decreases more@.len() - j,
    {
        let x = more[j];
        let mut found = false;
        let mut t: usize = 0;
        while t < acc.len()
            invariant
                t <= acc@.len(),
                found == (exists|q: int| 0 <= q < t && acc@[q] == x),
            decreases acc@.len() - t,
        {
            if acc[t].same_key(&x) {
                found = true;
            }
            t = t + 1;
        }
        proof {
            let sub = more@.subrange(0, j + 1);
            assert(sub.drop_last() =~= more@.subrange(0, j as int));
            assert(sub.last() == x);
        }
        if !found {
            acc.push(x);
        }
        j = j + 1;
    }
    assert(more@.subrange(0, more@.len() as int) =~= more@);
}

/// Why a record cannot be merged.
#[derive(Clone, Copy, Debug, PartialEq, Eq, Structural)]
pub enum SubmitError {
    /// The day the publication describes is outside the calendar.
    PublicationOutOfRange,
    /// The report date of a counted case is outside the calendar.
    ReportDateOutOfRange,
    /// A retraction on the first day of the calendar has no day to correct.
    RetractionAtFirstDay,
    /// A newly reported case has a report date after the publication.
    NegativeDelay,
    /// A running total of the reporting-date buffer exceeds `u64`.
    Overflow,
}

/// The slot, delta and retracted amount that a case flag asks for, where
/// `idx` is the slot of the described day.
pub open spec fn case_effect(flag: ReportFlag, idx: int, count: int) -> (int, int, int) {
    match flag {
        ReportFlag::NewlyReported => (idx, count, 0),
        ReportFlag::Retracted => (idx - 1, count, -count),
        _ => (0, 0, 0),
    }
}

/// The slot and delta that a death or recovery flag asks for.
pub open spec fn axis_effect(flag: ReportFlag, idx: int, count: int) -> (int, int) {
    match flag {
        ReportFlag::NewlyReported => (idx, count),
        ReportFlag::Retracted => (idx - 1, count),
        _ => (0, 0),
    }
}

/// Whether the case flag counts towards the reporting-date buffer.
pub open spec fn counts_by_report(flag: ReportFlag) -> bool {
    flag == ReportFlag::NewlyReported || flag == ReportFlag::Consistent
}

/// The delay, delayed count and late count of a case: a newly reported
/// case with a delay up to the cutoff is delayed, beyond it late.
pub open spec fn delay_effect(flag: ReportFlag, delay: int, count: int) -> (int, int, int) {
    if flag == ReportFlag::NewlyReported {
        if delay > DELAY_CUTOFF {
            (0, 0, count)
        } else {
            (delay, count, 0)
        }
    } else {
        (0, 0, 0)
    }
}

/// The nine publication-axis stores of the diff builder, over one calendar.
pub struct PartialDiffData {
    pub cases_by_pub: Counters<PartialCaseKey>,
    pub cases_delayed: Counters<PartialCaseKey>,
    pub case_delay_total: Counters<PartialCaseKey>,
    pub late_cases: Counters<PartialCaseKey>,
    pub deaths_by_pub: Counters<PartialCaseKey>,
    pub recovered_by_pub: Counters<PartialCaseKey>,
    pub cases_by_rep_buf: Counters<PartialCaseKey>,
    pub cases_by_rep_d7: Counters<PartialCaseKey>,
    pub cases_retracted: Counters<PartialCaseKey>,
}

impl PartialDiffData {
    /// All stores are well formed and share the calendar of `cases_by_pub`,
    /// which lies within the years 1 to 9999.
    pub open spec fn wf(&self) -> bool {
        let s = self.cases_by_pub;
        &&& s.wf()
        &&& self.cases_delayed.wf()
        &&& self.case_delay_total.wf()
        &&& self.late_cases.wf()
        &&& self.deaths_by_pub.wf()
        &&& self.recovered_by_pub.wf()
        &&& self.cases_by_rep_buf.wf()
        &&& self.cases_by_rep_d7.wf()
        &&& self.cases_retracted.wf()
        &&& self.same_calendar(self.cases_delayed)
        &&& self.same_calendar(self.case_delay_total)
        &&& self.same_calendar(self.late_cases)
        &&& self.same_calendar(self.deaths_by_pub)
        &&& self.same_calendar(self.recovered_by_pub)
        &&& self.same_calendar(self.cases_by_rep_buf)
        &&& self.same_calendar(self.cases_by_rep_d7)
        &&& self.same_calendar(self.cases_retracted)
        &&& 1 <= s.start_day().ce_days
        &&& s.start_day().ce_days + s.slots() <= MAX_FOUR_DIGIT_YEAR_CE_DAYS + 1
    }

    pub open spec fn same_calendar(&self, t: Counters<PartialCaseKey>) -> bool {
        t.start_day() == self.cases_by_pub.start_day() && t.slots() == self.cases_by_pub.slots()
    }

    /// Nine empty stores over the days `[start, end)`.
    pub fn new(start: Date, end: Date) -> (r: Self)
        requires
            1 <= start.ce_days <= end.ce_days <= MAX_FOUR_DIGIT_YEAR_CE_DAYS + 1,
        ensures
            r.wf(),
            r.cases_by_pub.start_day() == start,
            r.cases_by_pub.slots() == end.ce_days - start.ce_days,
            r.cases_by_pub.key_seq().len() == 0,
            r.cases_delayed.key_seq().len() == 0,
            r.case_delay_total.key_seq().len() == 0,
            r.late_cases.key_seq().len() == 0,
            r.deaths_by_pub.key_seq().len() == 0,
            r.recovered_by_pub.key_seq().len() == 0,
            r.cases_by_rep_buf.key_seq().len() == 0,
            r.cases_by_rep_d7.key_seq().len() == 0,
            r.cases_retracted.key_seq().len() == 0,
    {
        PartialDiffData {
            cases_by_pub: TimeSeries::new(start, end),
            cases_delayed: TimeSeries::new(start, end),
            case_delay_total: TimeSeries::new(start, end),
            late_cases: TimeSeries::new(start, end),
            deaths_by_pub: TimeSeries::new(start, end),
            recovered_by_pub: TimeSeries::new(start, end),
            cases_by_rep_buf: TimeSeries::new(start, end),
            cases_by_rep_d7: TimeSeries::new(start, end),
            cases_retracted: TimeSeries::new(start, end),
        }
    }

    /// The key a record counts under.
    pub open spec fn key_of(rec: InfectionRecord) -> PartialCaseKey {
        PartialCaseKey { district_id: rec.district_id, age_group: rec.age_group, sex: rec.sex }
    }

    /// Whether the record changes none of the publication-axis deltas.
    pub open spec fn quiet(&self, day: Date, rec: InfectionRecord) -> bool {
        let i = self.cases_by_pub.slot_of(day).unwrap();
        &&& case_effect(rec.case, i, rec.case_count as int).1 == 0
        &&& axis_effect(rec.death, i, rec.death_count as int).1 == 0
        &&& axis_effect(rec.recovered, i, rec.recovered_count as int).1 == 0
    }

    /// The error that merging `rec` for the described day `day` meets, if
    /// any, in the order the checks are made.
    pub open spec fn submit_error(&self, day: Date, rec: InfectionRecord) -> Option<SubmitError> {
        let idx = self.cases_by_pub.slot_of(day);
        if idx is None {
            Some(SubmitError::PublicationOutOfRange)
        } else if rec.case == ReportFlag::Retracted && idx.unwrap() == 0 {
            Some(SubmitError::RetractionAtFirstDay)
        } else if counts_by_report(rec.case) && self.cases_by_pub.slot_of(rec.report_date) is None {
            Some(SubmitError::ReportDateOutOfRange)
        } else if (rec.death == ReportFlag::Retracted || rec.recovered == ReportFlag::Retracted) && idx.unwrap() == 0 {
            Some(SubmitError::RetractionAtFirstDay)
        } else if !self.quiet(day, rec) && rec.case == ReportFlag::NewlyReported
            && day.ce_days < rec.report_date.ce_days {
            Some(SubmitError::NegativeDelay)
        } else {
            None
        }
    }

    /// Merges one snapshot record for the day `day` that the publication
    /// describes. A newly reported case counts on that day's slot, as
    /// delayed (with its delay) up to the cutoff and as late beyond it, and
    /// on its report date in the reporting-date buffer; a retraction (whose
    /// count is already negative) is taken off the day before, clamped at
    /// zero, and its magnitude is counted as retracted; a consistent case
    /// counts in the reporting-date buffer only. Deaths and recoveries go
    /// like cases, without buffer or delay. Where the record names an
    /// out-of-range day, a retraction with no day before, or a report date
    /// after the publication, nothing changes and the error says which.
    pub fn submit(&mut self, day: Date, rec: &InfectionRecord) -> (r: Result<(), SubmitError>)
        requires
            old(self).wf(),
        ensures
            final(self).wf(),
            final(self).cases_by_pub.start_day() == old(self).cases_by_pub.start_day(),
            final(self).cases_by_pub.slots() == old(self).cases_by_pub.slots(),
            r is Err <==> old(self).submit_error(day, *rec).is_some(),
            r is Err ==> r->Err_0 == old(self).submit_error(day, *rec).unwrap() && *final(self) == *old(self),
            r is Ok ==> ({
                let k = Self::key_of(*rec);
                let i = old(self).cases_by_pub.slot_of(day).unwrap();
                let count = rec.case_count as int;
                let rep = counts_by_report(rec.case) && count != 0;
                let ret = rec.case == ReportFlag::Retracted && count != 0;
                let ce = case_effect(rec.case, i, count);
                let de = axis_effect(rec.death, i, rec.death_count as int);
                let re = axis_effect(rec.recovered, i, rec.recovered_count as int);
                let delays = delay_effect(rec.case, day.ce_days - rec.report_date.ce_days, count);
                &&& (rep ==> final(self).cases_by_rep_buf.contents() == bumped(old(self).cases_by_rep_buf, k,
                        old(self).cases_by_pub.slot_of(rec.report_date).unwrap(), count)
                    && final(self).cases_by_rep_buf.key_seq() == old(self).cases_by_rep_buf.keys_with(k))
                &&& (!rep ==> final(self).cases_by_rep_buf == old(self).cases_by_rep_buf)
                &&& (ret ==> final(self).cases_retracted.contents() == bumped(old(self).cases_retracted, k, i - 1, -count)
                    && final(self).cases_retracted.key_seq() == old(self).cases_retracted.keys_with(k))
                &&& (!ret ==> final(self).cases_retracted == old(self).cases_retracted)
                &&& final(self).cases_by_rep_d7 == old(self).cases_by_rep_d7
                &&& (old(self).quiet(day, *rec) ==> {
                    &&& final(self).cases_by_pub == old(self).cases_by_pub
                    &&& final(self).cases_delayed == old(self).cases_delayed
                    &&& final(self).case_delay_total == old(self).case_delay_total
                    &&& final(self).late_cases == old(self).late_cases
                    &&& final(self).deaths_by_pub == old(self).deaths_by_pub
                    &&& final(self).recovered_by_pub == old(self).recovered_by_pub
                })
                &&& (!old(self).quiet(day, *rec) ==> {
                    &&& final(self).cases_by_pub.contents() == bumped(old(self).cases_by_pub, k, ce.0, ce.1)
                    &&& final(self).cases_delayed.contents() == bumped(old(self).cases_delayed, k, ce.0, delays.1)
                    &&& final(self).case_delay_total.contents() == bumped(old(self).case_delay_total, k, ce.0, delays.0 * delays.1)
                    &&& final(self).late_cases.contents() == bumped(old(self).late_cases, k, ce.0, delays.2)
                    &&& final(self).deaths_by_pub.contents() == bumped(old(self).deaths_by_pub, k, de.0, de.1)
                    &&& final(self).recovered_by_pub.contents() == bumped(old(self).recovered_by_pub, k, re.0, re.1)
                    &&& final(self).cases_by_pub.key_seq() == old(self).cases_by_pub.keys_with(k)
                    &&& final(self).cases_delayed.key_seq() == old(self).cases_delayed.keys_with(k)
                    &&& final(self).case_delay_total.key_seq() == old(self).case_delay_total.keys_with(k)
                    &&& final(self).late_cases.key_seq() == old(self).late_cases.keys_with(k)
                    &&& final(self).deaths_by_pub.key_seq() == old(self).deaths_by_pub.keys_with(k)
                    &&& final(self).recovered_by_pub.key_seq() == old(self).recovered_by_pub.keys_with(k)
                })
            }),
    {
        let index = match self.cases_by_pub.date_index(day) {
            Some(i) => i,
            None => { return Err(SubmitError::PublicationOutOfRange); },
        };
        if rec.case == ReportFlag::Retracted && index == 0 {
            return Err(SubmitError::RetractionAtFirstDay);
        }
        let counts_rep = rec.case == ReportFlag::NewlyReported || rec.case == ReportFlag::Consistent;
        let rep_index: usize = if counts_rep {
            match self.cases_by_pub.date_index(rec.report_date) {
                Some(i) => i,
                None => { return Err(SubmitError::ReportDateOutOfRange); },
            }
        } else {
            0
        };
        if (rec.death == ReportFlag::Retracted || rec.recovered == ReportFlag::Retracted) && index == 0 {
            return Err(SubmitError::RetractionAtFirstDay);
        }
        let count = rec.case_count as i64;
        let (case_index, case_diff, retracted): (usize, i64, i64) = match rec.case {
            ReportFlag::NewlyReported => (index, count, 0),
            ReportFlag::Retracted => (index - 1, count, -count),
            _ => (0, 0, 0),
        };
        let (death_index, death_diff): (usize, i64) = match rec.death {
            ReportFlag::NewlyReported => (index, rec.death_count as i64),
            ReportFlag::Retracted => (index - 1, rec.death_count as i64),
            _ => (0, 0),
        };
        let (recovered_index, recovered_diff): (usize, i64) = match rec.recovered {
            ReportFlag::NewlyReported => (index, rec.recovered_count as i64),
            ReportFlag::Retracted => (index - 1, rec.recovered_count as i64),
            _ => (0, 0),
        };
        let quiet = case_diff == 0 && death_diff == 0 && recovered_diff == 0;
        let delay = day.days_since(rec.report_date);
        if !quiet && rec.case == ReportFlag::NewlyReported && delay < 0 {
            return Err(SubmitError::NegativeDelay);
        }
        let k = PartialCaseKey { district_id: rec.district_id, age_group: rec.age_group, sex: rec.sex };
        if counts_rep && count != 0 {
            bump(&mut self.cases_by_rep_buf, k, rep_index, count);
        }
        if retracted != 0 {
            bump(&mut self.cases_retracted, k, case_index, retracted);
        }
        if quiet {
            return Ok(());
        }
        let (case_delay, delayed_count, late_count): (i64, i64, i64) = if rec.case == ReportFlag::NewlyReported {
            if delay > DELAY_CUTOFF {
                (0, 0, count)
            } else {
                (delay, count, 0)
            }
        } else {
            (0, 0, 0)
        };
        assert(0 <= case_delay <= DELAY_CUTOFF);
        assert(case_delay * delayed_count <= 28 * 0x8000_0000) by (nonlinear_arith)
            requires 0 <= case_delay <= 28, -0x8000_0000 <= delayed_count <= 0x8000_0000;
        assert(case_delay * delayed_count >= -28 * 0x8000_0000) by (nonlinear_arith)
            requires 0 <= case_delay <= 28, -0x8000_0000 <= delayed_count <= 0x8000_0000;
        bump(&mut self.cases_by_pub, k, case_index, case_diff);
        bump(&mut self.cases_delayed, k, case_index, delayed_count);
        bump(&mut self.case_delay_total, k, case_index, case_delay * delayed_count);
        bump(&mut self.late_cases, k, case_index, late_count);
        bump(&mut self.deaths_by_pub, k, death_index, death_diff);
        bump(&mut self.recovered_by_pub, k, recovered_index, recovered_diff);
        Ok(())
    }

    /// Empties the reporting-date buffer before a snapshot is merged.
    pub fn begin_snapshot(&mut self)
        requires
            old(self).wf(),
        ensures
            final(self).wf(),
            final(self).cases_by_rep_buf.key_seq().len() == 0,
            final(self).cases_by_pub == old(self).cases_by_pub,
            final(self).cases_delayed == old(self).cases_delayed,
            final(self).case_delay_total == old(self).case_delay_total,
            final(self).late_cases == old(self).late_cases,
            final(self).deaths_by_pub == old(self).deaths_by_pub,
            final(self).recovered_by_pub == old(self).recovered_by_pub,
            final(self).cases_by_rep_d7 == old(self).cases_by_rep_d7,
            final(self).cases_retracted == old(self).cases_retracted,
    {
        self.cases_by_rep_buf.clear();
    }

    /// Whether the running totals of the reporting-date buffer fit in `u64`.
    pub open spec fn buffer_fits(&self) -> bool {
        forall|j: int| 0 <= j < self.cases_by_rep_buf.row_seq().len()
            ==> crate::series::prefix_sum(#[trigger] self.cases_by_rep_buf.row_seq()[j], self.cases_by_rep_buf.slots() as int) <= u64::MAX
    }

    /// The contents of `cases_by_rep_d7` once slot `idx` of every key of the
    /// buffer holds the trailing seven-day sum of that key's buffer up to
    /// slot `idx`.
    pub open spec fn d7_after(d7: Counters<PartialCaseKey>, buf: Counters<PartialCaseKey>, idx: int) -> Map<PartialCaseKey, Seq<u64>> {
        Map::new(
            |k: PartialCaseKey| d7.has_key(k) || buf.has_key(k),
            |k: PartialCaseKey| if buf.has_key(k) {
                d7.series_or_zeros(k).update(idx, rep_window(buf.series(k), idx) as u64)
            } else {
                d7.series(k)
            },
        )
    }

    /// `d7_after` for the first `n` keys of the buffer only.
    pub open spec fn d7_partial(d7: Counters<PartialCaseKey>, buf: Counters<PartialCaseKey>, idx: int, n: int) -> Map<PartialCaseKey, Seq<u64>> {
        Map::new(
            |k: PartialCaseKey| d7.has_key(k) || buf.key_seq().subrange(0, n).contains(k),
            |k: PartialCaseKey| if buf.key_seq().subrange(0, n).contains(k) {
                d7.series_or_zeros(k).update(idx, rep_window(buf.series(k), idx) as u64)
            } else {
                d7.series(k)
            },
        )
    }

    /// Ends the merge of a snapshot for the described day `day`: turns the
    /// reporting-date buffer into running totals and records, for every key
    /// of the buffer, the trailing seven-day sum of the buffer up to `day`
    /// in `cases_by_rep_d7` at `day`. Fails, changing nothing, where `day`
    /// is outside the calendar or a running total exceeds `u64`.
    pub fn finish_snapshot(&mut self, day: Date) -> (r: Result<(), SubmitError>)
        requires
            old(self).wf(),
        ensures
            final(self).wf(),
            final(self).cases_by_pub.start_day() == old(self).cases_by_pub.start_day(),
            final(self).cases_by_pub.slots() == old(self).cases_by_pub.slots(),
            old(self).cases_by_pub.slot_of(day) is None ==> r == Err::<(), SubmitError>(SubmitError::PublicationOutOfRange),
            old(self).cases_by_pub.slot_of(day) is Some && !old(self).buffer_fits() ==> r == Err::<(), SubmitError>(SubmitError::Overflow),
            r is Err ==> *final(self) == *old(self),
            r is Ok <==> old(self).cases_by_pub.slot_of(day) is Some && old(self).buffer_fits(),
            r is Ok ==> ({
                let idx = old(self).cases_by_pub.slot_of(day).unwrap();
                let buf = old(self).cases_by_rep_buf;
                &&& final(self).cases_by_rep_buf.key_seq() == buf.key_seq()
                &&& final(self).cases_by_rep_buf.row_seq().len() == buf.row_seq().len()
                &&& forall|j: int| 0 <= j < buf.row_seq().len()
                    ==> crate::series::ints(#[trigger] final(self).cases_by_rep_buf.row_seq()[j])
                        == crate::series::cumulated(buf.row_seq()[j])
                &&& final(self).cases_by_rep_d7.contents() == Self::d7_after(old(self).cases_by_rep_d7, buf, idx)
                &&& final(self).cases_by_pub == old(self).cases_by_pub
                &&& final(self).cases_delayed == old(self).cases_delayed
                &&& final(self).case_delay_total == old(self).case_delay_total
                &&& final(self).late_cases == old(self).late_cases
                &&& final(self).deaths_by_pub == old(self).deaths_by_pub
                &&& final(self).recovered_by_pub == old(self).recovered_by_pub
                &&& final(self).cases_retracted == old(self).cases_retracted
            }),
    {
        let idx = match self.cases_by_pub.date_index(day) {
            Some(i) => i,
            None => { return Err(SubmitError::PublicationOutOfRange); },
        };
        if !self.cases_by_rep_buf.cumsum_fits() {
            return Err(SubmitError::Overflow);
        }
        let ghost buf = self.cases_by_rep_buf;
        let ghost d7_old = self.cases_by_rep_d7;
        self.cases_by_rep_buf.cumsum();
        let ghost cbuf = self.cases_by_rep_buf;
        let n = self.cases_by_rep_buf.keys().len();
        let mut j: usize = 0;
        while j < n
            invariant
                self.wf(),
                idx < self.cases_by_pub.slots(),
                j <= n,
                n == buf.key_seq().len(),
                buf.wf(),
                self.cases_by_rep_buf == cbuf,
                cbuf.key_seq() == buf.key_seq(),
                cbuf.row_seq().len() == buf.row_seq().len(),
                forall|t: int| 0 <= t < buf.row_seq().len()
                    ==> crate::series::ints(#[trigger] cbuf.row_seq()[t]) == crate::series::cumulated(buf.row_seq()[t]),
                self.cases_by_rep_d7.contents() == Self::d7_partial(d7_old, buf, idx as int, j as int),
                self.cases_by_rep_d7.start_day() == d7_old.start_day(),
                self.cases_by_rep_d7.slots() == d7_old.slots(),
                d7_old.wf(),
                self.cases_by_pub == old(self).cases_by_pub,
                self.cases_delayed == old(self).cases_delayed,
                self.case_delay_total == old(self).case_delay_total,
                self.late_cases == old(self).late_cases,
                self.deaths_by_pub == old(self).deaths_by_pub,
                self.recovered_by_pub == old(self).recovered_by_pub,
                self.cases_retracted == old(self).cases_retracted,
                d7_old == old(self).cases_by_rep_d7,
            decreases n - j,
        {
            let k = self.cases_by_rep_buf.keys()[j];
            proof {
                cbuf.lemma_index_of_unique(j as int);
                buf.lemma_index_of_unique(j as int);
                buf.lemma_wf_rows();
                cbuf.lemma_wf_rows();
            }
            let cum = self.cases_by_rep_buf.get(&k).unwrap();
            let ghost row = buf.row_seq()[j as int];
            proof {
                assert(cum@ == cbuf.row_seq()[j as int]);
                assert(crate::series::ints(cum@) == crate::series::cumulated(row));
                assert(cum@[idx as int] as int == crate::series::ints(cum@)[idx as int]);
                crate::series::lemma_prefix_sum_mono(row, if idx >= 6 { idx - 6 } else { 0 }, idx + 1);
                if idx >= 7 {
                    assert(cum@[idx - 7] as int == crate::series::ints(cum@)[idx - 7]);
                }
            }
            let hi = cum[idx];
            let lo: u64 = if idx >= 7 { cum[idx - 7] } else { 0 };
            let ghost before = self.cases_by_rep_d7;
            self.cases_by_rep_d7.set_value(k, idx, hi - lo);
            proof {
                assert(hi - lo == rep_window(buf.series(k), idx as int));
                let next = Self::d7_partial(d7_old, buf, idx as int, j + 1);
                assert(buf.key_seq().subrange(0, j + 1) =~= buf.key_seq().subrange(0, j as int).push(k));
                assert(!buf.key_seq().subrange(0, j as int).contains(k)) by {
                    if buf.key_seq().subrange(0, j as int).contains(k) {
                        let q = choose|q: int| 0 <= q < j && buf.key_seq().subrange(0, j as int)[q] == k;
                        assert(buf.key_seq()[q] == k);
                    }
                }
                let prev = Self::d7_partial(d7_old, buf, idx as int, j as int);
                assert(before.contents().contains_key(k) == before.has_key(k));
                assert(prev.contains_key(k) == d7_old.has_key(k));
                if before.has_key(k) {
                    assert(before.contents()[k] == before.series(k));
                    assert(prev[k] == d7_old.series(k));
                }
                assert(before.series_or_zeros(k) == d7_old.series_or_zeros(k));
                assert forall|k2: PartialCaseKey| #[trigger] next.contains_key(k2) == self.cases_by_rep_d7.contents().contains_key(k2) by {
                    if k2 != k {
                        lemma_prefix_contains(buf.key_seq(), j as int, k2);
                        assert(before.contents().contains_key(k2) == prev.contains_key(k2));
                    }
                }
                assert forall|k2: PartialCaseKey| #[trigger] next.contains_key(k2) implies next[k2] == self.cases_by_rep_d7.contents()[k2] by {
                    if k2 != k {
                        lemma_prefix_contains(buf.key_seq(), j as int, k2);
                        assert(self.cases_by_rep_d7.contents()[k2] == before.contents()[k2]);
                        assert(before.contents()[k2] == prev[k2]);
                    } else {
                        assert(buf.key_seq().subrange(0, j + 1)[j as int] == k);
                    }
                }
                assert(self.cases_by_rep_d7.contents() =~= next);
            }
            j = j + 1;
        }
        proof {
            assert(buf.key_seq().subrange(0, n as int) =~= buf.key_seq());
            assert(Self::d7_partial(d7_old, buf, idx as int, n as int) =~= Self::d7_after(d7_old, buf, idx as int));
        }
        Ok(())
    }

    /// The value of `k` at slot `i` of `s`, zero where `s` lacks `k`.
    pub open spec fn at(s: Counters<PartialCaseKey>, k: PartialCaseKey, i: int) -> u64 {
        if s.has_key(k) {
            s.series(k)[i]
        } else {
            0
        }
    }

    /// Every key that a written store holds: those of `cases_by_pub` in
    /// order, then those that only the deaths, recovered, reporting-date
    /// seven-day sum or retracted stores add, in their order.
    pub open spec fn row_keys(&self) -> Seq<PartialCaseKey> {
        with_new(with_new(with_new(with_new(self.cases_by_pub.key_seq(), self.deaths_by_pub.key_seq()),
            self.recovered_by_pub.key_seq()), self.cases_by_rep_d7.key_seq()), self.cases_retracted.key_seq())
    }

    pub proof fn lemma_row_keys(&self)
        ensures
            forall|k: PartialCaseKey| #[trigger] self.row_keys().contains(k) <==> (self.cases_by_pub.has_key(k)
                || self.deaths_by_pub.has_key(k) || self.recovered_by_pub.has_key(k)
                || self.cases_by_rep_d7.has_key(k) || self.cases_retracted.has_key(k)),
    {
        let a = with_new(self.cases_by_pub.key_seq(), self.deaths_by_pub.key_seq());
        let b = with_new(a, self.recovered_by_pub.key_seq());
        let c = with_new(b, self.cases_by_rep_d7.key_seq());
        lemma_with_new(self.cases_by_pub.key_seq(), self.deaths_by_pub.key_seq());
        lemma_with_new(a, self.recovered_by_pub.key_seq());
        lemma_with_new(b, self.cases_by_rep_d7.key_seq());
        lemma_with_new(c, self.cases_retracted.key_seq());
    }

    /// The keys the rows are written for (see `row_keys`).
    pub fn row_key_list(&self) -> (r: Vec<PartialCaseKey>)
        requires
            self.wf(),
        ensures
            r@ == self.row_keys(),
    {
        let mut acc: Vec<PartialCaseKey> = Vec::new();
        extend_new(&mut acc, self.cases_by_pub.keys());
        assert(acc@ == with_new(Seq::<PartialCaseKey>::empty(), self.cases_by_pub.key_seq()));
        proof {
            self.cases_by_pub.lemma_wf_rows();
            lemma_with_new_fresh(self.cases_by_pub.key_seq());
        }
        extend_new(&mut acc, self.deaths_by_pub.keys());
        extend_new(&mut acc, self.recovered_by_pub.keys());
        extend_new(&mut acc, self.cases_by_rep_d7.keys());
        extend_new(&mut acc, self.cases_retracted.keys());
        acc
    }

    /// The diff row of key `k` at slot `i`.
    pub open spec fn row_at(&self, i: int, k: PartialCaseKey) -> DiffRecord {
        DiffRecord {
            date: Date { ce_days: (self.cases_by_pub.start_day().ce_days + i) as i32 },
            district_id: k.district_id,
            age_group: k.age_group,
            sex: k.sex,
            delay_total: Self::at(self.case_delay_total, k, i),
            cases_delayed: Self::at(self.cases_delayed, k, i),
            late_cases: Self::at(self.late_cases, k, i),
            cases: Self::at(self.cases_by_pub, k, i),
            deaths: Self::at(self.deaths_by_pub, k, i),
            recovered: Self::at(self.recovered_by_pub, k, i),
            cases_rep_d7: Self::at(self.cases_by_rep_d7, k, i),
            cases_retracted: Self::at(self.cases_retracted, k, i),
        }
    }

    /// Whether the row of `k` at slot `i` is written: one of its cases,
    /// deaths, recovered, reporting-date seven-day sum or retracted counts
    /// is non-zero.
    pub open spec fn row_emitted(&self, i: int, k: PartialCaseKey) -> bool {
        Self::at(self.cases_by_pub, k, i) != 0 || Self::at(self.deaths_by_pub, k, i) != 0
            || Self::at(self.recovered_by_pub, k, i) != 0 || Self::at(self.cases_by_rep_d7, k, i) != 0
            || Self::at(self.cases_retracted, k, i) != 0
    }

    /// The rows written for slot `i` from the first `n` of `row_keys`, in
    /// that order.
    pub open spec fn slot_rows(&self, i: int, n: int) -> Seq<DiffRecord>
        decreases n,
    {
        if n <= 0 {
            Seq::empty()
        } else {
            let k = self.row_keys()[n - 1];
            self.slot_rows(i, n - 1) + if self.row_emitted(i, k) {
                seq![self.row_at(i, k)]
            } else {
                Seq::empty()
            }
        }
    }

    /// The rows written for the first `m` slots, slot by slot.
    pub open spec fn rows_upto(&self, m: int) -> Seq<DiffRecord>
        decreases m,
    {
        if m <= 0 {
            Seq::empty()
        } else {
            self.rows_upto(m - 1) + self.slot_rows(m - 1, self.row_keys().len() as int)
        }
    }

    /// All rows of the artifact.
    pub open spec fn all_rows(&self) -> Seq<DiffRecord> {
        self.rows_upto(self.cases_by_pub.slots() as int)
    }

    fn value_at(s: &Counters<PartialCaseKey>, k: &PartialCaseKey, i: usize) -> (r: u64)
        requires
            s.wf(),
            i < s.slots(),
        ensures
            r == Self::at(*s, *k, i as int),
    {
        s.value_or_zero(k, i)
    }

    /// The rows of the artifact: for each slot in order, for each key of
    /// `row_keys` in order, the row of that key and day where it has a
    /// non-zero count (see `row_emitted`).
    pub fn diff_rows(&self) -> (r: Vec<DiffRecord>)
        requires
            self.wf(),
        ensures
            r@ == self.all_rows(),
    {
        let mut out: Vec<DiffRecord> = Vec::new();
        let len = self.cases_by_pub.len();
        let start = self.cases_by_pub.start();
        let keys = self.row_key_list();
        let n = keys.len();
        let mut i: usize = 0;
        while i < len
            invariant
                self.wf(),
                len == self.cases_by_pub.slots(),
                start == self.cases_by_pub.start_day(),
                n == self.row_keys().len(),
                keys@ == self.row_keys(),
                i <= len,
                out@ == self.rows_upto(i as int),
            decreases len - i,
        {
            let ghost before = out@;
            let mut j: usize = 0;
            while j < n
                invariant
                    self.wf(),
                    len == self.cases_by_pub.slots(),
                    start == self.cases_by_pub.start_day(),
                    n == self.row_keys().len(),
                    keys@ == self.row_keys(),
                    i < len,
                    j <= n,
                    out@ == before + self.slot_rows(i as int, j as int),
                decreases n - j,
            {
                let k = keys[j];
                let cases = Self::value_at(&self.cases_by_pub, &k, i);
                let deaths = Self::value_at(&self.deaths_by_pub, &k, i);
                let recovered = Self::value_at(&self.recovered_by_pub, &k, i);
                let cases_rep_d7 = Self::value_at(&self.cases_by_rep_d7, &k, i);
                let cases_retracted = Self::value_at(&self.cases_retracted, &k, i);
                if cases != 0 || deaths != 0 || recovered != 0 || cases_rep_d7 != 0 || cases_retracted != 0 {
                    let rec = DiffRecord {
                        date: Date { ce_days: (start.ce_days as i64 + i as i64) as i32 },
                        district_id: k.district_id,
                        age_group: k.age_group,
                        sex: k.sex,
                        delay_total: Self::value_at(&self.case_delay_total, &k, i),
                        cases_delayed: Self::value_at(&self.cases_delayed, &k, i),
                        late_cases: Self::value_at(&self.late_cases, &k, i),
                        cases,
                        deaths,
                        recovered,
                        cases_rep_d7,
                        cases_retracted,
                    };
                    out.push(rec);
                }
                proof {
                    assert(out@ =~= before + self.slot_rows(i as int, j + 1));
                }
                j = j + 1;
            }
            i = i + 1;
        }
        out
    }

    /// Sets the counters of `rec`'s key at `rec`'s day to the row's values
    /// in the eight stored series (the reporting-date buffer is not part of
    /// the artifact). Fails, changing nothing, where the day is outside the
    /// calendar.
    pub fn load_record(&mut self, rec: &DiffRecord) -> (r: Result<(), SubmitError>)
        requires
            old(self).wf(),
        ensures
            final(self).wf(),
            final(self).cases_by_pub.start_day() == old(self).cases_by_pub.start_day(),
            final(self).cases_by_pub.slots() == old(self).cases_by_pub.slots(),
            r is Err <==> old(self).cases_by_pub.slot_of(rec.date) is None,
            r is Err ==> *final(self) == *old(self),
            r is Ok ==> ({
                let i = old(self).cases_by_pub.slot_of(rec.date).unwrap();
                let k = PartialCaseKey { district_id: rec.district_id, age_group: rec.age_group, sex: rec.sex };
                &&& final(self).cases_by_pub.contents() == old(self).cases_by_pub.with_value(k, i, rec.cases)
                &&& final(self).deaths_by_pub.contents() == old(self).deaths_by_pub.with_value(k, i, rec.deaths)
                &&& final(self).recovered_by_pub.contents() == old(self).recovered_by_pub.with_value(k, i, rec.recovered)
                &&& final(self).case_delay_total.contents() == old(self).case_delay_total.with_value(k, i, rec.delay_total)
                &&& final(self).cases_delayed.contents() == old(self).cases_delayed.with_value(k, i, rec.cases_delayed)
                &&& final(self).late_cases.contents() == old(self).late_cases.with_value(k, i, rec.late_cases)
                &&& final(self).cases_by_rep_d7.contents() == old(self).cases_by_rep_d7.with_value(k, i, rec.cases_rep_d7)
                &&& final(self).cases_retracted.contents() == old(self).cases_retracted.with_value(k, i, rec.cases_retracted)
                &&& final(self).cases_by_pub.key_seq() == old(self).cases_by_pub.keys_with(k)
                &&& final(self).cases_by_rep_buf == old(self).cases_by_rep_buf
            }),
    {
        let i = match self.cases_by_pub.date_index(rec.date) {
            Some(i) => i,
            None => { return Err(SubmitError::PublicationOutOfRange); },
        };
        let k = PartialCaseKey { district_id: rec.district_id, age_group: rec.age_group, sex: rec.sex };
        self.cases_by_pub.set_value(k, i, rec.cases);
        self.deaths_by_pub.set_value(k, i, rec.deaths);
        self.recovered_by_pub.set_value(k, i, rec.recovered);
        self.case_delay_total.set_value(k, i, rec.delay_total);
        self.cases_delayed.set_value(k, i, rec.cases_delayed);
        self.late_cases.set_value(k, i, rec.late_cases);
        self.cases_by_rep_d7.set_value(k, i, rec.cases_rep_d7);
        self.cases_retracted.set_value(k, i, rec.cases_retracted);
        Ok(())
    }

    proof fn lemma_slot_rows_dates(&self, i: int, n: int)
        requires
            self.wf(),
            0 <= i < self.cases_by_pub.slots(),
        ensures
            forall|t: int| 0 <= t < self.slot_rows(i, n).len()
                ==> (#[trigger] self.slot_rows(i, n)[t]).date.ce_days == self.cases_by_pub.start_day().ce_days + i,
        decreases n,
    {
        if n > 0 {
            self.lemma_slot_rows_dates(i, n - 1);
            let a = self.slot_rows(i, n - 1);
            assert forall|t: int| 0 <= t < self.slot_rows(i, n).len()
                implies (#[trigger] self.slot_rows(i, n)[t]).date.ce_days == self.cases_by_pub.start_day().ce_days + i by {
                if t < a.len() {
                    assert(self.slot_rows(i, n)[t] == a[t]);
                }
            }
        }
    }

    proof fn lemma_rows_dates(&self, m: int)
        requires
            self.wf(),
            0 <= m <= self.cases_by_pub.slots(),
        ensures
            forall|t: int| 0 <= t < self.rows_upto(m).len()
                ==> 1 <= (#[trigger] self.rows_upto(m)[t]).date.ce_days <= MAX_FOUR_DIGIT_YEAR_CE_DAYS,
        decreases m,
    {
        if m > 0 {
            self.lemma_rows_dates(m - 1);
            self.lemma_slot_rows_dates(m - 1, self.row_keys().len() as int);
            let a = self.rows_upto(m - 1);
            let b = self.slot_rows(m - 1, self.row_keys().len() as int);
            assert forall|t: int| 0 <= t < self.rows_upto(m).len()
                implies 1 <= (#[trigger] self.rows_upto(m)[t]).date.ce_days <= MAX_FOUR_DIGIT_YEAR_CE_DAYS by {
                if t < a.len() {
                    assert(self.rows_upto(m)[t] == a[t]);
                } else {
                    assert(self.rows_upto(m)[t] == b[t - a.len()]);
                }
            }
        }
    }

    /// Appends the line of every row of the artifact (without the header).
    pub fn write_all(&self, out: &mut Vec<u8>)
        requires
            self.wf(),
        ensures
            final(out)@ == old(out)@ + lines(self.all_rows()),
    {
        let rows = self.diff_rows();
        proof {
            self.lemma_rows_dates(self.cases_by_pub.slots() as int);
        }
        write_rows(&rows, out);
    }

    /// The store that holds the artifact field numbered `f`: cases, deaths,
    /// recovered, delay total, delayed cases, late cases, reporting-date
    /// seven-day sum, retracted cases.
    pub open spec fn store(&self, f: int) -> Counters<PartialCaseKey> {
        if f == 0 {
            self.cases_by_pub
        } else if f == 1 {
            self.deaths_by_pub
        } else if f == 2 {
            self.recovered_by_pub
        } else if f == 3 {
            self.case_delay_total
        } else if f == 4 {
            self.cases_delayed
        } else if f == 5 {
            self.late_cases
        } else if f == 6 {
            self.cases_by_rep_d7
        } else {
            self.cases_retracted
        }
    }

    /// Loads the rows of an artifact in order (see `load_record`); stops at
    /// the first row whose day is outside the calendar.
    pub fn load_records(&mut self, rows: &Vec<DiffRecord>) -> (r: Result<(), SubmitError>)
        requires
            old(self).wf(),
        ensures
            final(self).wf(),
            final(self).cases_by_pub.start_day() == old(self).cases_by_pub.start_day(),
            final(self).cases_by_pub.slots() == old(self).cases_by_pub.slots(),
            r is Ok <==> forall|t: int| 0 <= t < rows@.len()
                ==> old(self).cases_by_pub.slot_of((#[trigger] rows@[t]).date) is Some,
            r is Ok ==> forall|f: int| 0 <= f < 8 ==> (#[trigger] final(self).store(f)).contents()
                == loaded(old(self).store(f).contents(), old(self).cases_by_pub.slots(),
                    old(self).cases_by_pub.start_day(), rows@, f),
            r is Ok ==> final(self).cases_by_rep_buf == old(self).cases_by_rep_buf,
    {
        let mut t: usize = 0;
        while t < rows.len()
            invariant
                old(self).wf(),
                self.wf(),
                self.cases_by_pub.start_day() == old(self).cases_by_pub.start_day(),
                self.cases_by_pub.slots() == old(self).cases_by_pub.slots(),
                t <= rows@.len(),
                forall|q: int| 0 <= q < t ==> old(self).cases_by_pub.slot_of((#[trigger] rows@[q]).date) is Some,
                forall|f: int| 0 <= f < 8 ==> (#[trigger] self.store(f)).contents()
                    == loaded(old(self).store(f).contents(), old(self).cases_by_pub.slots(),
                        old(self).cases_by_pub.start_day(), rows@.subrange(0, t as int), f),
                self.cases_by_rep_buf == old(self).cases_by_rep_buf,
            decreases rows@.len() - t,
        {
            let ghost before = *self;
            match self.load_record(&rows[t]) {
                Ok(()) => {},
                Err(e) => { return Err(e); },
            }
            proof {
                let sub = rows@.subrange(0, t + 1);
                assert(sub.drop_last() =~= rows@.subrange(0, t as int));
                assert(sub.last() == rows@[t as int]);
                assert forall|f: int| 0 <= f < 8 implies (#[trigger] self.store(f)).contents()
                    == loaded(old(self).store(f).contents(), old(self).cases_by_pub.slots(),
                        old(self).cases_by_pub.start_day(), sub, f) by {
                    let b = before.store(f);
                    let k = record_key(rows@[t as int]);
                    assert(b.contents().contains_key(k) == b.has_key(k));
                    if b.has_key(k) {
                        assert(b.contents()[k] == b.series(k));
                    }
                }
            }
            t = t + 1;
        }
        proof {
            assert(rows@.subrange(0, rows@.len() as int) =~= rows@);
        }
        Ok(())
    }
}

} // verus!
