//! The raw counters of the streamer pipeline: infection, vaccination and
//! hospitalization rows counted by key and day.

use vstd::prelude::*;

use crate::calendar::Date;
use crate::context::DistrictId;
use crate::districts::DistrictInfo;
use crate::context::AgeGroup;
use crate::records::{DiffRecord, GeoCaseKey, PopulationKey, RawDestatisRow, FullCaseKey, HospitalizationKey, HospitalizationRecord, InfectionRecord, ReportFlag, VaccinationKey, VaccinationLevel, VaccinationRecord};
use crate::series::{Counters, TimeSeries, TimeSeriesKey};

verus! {

/// Why a row cannot be counted.
#[derive(Clone, Copy, Debug, PartialEq, Eq, Structural)]
pub enum CountError {
    /// A counted row has a negative count.
    NegativeCount,
    /// The row names a district missing from the master data.
    UnknownDistrict,
    /// The row's day is outside the calendar.
    DateOutOfRange,
    /// A counter would exceed `u64`.
    Overflow,
}

/// The state of district `id` in the master data: that of the first entry
/// with that id.
pub open spec fn state_of(ds: Seq<DistrictInfo>, id: DistrictId) -> Option<u32>
    decreases ds.len(),
{
    if ds.len() == 0 {
        None
    } else if ds[0].id == id {
        Some(ds[0].state.id)
    } else {
        state_of(ds.drop_first(), id)
    }
}

/// Looks up the state of a district.
pub fn find_state(districts: &Vec<DistrictInfo>, id: DistrictId) -> (r: Option<u32>)
    ensures
        r == state_of(districts@, id),
{
    let mut i: usize = 0;
    assert(districts@.subrange(0, districts@.len() as int) =~= districts@);
    while i < districts.len()
        invariant
            i <= districts@.len(),
            state_of(districts@.subrange(i as int, districts@.len() as int), id) == state_of(districts@, id),
        decreases districts@.len() - i,
    {
        let ghost rest = districts@.subrange(i as int, districts@.len() as int);
        assert(rest[0] == districts@[i as int]);
        if districts[i].id == id {
            return Some(districts[i].state.id);
        }
        assert(rest.drop_first() =~= districts@.subrange(i + 1, districts@.len() as int));
        i = i + 1;
    }
    proof {
        assert(districts@.subrange(i as int, districts@.len() as int).len() == 0);
    }
    None
}

/// The value at slot `i` of `k`, zero where the store lacks `k`.
pub open spec fn value_of<K: TimeSeriesKey>(s: Counters<K>, k: K, i: int) -> int {
    if s.has_key(k) {
        s.series(k)[i] as int
    } else {
        0
    }
}

/// Adds `v` at slot `i` of `k` (creating `k`), or reports that the sum
/// would exceed `u64` and changes nothing.
pub fn add_checked<K: TimeSeriesKey>(s: &mut Counters<K>, k: K, i: usize, v: u64) -> (r: Result<(), CountError>)
    requires
        old(s).wf(),
        i < old(s).slots(),
    ensures
        final(s).wf(),
        final(s).start_day() == old(s).start_day(),
        final(s).slots() == old(s).slots(),
        r is Err <==> value_of(*old(s), k, i as int) + v > u64::MAX,
        r is Err ==> r == Err::<(), CountError>(CountError::Overflow) && *final(s) == *old(s),
        r is Ok ==> final(s).contents() == old(s).with_value(k, i as int, (value_of(*old(s), k, i as int) + v) as u64)
            && final(s).key_seq() == old(s).keys_with(k),
{
    let cur = s.value_or_zero(&k, i);
    if cur > u64::MAX - v {
        return Err(CountError::Overflow);
    }
    s.set_value(k, i, cur + v);
    Ok(())
}

/// Infection counts by reference date and report date, deaths and
/// recoveries by reference date.
pub struct RawCaseData {
    pub cases_by_ref: Counters<FullCaseKey>,
    pub cases_by_report: Counters<FullCaseKey>,
    pub deaths: Counters<FullCaseKey>,
    pub recovered: Counters<FullCaseKey>,
}

/// The count a row contributes under its flag: the count where the flag is
/// valid, zero otherwise.
pub open spec fn counted(flag: ReportFlag, count: i32) -> int {
    if flag == ReportFlag::NewlyReported || flag == ReportFlag::Consistent {
        count as int
    } else {
        0
    }
}

impl RawCaseData {
    pub open spec fn wf(&self) -> bool {
        &&& self.cases_by_ref.wf()
        &&& self.cases_by_report.wf()
        &&& self.deaths.wf()
        &&& self.recovered.wf()
        &&& self.cases_by_report.start_day() == self.cases_by_ref.start_day()
        &&& self.cases_by_report.slots() == self.cases_by_ref.slots()
        &&& self.deaths.start_day() == self.cases_by_ref.start_day()
        &&& self.deaths.slots() == self.cases_by_ref.slots()
        &&& self.recovered.start_day() == self.cases_by_ref.start_day()
        &&& self.recovered.slots() == self.cases_by_ref.slots()
    }

    pub fn new(start: Date, end: Date) -> (r: Self)
        requires
            start.ce_days <= end.ce_days < i32::MAX,
        ensures
            r.wf(),
            r.cases_by_ref.start_day() == start,
            r.cases_by_ref.slots() == end.ce_days - start.ce_days,
    {
        RawCaseData {
            cases_by_ref: TimeSeries::new(start, end),
            cases_by_report: TimeSeries::new(start, end),
            deaths: TimeSeries::new(start, end),
            recovered: TimeSeries::new(start, end),
        }
    }

    /// The error that counting `rec` meets, if any, in the order the checks
    /// are made (overflow aside).
    pub open spec fn count_error(&self, districts: Seq<DistrictInfo>, rec: InfectionRecord) -> Option<CountError> {
        if counted(rec.case, rec.case_count) < 0 || counted(rec.death, rec.death_count) < 0
            || counted(rec.recovered, rec.recovered_count) < 0 {
            Some(CountError::NegativeCount)
        } else if state_of(districts, rec.district_id) is None {
            Some(CountError::UnknownDistrict)
        } else if self.cases_by_ref.slot_of(rec.reference_date) is None {
            Some(CountError::DateOutOfRange)
        } else if counted(rec.case, rec.case_count) > 0 && self.cases_by_ref.slot_of(rec.report_date) is None {
            Some(CountError::DateOutOfRange)
        } else {
            None
        }
    }

    /// Counts an infection row under its state, district, age group and
    /// sex: valid cases on the reference date and on the report date, valid
    /// deaths and recoveries on the reference date. Rows whose flags do not
    /// count add nothing. On any error nothing changes.
    pub fn submit(&mut self, districts: &Vec<DistrictInfo>, rec: &InfectionRecord) -> (r: Result<(), CountError>)
        requires
            old(self).wf(),
        ensures
            final(self).wf(),
            final(self).cases_by_ref.start_day() == old(self).cases_by_ref.start_day(),
            final(self).cases_by_ref.slots() == old(self).cases_by_ref.slots(),
            old(self).count_error(districts@, *rec).is_some() ==> r == Err::<(), CountError>(old(self).count_error(districts@, *rec).unwrap()),
            r is Err ==> *final(self) == *old(self),
            r is Err <==> (old(self).count_error(districts@, *rec).is_some() || ({
                let k = FullCaseKey {
                    state_id: state_of(districts@, rec.district_id).unwrap(),
                    district_id: rec.district_id,
                    age_group: rec.age_group,
                    sex: rec.sex,
                };
                let ri = old(self).cases_by_ref.slot_of(rec.reference_date).unwrap();
                let rep = old(self).cases_by_ref.slot_of(rec.report_date).unwrap();
                let c = counted(rec.case, rec.case_count);
                let dc = counted(rec.death, rec.death_count);
                let rc = counted(rec.recovered, rec.recovered_count);
                ||| (c > 0 && (value_of(old(self).cases_by_ref, k, ri) + c > u64::MAX
                    || value_of(old(self).cases_by_report, k, rep) + c > u64::MAX))
                ||| (dc > 0 && value_of(old(self).deaths, k, ri) + dc > u64::MAX)
                ||| (rc > 0 && value_of(old(self).recovered, k, ri) + rc > u64::MAX)
            })),
            r is Ok ==> old(self).count_error(districts@, *rec).is_none() && ({
                let k = FullCaseKey {
                    state_id: state_of(districts@, rec.district_id).unwrap(),
                    district_id: rec.district_id,
                    age_group: rec.age_group,
                    sex: rec.sex,
                };
                let ri = old(self).cases_by_ref.slot_of(rec.reference_date).unwrap();
                let c = counted(rec.case, rec.case_count);
                let dc = counted(rec.death, rec.death_count);
                let rc = counted(rec.recovered, rec.recovered_count);
                &&& (c > 0 ==> final(self).cases_by_ref.contents() == old(self).cases_by_ref.with_value(k, ri,
                        (value_of(old(self).cases_by_ref, k, ri) + c) as u64))
                &&& (c > 0 ==> final(self).cases_by_report.contents() == old(self).cases_by_report.with_value(k,
                        old(self).cases_by_ref.slot_of(rec.report_date).unwrap(),
                        (value_of(old(self).cases_by_report, k, old(self).cases_by_ref.slot_of(rec.report_date).unwrap()) + c) as u64))
                &&& (c <= 0 ==> final(self).cases_by_ref == old(self).cases_by_ref && final(self).cases_by_report == old(self).cases_by_report)
                &&& (dc > 0 ==> final(self).deaths.contents() == old(self).deaths.with_value(k, ri,
                        (value_of(old(self).deaths, k, ri) + dc) as u64))
                &&& (dc <= 0 ==> final(self).deaths == old(self).deaths)
                &&& (rc > 0 ==> final(self).recovered.contents() == old(self).recovered.with_value(k, ri,
                        (value_of(old(self).recovered, k, ri) + rc) as u64))
                &&& (rc <= 0 ==> final(self).recovered == old(self).recovered)
            }),
    {
        let case_count: i32 = if rec.case.valid() { rec.case_count } else { 0 };
        let death_count: i32 = if rec.death.valid() { rec.death_count } else { 0 };
        let recovered_count: i32 = if rec.recovered.valid() { rec.recovered_count } else { 0 };
        if case_count < 0 || death_count < 0 || recovered_count < 0 {
            return Err(CountError::NegativeCount);
        }
        let state_id = match find_state(districts, rec.district_id) {
            Some(s) => s,
            None => { return Err(CountError::UnknownDistrict); },
        };
        let ref_index = match self.cases_by_ref.date_index(rec.reference_date) {
            Some(i) => i,
            None => { return Err(CountError::DateOutOfRange); },
        };
        let report_index: usize = if case_count > 0 {
            match self.cases_by_ref.date_index(rec.report_date) {
                Some(i) => i,
                None => { return Err(CountError::DateOutOfRange); },
            }
        } else {
            0
        };
        let k = FullCaseKey { state_id, district_id: rec.district_id, age_group: rec.age_group, sex: rec.sex };
        if case_count > 0 {
            let a = self.cases_by_ref.value_or_zero(&k, ref_index);
            let b = self.cases_by_report.value_or_zero(&k, report_index);
            if a > u64::MAX - case_count as u64 || b > u64::MAX - case_count as u64 {
                return Err(CountError::Overflow);
            }
        }
        if death_count > 0 && self.deaths.value_or_zero(&k, ref_index) > u64::MAX - death_count as u64 {
            return Err(CountError::Overflow);
        }
        if recovered_count > 0 && self.recovered.value_or_zero(&k, ref_index) > u64::MAX - recovered_count as u64 {
            return Err(CountError::Overflow);
        }
        if case_count > 0 {
            let _ = add_checked(&mut self.cases_by_ref, k, ref_index, case_count as u64);
            let _ = add_checked(&mut self.cases_by_report, k, report_index, case_count as u64);
        }
        if death_count > 0 {
            let _ = add_checked(&mut self.deaths, k, ref_index, death_count as u64);
        }
        if recovered_count > 0 {
            let _ = add_checked(&mut self.recovered, k, ref_index, recovered_count as u64);
        }
        Ok(())
    }
}

/// Trailing seven-day hospitalization sums by state and age group.
pub struct RawHospitalizationData {
    pub cases_d7: Counters<HospitalizationKey>,
}

impl RawHospitalizationData {
    pub fn new(start: Date, end: Date) -> (r: Self)
        requires
            start.ce_days <= end.ce_days < i32::MAX,
        ensures
            r.cases_d7.wf(),
            r.cases_d7.start_day() == start,
            r.cases_d7.slots() == end.ce_days - start.ce_days,
    {
        RawHospitalizationData { cases_d7: TimeSeries::new(start, end) }
    }

    /// Counts a row under its state and age group. Rows of state 0 (the
    /// national sum) and rows outside the calendar (the source may run a
    /// day ahead) are skipped: the result is then `Ok(false)`.
    pub fn submit(&mut self, rec: &HospitalizationRecord) -> (r: Result<bool, CountError>)
        requires
            old(self).cases_d7.wf(),
        ensures
            final(self).cases_d7.wf(),
            final(self).cases_d7.start_day() == old(self).cases_d7.start_day(),
            final(self).cases_d7.slots() == old(self).cases_d7.slots(),
            (rec.state_id == 0 || old(self).cases_d7.slot_of(rec.date) is None) ==> r == Ok::<bool, CountError>(false),
            r != Ok::<bool, CountError>(true) ==> final(self).cases_d7 == old(self).cases_d7,
            r == Ok::<bool, CountError>(true) ==> ({
                let k = HospitalizationKey { state_id: rec.state_id, age_group: rec.age_group };
                let i = old(self).cases_d7.slot_of(rec.date).unwrap();
                &&& rec.state_id != 0
                &&& final(self).cases_d7.contents() == old(self).cases_d7.with_value(k, i,
                    (value_of(old(self).cases_d7, k, i) + rec.cases_d7) as u64)
            }),
            r is Err <==> (rec.state_id != 0 && old(self).cases_d7.slot_of(rec.date) is Some
                && value_of(old(self).cases_d7, HospitalizationKey { state_id: rec.state_id, age_group: rec.age_group },
                    old(self).cases_d7.slot_of(rec.date).unwrap()) + rec.cases_d7 > u64::MAX),
    {
        if rec.state_id == 0 {
            return Ok(false);
        }
        let index = match self.cases_d7.date_index(rec.date) {
            Some(i) => i,
            None => { return Ok(false); },
        };
        let k = HospitalizationKey { state_id: rec.state_id, age_group: rec.age_group };
        match add_checked(&mut self.cases_d7, k, index, rec.cases_d7) {
            Ok(()) => Ok(true),
            Err(e) => Err(e),
        }
    }
}

/// Vaccination counts per level.
pub struct RawVaccinationData {
    pub first_vacc: Counters<VaccinationKey>,
    pub basic_vacc: Counters<VaccinationKey>,
    pub full_vacc: Counters<VaccinationKey>,
}

/// The district a vaccination row counts under: none for the federal
/// vaccination sites (17000) and where the row names none.
pub open spec fn vaccination_district(id: Option<DistrictId>) -> Option<DistrictId> {
    match id {
        Some(d) => if d == 17000 { None } else { Some(d) },
        None => None,
    }
}

impl RawVaccinationData {
    pub open spec fn store(&self, level: VaccinationLevel) -> Counters<VaccinationKey> {
        match level {
            VaccinationLevel::First => self.first_vacc,
            VaccinationLevel::Basic => self.basic_vacc,
            VaccinationLevel::Full => self.full_vacc,
        }
    }

    pub fn new(start: Date, end: Date) -> (r: Self)
        requires
            start.ce_days <= end.ce_days < i32::MAX,
        ensures
            r.first_vacc.wf() && r.basic_vacc.wf() && r.full_vacc.wf(),
            r.first_vacc.start_day() == start && r.first_vacc.slots() == end.ce_days - start.ce_days,
            r.basic_vacc.start_day() == start && r.basic_vacc.slots() == end.ce_days - start.ce_days,
            r.full_vacc.start_day() == start && r.full_vacc.slots() == end.ce_days - start.ce_days,
    {
        RawVaccinationData {
            first_vacc: TimeSeries::new(start, end),
            basic_vacc: TimeSeries::new(start, end),
            full_vacc: TimeSeries::new(start, end),
        }
    }

    /// Counts a vaccination row in the store of its level, under its state
    /// and district where known and its age group. On any error nothing
    /// changes.
    pub fn submit(&mut self, districts: &Vec<DistrictInfo>, rec: &VaccinationRecord) -> (r: Result<(), CountError>)
        requires
            old(self).first_vacc.wf() && old(self).basic_vacc.wf() && old(self).full_vacc.wf(),
        ensures
            final(self).first_vacc.wf() && final(self).basic_vacc.wf() && final(self).full_vacc.wf(),
            r is Err ==> final(self).first_vacc == old(self).first_vacc && final(self).basic_vacc == old(self).basic_vacc
                && final(self).full_vacc == old(self).full_vacc,
            ({
                let did = vaccination_district(rec.district_id.0);
                let unknown = did is Some && state_of(districts@, did.unwrap()) is None;
                let s = old(self).store(rec.level);
                &&& (r is Err <==> (unknown || s.slot_of(rec.date) is None || ({
                    let k = VaccinationKey {
                        state_id: match did { Some(d) => state_of(districts@, d), None => None },
                        district_id: did,
                        age_group: rec.age_group,
                    };
                    value_of(s, k, s.slot_of(rec.date).unwrap()) + rec.count > u64::MAX
                })))
                &&& (unknown ==> r == Err::<(), CountError>(CountError::UnknownDistrict))
                &&& (!unknown && s.slot_of(rec.date) is None ==> r == Err::<(), CountError>(CountError::DateOutOfRange))
                &&& (r is Ok ==> {
                    let k = VaccinationKey {
                        state_id: match did { Some(d) => state_of(districts@, d), None => None },
                        district_id: did,
                        age_group: rec.age_group,
                    };
                    let i = s.slot_of(rec.date).unwrap();
                    &&& !unknown
                    &&& final(self).store(rec.level).contents() == s.with_value(k, i, (value_of(s, k, i) + rec.count) as u64)
                    &&& forall|l: VaccinationLevel| l != rec.level ==> #[trigger] final(self).store(l) == old(self).store(l)
                })
            }),
    {
        let did: Option<DistrictId> = match rec.district_id.0 {
            Some(d) => if d == 17000 { None } else { Some(d) },
            None => None,
        };
        let state_id: Option<u32> = match did {
            Some(d) => match find_state(districts, d) {
                Some(s) => Some(s),
                None => { return Err(CountError::UnknownDistrict); },
            },
            None => None,
        };
        let k = VaccinationKey { state_id, district_id: did, age_group: rec.age_group };
        match rec.level {
            VaccinationLevel::First => {
                let index = match self.first_vacc.date_index(rec.date) {
                    Some(i) => i,
                    None => { return Err(CountError::DateOutOfRange); },
                };
                add_checked(&mut self.first_vacc, k, index, rec.count)
            },
            VaccinationLevel::Basic => {
                let index = match self.basic_vacc.date_index(rec.date) {
                    Some(i) => i,
                    None => { return Err(CountError::DateOutOfRange); },
                };
                add_checked(&mut self.basic_vacc, k, index, rec.count)
            },
            VaccinationLevel::Full => {
                let index = match self.full_vacc.date_index(rec.date) {
                    Some(i) => i,
                    None => { return Err(CountError::DateOutOfRange); },
                };
                add_checked(&mut self.full_vacc, k, index, rec.count)
            },
        }
    }
}

/// Head counts by state, age band and sex, kept in a one-day store.
pub struct RawPopulationData {
    pub count: Counters<PopulationKey>,
}

impl RawPopulationData {
    /// The day the counts are kept on.
    pub fn ref_date() -> (r: Date)
        ensures
            r.ce_days == crate::calendar::GLOBAL_START_CE_DAYS,
    {
        crate::calendar::global_start_date()
    }

    pub fn new() -> (r: Self)
        ensures
            r.count.wf(),
            r.count.start_day().ce_days == crate::calendar::GLOBAL_START_CE_DAYS,
            r.count.slots() == 1,
            r.count.key_seq().len() == 0,
    {
        let start = Self::ref_date();
        let end = Date::from_ce_days(start.ce_days + 1);
        RawPopulationData { count: TimeSeries::new(start, end) }
    }

    /// Adds a row's head count under its state, age band and sex.
    pub fn submit(&mut self, rec: &RawDestatisRow) -> (r: Result<(), CountError>)
        requires
            old(self).count.wf(),
            old(self).count.slots() == 1,
        ensures
            final(self).count.wf(),
            final(self).count.slots() == 1,
            final(self).count.start_day() == old(self).count.start_day(),
            ({
                let k = PopulationKey { state_id: rec.state_id, age_group: rec.age_group, sex: rec.sex };
                &&& r is Err <==> value_of(old(self).count, k, 0) + rec.count > u64::MAX
                &&& r is Err ==> final(self).count == old(self).count
                &&& r is Ok ==> final(self).count.contents()
                    == old(self).count.with_value(k, 0, (value_of(old(self).count, k, 0) + rec.count) as u64)
            }),
    {
        let k = PopulationKey { state_id: rec.state_id, age_group: rec.age_group, sex: rec.sex };
        add_checked(&mut self.count, k, 0, rec.count)
    }
}

/// The age band of the vaccination measurement that a one-year age band
/// (or an open top band) falls in: 0-4, 5-11, 12-17, 18-59, 60+.
pub open spec fn vacc_band_of(age: u16) -> AgeGroup {
    if age < 5 {
        AgeGroup { low: 0, high: Some(4) }
    } else if age < 12 {
        AgeGroup { low: 5, high: Some(11) }
    } else if age < 18 {
        AgeGroup { low: 12, high: Some(17) }
    } else if age < 60 {
        AgeGroup { low: 18, high: Some(59) }
    } else {
        AgeGroup { low: 60, high: None }
    }
}

/// The age band of the demographic measurement that a one-year age band
/// (or an open top band) falls in: 0-4, 5-14, 15-34, 35-59, 60-79, 80+.
pub open spec fn demo_band_of(age: u16) -> AgeGroup {
    if age < 5 {
        AgeGroup { low: 0, high: Some(4) }
    } else if age < 15 {
        AgeGroup { low: 5, high: Some(14) }
    } else if age < 35 {
        AgeGroup { low: 15, high: Some(34) }
    } else if age < 60 {
        AgeGroup { low: 35, high: Some(59) }
    } else if age < 80 {
        AgeGroup { low: 60, high: Some(79) }
    } else {
        AgeGroup { low: 80, high: None }
    }
}

/// Whether an age band is a single year or open upwards.
pub open spec fn single_year(ag: AgeGroup) -> bool {
    ag.high is None || ag.high == Some(ag.low)
}

pub fn vacc_age_band(ag: AgeGroup) -> (r: AgeGroup)
    requires
        single_year(ag),
    ensures
        r == vacc_band_of(ag.low),
{
    let age = ag.low;
    if age < 5 {
        AgeGroup { low: 0, high: Some(4) }
    } else if age < 12 {
        AgeGroup { low: 5, high: Some(11) }
    } else if age < 18 {
        AgeGroup { low: 12, high: Some(17) }
    } else if age < 60 {
        AgeGroup { low: 18, high: Some(59) }
    } else {
        AgeGroup { low: 60, high: None }
    }
}

pub fn demo_age_band(ag: AgeGroup) -> (r: AgeGroup)
    requires
        single_year(ag),
    ensures
        r == demo_band_of(ag.low),
{
    let age = ag.low;
    if age < 5 {
        AgeGroup { low: 0, high: Some(4) }
    } else if age < 15 {
        AgeGroup { low: 5, high: Some(14) }
    } else if age < 35 {
        AgeGroup { low: 15, high: Some(34) }
    } else if age < 60 {
        AgeGroup { low: 35, high: Some(59) }
    } else if age < 80 {
        AgeGroup { low: 60, high: Some(79) }
    } else {
        AgeGroup { low: 80, high: None }
    }
}

/// One row of the intensive-care occupancy reports.
#[derive(Clone, Copy, Debug)]
pub struct ICULoadRecord {
    pub date: Date,
    pub state_id: u32,
    pub district_id: DistrictId,
    pub num_stations: u32,
    pub num_regions: u32,
    pub current_covid_cases: u32,
    pub current_covid_cases_invasive_ventilation: u32,
    pub beds_free: u32,
    pub beds_in_use: u32,
    pub beds_in_use_adult_only: u32,
    pub beds_free_adult_only: u32,
}

/// Intensive-care occupancy by state and district.
pub struct RawICULoadData {
    pub curr_covid_cases: Counters<GeoCaseKey>,
    pub curr_covid_cases_invasive: Counters<GeoCaseKey>,
    pub curr_beds_free: Counters<GeoCaseKey>,
    pub curr_beds_in_use: Counters<GeoCaseKey>,
}

impl RawICULoadData {
    pub open spec fn wf(&self) -> bool {
        &&& self.curr_covid_cases.wf()
        &&& self.curr_covid_cases_invasive.wf()
        &&& self.curr_beds_free.wf()
        &&& self.curr_beds_in_use.wf()
        &&& self.curr_covid_cases_invasive.slots() == self.curr_covid_cases.slots()
        &&& self.curr_beds_free.slots() == self.curr_covid_cases.slots()
        &&& self.curr_beds_in_use.slots() == self.curr_covid_cases.slots()
        &&& self.curr_covid_cases_invasive.start_day() == self.curr_covid_cases.start_day()
        &&& self.curr_beds_free.start_day() == self.curr_covid_cases.start_day()
        &&& self.curr_beds_in_use.start_day() == self.curr_covid_cases.start_day()
    }

    pub fn new(start: Date, end: Date) -> (r: Self)
        requires
            start.ce_days <= end.ce_days < i32::MAX,
        ensures
            r.wf(),
            r.curr_covid_cases.start_day() == start,
            r.curr_covid_cases.slots() == end.ce_days - start.ce_days,
    {
        RawICULoadData {
            curr_covid_cases: TimeSeries::new(start, end),
            curr_covid_cases_invasive: TimeSeries::new(start, end),
            curr_beds_free: TimeSeries::new(start, end),
            curr_beds_in_use: TimeSeries::new(start, end),
        }
    }

    /// Records a report's occupancy at its day under its state and
    /// district; reports outside the calendar (the source may run a day
    /// ahead) are skipped and give `false`.
    pub fn submit(&mut self, rec: &ICULoadRecord) -> (r: bool)
        requires
            old(self).wf(),
        ensures
            final(self).wf(),
            final(self).curr_covid_cases.start_day() == old(self).curr_covid_cases.start_day(),
            final(self).curr_covid_cases.slots() == old(self).curr_covid_cases.slots(),
            r == old(self).curr_covid_cases.slot_of(rec.date) is Some,
            !r ==> *final(self) == *old(self),
            r ==> ({
                let i = old(self).curr_covid_cases.slot_of(rec.date).unwrap();
                let k = GeoCaseKey { state_id: rec.state_id, district_id: rec.district_id };
                &&& final(self).curr_covid_cases.contents() == old(self).curr_covid_cases.with_value(k, i, rec.current_covid_cases as u64)
                &&& final(self).curr_covid_cases_invasive.contents() == old(self).curr_covid_cases_invasive.with_value(k, i,
                    rec.current_covid_cases_invasive_ventilation as u64)
                &&& final(self).curr_beds_free.contents() == old(self).curr_beds_free.with_value(k, i, rec.beds_free as u64)
                &&& final(self).curr_beds_in_use.contents() == old(self).curr_beds_in_use.with_value(k, i, rec.beds_in_use as u64)
            }),
    {
        let index = match self.curr_covid_cases.date_index(rec.date) {
            Some(i) => i,
            None => { return false; },
        };
        let k = GeoCaseKey { state_id: rec.state_id, district_id: rec.district_id };
        self.curr_covid_cases.set_value(k, index, rec.current_covid_cases as u64);
        self.curr_covid_cases_invasive.set_value(k, index, rec.current_covid_cases_invasive_ventilation as u64);
        self.curr_beds_free.set_value(k, index, rec.beds_free as u64);
        self.curr_beds_in_use.set_value(k, index, rec.beds_in_use as u64);
        true
    }
}

/// Publication-axis counts read from the diff artifact, by state,
/// district, age group and sex.
pub struct ParboiledCaseData {
    pub cases_by_pub: Counters<FullCaseKey>,
    pub case_delay_total: Counters<FullCaseKey>,
    pub cases_delayed: Counters<FullCaseKey>,
    pub deaths_by_pub: Counters<FullCaseKey>,
    pub recovered_by_pub: Counters<FullCaseKey>,
    pub cases_by_pubrep_d7: Counters<FullCaseKey>,
    pub cases_retracted: Counters<FullCaseKey>,
}

impl ParboiledCaseData {
    pub open spec fn wf(&self) -> bool {
        let s = self.cases_by_pub;
        &&& s.wf()
        &&& self.case_delay_total.wf() && self.case_delay_total.start_day() == s.start_day() && self.case_delay_total.slots() == s.slots()
        &&& self.cases_delayed.wf() && self.cases_delayed.start_day() == s.start_day() && self.cases_delayed.slots() == s.slots()
        &&& self.deaths_by_pub.wf() && self.deaths_by_pub.start_day() == s.start_day() && self.deaths_by_pub.slots() == s.slots()
        &&& self.recovered_by_pub.wf() && self.recovered_by_pub.start_day() == s.start_day() && self.recovered_by_pub.slots() == s.slots()
        &&& self.cases_by_pubrep_d7.wf() && self.cases_by_pubrep_d7.start_day() == s.start_day() && self.cases_by_pubrep_d7.slots() == s.slots()
        &&& self.cases_retracted.wf() && self.cases_retracted.start_day() == s.start_day() && self.cases_retracted.slots() == s.slots()
    }

    pub fn new(start: Date, end: Date) -> (r: Self)
        requires
            start.ce_days <= end.ce_days < i32::MAX,
        ensures
            r.wf(),
            r.cases_by_pub.start_day() == start,
            r.cases_by_pub.slots() == end.ce_days - start.ce_days,
    {
        ParboiledCaseData {
            cases_by_pub: TimeSeries::new(start, end),
            case_delay_total: TimeSeries::new(start, end),
            cases_delayed: TimeSeries::new(start, end),
            deaths_by_pub: TimeSeries::new(start, end),
            recovered_by_pub: TimeSeries::new(start, end),
            cases_by_pubrep_d7: TimeSeries::new(start, end),
            cases_retracted: TimeSeries::new(start, end),
        }
    }

    /// Adds a diff row's cases, delay total, delayed cases, deaths,
    /// reporting-date seven-day sum and retracted cases at its day under
    /// its state, district, age group and sex. On any error nothing
    /// changes.
    pub fn submit(&mut self, districts: &Vec<DistrictInfo>, rec: &DiffRecord) -> (r: Result<(), CountError>)
        requires
            old(self).wf(),
        ensures
            final(self).wf(),
            final(self).cases_by_pub.start_day() == old(self).cases_by_pub.start_day(),
            final(self).cases_by_pub.slots() == old(self).cases_by_pub.slots(),
            state_of(districts@, rec.district_id) is None ==> r == Err::<(), CountError>(CountError::UnknownDistrict),
            state_of(districts@, rec.district_id) is Some && old(self).cases_by_pub.slot_of(rec.date) is None
                ==> r == Err::<(), CountError>(CountError::DateOutOfRange),
            r is Err ==> *final(self) == *old(self),
            r is Ok ==> ({
                let k = FullCaseKey {
                    state_id: state_of(districts@, rec.district_id).unwrap(),
                    district_id: rec.district_id,
                    age_group: rec.age_group,
                    sex: rec.sex,
                };
                let i = old(self).cases_by_pub.slot_of(rec.date).unwrap();
                &&& final(self).cases_by_pub.contents() == old(self).cases_by_pub.with_value(k, i, (value_of(old(self).cases_by_pub, k, i) + rec.cases) as u64)
                &&& final(self).case_delay_total.contents() == old(self).case_delay_total.with_value(k, i, (value_of(old(self).case_delay_total, k, i) + rec.delay_total) as u64)
                &&& final(self).cases_delayed.contents() == old(self).cases_delayed.with_value(k, i, (value_of(old(self).cases_delayed, k, i) + rec.cases_delayed) as u64)
                &&& final(self).deaths_by_pub.contents() == old(self).deaths_by_pub.with_value(k, i, (value_of(old(self).deaths_by_pub, k, i) + rec.deaths) as u64)
                &&& final(self).cases_by_pubrep_d7.contents() == old(self).cases_by_pubrep_d7.with_value(k, i, (value_of(old(self).cases_by_pubrep_d7, k, i) + rec.cases_rep_d7) as u64)
                &&& final(self).cases_retracted.contents() == old(self).cases_retracted.with_value(k, i, (value_of(old(self).cases_retracted, k, i) + rec.cases_retracted) as u64)
                &&& final(self).recovered_by_pub == old(self).recovered_by_pub
            }),
            r == Err::<(), CountError>(CountError::Overflow) <==> (state_of(districts@, rec.district_id) is Some
                && old(self).cases_by_pub.slot_of(rec.date) is Some && ({
                let k = FullCaseKey {
                    state_id: state_of(districts@, rec.district_id).unwrap(),
                    district_id: rec.district_id,
                    age_group: rec.age_group,
                    sex: rec.sex,
                };
                let i = old(self).cases_by_pub.slot_of(rec.date).unwrap();
                value_of(old(self).cases_by_pub, k, i) + rec.cases > u64::MAX
                    || value_of(old(self).case_delay_total, k, i) + rec.delay_total > u64::MAX
                    || value_of(old(self).cases_delayed, k, i) + rec.cases_delayed > u64::MAX
                    || value_of(old(self).deaths_by_pub, k, i) + rec.deaths > u64::MAX
                    || value_of(old(self).cases_by_pubrep_d7, k, i) + rec.cases_rep_d7 > u64::MAX
                    || value_of(old(self).cases_retracted, k, i) + rec.cases_retracted > u64::MAX
            })),
    {
        let state_id = match find_state(districts, rec.district_id) {
            Some(s) => s,
            None => { return Err(CountError::UnknownDistrict); },
        };
        let i = match self.cases_by_pub.date_index(rec.date) {
            Some(i) => i,
            None => { return Err(CountError::DateOutOfRange); },
        };
        let k = FullCaseKey { state_id, district_id: rec.district_id, age_group: rec.age_group, sex: rec.sex };
        if self.cases_by_pub.value_or_zero(&k, i) > u64::MAX - rec.cases
            || self.case_delay_total.value_or_zero(&k, i) > u64::MAX - rec.delay_total
            || self.cases_delayed.value_or_zero(&k, i) > u64::MAX - rec.cases_delayed
            || self.deaths_by_pub.value_or_zero(&k, i) > u64::MAX - rec.deaths
            || self.cases_by_pubrep_d7.value_or_zero(&k, i) > u64::MAX - rec.cases_rep_d7
            || self.cases_retracted.value_or_zero(&k, i) > u64::MAX - rec.cases_retracted {
            return Err(CountError::Overflow);
        }
        let _ = add_checked(&mut self.cases_by_pub, k, i, rec.cases);
        let _ = add_checked(&mut self.case_delay_total, k, i, rec.delay_total);
        let _ = add_checked(&mut self.cases_delayed, k, i, rec.cases_delayed);
        let _ = add_checked(&mut self.deaths_by_pub, k, i, rec.deaths);
        let _ = add_checked(&mut self.cases_by_pubrep_d7, k, i, rec.cases_rep_d7);
        let _ = add_checked(&mut self.cases_retracted, k, i, rec.cases_retracted);
        Ok(())
    }
}

} // verus!
