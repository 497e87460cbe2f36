use covid_counters::calendar::Date;
use covid_counters::context::{AgeGroup, MaybeAgeGroup, MaybeDistrictId, Sex};
use covid_counters::districts::{DistrictInfo, StateInfo};
use covid_counters::raw::{find_state, CountError, RawCaseData, RawHospitalizationData, RawPopulationData, RawVaccinationData};
use covid_counters::records::{destatis_age_group, destatis_sex, PopulationKey, RawDestatisRow};
use covid_counters::records::{
    FullCaseKey, HospitalizationKey, HospitalizationRecord, InfectionRecord, ReportFlag, VaccinationKey,
    VaccinationLevel, VaccinationRecord,
};

fn day(n: i32) -> Date {
    Date::from_ce_days(737425 + n)
}

fn districts() -> Vec<DistrictInfo> {
    vec![DistrictInfo { id: 1001, name: "Flensburg".to_string(), state: StateInfo { id: 1, name: "SH".to_string() }, population: 90000 }]
}

fn infection(case: ReportFlag, count: i32, district: u32) -> InfectionRecord {
    InfectionRecord {
        district_id: district,
        age_group: MaybeAgeGroup(None),
        sex: Sex::Male,
        report_date: day(3),
        reference_date: day(1),
        is_start_of_case: 1,
        case,
        death: ReportFlag::NewlyReported,
        recovered: ReportFlag::NotApplicable,
        case_count: count,
        death_count: 1,
        recovered_count: -4,
    }
}

#[test]
fn state_lookup() {
    assert_eq!(find_state(&districts(), 1001), Some(1));
    assert_eq!(find_state(&districts(), 1002), None);
}

#[test]
fn cases_count_by_reference_and_report_date() {
    let mut raw = RawCaseData::new(day(0), day(7));
    assert_eq!(raw.submit(&districts(), &infection(ReportFlag::NewlyReported, 2, 1001)), Ok(()));
    assert_eq!(raw.submit(&districts(), &infection(ReportFlag::Consistent, 3, 1001)), Ok(()));
    let k = FullCaseKey { state_id: 1, district_id: 1001, age_group: MaybeAgeGroup(None), sex: Sex::Male };
    assert_eq!(raw.cases_by_ref.get_value(&k, 1), Some(5));
    assert_eq!(raw.cases_by_report.get_value(&k, 3), Some(5));
    assert_eq!(raw.deaths.get_value(&k, 1), Some(2));
    assert!(raw.recovered.get(&k).is_none());
    assert_eq!(raw.submit(&districts(), &infection(ReportFlag::Retracted, -2, 1001)), Ok(()));
    assert_eq!(raw.cases_by_ref.get_value(&k, 1), Some(5));
}

#[test]
fn case_errors() {
    let mut raw = RawCaseData::new(day(0), day(7));
    assert_eq!(raw.submit(&districts(), &infection(ReportFlag::NewlyReported, -1, 1001)), Err(CountError::NegativeCount));
    assert_eq!(raw.submit(&districts(), &infection(ReportFlag::NewlyReported, 1, 9999)), Err(CountError::UnknownDistrict));
    let mut r = infection(ReportFlag::NewlyReported, 1, 1001);
    r.reference_date = day(30);
    assert_eq!(raw.submit(&districts(), &r), Err(CountError::DateOutOfRange));
}

#[test]
fn hospitalizations_skip_the_national_sum_and_future_days() {
    let mut h = RawHospitalizationData::new(day(0), day(7));
    let g = AgeGroup { low: 60, high: Some(79) };
    let rec = HospitalizationRecord { date: day(2), state_id: 1, age_group: g, cases_d7: 12 };
    assert_eq!(h.submit(&rec), Ok(true));
    assert_eq!(h.submit(&HospitalizationRecord { state_id: 0, ..rec }), Ok(false));
    assert_eq!(h.submit(&HospitalizationRecord { date: day(7), ..rec }), Ok(false));
    assert_eq!(h.cases_d7.get_value(&HospitalizationKey { state_id: 1, age_group: g }, 2), Some(12));
    assert_eq!(h.cases_d7.keys().len(), 1);
}

#[test]
fn vaccinations_by_level() {
    let mut v = RawVaccinationData::new(day(0), day(7));
    let rec = VaccinationRecord { date: day(1), district_id: MaybeDistrictId(Some(1001)), age_group: MaybeAgeGroup(None), level: VaccinationLevel::Basic, count: 4 };
    assert_eq!(v.submit(&districts(), &rec), Ok(()));
    let k = VaccinationKey { state_id: Some(1), district_id: Some(1001), age_group: MaybeAgeGroup(None) };
    assert_eq!(v.basic_vacc.get_value(&k, 1), Some(4));
    assert!(v.first_vacc.get(&k).is_none());
    let federal = VaccinationRecord { district_id: MaybeDistrictId(Some(17000)), ..rec };
    assert_eq!(v.submit(&districts(), &federal), Ok(()));
    let none_key = VaccinationKey { state_id: None, district_id: None, age_group: MaybeAgeGroup(None) };
    assert_eq!(v.basic_vacc.get_value(&none_key, 1), Some(4));
    let unknown = VaccinationRecord { district_id: MaybeDistrictId(Some(5)), ..rec };
    assert_eq!(v.submit(&districts(), &unknown), Err(CountError::UnknownDistrict));
    let late = VaccinationRecord { date: day(9), ..rec };
    assert_eq!(v.submit(&districts(), &late), Err(CountError::DateOutOfRange));
}

#[test]
fn population_rows() {
    assert_eq!(destatis_age_group(b"ALT004"), Some(AgeGroup { low: 4, high: Some(4) }));
    assert_eq!(destatis_age_group(b"ALT090UM"), Some(AgeGroup { low: 90, high: None }));
    assert_eq!(destatis_age_group(b"AGE004"), None);
    assert_eq!(destatis_age_group(b"ALT0"), None);
    assert_eq!(destatis_sex(b"GESM"), Some(Sex::Male));
    assert_eq!(destatis_sex(b"GESW"), Some(Sex::Female));
    assert_eq!(destatis_sex(b"GESF"), Some(Sex::Female));
    assert_eq!(destatis_sex(b"GESX"), None);
    let fields: Vec<Vec<u8>> = vec![b"11".to_vec(), b"GESW".to_vec(), b"ALT030".to_vec(), b"1200".to_vec()];
    let row = RawDestatisRow::from_fields(&fields).unwrap();
    assert_eq!(row.count, 1200);
    let mut pop = RawPopulationData::new();
    assert_eq!(pop.submit(&row), Ok(()));
    assert_eq!(pop.submit(&row), Ok(()));
    let k = PopulationKey { state_id: 11, age_group: AgeGroup { low: 30, high: Some(30) }, sex: Sex::Female };
    assert_eq!(pop.count.get_value(&k, 0), Some(2400));
    assert_eq!(RawPopulationData::ref_date(), day(0));
    let bad: Vec<Vec<u8>> = vec![b"11".to_vec(), b"GESW".to_vec(), b"XYZ".to_vec(), b"1200".to_vec()];
    assert_eq!(RawDestatisRow::from_fields(&bad).unwrap_err().column, 2);
}
