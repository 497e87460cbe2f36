use covid_counters::calendar::Date;
use covid_counters::context::{AgeGroup, MaybeAgeGroup, Sex};
use covid_counters::diffbuild::{saturating_add_u64_i32, saturating_add_u64_i64, PartialDiffData, SubmitError};
use covid_counters::records::{DiffRecord, InfectionRecord, PartialCaseKey, ReportFlag};

const JAN1: i32 = 737425;

fn day(n: i32) -> Date {
    Date::from_ce_days(JAN1 + n)
}

fn key() -> PartialCaseKey {
    PartialCaseKey {
        district_id: 1001,
        age_group: MaybeAgeGroup(Some(AgeGroup { low: 15, high: Some(34) })),
        sex: Sex::Female,
    }
}

fn record(case: ReportFlag, count: i32, report: Date) -> InfectionRecord {
    let k = key();
    InfectionRecord {
        district_id: k.district_id,
        age_group: k.age_group,
        sex: k.sex,
        report_date: report,
        reference_date: report,
        is_start_of_case: 0,
        case,
        death: ReportFlag::NotApplicable,
        recovered: ReportFlag::NotApplicable,
        case_count: count,
        death_count: 0,
        recovered_count: 0,
    }
}

fn at(d: &PartialDiffData, which: &str, slot: usize) -> u64 {
    let s = match which {
        "pub" => &d.cases_by_pub,
        "delayed" => &d.cases_delayed,
        "delay_total" => &d.case_delay_total,
        "late" => &d.late_cases,
        "buf" => &d.cases_by_rep_buf,
        "d7" => &d.cases_by_rep_d7,
        "retracted" => &d.cases_retracted,
        "deaths" => &d.deaths_by_pub,
        _ => &d.recovered_by_pub,
    };
    s.get_value(&key(), slot).unwrap_or(0)
}

#[test]
fn saturating_helpers_clamp() {
    let mut r: u64 = 5;
    saturating_add_u64_i32(&mut r, -7);
    assert_eq!(r, 0);
    saturating_add_u64_i32(&mut r, 3);
    assert_eq!(r, 3);
    let mut m: u64 = u64::MAX - 1;
    saturating_add_u64_i64(&mut m, 5);
    assert_eq!(m, u64::MAX);
    let mut z: u64 = 10;
    saturating_add_u64_i64(&mut z, i64::MIN);
    assert_eq!(z, 0);
}

#[test]
fn newly_reported_case_within_cutoff() {
    let mut d = PartialDiffData::new(day(0), day(7));
    // publication 2020-01-05 describes 2020-01-04
    let p = day(4).add_days(-1).unwrap();
    assert_eq!(p, day(3));
    d.begin_snapshot();
    assert_eq!(d.submit(p, &record(ReportFlag::NewlyReported, 3, day(0))), Ok(()));
    assert_eq!(at(&d, "pub", 3), 3);
    assert_eq!(at(&d, "delayed", 3), 3);
    assert_eq!(at(&d, "delay_total", 3), 9);
    assert_eq!(at(&d, "late", 3), 0);
    assert_eq!(at(&d, "buf", 0), 3);
}

#[test]
fn newly_reported_case_beyond_cutoff_is_late() {
    // publication 2020-02-02 describes 2020-02-01, 31 days after the report
    let mut d = PartialDiffData::new(day(0), day(60));
    let p = day(31);
    assert_eq!(d.submit(p, &record(ReportFlag::NewlyReported, 3, day(0))), Ok(()));
    assert_eq!(at(&d, "pub", 31), 3);
    assert_eq!(at(&d, "late", 31), 3);
    assert_eq!(at(&d, "delayed", 31), 0);
    assert_eq!(at(&d, "delay_total", 31), 0);
}

#[test]
fn publication_outside_the_calendar_is_refused() {
    let mut d = PartialDiffData::new(day(0), day(7));
    assert_eq!(d.submit(day(31), &record(ReportFlag::NewlyReported, 3, day(0))), Err(SubmitError::PublicationOutOfRange));
    assert!(d.cases_by_pub.get(&key()).is_none());
}

#[test]
fn retraction_goes_to_the_day_before() {
    let mut d = PartialDiffData::new(day(0), day(7));
    // newly reported on 2020-01-03's publication (describing 2020-01-02)
    assert_eq!(d.submit(day(1), &record(ReportFlag::NewlyReported, 5, day(0))), Ok(()));
    assert_eq!(at(&d, "pub", 1), 5);
    // retracted in 2020-01-06's publication (describing 2020-01-05): lands on 2020-01-04
    assert_eq!(d.submit(day(4), &record(ReportFlag::Retracted, -2, day(0))), Ok(()));
    assert_eq!(at(&d, "pub", 3), 0);
    assert_eq!(at(&d, "retracted", 3), 2);
    assert_eq!(at(&d, "pub", 1), 5);
    assert_eq!(at(&d, "buf", 0), 5);
}

#[test]
fn retraction_subtracts_with_saturation() {
    let mut d = PartialDiffData::new(day(0), day(7));
    assert_eq!(d.submit(day(3), &record(ReportFlag::NewlyReported, 5, day(0))), Ok(()));
    assert_eq!(d.submit(day(4), &record(ReportFlag::Retracted, -2, day(0))), Ok(()));
    assert_eq!(at(&d, "pub", 3), 3);
    assert_eq!(at(&d, "retracted", 3), 2);
}

#[test]
fn consistent_case_counts_by_report_date_only() {
    let mut d = PartialDiffData::new(day(0), day(7));
    assert_eq!(d.submit(day(3), &record(ReportFlag::Consistent, 4, day(1))), Ok(()));
    assert_eq!(at(&d, "buf", 1), 4);
    assert!(d.cases_by_pub.get(&key()).is_none());
}

#[test]
fn submit_errors() {
    let mut d = PartialDiffData::new(day(0), day(7));
    assert_eq!(d.submit(day(0), &record(ReportFlag::Retracted, -1, day(0))), Err(SubmitError::RetractionAtFirstDay));
    assert_eq!(d.submit(day(3), &record(ReportFlag::NewlyReported, 1, day(-5))), Err(SubmitError::ReportDateOutOfRange));
    assert_eq!(d.submit(day(3), &record(ReportFlag::NewlyReported, 1, day(5))), Err(SubmitError::NegativeDelay));
    let mut r = record(ReportFlag::NotApplicable, 0, day(0));
    r.death = ReportFlag::Retracted;
    r.death_count = -1;
    assert_eq!(d.submit(day(0), &r), Err(SubmitError::RetractionAtFirstDay));
}

#[test]
fn deaths_and_recoveries_follow_their_flags() {
    let mut d = PartialDiffData::new(day(0), day(7));
    let mut r = record(ReportFlag::NotApplicable, 0, day(0));
    r.death = ReportFlag::NewlyReported;
    r.death_count = 2;
    r.recovered = ReportFlag::Retracted;
    r.recovered_count = -1;
    assert_eq!(d.submit(day(3), &r), Ok(()));
    assert_eq!(at(&d, "deaths", 3), 2);
    assert_eq!(at(&d, "recovered", 2), 0);
    assert!(d.recovered_by_pub.get(&key()).is_some());
}

#[test]
fn finish_snapshot_records_the_seven_day_sum() {
    let mut d = PartialDiffData::new(day(0), day(20));
    d.begin_snapshot();
    for n in 0..10 {
        assert_eq!(d.submit(day(12), &record(ReportFlag::NewlyReported, 1, day(n))), Ok(()));
    }
    assert_eq!(d.finish_snapshot(day(12)), Ok(()));
    // days 6..=12 of the buffer: days 6, 7, 8 and 9 hold one case each
    assert_eq!(at(&d, "d7", 12), 4);
    assert_eq!(at(&d, "buf", 9), 10);
    assert_eq!(d.finish_snapshot(day(40)), Err(SubmitError::PublicationOutOfRange));
    d.begin_snapshot();
    assert!(d.cases_by_rep_buf.get(&key()).is_none());
    assert_eq!(at(&d, "d7", 12), 4);
}

fn row(slot: i32, cases: u64, delay_total: u64) -> DiffRecord {
    let k = key();
    DiffRecord {
        date: day(slot),
        district_id: k.district_id,
        age_group: k.age_group,
        sex: k.sex,
        delay_total,
        cases_delayed: 1,
        late_cases: 0,
        cases,
        deaths: 0,
        recovered: 0,
        cases_rep_d7: 0,
        cases_retracted: 0,
    }
}

#[test]
fn rows_are_written_where_a_count_is_set() {
    let mut d = PartialDiffData::new(day(0), day(7));
    assert_eq!(d.load_record(&row(2, 4, 7)), Ok(()));
    assert_eq!(d.load_record(&row(5, 0, 3)), Ok(()));
    let rows = d.diff_rows();
    assert_eq!(rows.len(), 1);
    assert_eq!(rows[0], row(2, 4, 7));
    let mut text = Vec::new();
    d.write_all(&mut text);
    assert_eq!(String::from_utf8(text).unwrap(), "2020-01-03,1001,A15-A34,W,7,1,0,4,0,0,0,0\n");
    assert_eq!(d.load_record(&row(9, 1, 0)), Err(SubmitError::PublicationOutOfRange));
}

#[test]
fn load_write_load_keeps_the_state() {
    let rows = vec![row(1, 2, 5), row(3, 1, 0), row(1, 4, 6)];
    let mut first = PartialDiffData::new(day(0), day(7));
    assert_eq!(first.load_records(&rows), Ok(()));
    let written = first.diff_rows();
    let mut second = PartialDiffData::new(day(0), day(7));
    assert_eq!(second.load_records(&written), Ok(()));
    assert_eq!(second.diff_rows(), written);
    for slot in 0..7 {
        assert_eq!(first.case_delay_total.get_value(&key(), slot), second.case_delay_total.get_value(&key(), slot));
        assert_eq!(first.cases_by_pub.get_value(&key(), slot), second.cases_by_pub.get_value(&key(), slot));
    }
}

#[test]
fn empty_merge_writes_back_the_same_rows() {
    let rows = vec![row(4, 2, 5), row(1, 3, 0)];
    let mut d = PartialDiffData::new(day(0), day(7));
    assert_eq!(d.load_records(&rows), Ok(()));
    let mut back = d.diff_rows();
    back.sort_by_key(|r| r.date);
    let mut expected = rows.clone();
    expected.sort_by_key(|r| r.date);
    assert_eq!(back, expected);
    let mut header = Vec::new();
    DiffRecord::write_header(&mut header);
    assert!(String::from_utf8(header).unwrap().starts_with("Datum,LandkreisId,"));
}

#[test]
fn keys_with_only_a_reporting_sum_get_rows() {
    let mut d = PartialDiffData::new(day(0), day(20));
    d.begin_snapshot();
    assert_eq!(d.submit(day(12), &record(ReportFlag::Consistent, 2, day(10))), Ok(()));
    assert_eq!(d.finish_snapshot(day(12)), Ok(()));
    assert!(d.cases_by_pub.get(&key()).is_none());
    let rows = d.diff_rows();
    assert_eq!(rows.len(), 1);
    assert_eq!(rows[0].date, day(12));
    assert_eq!(rows[0].cases_rep_d7, 2);
    assert_eq!(rows[0].cases, 0);
}
