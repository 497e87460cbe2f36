use covid_counters::calendar::{format_iso_date, global_start_date, parse_iso_date, parse_record_date, Date};
use covid_counters::context::{AgeGroup, MaybeAgeGroup, MaybeDistrictId, ParseAgeGroupError, Sex};
use covid_counters::decimal::NumberError;
use covid_counters::records::{parse_i32, parse_u64, DiffRecord, InfectionRecord, ReportFlag};

fn fields(s: &str) -> Vec<Vec<u8>> {
    s.split(',').map(|f| f.as_bytes().to_vec()).collect()
}

#[test]
fn dates_parse_and_format() {
    let d = parse_iso_date(b"2020-01-01").unwrap();
    assert_eq!(d, global_start_date());
    assert_eq!(d.ce_days, 737425);
    assert_eq!(parse_iso_date(b"2020-02-30"), None);
    assert_eq!(String::from_utf8(format_iso_date(Date::from_ce_days(737425 + 31)).unwrap()).unwrap(), "2020-02-01");
    assert_eq!(parse_record_date(b"2020/01/05 00:00:00"), Some(Date::from_ce_days(737429)));
    assert_eq!(parse_record_date(b"2020-01-05"), Some(Date::from_ce_days(737429)));
    assert_eq!(parse_record_date(b"2020-1-5"), None);
    assert_eq!(d.midnight_unix_seconds(), 1577836800);
    assert_eq!(Date::from_ce_days(5).days_since(Date::from_ce_days(8)), -3);
    assert_eq!(Date::from_ce_days(i32::MAX).add_days(1), None);
}

#[test]
fn age_groups() {
    assert_eq!(AgeGroup::parse(b"A05-A14"), Ok(AgeGroup { low: 5, high: Some(14) }));
    assert_eq!(AgeGroup::parse(b"A80+"), Ok(AgeGroup { low: 80, high: None }));
    assert_eq!(AgeGroup::parse(b"15-34"), Ok(AgeGroup { low: 15, high: Some(34) }));
    assert_eq!(AgeGroup::parse(b"A15"), Err(ParseAgeGroupError::NoSeparator));
    assert_eq!(AgeGroup::parse(b"Ax-A4"), Err(ParseAgeGroupError::InvalidNumber(NumberError::InvalidDigit)));
    assert_eq!(AgeGroup::parse(b"A+"), Err(ParseAgeGroupError::InvalidNumber(NumberError::Empty)));
    assert_eq!(AgeGroup::parse(b"A70000+"), Err(ParseAgeGroupError::InvalidNumber(NumberError::Overflow)));
    assert_eq!(AgeGroup { low: 5, high: Some(14) }.to_text(), b"A05-A14".to_vec());
    assert_eq!(AgeGroup { low: 80, high: None }.to_text(), b"A80+".to_vec());
}

#[test]
fn optional_values() {
    assert_eq!(MaybeAgeGroup::parse(b"unbekannt"), Ok(MaybeAgeGroup(None)));
    assert_eq!(MaybeAgeGroup::parse(b"u"), Ok(MaybeAgeGroup(None)));
    assert_eq!(MaybeAgeGroup::parse(b"A00-A04"), Ok(MaybeAgeGroup(Some(AgeGroup { low: 0, high: Some(4) }))));
    assert_eq!(MaybeAgeGroup(None).to_text(), b"unbekannt".to_vec());
    assert_eq!(MaybeDistrictId::parse(b"u"), Ok(MaybeDistrictId(None)));
    assert_eq!(MaybeDistrictId::parse(b"11001"), Ok(MaybeDistrictId(Some(11001))));
    assert_eq!(MaybeDistrictId::parse(b""), Err(NumberError::Empty));
    assert_eq!(Sex::parse(b"M"), Some(Sex::Male));
    assert_eq!(Sex::parse(b"W"), Some(Sex::Female));
    assert_eq!(Sex::parse(b"unbekannt"), Some(Sex::Unknown));
    assert_eq!(Sex::parse(b"X"), None);
    assert_eq!(Sex::Female.to_text(), b"W".to_vec());
}

#[test]
fn flags_and_counts() {
    assert_eq!(ReportFlag::parse(b"1"), Some(ReportFlag::NewlyReported));
    assert_eq!(ReportFlag::parse(b"-1"), Some(ReportFlag::Retracted));
    assert_eq!(ReportFlag::parse(b"-9"), Some(ReportFlag::NotApplicable));
    assert_eq!(ReportFlag::parse(b"0"), Some(ReportFlag::Consistent));
    assert_eq!(ReportFlag::parse(b"2"), None);
    assert!(ReportFlag::NewlyReported.valid());
    assert!(ReportFlag::Consistent.valid());
    assert!(!ReportFlag::Retracted.valid());
    assert_eq!(parse_i32(b"-2147483648"), Some(i32::MIN));
    assert_eq!(parse_i32(b"2147483648"), None);
    assert_eq!(parse_i32(b"+7"), Some(7));
    assert_eq!(parse_i32(b"-+7"), None);
    assert_eq!(parse_u64(b"18446744073709551615"), Some(u64::MAX));
    assert_eq!(parse_u64(b"18446744073709551616"), None);
}

#[test]
fn infection_rows() {
    let r = InfectionRecord::from_fields(&fields("1001,A35-A59,M,2020/03/02 00:00:00,2020-03-01,1,1,-9,0,2,0,1")).unwrap();
    assert_eq!(r.district_id, 1001);
    assert_eq!(r.age_group, MaybeAgeGroup(Some(AgeGroup { low: 35, high: Some(59) })));
    assert_eq!(r.sex, Sex::Male);
    assert_eq!(r.report_date, parse_iso_date(b"2020-03-02").unwrap());
    assert_eq!(r.case, ReportFlag::NewlyReported);
    assert_eq!(r.death, ReportFlag::NotApplicable);
    assert_eq!(r.recovered, ReportFlag::Consistent);
    assert_eq!(r.case_count, 2);
    assert_eq!(InfectionRecord::from_fields(&fields("1001,A35-A59,X,2020-03-02,2020-03-01,1,1,-9,0,2,0,1")).unwrap_err().column, 2);
    assert_eq!(InfectionRecord::from_fields(&fields("1001,A35-A59,M,2020-03-02,2020-03-01,1,1,-9,0,x,0,1")).unwrap_err().column, 9);
}

#[test]
fn diff_rows_round_trip_through_text() {
    let line = "2020-03-02,1001,A35-A59,M,4,2,1,3,0,1,5,0";
    let r = DiffRecord::from_fields(&fields(line)).unwrap();
    assert_eq!(r.cases, 3);
    assert_eq!(r.delay_total, 4);
    assert_eq!(r.cases_rep_d7, 5);
    let mut w = Vec::new();
    r.write(&mut w);
    assert_eq!(String::from_utf8(w).unwrap(), format!("{}\n", line));
    assert_eq!(DiffRecord::from_fields(&fields("2020-13-02,1001,A35-A59,M,4,2,1,3,0,1,5,0")).unwrap_err().column, 0);
    assert_eq!(DiffRecord::from_fields(&fields("2020-03-02,1001,A35-A59,M,4,2,1,3,0,1,5")).unwrap_err().column, 11);
}
