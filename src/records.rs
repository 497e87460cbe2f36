//! The record types of the input streams and of the diff artifact, with
//! their field decoding and the artifact's row encoding.

use vstd::prelude::*;

use crate::calendar::{format_iso_date, iso_date_days, iso_date_text, parse_iso_date, parse_record_date, Date, MAX_FOUR_DIGIT_YEAR_CE_DAYS};
use crate::context::{push_all, AgeGroup, DistrictId, MaybeAgeGroup, MaybeDistrictId, Sex, StateId};
use crate::context::lemma_parse_bounded;
use crate::decimal::{decimal, parse_unsigned, parse_unsigned_range, push_decimal};
use crate::series::TimeSeriesKey;
use vstd::string::StringSliceAdditionalSpecFns;

verus! {

/// How a record row relates to the previous publication.
#[derive(Clone, Copy, Debug, PartialEq, Eq, Structural, Hash)]
pub enum ReportFlag {
    /// `1`: new in this publication.
    NewlyReported,
    /// `-1`: withdrawn in this publication; its count is negative.
    Retracted,
    /// `-9`: the field does not apply.
    NotApplicable,
    /// `0`: unchanged since the previous publication.
    Consistent,
}

impl ReportFlag {
    /// Whether the row counts towards the current state.
    pub fn valid(&self) -> (r: bool)
        ensures
            r == (*self == ReportFlag::NewlyReported || *self == ReportFlag::Consistent),
    {
        match self {
            ReportFlag::NewlyReported => true,
            ReportFlag::Consistent => true,
            _ => false,
        }
    }

    /// The text form: `1`, `-1`, `-9` or `0`.
    pub open spec fn text(&self) -> Seq<u8> {
        match self {
            ReportFlag::NewlyReported => seq![0x31u8],
            ReportFlag::Retracted => seq![0x2du8, 0x31u8],
            ReportFlag::NotApplicable => seq![0x2du8, 0x39u8],
            ReportFlag::Consistent => seq![0x30u8],
        }
    }

    /// The flag that `text` names, if any.
    pub fn parse(text: &[u8]) -> (r: Option<ReportFlag>)
        ensures
            r.is_some() == (exists|f: ReportFlag| f.text() == text@),
            r.is_some() ==> r.unwrap().text() == text@,
    {
        let n = text.len();
        let r = if n == 1 && text[0] == 0x31 {
            Some(ReportFlag::NewlyReported)
        } else if n == 1 && text[0] == 0x30 {
            Some(ReportFlag::Consistent)
        } else if n == 2 && text[0] == 0x2d && text[1] == 0x31 {
            Some(ReportFlag::Retracted)
        } else if n == 2 && text[0] == 0x2d && text[1] == 0x39 {
            Some(ReportFlag::NotApplicable)
        } else {
            None
        };
        proof {
            match r {
                Some(f) => {
                    assert(f.text() =~= text@);
                },
                None => {
                    assert forall|f: ReportFlag| f.text() != text@ by {
                        if f.text() == text@ {
                            assert(f.text().len() == text@.len());
                            match f {
                                ReportFlag::NewlyReported => assert(text@[0] == 0x31),
                                ReportFlag::Retracted => assert(text@[1] == 0x31),
                                ReportFlag::NotApplicable => assert(text@[1] == 0x39),
                                ReportFlag::Consistent => assert(text@[0] == 0x30),
                            }
                        }
                    }
                },
            }
        }
        r
    }
}

/// The key of the diff artifact's counters: district, age group and sex.
#[derive(Clone, Copy, Debug, PartialEq, Eq, Structural, Hash)]
pub struct PartialCaseKey {
    pub district_id: DistrictId,
    pub age_group: MaybeAgeGroup,
    pub sex: Sex,
}

/// The key of the full case counters: state, district, age group and sex.
#[derive(Clone, Copy, Debug, PartialEq, Eq, Structural, Hash)]
pub struct FullCaseKey {
    pub state_id: StateId,
    pub district_id: DistrictId,
    pub age_group: MaybeAgeGroup,
    pub sex: Sex,
}

/// The key of the geographic counters: state and district.
#[derive(Clone, Copy, Debug, PartialEq, Eq, Structural, Hash)]
pub struct GeoCaseKey {
    pub state_id: StateId,
    pub district_id: DistrictId,
}

/// The key of the vaccination counters: where known, state and district of
/// the vaccination site, and the age group.
#[derive(Clone, Copy, Debug, PartialEq, Eq, Structural, Hash)]
pub struct VaccinationKey {
    pub state_id: Option<StateId>,
    pub district_id: Option<DistrictId>,
    pub age_group: MaybeAgeGroup,
}

/// The key of the hospitalization counters: state and age group.
#[derive(Clone, Copy, Debug, PartialEq, Eq, Structural, Hash)]
pub struct HospitalizationKey {
    pub state_id: StateId,
    pub age_group: AgeGroup,
}

impl TimeSeriesKey for HospitalizationKey {
    fn same_key(&self, other: &Self) -> (r: bool) {
        *self == *other
    }
}

/// The vaccination level a row counts.
#[derive(Clone, Copy, Debug, PartialEq, Eq, Structural, Hash)]
pub enum VaccinationLevel {
    First,
    Basic,
    Full,
}

/// One row of the vaccination counts.
#[derive(Clone, Copy, Debug)]
pub struct VaccinationRecord {
    pub date: Date,
    pub district_id: MaybeDistrictId,
    pub age_group: MaybeAgeGroup,
    pub level: VaccinationLevel,
    pub count: u64,
}

/// One row of the hospitalization seven-day sums.
#[derive(Clone, Copy, Debug)]
pub struct HospitalizationRecord {
    pub date: Date,
    pub state_id: StateId,
    pub age_group: AgeGroup,
    pub cases_d7: u64,
}

impl TimeSeriesKey for PartialCaseKey {
    fn same_key(&self, other: &Self) -> (r: bool) {
        *self == *other
    }
}

impl TimeSeriesKey for FullCaseKey {
    fn same_key(&self, other: &Self) -> (r: bool) {
        *self == *other
    }
}

impl TimeSeriesKey for GeoCaseKey {
    fn same_key(&self, other: &Self) -> (r: bool) {
        *self == *other
    }
}

impl TimeSeriesKey for VaccinationKey {
    fn same_key(&self, other: &Self) -> (r: bool) {
        *self == *other
    }
}

/// One row of an infection line-listing snapshot.
#[derive(Clone, Copy, Debug)]
pub struct InfectionRecord {
    pub district_id: DistrictId,
    pub age_group: MaybeAgeGroup,
    pub sex: Sex,
    pub report_date: Date,
    pub reference_date: Date,
    pub is_start_of_case: u8,
    pub case: ReportFlag,
    pub death: ReportFlag,
    pub recovered: ReportFlag,
    pub case_count: i32,
    pub death_count: i32,
    pub recovered_count: i32,
}

/// A field of a record that could not be read; `column` is its position.
#[derive(Clone, Copy, Debug, PartialEq, Eq, Structural)]
pub struct DecodeError {
    pub column: usize,
}

/// The value of a signed 32-bit decimal: an optional `-` (then digits
/// only) or `+`, then digits.
pub open spec fn i32_of(t: Seq<u8>) -> Option<int> {
    if t.len() > 0 && t[0] == 0x2d {
        if t.len() > 1 && t[1] != 0x2b {
            match parse_unsigned(t.drop_first(), 0x8000_0000) {
                Ok(v) => Some(-v),
                Err(_) => None,
            }
        } else {
            None
        }
    } else {
        match parse_unsigned(t, 0x7fff_ffff) {
            Ok(v) => Some(v),
            Err(_) => None,
        }
    }
}

/// Reads a signed 32-bit count.
pub fn parse_i32(text: &[u8]) -> (r: Option<i32>)
    ensures
        r.is_some() == i32_of(text@).is_some(),
        r.is_some() ==> r.unwrap() == i32_of(text@).unwrap(),
{
    let n = text.len();
    if n > 0 && text[0] == 0x2d {
        if n == 1 || text[1] == 0x2b {
            return None;
        }
        assert(text@.subrange(1, n as int) =~= text@.drop_first());
        match parse_unsigned_range(text, 1, n, 0x8000_0000u64) {
            Ok(v) => {
                proof { lemma_parse_bounded(text@.drop_first(), 0x8000_0000); }
                Some((0 - (v as i64)) as i32)
            },
            Err(_) => None,
        }
    } else {
        assert(text@.subrange(0, n as int) =~= text@);
        match parse_unsigned_range(text, 0, n, 0x7fff_ffffu64) {
            Ok(v) => {
                proof { lemma_parse_bounded(text@, 0x7fff_ffff); }
                Some(v as i32)
            },
            Err(_) => None,
        }
    }
}

/// Reads an unsigned 64-bit count.
pub fn parse_u64(text: &[u8]) -> (r: Option<u64>)
    ensures
        r.is_some() == parse_unsigned(text@, u64::MAX as int) is Ok,
        r.is_some() ==> r.unwrap() == parse_unsigned(text@, u64::MAX as int)->Ok_0,
{
    assert(text@.subrange(0, text@.len() as int) =~= text@);
    match parse_unsigned_range(text, 0, text.len(), u64::MAX) {
        Ok(v) => Some(v),
        Err(_) => None,
    }
}

/// Whether a field reads as a sex.
pub open spec fn sex_field(f: Seq<u8>) -> bool {
    exists|x: Sex| x.text() == f
}

/// Whether a field reads as a report flag.
pub open spec fn flag_field(f: Seq<u8>) -> bool {
    exists|x: ReportFlag| x.text() == f
}

/// Whether a record date field reads as a day.
pub open spec fn record_date_field(f: Seq<u8>) -> bool {
    crate::calendar::record_date_text(f).is_some()
        && crate::calendar::iso_date_days(crate::calendar::record_date_text(f).unwrap()).is_some()
}

/// Whether the twelve fields of an infection row, in the order
/// `IdLandkreis, Altersgruppe, Geschlecht, Meldedatum, Refdatum,
/// IstErkrankungsbeginn, NeuerFall, NeuerTodesfall, NeuGenesen, AnzahlFall,
/// AnzahlTodesfall, AnzahlGenesen`, can each be read.
pub open spec fn infection_fields_ok(f: Seq<Seq<u8>>) -> bool {
    &&& f.len() == 12
    &&& parse_unsigned(f[0], u32::MAX as int) is Ok
    &&& crate::context::maybe_age_group_of(f[1]) is Ok
    &&& sex_field(f[2])
    &&& record_date_field(f[3])
    &&& record_date_field(f[4])
    &&& parse_unsigned(f[5], u8::MAX as int) is Ok
    &&& flag_field(f[6])
    &&& flag_field(f[7])
    &&& flag_field(f[8])
    &&& i32_of(f[9]).is_some()
    &&& i32_of(f[10]).is_some()
    &&& i32_of(f[11]).is_some()
}

fn field_u32(f: &Vec<Vec<u8>>, c: usize) -> (r: Result<u32, DecodeError>)
    requires
        c < f@.len(),
    ensures
        r is Ok == parse_unsigned(f@[c as int]@, u32::MAX as int) is Ok,
        r is Ok ==> r->Ok_0 == parse_unsigned(f@[c as int]@, u32::MAX as int)->Ok_0,
        r is Err ==> r->Err_0.column == c,
{
    let t = f[c].as_slice();
    assert(t@.subrange(0, t@.len() as int) =~= t@);
    match parse_unsigned_range(t, 0, t.len(), u32::MAX as u64) {
        Ok(v) => {
            proof { lemma_parse_bounded(t@, u32::MAX as int); }
            Ok(v as u32)
        },
        Err(_) => Err(DecodeError { column: c }),
    }
}

fn field_u64(f: &Vec<Vec<u8>>, c: usize) -> (r: Result<u64, DecodeError>)
    requires
        c < f@.len(),
    ensures
        r is Ok == parse_unsigned(f@[c as int]@, u64::MAX as int) is Ok,
        r is Ok ==> r->Ok_0 == parse_unsigned(f@[c as int]@, u64::MAX as int)->Ok_0,
        r is Err ==> r->Err_0.column == c,
{
    match parse_u64(f[c].as_slice()) {
        Some(v) => Ok(v),
        None => Err(DecodeError { column: c }),
    }
}

fn field_i32(f: &Vec<Vec<u8>>, c: usize) -> (r: Result<i32, DecodeError>)
    requires
        c < f@.len(),
    ensures
        r is Ok == i32_of(f@[c as int]@).is_some(),
        r is Ok ==> r->Ok_0 == i32_of(f@[c as int]@).unwrap(),
        r is Err ==> r->Err_0.column == c,
{
    match parse_i32(f[c].as_slice()) {
        Some(v) => Ok(v),
        None => Err(DecodeError { column: c }),
    }
}

fn field_age(f: &Vec<Vec<u8>>, c: usize) -> (r: Result<MaybeAgeGroup, DecodeError>)
    requires
        c < f@.len(),
    ensures
        r is Ok == crate::context::maybe_age_group_of(f@[c as int]@) is Ok,
        r is Ok ==> r->Ok_0 == crate::context::maybe_age_group_of(f@[c as int]@)->Ok_0,
        r is Err ==> r->Err_0.column == c,
{
    match MaybeAgeGroup::parse(f[c].as_slice()) {
        Ok(v) => Ok(v),
        Err(_) => Err(DecodeError { column: c }),
    }
}

fn field_sex(f: &Vec<Vec<u8>>, c: usize) -> (r: Result<Sex, DecodeError>)
    requires
        c < f@.len(),
    ensures
        r is Ok == sex_field(f@[c as int]@),
        r is Ok ==> r->Ok_0.text() == f@[c as int]@,
        r is Err ==> r->Err_0.column == c,
{
    match Sex::parse(f[c].as_slice()) {
        Some(v) => Ok(v),
        None => Err(DecodeError { column: c }),
    }
}

fn field_flag(f: &Vec<Vec<u8>>, c: usize) -> (r: Result<ReportFlag, DecodeError>)
    requires
        c < f@.len(),
    ensures
        r is Ok == flag_field(f@[c as int]@),
        r is Ok ==> r->Ok_0.text() == f@[c as int]@,
        r is Err ==> r->Err_0.column == c,
{
    match ReportFlag::parse(f[c].as_slice()) {
        Some(v) => Ok(v),
        None => Err(DecodeError { column: c }),
    }
}

fn field_record_date(f: &Vec<Vec<u8>>, c: usize) -> (r: Result<Date, DecodeError>)
    requires
        c < f@.len(),
    ensures
        r is Ok == record_date_field(f@[c as int]@),
        r is Ok ==> r->Ok_0.ce_days == crate::calendar::iso_date_days(
            crate::calendar::record_date_text(f@[c as int]@).unwrap()).unwrap(),
        r is Err ==> r->Err_0.column == c,
{
    match parse_record_date(f[c].as_slice()) {
        Some(v) => Ok(v),
        None => Err(DecodeError { column: c }),
    }
}

impl InfectionRecord {
    /// Reads an infection row from its twelve fields (see
    /// `infection_fields_ok` for their order); the error names the first
    /// column that cannot be read.
    pub fn from_fields(f: &Vec<Vec<u8>>) -> (r: Result<InfectionRecord, DecodeError>)
        ensures
            r is Ok <==> infection_fields_ok(f@.map_values(|x: Vec<u8>| x@)),
            r is Ok ==> {
                let rec = r->Ok_0;
                &&& rec.district_id == parse_unsigned(f@[0]@, u32::MAX as int)->Ok_0
                &&& rec.age_group == crate::context::maybe_age_group_of(f@[1]@)->Ok_0
                &&& rec.sex.text() == f@[2]@
                &&& rec.report_date.ce_days == crate::calendar::iso_date_days(
                    crate::calendar::record_date_text(f@[3]@).unwrap()).unwrap()
                &&& rec.reference_date.ce_days == crate::calendar::iso_date_days(
                    crate::calendar::record_date_text(f@[4]@).unwrap()).unwrap()
                &&& rec.is_start_of_case == parse_unsigned(f@[5]@, u8::MAX as int)->Ok_0
                &&& rec.case.text() == f@[6]@
                &&& rec.death.text() == f@[7]@
                &&& rec.recovered.text() == f@[8]@
                &&& rec.case_count == i32_of(f@[9]@).unwrap()
                &&& rec.death_count == i32_of(f@[10]@).unwrap()
                &&& rec.recovered_count == i32_of(f@[11]@).unwrap()
            },
            r is Err ==> r->Err_0.column < 12 || f@.len() != 12,
    {
        let ghost fv = f@.map_values(|x: Vec<u8>| x@);
        if f.len() != 12 {
            return Err(DecodeError { column: f.len() });
        }
        assert(forall|c: int| 0 <= c < 12 ==> #[trigger] fv[c] == f@[c]@);
        let district_id = field_u32(f, 0)?;
        let age_group = field_age(f, 1)?;
        let sex = field_sex(f, 2)?;
        let report_date = field_record_date(f, 3)?;
        let reference_date = field_record_date(f, 4)?;
        let t5 = f[5].as_slice();
        assert(t5@.subrange(0, t5@.len() as int) =~= t5@);
        let is_start_of_case = match parse_unsigned_range(t5, 0, t5.len(), u8::MAX as u64) {
            Ok(v) => {
                proof { lemma_parse_bounded(t5@, u8::MAX as int); }
                v as u8
            },
            Err(_) => { return Err(DecodeError { column: 5 }); },
        };
        let case = field_flag(f, 6)?;
        let death = field_flag(f, 7)?;
        let recovered = field_flag(f, 8)?;
        let case_count = field_i32(f, 9)?;
        let death_count = field_i32(f, 10)?;
        let recovered_count = field_i32(f, 11)?;
        Ok(InfectionRecord {
            district_id, age_group, sex, report_date, reference_date, is_start_of_case,
            case, death, recovered, case_count, death_count, recovered_count,
        })
    }
}

/// One row of the diff artifact: the publication-axis counters of one key
/// on one day (the day before the publication).
#[derive(Clone, Copy, Debug, PartialEq, Eq, Structural)]
pub struct DiffRecord {
    pub date: Date,
    pub district_id: DistrictId,
    pub age_group: MaybeAgeGroup,
    pub sex: Sex,
    pub delay_total: u64,
    pub cases_delayed: u64,
    pub late_cases: u64,
    pub cases: u64,
    pub deaths: u64,
    pub recovered: u64,
    pub cases_rep_d7: u64,
    pub cases_retracted: u64,
}

/// Each number after a comma.
pub open spec fn comma_numbers(nums: Seq<u64>) -> Seq<u8>
    decreases nums.len(),
{
    if nums.len() == 0 {
        Seq::empty()
    } else {
        comma_numbers(nums.drop_last()) + seq![0x2cu8] + decimal(nums.last() as nat)
    }
}

/// Appends each number after a comma.
pub fn push_comma_numbers(out: &mut Vec<u8>, nums: &Vec<u64>)
    ensures
        final(out)@ == old(out)@ + comma_numbers(nums@),
{
    let mut i: usize = 0;
    while i < nums.len()
        invariant
            i <= nums@.len(),
            out@ == old(out)@ + comma_numbers(nums@.subrange(0, i as int)),
        decreases nums@.len() - i,
    {
        out.push(0x2c);
        push_decimal(out, nums[i]);
        proof {
            let next = nums@.subrange(0, i + 1);
            assert(next.drop_last() =~= nums@.subrange(0, i as int));
            assert(out@ =~= old(out)@ + comma_numbers(next));
        }
        i = i + 1;
    }
    assert(nums@.subrange(0, nums@.len() as int) =~= nums@);
}

/// The header line of the diff artifact.
pub open spec fn diff_header() -> Seq<u8> {
    DIFF_HEADER@.map_values(|c: char| c as u8)
}

pub const DIFF_HEADER: &'static str = "Datum,LandkreisId,Altersgruppe,Geschlecht,VerzugGesamt,AnzahlFallVerzoegert,AnzahlFallVerspaetet,AnzahlFall,AnzahlTodesfall,AnzahlGenesen,AnzahlFallRepD7,AnzahlFallRueckgezogen\n";

/// Whether the twelve fields of a diff artifact row, in the order of its
/// header, can each be read.
pub open spec fn diff_fields_ok(f: Seq<Seq<u8>>) -> bool {
    &&& f.len() == 12
    &&& iso_date_days(f[0]).is_some()
    &&& parse_unsigned(f[1], u32::MAX as int) is Ok
    &&& crate::context::maybe_age_group_of(f[2]) is Ok
    &&& sex_field(f[3])
    &&& forall|c: int| 4 <= c < 12 ==> parse_unsigned(#[trigger] f[c], u64::MAX as int) is Ok
}

impl DiffRecord {
    /// Appends the header line of the diff artifact.
    pub fn write_header(out: &mut Vec<u8>)
        ensures
            final(out)@ == old(out)@ + diff_header(),
    {
        let h: &str = DIFF_HEADER;
        proof {
            reveal_strlit("Datum,LandkreisId,Altersgruppe,Geschlecht,VerzugGesamt,AnzahlFallVerzoegert,AnzahlFallVerspaetet,AnzahlFall,AnzahlTodesfall,AnzahlGenesen,AnzahlFallRepD7,AnzahlFallRueckgezogen\n");
            assert(vstd::string::is_ascii(h));
            vstd::string::is_ascii_spec_bytes(h);
        }
        push_all(out, h.as_bytes());
        proof {
            assert(h.spec_bytes() =~= diff_header());
        }
    }

    /// The leading fields of the row: the ISO date, the district id, and
    /// the age group and sex texts, separated by commas.
    pub open spec fn head_text(&self) -> Seq<u8> {
        let c = seq![0x2cu8];
        iso_date_text(self.date.ce_days as int).unwrap() + c + decimal(self.district_id as nat) + c
            + self.age_group.text() + c + self.sex.text()
    }

    /// The eight counters of the row, in the order of the header.
    pub open spec fn counters(&self) -> Seq<u64> {
        seq![self.delay_total, self.cases_delayed, self.late_cases, self.cases, self.deaths,
            self.recovered, self.cases_rep_d7, self.cases_retracted]
    }

    /// The row as a line of the artifact: the leading fields, then each
    /// counter after a comma, then a line feed.
    pub open spec fn line(&self) -> Seq<u8> {
        self.head_text() + comma_numbers(self.counters()) + seq![0x0au8]
    }

    fn write_head(&self, out: &mut Vec<u8>)
        requires
            1 <= self.date.ce_days <= MAX_FOUR_DIGIT_YEAR_CE_DAYS,
        ensures
            final(out)@ == old(out)@ + self.head_text(),
    {
        let date = format_iso_date(self.date).unwrap();
        push_all(out, date.as_slice());
        out.push(0x2c);
        push_decimal(out, self.district_id as u64);
        out.push(0x2c);
        self.age_group.write_text(out);
        out.push(0x2c);
        let sex = self.sex.to_text();
        push_all(out, sex.as_slice());
        proof {
            assert(out@ =~= old(out)@ + self.head_text());
        }
    }

    /// Appends the row as a line of the artifact.
    pub fn write(&self, out: &mut Vec<u8>)
        requires
            1 <= self.date.ce_days <= MAX_FOUR_DIGIT_YEAR_CE_DAYS,
        ensures
            final(out)@ == old(out)@ + self.line(),
    {
        self.write_head(out);
        let ghost mid = out@;
        let nums: Vec<u64> = vec![self.delay_total, self.cases_delayed, self.late_cases, self.cases,
            self.deaths, self.recovered, self.cases_rep_d7, self.cases_retracted];
        assert(nums@ =~= self.counters());
        push_comma_numbers(out, &nums);
        out.push(0x0a);
        proof {
            assert(out@ =~= old(out)@ + self.line());
        }
    }

    /// Reads a diff artifact row from its twelve fields, in the order of
    /// the header; the error names the first column that cannot be read.
    pub fn from_fields(f: &Vec<Vec<u8>>) -> (r: Result<DiffRecord, DecodeError>)
        ensures
            r is Ok <==> diff_fields_ok(f@.map_values(|x: Vec<u8>| x@)),
            r is Ok ==> {
                let rec = r->Ok_0;
                &&& rec.date.ce_days == iso_date_days(f@[0]@).unwrap()
                &&& rec.district_id == parse_unsigned(f@[1]@, u32::MAX as int)->Ok_0
                &&& rec.age_group == crate::context::maybe_age_group_of(f@[2]@)->Ok_0
                &&& rec.sex.text() == f@[3]@
                &&& rec.delay_total == parse_unsigned(f@[4]@, u64::MAX as int)->Ok_0
                &&& rec.cases_delayed == parse_unsigned(f@[5]@, u64::MAX as int)->Ok_0
                &&& rec.late_cases == parse_unsigned(f@[6]@, u64::MAX as int)->Ok_0
                &&& rec.cases == parse_unsigned(f@[7]@, u64::MAX as int)->Ok_0
                &&& rec.deaths == parse_unsigned(f@[8]@, u64::MAX as int)->Ok_0
                &&& rec.recovered == parse_unsigned(f@[9]@, u64::MAX as int)->Ok_0
                &&& rec.cases_rep_d7 == parse_unsigned(f@[10]@, u64::MAX as int)->Ok_0
                &&& rec.cases_retracted == parse_unsigned(f@[11]@, u64::MAX as int)->Ok_0
            },
    {
        let ghost fv = f@.map_values(|x: Vec<u8>| x@);
        if f.len() != 12 {
            return Err(DecodeError { column: f.len() });
        }
        assert(forall|c: int| 0 <= c < 12 ==> #[trigger] fv[c] == f@[c]@);
        let date = match parse_iso_date(f[0].as_slice()) {
            Some(d) => d,
            None => { return Err(DecodeError { column: 0 }); },
        };
        let district_id = field_u32(f, 1)?;
        let age_group = field_age(f, 2)?;
        let sex = field_sex(f, 3)?;
        proof {
            assert(fv[4] == f@[4]@);
            assert(fv[5] == f@[5]@);
            assert(fv[6] == f@[6]@);
            assert(fv[7] == f@[7]@);
            assert(fv[8] == f@[8]@);
            assert(fv[9] == f@[9]@);
            assert(fv[10] == f@[10]@);
            assert(fv[11] == f@[11]@);
        }
        let delay_total = field_u64(f, 4)?;
        let cases_delayed = field_u64(f, 5)?;
        let late_cases = field_u64(f, 6)?;
        let cases = field_u64(f, 7)?;
        let deaths = field_u64(f, 8)?;
        let recovered = field_u64(f, 9)?;
        let cases_rep_d7 = field_u64(f, 10)?;
        let cases_retracted = field_u64(f, 11)?;
        proof {
            assert forall|c: int| 4 <= c < 12 implies parse_unsigned(#[trigger] fv[c], u64::MAX as int) is Ok by {
                assert(fv[c] == f@[c]@);
            }
        }
        Ok(DiffRecord {
            date, district_id, age_group, sex, delay_total, cases_delayed, late_cases, cases,
            deaths, recovered, cases_rep_d7, cases_retracted,
        })
    }
}

/// One row of the population table: state, sex, one-year age band and
/// head count.
#[derive(Clone, Copy, Debug)]
pub struct RawDestatisRow {
    pub state_id: StateId,
    pub sex: Sex,
    pub age_group: AgeGroup,
    pub count: u64,
}

/// How a population table age code reads: `ALT` and a three-digit age,
/// open upwards where the code ends in `UM`, a one-year band otherwise.
pub open spec fn destatis_age_of(s: Seq<u8>) -> Option<AgeGroup> {
    if s.len() < 6 || s[0] != 0x41 || s[1] != 0x4c || s[2] != 0x54 {
        None
    } else {
        match parse_unsigned(s.subrange(3, 6), u16::MAX as int) {
            Err(_) => None,
            Ok(low) => if s[s.len() - 2] == 0x55 && s[s.len() - 1] == 0x4d {
                Some(AgeGroup { low: low as u16, high: None })
            } else {
                Some(AgeGroup { low: low as u16, high: Some(low as u16) })
            },
        }
    }
}

/// Reads a population table age code such as `ALT004` or `ALT090UM`.
pub fn destatis_age_group(text: &[u8]) -> (r: Option<AgeGroup>)
    ensures
        r == destatis_age_of(text@),
{
    let n = text.len();
    if n < 6 || text[0] != 0x41 || text[1] != 0x4c || text[2] != 0x54 {
        return None;
    }
    let low = match parse_unsigned_range(text, 3, 6, u16::MAX as u64) {
        Ok(v) => {
            proof { lemma_parse_bounded(text@.subrange(3, 6), u16::MAX as int); }
            v as u16
        },
        Err(_) => { return None; },
    };
    if text[n - 2] == 0x55 && text[n - 1] == 0x4d {
        Some(AgeGroup { low, high: None })
    } else {
        Some(AgeGroup { low, high: Some(low) })
    }
}

/// How a population table sex code reads: `GES` and `M` for male, `W` or
/// `F` for female.
pub open spec fn destatis_sex_of(s: Seq<u8>) -> Option<Sex> {
    if s.len() < 4 || s[0] != 0x47 || s[1] != 0x45 || s[2] != 0x53 {
        None
    } else if s[3] == 0x4d {
        Some(Sex::Male)
    } else if s[3] == 0x57 || s[3] == 0x46 {
        Some(Sex::Female)
    } else {
        None
    }
}

/// Reads a population table sex code such as `GESM` or `GESW`.
pub fn destatis_sex(text: &[u8]) -> (r: Option<Sex>)
    ensures
        r == destatis_sex_of(text@),
{
    if text.len() < 4 || text[0] != 0x47 || text[1] != 0x45 || text[2] != 0x53 {
        None
    } else if text[3] == 0x4d {
        Some(Sex::Male)
    } else if text[3] == 0x57 || text[3] == 0x46 {
        Some(Sex::Female)
    } else {
        None
    }
}

impl RawDestatisRow {
    /// Reads a population row from its four fields: state code, sex code,
    /// age code and head count; the error names the first column that
    /// cannot be read.
    pub fn from_fields(f: &Vec<Vec<u8>>) -> (r: Result<RawDestatisRow, DecodeError>)
        ensures
            r is Ok <==> (f@.len() == 4 && parse_unsigned(f@[0]@, u32::MAX as int) is Ok
                && destatis_sex_of(f@[1]@) is Some && destatis_age_of(f@[2]@) is Some
                && parse_unsigned(f@[3]@, u64::MAX as int) is Ok),
            r is Ok ==> r->Ok_0.state_id == parse_unsigned(f@[0]@, u32::MAX as int)->Ok_0
                && r->Ok_0.sex == destatis_sex_of(f@[1]@).unwrap()
                && r->Ok_0.age_group == destatis_age_of(f@[2]@).unwrap()
                && r->Ok_0.count == parse_unsigned(f@[3]@, u64::MAX as int)->Ok_0,
    {
        if f.len() != 4 {
            return Err(DecodeError { column: f.len() });
        }
        let state_id = field_u32(f, 0)?;
        let sex = match destatis_sex(f[1].as_slice()) {
            Some(s) => s,
            None => { return Err(DecodeError { column: 1 }); },
        };
        let age_group = match destatis_age_group(f[2].as_slice()) {
            Some(a) => a,
            None => { return Err(DecodeError { column: 2 }); },
        };
        let count = field_u64(f, 3)?;
        Ok(RawDestatisRow { state_id, sex, age_group, count })
    }
}

/// The key of the population counters: state, age band and sex.
#[derive(Clone, Copy, Debug, PartialEq, Eq, Structural, Hash)]
pub struct PopulationKey {
    pub state_id: StateId,
    pub age_group: AgeGroup,
    pub sex: Sex,
}

impl TimeSeriesKey for PopulationKey {
    fn same_key(&self, other: &Self) -> (r: bool) {
        *self == *other
    }
}

} // verus!
