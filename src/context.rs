//! Sex, age group and district id of a record, with their text forms.

use vstd::prelude::*;

use crate::decimal::{decimal_padded, parse_unsigned, parse_unsigned_range, push_decimal_padded, NumberError};

verus! {

pub type DistrictId = u32;

pub type StateId = u32;

/// The text `unbekannt`, which stands for an unknown value.
pub open spec fn unknown_text() -> Seq<u8> {
    seq![0x75u8, 0x6e, 0x62, 0x65, 0x6b, 0x61, 0x6e, 0x6e, 0x74]
}

/// The bytes of `unbekannt`.
pub fn unknown_bytes() -> (r: Vec<u8>)
    ensures
        r@ == unknown_text(),
{
    let r: Vec<u8> = vec![0x75u8, 0x6e, 0x62, 0x65, 0x6b, 0x61, 0x6e, 0x6e, 0x74];
    assert(r@ =~= unknown_text());
    r
}

/// Whether two byte strings are equal.
pub fn same_bytes(a: &[u8], b: &[u8]) -> (r: bool)
    ensures
        r == (a@ == b@),
{
    if a.len() != b.len() {
        return false;
    }
    let mut i: usize = 0;
    while i < a.len()
        invariant
            a@.len() == b@.len(),
            i <= a@.len(),
            forall|t: int| 0 <= t < i ==> a@[t] == b@[t],
        decreases a@.len() - i,
    {
        if a[i] != b[i] {
            return false;
        }
        i = i + 1;
    }
    assert(a@ =~= b@);
    true
}

/// Appends `tail` to `out`.
pub fn push_all(out: &mut Vec<u8>, tail: &[u8])
    ensures
        final(out)@ == old(out)@ + tail@,
{
    let mut i: usize = 0;
    while i < tail.len()
        invariant
            i <= tail@.len(),
            out@ == old(out)@ + tail@.subrange(0, i as int),
        decreases tail@.len() - i,
    {
        out.push(tail[i]);
        i = i + 1;
        assert(out@ =~= old(out)@ + tail@.subrange(0, i as int));
    }
    assert(tail@.subrange(0, tail@.len() as int) =~= tail@);
}

#[derive(Clone, Copy, Debug, PartialEq, Eq, Structural, Hash)]
pub enum Sex {
    Male,
    Female,
    Unknown,
}

impl Sex {
    /// The text form: `M`, `W` or `unbekannt`.
    pub open spec fn text(&self) -> Seq<u8> {
        match self {
            Sex::Male => seq![0x4du8],
            Sex::Female => seq![0x57u8],
            Sex::Unknown => unknown_text(),
        }
    }

    pub fn to_text(&self) -> (r: Vec<u8>)
        ensures
            r@ == self.text(),
    {
        match self {
            Sex::Male => {
                let r: Vec<u8> = vec![0x4du8];
                assert(r@ =~= self.text());
                r
            },
            Sex::Female => {
                let r: Vec<u8> = vec![0x57u8];
                assert(r@ =~= self.text());
                r
            },
            Sex::Unknown => unknown_bytes(),
        }
    }

    /// The sex that `text` names, if any.
    pub fn parse(text: &[u8]) -> (r: Option<Sex>)
        ensures
            r.is_some() == (exists|x: Sex| x.text() == text@),
            r.is_some() ==> r.unwrap().text() == text@,
    {
        let m = Sex::Male.to_text();
        let w = Sex::Female.to_text();
        let u = unknown_bytes();
        if same_bytes(text, m.as_slice()) {
            assert(Sex::Male.text() == text@);
            Some(Sex::Male)
        } else if same_bytes(text, w.as_slice()) {
            assert(Sex::Female.text() == text@);
            Some(Sex::Female)
        } else if same_bytes(text, u.as_slice()) {
            assert(Sex::Unknown.text() == text@);
            Some(Sex::Unknown)
        } else {
            proof {
                assert forall|x: Sex| x.text() != text@ by {
                    match x {
                        Sex::Male => {},
                        Sex::Female => {},
                        Sex::Unknown => {},
                    }
                }
            }
            None
        }
    }
}

/// A district id, or none where the source names no district (`u`).
#[derive(Clone, Copy, Debug, PartialEq, Eq, Structural, Hash)]
pub struct MaybeDistrictId(pub Option<DistrictId>);

impl MaybeDistrictId {
    /// Reads `u` as no district, and anything else as a `u32` id.
    pub fn parse(text: &[u8]) -> (r: Result<MaybeDistrictId, NumberError>)
        ensures
            text@ == seq![0x75u8] ==> r == Ok::<MaybeDistrictId, NumberError>(MaybeDistrictId(None)),
            text@ != seq![0x75u8] ==> match (r, parse_unsigned(text@, u32::MAX as int)) {
                (Ok(a), Ok(b)) => a.0 == Some(b as u32),
                (Err(a), Err(b)) => a == b,
                _ => false,
            },
    {
        if text.len() == 1 && text[0] == 0x75 {
            assert(text@ =~= seq![0x75u8]);
            return Ok(MaybeDistrictId(None));
        }
        assert(text@.subrange(0, text@.len() as int) =~= text@);
        match parse_unsigned_range(text, 0, text.len(), u32::MAX as u64) {
            Ok(v) => {
                proof {
                    crate::decimal::lemma_scan_bounded(text@, 0, 0);
                }
                Ok(MaybeDistrictId(Some(v as u32)))
            },
            Err(e) => Err(e),
        }
    }
}

/// An age band: from `low` years up to `high` years, or open upwards.
#[derive(Clone, Copy, Debug, PartialEq, Eq, Structural, Hash)]
pub struct AgeGroup {
    pub low: u16,
    pub high: Option<u16>,
}

/// Why a text is not an age group.
#[derive(Clone, Copy, Debug, PartialEq, Eq, Structural)]
pub enum ParseAgeGroupError {
    NoLeadingA,
    NoSeparator,
    InvalidNumber(NumberError),
}

/// The first position at or after `i` where `s` holds `b`.
pub open spec fn index_from(s: Seq<u8>, b: u8, i: int) -> Option<int>
    decreases s.len() - i,
{
    if i >= s.len() || i < 0 {
        None
    } else if s[i] == b {
        Some(i)
    } else {
        index_from(s, b, i + 1)
    }
}

/// `s` without one leading `A`, if it has one.
pub open spec fn strip_a(s: Seq<u8>) -> Seq<u8> {
    if s.len() > 0 && s[0] == 0x41 {
        s.drop_first()
    } else {
        s
    }
}

/// How an age group text reads: an optional leading `A`, then either a
/// number followed by `+` (open upwards), or two numbers joined by the
/// first `-`, the second with an optional leading `A`.
pub open spec fn age_group_of(s: Seq<u8>) -> Result<AgeGroup, ParseAgeGroupError> {
    let t = strip_a(s);
    if t.len() > 0 && t.last() == 0x2b {
        match parse_unsigned(t.drop_last(), u16::MAX as int) {
            Ok(v) => Ok(AgeGroup { low: v as u16, high: None }),
            Err(e) => Err(ParseAgeGroupError::InvalidNumber(e)),
        }
    } else {
        match index_from(t, 0x2d, 0) {
            None => Err(ParseAgeGroupError::NoSeparator),
            Some(p) => match parse_unsigned(t.subrange(0, p), u16::MAX as int) {
                Err(e) => Err(ParseAgeGroupError::InvalidNumber(e)),
                Ok(lo) => match parse_unsigned(strip_a(t.subrange(p + 1, t.len() as int)), u16::MAX as int) {
                    Err(e) => Err(ParseAgeGroupError::InvalidNumber(e)),
                    Ok(hi) => Ok(AgeGroup { low: lo as u16, high: Some(hi as u16) }),
                },
            },
        }
    }
}

impl AgeGroup {
    /// The text form: `A` and the lower bound in at least two digits, then
    /// `-A` and the upper bound likewise, or `+` where the band is open.
    pub open spec fn text(&self) -> Seq<u8> {
        let head = seq![0x41u8] + decimal_padded(self.low as nat, 2);
        match self.high {
            Some(h) => head + seq![0x2du8, 0x41u8] + decimal_padded(h as nat, 2),
            None => head + seq![0x2bu8],
        }
    }

    pub fn write_text(&self, out: &mut Vec<u8>)
        ensures
            final(out)@ == old(out)@ + self.text(),
    {
        out.push(0x41u8);
        push_decimal_padded(out, self.low as u64, 2);
        match self.high {
            Some(h) => {
                out.push(0x2du8);
                out.push(0x41u8);
                push_decimal_padded(out, h as u64, 2);
            },
            None => {
                out.push(0x2bu8);
            },
        }
        proof {
            assert(out@ =~= old(out)@ + self.text());
        }
    }

    pub fn to_text(&self) -> (r: Vec<u8>)
        ensures
            r@ == self.text(),
    {
        let mut r: Vec<u8> = Vec::new();
        self.write_text(&mut r);
        assert(r@ =~= self.text());
        r
    }

    /// Reads an age group such as `A05-A14`, `A80+` or `15-34`.
    pub fn parse(text: &[u8]) -> (r: Result<AgeGroup, ParseAgeGroupError>)
        ensures
            r == age_group_of(text@),
    {
        let ghost s = text@;
        let ghost t = strip_a(s);
        let start: usize = if text.len() > 0 && text[0] == 0x41 { 1 } else { 0 };
        assert(t =~= s.subrange(start as int, s.len() as int));
        let end = text.len();
        if end > start && text[end - 1] == 0x2b {
            assert(t.drop_last() =~= s.subrange(start as int, end - 1));
            let low = age_number(text, start, end - 1)?;
            return Ok(AgeGroup { low, high: None });
        }
        let p = find_byte(text, start, end, 0x2d);
        if p == end {
            return Err(ParseAgeGroupError::NoSeparator);
        }
        let ghost q = (p - start) as int;
        assert(t.subrange(0, q) =~= s.subrange(start as int, p as int));
        let low = age_number(text, start, p)?;
        let hstart: usize = if p + 1 < end && text[p + 1] == 0x41 { p + 2 } else { p + 1 };
        assert(strip_a(t.subrange(q + 1, t.len() as int)) =~= s.subrange(hstart as int, end as int));
        let high = age_number(text, hstart, end)?;
        Ok(AgeGroup { low, high: Some(high) })
    }
}

/// Reads one bound of an age group from `text[from .. to]`.
fn age_number(text: &[u8], from: usize, to: usize) -> (r: Result<u16, ParseAgeGroupError>)
    requires
        from <= to <= text@.len(),
    ensures
        match parse_unsigned(text@.subrange(from as int, to as int), u16::MAX as int) {
            Ok(v) => r == Ok::<u16, ParseAgeGroupError>(v as u16),
            Err(e) => r == Err::<u16, ParseAgeGroupError>(ParseAgeGroupError::InvalidNumber(e)),
        },
{
    match parse_unsigned_range(text, from, to, u16::MAX as u64) {
        Ok(v) => {
            proof { lemma_parse_bounded(text@.subrange(from as int, to as int), u16::MAX as int); }
            Ok(v as u16)
        },
        Err(e) => Err(ParseAgeGroupError::InvalidNumber(e)),
    }
}

/// The first position in `from .. to` where `text` holds `b`, or `to`.
pub fn find_byte(text: &[u8], from: usize, to: usize, b: u8) -> (r: usize)
    requires
        from <= to <= text@.len(),
    ensures
        from <= r <= to,
        r == to <==> index_from(text@.subrange(from as int, to as int), b, 0) is None,
        r < to ==> index_from(text@.subrange(from as int, to as int), b, 0) == Some((r - from) as int),
{
    let ghost t = text@.subrange(from as int, to as int);
    let mut p: usize = from;
    while p < to
        invariant
            from <= p <= to <= text@.len(),
            t == text@.subrange(from as int, to as int),
            index_from(t, b, (p - from) as int) == index_from(t, b, 0),
        decreases to - p,
    {
        assert(t[p - from] == text@[p as int]);
        if text[p] == b {
            return p;
        }
        p = p + 1;
    }
    p
}

pub proof fn lemma_parse_bounded(s: Seq<u8>, max: int)
    requires
        0 <= max,
    ensures
        parse_unsigned(s, max) is Ok ==> 0 <= parse_unsigned(s, max)->Ok_0 <= max,
{
    if s.len() > 0 {
        let body = if s[0] == 0x2b { s.drop_first() } else { s };
        crate::decimal::lemma_scan_bounded(body, body.len() as int, max);
    }
}

/// How a text reads as an optional age group: `unbekannt` and `u` as none,
/// anything else as an age group.
pub open spec fn maybe_age_group_of(s: Seq<u8>) -> Result<MaybeAgeGroup, ParseAgeGroupError> {
    if s == unknown_text() || s == seq![0x75u8] {
        Ok(MaybeAgeGroup(None))
    } else {
        match age_group_of(s) {
            Ok(g) => Ok(MaybeAgeGroup(Some(g))),
            Err(e) => Err(e),
        }
    }
}

/// An age group, or none where the source gives none (`unbekannt` or `u`).
#[derive(Clone, Copy, Debug, PartialEq, Eq, Structural, Hash)]
pub struct MaybeAgeGroup(pub Option<AgeGroup>);

impl MaybeAgeGroup {
    /// The text form: that of the age group, or `unbekannt`.
    pub open spec fn text(&self) -> Seq<u8> {
        match self.0 {
            Some(g) => g.text(),
            None => unknown_text(),
        }
    }

    pub fn write_text(&self, out: &mut Vec<u8>)
        ensures
            final(out)@ == old(out)@ + self.text(),
    {
        match self.0 {
            Some(g) => g.write_text(out),
            None => {
                let u = unknown_bytes();
                push_all(out, u.as_slice());
            },
        }
    }

    pub fn to_text(&self) -> (r: Vec<u8>)
        ensures
            r@ == self.text(),
    {
        let mut r: Vec<u8> = Vec::new();
        self.write_text(&mut r);
        assert(r@ =~= self.text());
        r
    }

    /// Reads `unbekannt` or `u` as no age group, anything else as an age
    /// group.
    pub fn parse(text: &[u8]) -> (r: Result<MaybeAgeGroup, ParseAgeGroupError>)
        ensures
            r == maybe_age_group_of(text@),
    {
        let u = unknown_bytes();
        if same_bytes(text, u.as_slice()) || (text.len() == 1 && text[0] == 0x75) {
            proof {
                if text@.len() == 1 && text@[0] == 0x75 {
                    assert(text@ =~= seq![0x75u8]);
                }
            }
            return Ok(MaybeAgeGroup(None));
        }
        proof {
            if text@ == seq![0x75u8] {
                assert(text@.len() == 1 && text@[0] == 0x75);
            }
        }
        match AgeGroup::parse(text) {
            Ok(g) => Ok(MaybeAgeGroup(Some(g))),
            Err(e) => Err(e),
        }
    }
}

} // verus!
