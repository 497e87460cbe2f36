//! The line-protocol encoder: escaping of names, field values and
//! timestamps of a chosen precision.

use vstd::prelude::*;

use crate::decimal::{decimal_padded, push_decimal_padded, push_signed_decimal, signed_decimal};

verus! {

pub const BACKSLASH: u8 = 0x5c;

/// The bytes that a measurement name escapes: backslash, comma, space, tab,
/// line feed and carriage return.
pub open spec fn measurement_specials() -> Seq<u8> {
    seq![0x5cu8, 0x2c, 0x20, 0x09, 0x0a, 0x0d]
}

/// The bytes that tag names, tag values and field names escape: those of a
/// measurement, and `=`.
pub open spec fn name_specials() -> Seq<u8> {
    seq![0x5cu8, 0x2c, 0x20, 0x09, 0x0a, 0x0d, 0x3d]
}

/// The bytes that a string field value escapes: backslash and `"`.
pub open spec fn string_specials() -> Seq<u8> {
    seq![0x5cu8, 0x22]
}

/// One byte as written: behind a backslash where it is in `pat`.
pub open spec fn escaped_byte(b: u8, pat: Seq<u8>) -> Seq<u8> {
    if pat.contains(b) {
        seq![BACKSLASH, b]
    } else {
        seq![b]
    }
}

/// `s` with every byte of `pat` behind a backslash.
pub open spec fn escaped(s: Seq<u8>, pat: Seq<u8>) -> Seq<u8>
    decreases s.len(),
{
    if s.len() == 0 {
        Seq::empty()
    } else {
        escaped_byte(s[0], pat) + escaped(s.drop_first(), pat)
    }
}

/// Reads escaped text back: a backslash and the byte after it stand for
/// that byte; any other byte stands for itself.
pub open spec fn unescaped(t: Seq<u8>) -> Seq<u8>
    decreases t.len(),
{
    if t.len() == 0 {
        Seq::empty()
    } else if t[0] == BACKSLASH && t.len() >= 2 {
        seq![t[1]] + unescaped(t.subrange(2, t.len() as int))
    } else {
        seq![t[0]] + unescaped(t.drop_first())
    }
}

pub proof fn lemma_escaped_push(s: Seq<u8>, b: u8, pat: Seq<u8>)
    ensures
        escaped(s.push(b), pat) == escaped(s, pat) + escaped_byte(b, pat),
    decreases s.len(),
{
    if s.len() == 0 {
        assert(s.push(b).drop_first() =~= Seq::<u8>::empty());
        assert(escaped(s.push(b).drop_first(), pat) == Seq::<u8>::empty());
        assert(s.push(b)[0] == b);
        assert(escaped(s, pat) == Seq::<u8>::empty());
        assert(escaped(s.push(b), pat) =~= escaped(s, pat) + escaped_byte(b, pat));
    } else {
        assert(s.push(b).drop_first() =~= s.drop_first().push(b));
        assert(s.push(b)[0] == s[0]);
        lemma_escaped_push(s.drop_first(), b, pat);
        assert(escaped(s.push(b), pat) =~= escaped(s, pat) + escaped_byte(b, pat));
    }
}

/// Escaping is undone by reading the text back, whatever the bytes, as long
/// as the backslash itself is escaped.
pub proof fn lemma_escape_round_trip(s: Seq<u8>, pat: Seq<u8>)
    requires
        pat.contains(BACKSLASH),
    ensures
        unescaped(escaped(s, pat)) == s,
    decreases s.len(),
{
    if s.len() > 0 {
        let rest = escaped(s.drop_first(), pat);
        lemma_escape_round_trip(s.drop_first(), pat);
        let t = escaped(s, pat);
        if pat.contains(s[0]) {
            assert(t == seq![BACKSLASH, s[0]] + rest);
            assert(t.subrange(2, t.len() as int) =~= rest);
        } else {
            assert(s[0] != BACKSLASH);
            assert(t == seq![s[0]] + rest);
            assert(t.drop_first() =~= rest);
        }
        assert(unescaped(t) =~= s);
    }
}

/// Name escaping is undone by reading the text back.
pub proof fn lemma_name_round_trip(s: Seq<u8>)
    ensures
        unescaped(escaped(s, name_specials())) == s,
        unescaped(escaped(s, measurement_specials())) == s,
        unescaped(escaped(s, string_specials())) == s,
{
    assert(name_specials()[0] == BACKSLASH);
    assert(measurement_specials()[0] == BACKSLASH);
    assert(string_specials()[0] == BACKSLASH);
    lemma_escape_round_trip(s, name_specials());
    lemma_escape_round_trip(s, measurement_specials());
    lemma_escape_round_trip(s, string_specials());
}

fn in_set(b: u8, pat: &[u8]) -> (r: bool)
    ensures
        r == pat@.contains(b),
{
    let mut i: usize = 0;
    while i < pat.len()
        invariant
            i <= pat@.len(),
            forall|t: int| 0 <= t < i ==> pat@[t] != b,
        decreases pat@.len() - i,
    {
        if pat[i] == b {
            assert(pat@[i as int] == b);
            return true;
        }
        i = i + 1;
    }
    false
}

/// Appends `s` with every byte of `pat` behind a backslash.
pub fn write_escaped(w: &mut Vec<u8>, s: &[u8], pat: &[u8])
    ensures
        final(w)@ == old(w)@ + escaped(s@, pat@),
{
    let mut i: usize = 0;
    while i < s.len()
        invariant
            i <= s@.len(),
            w@ == old(w)@ + escaped(s@.subrange(0, i as int), pat@),
        decreases s@.len() - i,
    {
        let b = s[i];
        if in_set(b, pat) {
            w.push(BACKSLASH);
        }
        w.push(b);
        proof {
            assert(s@.subrange(0, i + 1) =~= s@.subrange(0, i as int).push(b));
            lemma_escaped_push(s@.subrange(0, i as int), b, pat@);
            assert(w@ =~= old(w)@ + escaped(s@.subrange(0, i + 1), pat@));
        }
        i = i + 1;
    }
    assert(s@.subrange(0, s@.len() as int) =~= s@);
}

/// Appends a tag name, tag value or field name, escaped.
pub fn write_name(w: &mut Vec<u8>, s: &[u8])
    ensures
        final(w)@ == old(w)@ + escaped(s@, name_specials()),
{
    let pat: [u8; 7] = [0x5cu8, 0x2c, 0x20, 0x09, 0x0a, 0x0d, 0x3d];
    assert(pat@ =~= name_specials());
    write_escaped(w, s, &pat);
}

/// Appends a measurement name, escaped.
pub fn write_measurement(w: &mut Vec<u8>, s: &[u8])
    ensures
        final(w)@ == old(w)@ + escaped(s@, measurement_specials()),
{
    let pat: [u8; 6] = [0x5cu8, 0x2c, 0x20, 0x09, 0x0a, 0x0d];
    assert(pat@ =~= measurement_specials());
    write_escaped(w, s, &pat);
}

/// Appends a string field value: in double quotes, with backslash and `"`
/// escaped.
pub fn write_str(w: &mut Vec<u8>, s: &[u8])
    ensures
        final(w)@ == old(w)@ + seq![0x22u8] + escaped(s@, string_specials()) + seq![0x22u8],
{
    w.push(0x22u8);
    let pat: [u8; 2] = [0x5cu8, 0x22];
    assert(pat@ =~= string_specials());
    write_escaped(w, s, &pat);
    w.push(0x22u8);
    assert(w@ =~= old(w)@ + seq![0x22u8] + escaped(s@, string_specials()) + seq![0x22u8]);
}

/// The precision of the timestamps of a write.
#[derive(Clone, Copy, Debug, PartialEq, Eq, Structural, Hash)]
pub enum Precision {
    Nanoseconds,
    Microseconds,
    Milliseconds,
    Seconds,
}

/// An instant: whole seconds since 1970-01-01T00:00:00Z and the
/// nanoseconds within the second (a leap second may push these past
/// 999,999,999).
#[derive(Clone, Copy, Debug, PartialEq, Eq, Structural)]
pub struct Timestamp {
    pub secs: i64,
    pub subsec_nanos: u32,
}

/// `v`, but no larger than `cap`.
pub open spec fn capped(v: int, cap: int) -> int {
    if v >= cap {
        cap
    } else {
        v
    }
}

impl Precision {
    /// The name of the precision in a write request.
    pub fn value(&self) -> (r: &'static str)
        ensures
            r@ == match self {
                Precision::Nanoseconds => "ns"@,
                Precision::Microseconds => "u"@,
                Precision::Milliseconds => "ms"@,
                Precision::Seconds => "s"@,
            },
    {
        match self {
            Precision::Nanoseconds => "ns",
            Precision::Microseconds => "u",
            Precision::Milliseconds => "ms",
            Precision::Seconds => "s",
        }
    }

    /// The digits and width of the sub-second part, where the precision
    /// has one: the sub-second count in its unit, held below the next
    /// second.
    pub open spec fn subsec_field(&self, ts: Timestamp) -> (int, nat) {
        match self {
            Precision::Milliseconds => (capped((ts.subsec_nanos / 1_000_000) as int, 999), 3),
            Precision::Microseconds => (capped((ts.subsec_nanos / 1_000) as int, 999_999), 6),
            Precision::Nanoseconds => (capped(ts.subsec_nanos as int, 999_999_999), 9),
            Precision::Seconds => (0, 0),
        }
    }

    /// The encoded timestamp: the seconds, then for a finer precision the
    /// sub-second field zero-padded to its width.
    pub open spec fn timestamp_text(&self, ts: Timestamp) -> Seq<u8> {
        match self {
            Precision::Seconds => signed_decimal(ts.secs as int),
            _ => signed_decimal(ts.secs as int)
                + decimal_padded(self.subsec_field(ts).0 as nat, self.subsec_field(ts).1),
        }
    }

    /// Appends the timestamp in this precision.
    pub fn encode_timestamp(&self, w: &mut Vec<u8>, ts: &Timestamp)
        ensures
            final(w)@ == old(w)@ + self.timestamp_text(*ts),
    {
        push_signed_decimal(w, ts.secs);
        match self {
            Precision::Seconds => {},
            Precision::Milliseconds => {
                let ms = ts.subsec_nanos / 1_000_000;
                let ms = if ms >= 999 { 999 } else { ms };
                push_decimal_padded(w, ms as u64, 3);
            },
            Precision::Microseconds => {
                let us = ts.subsec_nanos / 1_000;
                let us = if us >= 999_999 { 999_999 } else { us };
                push_decimal_padded(w, us as u64, 6);
            },
            Precision::Nanoseconds => {
                let ns = ts.subsec_nanos;
                let ns = if ns >= 999_999_999 { 999_999_999 } else { ns };
                push_decimal_padded(w, ns as u64, 9);
            },
        }
        assert(w@ =~= old(w)@ + self.timestamp_text(*ts));
    }

    /// Near the end of a second the sub-second field holds at its largest
    /// value and never carries into the seconds: from 999,999,999
    /// nanoseconds on, the nanosecond field is 999,999,999; from 999
    /// milliseconds on, the millisecond field is 999; from 999,999
    /// microseconds on, the microsecond field is 999,999.
    pub proof fn lemma_precision_clamp(ts: Timestamp)
        ensures
            ts.subsec_nanos >= 999_999_999 ==> Precision::Nanoseconds.subsec_field(ts).0 == 999_999_999,
            ts.subsec_nanos >= 999_000_000 ==> Precision::Milliseconds.subsec_field(ts).0 == 999,
            ts.subsec_nanos >= 999_999_000 ==> Precision::Microseconds.subsec_field(ts).0 == 999_999,
            forall|p: Precision| #[trigger] p.timestamp_text(ts).subrange(0, signed_decimal(ts.secs as int).len() as int)
                == signed_decimal(ts.secs as int),
    {
        assert forall|p: Precision| #[trigger] p.timestamp_text(ts).subrange(0, signed_decimal(ts.secs as int).len() as int)
            == signed_decimal(ts.secs as int) by {
            assert(p.timestamp_text(ts).subrange(0, signed_decimal(ts.secs as int).len() as int)
                =~= signed_decimal(ts.secs as int));
        }
    }
}

/// A field value of a sample.
#[derive(Clone, Debug)]
pub enum FieldValue {
    Integer(i64),
    Bool(bool),
    String(Vec<u8>),
}

impl FieldValue {
    /// The encoded value: an integer followed by `i`, `true` or `false`, or
    /// a quoted and escaped string.
    pub open spec fn text(&self) -> Seq<u8> {
        match self {
            FieldValue::Integer(v) => signed_decimal(*v as int) + seq![0x69u8],
            FieldValue::Bool(b) => if *b {
                seq![0x74u8, 0x72, 0x75, 0x65]
            } else {
                seq![0x66u8, 0x61, 0x6c, 0x73, 0x65]
            },
            FieldValue::String(t) => seq![0x22u8] + escaped(t@, string_specials()) + seq![0x22u8],
        }
    }

    pub fn write_into(&self, w: &mut Vec<u8>)
        ensures
            final(w)@ == old(w)@ + self.text(),
    {
        match self {
            FieldValue::Integer(v) => {
                push_signed_decimal(w, *v);
                w.push(0x69u8);
            },
            FieldValue::Bool(b) => {
                if *b {
                    w.push(0x74u8);
                    w.push(0x72u8);
                    w.push(0x75u8);
                    w.push(0x65u8);
                } else {
                    w.push(0x66u8);
                    w.push(0x61u8);
                    w.push(0x6cu8);
                    w.push(0x73u8);
                    w.push(0x65u8);
                }
            },
            FieldValue::String(t) => {
                write_str(w, t.as_slice());
            },
        }
        assert(w@ =~= old(w)@ + self.text());
    }
}

/// The tag values and field values of one line.
#[derive(Clone, Debug)]
pub struct Sample {
    pub tagv: Vec<Vec<u8>>,
    pub fieldv: Vec<FieldValue>,
}

/// Samples of one measurement at one instant.
#[derive(Clone, Debug)]
pub struct Readout {
    pub ts: Timestamp,
    pub measurement: Vec<u8>,
    pub precision: Precision,
    pub tags: Vec<Vec<u8>>,
    pub fields: Vec<Vec<u8>>,
    pub samples: Vec<Sample>,
}

/// The views of a list of byte strings.
pub open spec fn texts(v: Seq<Vec<u8>>) -> Seq<Seq<u8>> {
    v.map_values(|t: Vec<u8>| t@)
}

/// `,name=value` for the first `n` pairs of tag names and values.
pub open spec fn tag_pairs(names: Seq<Seq<u8>>, values: Seq<Seq<u8>>, n: int) -> Seq<u8>
    decreases n,
{
    if n <= 0 {
        Seq::empty()
    } else {
        tag_pairs(names, values, n - 1) + seq![0x2cu8] + escaped(names[n - 1], name_specials())
            + seq![0x3du8] + escaped(values[n - 1], name_specials())
    }
}

/// `name=value` for the first `n` pairs of field names and values, the
/// first after a space and the others after a comma.
pub open spec fn field_pairs(names: Seq<Seq<u8>>, values: Seq<FieldValue>, n: int) -> Seq<u8>
    decreases n,
{
    if n <= 0 {
        Seq::empty()
    } else {
        field_pairs(names, values, n - 1) + (if n == 1 { seq![0x20u8] } else { seq![0x2cu8] })
            + escaped(names[n - 1], name_specials()) + seq![0x3du8] + values[n - 1].text()
    }
}

pub open spec fn min(a: int, b: int) -> int {
    if a <= b {
        a
    } else {
        b
    }
}

impl Readout {
    /// The line of one sample: the measurement, the tags paired with the
    /// sample's tag values, the fields paired with its field values (each
    /// list as far as both sides reach), a space and the timestamp.
    pub open spec fn sample_line(&self, s: Sample) -> Seq<u8> {
        escaped(self.measurement@, measurement_specials())
            + tag_pairs(texts(self.tags@), texts(s.tagv@), min(self.tags@.len() as int, s.tagv@.len() as int))
            + field_pairs(texts(self.fields@), s.fieldv@, min(self.fields@.len() as int, s.fieldv@.len() as int))
            + seq![0x20u8] + self.precision.timestamp_text(self.ts) + seq![0x0au8]
    }

    /// The lines of the first `n` samples.
    pub open spec fn text_upto(&self, n: int) -> Seq<u8>
        decreases n,
    {
        if n <= 0 {
            Seq::empty()
        } else {
            self.text_upto(n - 1) + self.sample_line(self.samples@[n - 1])
        }
    }

    fn write_tags(&self, s: &Sample, dest: &mut Vec<u8>)
        ensures
            final(dest)@ == old(dest)@ + tag_pairs(texts(self.tags@), texts(s.tagv@),
                min(self.tags@.len() as int, s.tagv@.len() as int)),
    {
        let nt = if self.tags.len() <= s.tagv.len() { self.tags.len() } else { s.tagv.len() };
        let mut i: usize = 0;
        while i < nt
            invariant
                nt == min(self.tags@.len() as int, s.tagv@.len() as int),
                i <= nt,
                dest@ == old(dest)@ + tag_pairs(texts(self.tags@), texts(s.tagv@), i as int),
            decreases nt - i,
        {
            dest.push(0x2cu8);
            write_name(dest, self.tags[i].as_slice());
            dest.push(0x3du8);
            write_name(dest, s.tagv[i].as_slice());
            proof {
                assert(texts(self.tags@)[i as int] == self.tags@[i as int]@);
                assert(texts(s.tagv@)[i as int] == s.tagv@[i as int]@);
                assert(dest@ =~= old(dest)@ + tag_pairs(texts(self.tags@), texts(s.tagv@), i + 1));
            }
            i = i + 1;
        }
    }

    fn write_fields(&self, s: &Sample, dest: &mut Vec<u8>)
        ensures
            final(dest)@ == old(dest)@ + field_pairs(texts(self.fields@), s.fieldv@,
                min(self.fields@.len() as int, s.fieldv@.len() as int)),
    {
        let nf = if self.fields.len() <= s.fieldv.len() { self.fields.len() } else { s.fieldv.len() };
        let mut j: usize = 0;
        while j < nf
            invariant
                nf == min(self.fields@.len() as int, s.fieldv@.len() as int),
                j <= nf,
                dest@ == old(dest)@ + field_pairs(texts(self.fields@), s.fieldv@, j as int),
            decreases nf - j,
        {
            dest.push(if j == 0 { 0x20u8 } else { 0x2cu8 });
            write_name(dest, self.fields[j].as_slice());
            dest.push(0x3du8);
            s.fieldv[j].write_into(dest);
            proof {
                assert(texts(self.fields@)[j as int] == self.fields@[j as int]@);
                assert(dest@ =~= old(dest)@ + field_pairs(texts(self.fields@), s.fieldv@, j + 1));
            }
            j = j + 1;
        }
    }

    fn write_sample(&self, s: &Sample, dest: &mut Vec<u8>)
        ensures
            final(dest)@ == old(dest)@ + self.sample_line(*s),
    {
        write_measurement(dest, self.measurement.as_slice());
        self.write_tags(s, dest);
        self.write_fields(s, dest);
        dest.push(0x20u8);
        self.precision.encode_timestamp(dest, &self.ts);
        dest.push(0x0au8);
        assert(dest@ =~= old(dest)@ + self.sample_line(*s));
    }

    /// Appends one line per sample.
    pub fn write(&self, dest: &mut Vec<u8>)
        ensures
            final(dest)@ == old(dest)@ + self.text_upto(self.samples@.len() as int),
    {
        let mut i: usize = 0;
        while i < self.samples.len()
            invariant
                i <= self.samples@.len(),
                dest@ == old(dest)@ + self.text_upto(i as int),
            decreases self.samples@.len() - i,
        {
            self.write_sample(&self.samples[i], dest);
            assert(dest@ =~= old(dest)@ + self.text_upto(i + 1));
            i = i + 1;
        }
    }
}

} // verus!
