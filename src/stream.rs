//! The streaming submitter's encoding: keys with pre-encoded tags, fields
//! read from views, and line-protocol bodies chunked by days.

use vstd::prelude::*;

use crate::calendar::Date;
use crate::context::push_all;
use crate::decimal::{push_signed_decimal, push_signed_decimal_wide, signed_decimal};
use crate::lineproto::{escaped, measurement_specials, name_specials, tag_pairs, texts, write_measurement, write_name};
use crate::series::{Counters, TimeSeriesKey};
use crate::views::{bound, refs_ok, stores_wf, value_at, ViewTimeSeries};

verus! {

/// The number of samples a body aims at.
pub const TARGET_METRICS_PER_CHUNK: usize = 5000;

/// A view with the field name it is written under.
pub struct FieldDescriptor {
    name: Vec<u8>,
    inner: ViewTimeSeries,
}

impl FieldDescriptor {
    pub closed spec fn name_view(&self) -> Seq<u8> {
        self.name@
    }

    pub closed spec fn view_of(&self) -> ViewTimeSeries {
        self.inner
    }

    pub fn new(inner: ViewTimeSeries, name: Vec<u8>) -> (r: FieldDescriptor)
        ensures
            r.name_view() == name@,
            r.view_of() == inner,
    {
        FieldDescriptor { name, inner }
    }

    pub fn name(&self) -> (r: &[u8])
        ensures
            r@ == self.name_view(),
    {
        self.name.as_slice()
    }

    pub fn inner(&self) -> (r: &ViewTimeSeries)
        ensures
            *r == self.view_of(),
    {
        &self.inner
    }
}

/// The tag bytes of one key: `,name=value` for each tag, escaped.
pub open spec fn tagset_text(tags: Seq<Seq<u8>>, values: Seq<Seq<u8>>) -> Seq<u8> {
    tag_pairs(tags, values, tags.len() as int)
}

/// Pairs each key with its encoded tags; `values[j]` holds the tag values
/// of `keys[j]`, one per tag name.
pub fn prepare_keyset<K: TimeSeriesKey>(tags: &Vec<Vec<u8>>, keys: &Vec<K>, values: &Vec<Vec<Vec<u8>>>) -> (r: Vec<(K, Vec<u8>)>)
    requires
        values@.len() == keys@.len(),
        forall|j: int| 0 <= j < values@.len() ==> (#[trigger] values@[j])@.len() == tags@.len(),
    ensures
        r@.len() == keys@.len(),
        forall|j: int| 0 <= j < r@.len() ==> (#[trigger] r@[j]).0 == keys@[j]
            && r@[j].1@ == tagset_text(texts(tags@), texts(values@[j]@)),
{
    let mut out: Vec<(K, Vec<u8>)> = Vec::new();
    let mut j: usize = 0;
    while j < keys.len()
        invariant
            values@.len() == keys@.len(),
            forall|j: int| 0 <= j < values@.len() ==> (#[trigger] values@[j])@.len() == tags@.len(),
            j <= keys@.len(),
            out@.len() == j,
            forall|t: int| 0 <= t < j ==> (#[trigger] out@[t]).0 == keys@[t]
                && out@[t].1@ == tagset_text(texts(tags@), texts(values@[t]@)),
        decreases keys@.len() - j,
    {
        let vals = &values[j];
        let mut buf: Vec<u8> = Vec::new();
        let mut i: usize = 0;
        while i < tags.len()
            invariant
                vals@.len() == tags@.len(),
                i <= tags@.len(),
                buf@ == tag_pairs(texts(tags@), texts(vals@), i as int),
            decreases tags@.len() - i,
        {
            buf.push(0x2cu8);
            write_name(&mut buf, tags[i].as_slice());
            buf.push(0x3du8);
            write_name(&mut buf, vals[i].as_slice());
            proof {
                assert(texts(tags@)[i as int] == tags@[i as int]@);
                assert(texts(vals@)[i as int] == vals@[i as int]@);
                assert(buf@ =~= tag_pairs(texts(tags@), texts(vals@), i + 1));
            }
            i = i + 1;
        }
        out.push((keys[j], buf));
        j = j + 1;
    }
    out
}

/// Days per body: the target number of samples spread over the keys, at
/// least one (an empty key set counts as one key).
pub open spec fn chunk_days(nkeys: int) -> int {
    let per: int = TARGET_METRICS_PER_CHUNK as int / (if nkeys < 1 { 1 } else { nkeys });
    if per < 1 {
        1
    } else {
        per
    }
}

pub fn chunk_size(nkeys: usize) -> (r: usize)
    ensures
        r == chunk_days(nkeys as int),
        r >= 1,
{
    let n = if nkeys < 1 { 1 } else { nkeys };
    let per = TARGET_METRICS_PER_CHUNK / n;
    if per < 1 {
        1
    } else {
        per
    }
}

/// A view value as a field value: its decimal digits and `.0`.
pub open spec fn value_text(v: int) -> Seq<u8> {
    signed_decimal(v) + seq![0x2eu8, 0x30u8]
}

/// The field list of key `k` on day `d` from the first `n` descriptors:
/// `name=value` for each view that has a value, separated by commas.
pub open spec fn fields_text<K: TimeSeriesKey>(fields: Seq<FieldDescriptor>, stores: Seq<Counters<K>>, k: K, d: Date, n: int) -> Seq<u8>
    decreases n,
{
    if n <= 0 {
        Seq::empty()
    } else {
        let prev = fields_text(fields, stores, k, d, n - 1);
        match value_at(fields[n - 1].view_of(), stores, k, d) {
            Some(v) => prev + (if prev.len() > 0 { seq![0x2cu8] } else { Seq::empty() })
                + escaped(fields[n - 1].name_view(), name_specials()) + seq![0x3du8] + value_text(v),
            None => prev,
        }
    }
}

/// Whether every descriptor's view names stores of the list and stays
/// within `i128`.
pub open spec fn fields_ok<K: TimeSeriesKey>(fields: Seq<FieldDescriptor>, stores: Seq<Counters<K>>) -> bool {
    &&& stores_wf(stores)
    &&& forall|i: int| 0 <= i < fields.len() ==> refs_ok((#[trigger] fields[i]).view_of(), stores.len())
        && bound(fields[i].view_of()) <= i128::MAX
}

/// Appends the field list of key `k` on day `d`.
pub fn write_fields<K: TimeSeriesKey>(out: &mut Vec<u8>, fields: &Vec<FieldDescriptor>, stores: &Vec<Counters<K>>, k: &K, d: Date)
    requires
        fields_ok(fields@, stores@),
    ensures
        final(out)@ == old(out)@ + fields_text(fields@, stores@, *k, d, fields@.len() as int),
{
    let mut frag: Vec<u8> = Vec::new();
    let mut i: usize = 0;
    while i < fields.len()
        invariant
            fields_ok(fields@, stores@),
            i <= fields@.len(),
            frag@ == fields_text(fields@, stores@, *k, d, i as int),
        decreases fields@.len() - i,
    {
        let desc = &fields[i];
        assert(refs_ok(desc.view_of(), stores@.len()) && bound(desc.view_of()) <= i128::MAX);
        match desc.inner().getf(stores, k, d) {
            Some(v) => {
                let ghost prev = frag@;
                if frag.len() > 0 {
                    frag.push(0x2cu8);
                }
                write_name(&mut frag, desc.name());
                frag.push(0x3du8);
                push_signed_decimal_wide(&mut frag, v);
                frag.push(0x2eu8);
                frag.push(0x30u8);
                proof {
                    assert(frag@ =~= fields_text(fields@, stores@, *k, d, i + 1));
                }
            },
            None => {},
        }
        i = i + 1;
    }
    push_all(out, frag.as_slice());
}

/// The line of one key on one day, or nothing where no field has a value:
/// the measurement, the key's tags, a space, the fields, a space, the
/// timestamp and a line feed.
pub open spec fn key_line(meas: Seq<u8>, tagset: Seq<u8>, frag: Seq<u8>, ts: Seq<u8>) -> Seq<u8> {
    if frag.len() == 0 {
        Seq::empty()
    } else {
        meas + tagset + seq![0x20u8] + frag + seq![0x20u8] + ts + seq![0x0au8]
    }
}

/// The timestamp of a day, in seconds.
pub open spec fn day_stamp(d: Date) -> Seq<u8> {
    signed_decimal(d.midnight_spec())
}

/// The lines of day `d` for the first `n` keys of the key set.
pub open spec fn day_text<K: TimeSeriesKey>(meas: Seq<u8>, keyset: Seq<(K, Vec<u8>)>, fields: Seq<FieldDescriptor>, stores: Seq<Counters<K>>, d: Date, n: int) -> Seq<u8>
    decreases n,
{
    if n <= 0 {
        Seq::empty()
    } else {
        day_text(meas, keyset, fields, stores, d, n - 1)
            + key_line(meas, keyset[n - 1].1@, fields_text(fields, stores, keyset[n - 1].0, d, fields.len() as int), day_stamp(d))
    }
}

/// Appends the lines of day `d` for every key.
pub fn write_day<K: TimeSeriesKey>(out: &mut Vec<u8>, meas: &Vec<u8>, keyset: &Vec<(K, Vec<u8>)>, fields: &Vec<FieldDescriptor>, stores: &Vec<Counters<K>>, d: Date)
    requires
        fields_ok(fields@, stores@),
    ensures
        final(out)@ == old(out)@ + day_text(meas@, keyset@, fields@, stores@, d, keyset@.len() as int),
{
    let mut ts: Vec<u8> = Vec::new();
    push_signed_decimal(&mut ts, d.midnight_unix_seconds());
    let mut j: usize = 0;
    while j < keyset.len()
        invariant
            fields_ok(fields@, stores@),
            ts@ == day_stamp(d),
            j <= keyset@.len(),
            out@ == old(out)@ + day_text(meas@, keyset@, fields@, stores@, d, j as int),
        decreases keyset@.len() - j,
    {
        let entry = &keyset[j];
        let mut frag: Vec<u8> = Vec::new();
        write_fields(&mut frag, fields, stores, &entry.0, d);
        if frag.len() > 0 {
            push_all(out, meas.as_slice());
            push_all(out, entry.1.as_slice());
            out.push(0x20u8);
            push_all(out, frag.as_slice());
            out.push(0x20u8);
            push_all(out, ts.as_slice());
            out.push(0x0au8);
        }
        proof {
            assert(frag@ =~= fields_text(fields@, stores@, keyset@[j as int].0, d, fields@.len() as int));
            assert(out@ =~= old(out)@ + day_text(meas@, keyset@, fields@, stores@, d, j + 1));
        }
        j = j + 1;
    }
}

/// The bodies posted and the text still pending after the first `n` days
/// from `start`: each day's lines join the pending text, which is posted
/// after every day whose index is a multiple of `chunk`.
pub open spec fn stream_state<K: TimeSeriesKey>(meas: Seq<u8>, keyset: Seq<(K, Vec<u8>)>, fields: Seq<FieldDescriptor>, stores: Seq<Counters<K>>, start: Date, chunk: int, n: int) -> (Seq<Seq<u8>>, Seq<u8>)
    decreases n,
{
    if n <= 0 {
        (Seq::empty(), Seq::empty())
    } else {
        let prev = stream_state(meas, keyset, fields, stores, start, chunk, n - 1);
        let i = n - 1;
        let pending = prev.1 + day_text(meas, keyset, fields, stores,
            Date { ce_days: (start.ce_days + i) as i32 }, keyset.len() as int);
        if i % chunk == 0 {
            (prev.0.push(pending), Seq::empty())
        } else {
            (prev.0, pending)
        }
    }
}

/// The bodies of a stream of `ndays` days: those posted along the way,
/// then what is left, if anything.
pub open spec fn stream_bodies<K: TimeSeriesKey>(meas: Seq<u8>, keyset: Seq<(K, Vec<u8>)>, fields: Seq<FieldDescriptor>, stores: Seq<Counters<K>>, start: Date, ndays: int) -> Seq<Seq<u8>> {
    let st = stream_state(meas, keyset, fields, stores, start, chunk_days(keyset.len() as int), ndays);
    if st.1.len() > 0 {
        st.0.push(st.1)
    } else {
        st.0
    }
}

/// The line-protocol bodies that stream the fields of every key over the
/// `ndays` days from `start`, in seconds precision, chunked as
/// `stream_state` says. Keys with no field value on a day get no line.
pub fn stream_dynamic<K: TimeSeriesKey>(measurement: &[u8], start: Date, ndays: usize, keyset: &Vec<(K, Vec<u8>)>, fields: &Vec<FieldDescriptor>, stores: &Vec<Counters<K>>) -> (r: Vec<Vec<u8>>)
    requires
        fields_ok(fields@, stores@),
        start.ce_days + ndays <= i32::MAX,
    ensures
        texts(r@) == stream_bodies(escaped(measurement@, measurement_specials()), keyset@, fields@, stores@, start, ndays as int),
{
    let chunk = chunk_size(keyset.len());
    let mut meas: Vec<u8> = Vec::new();
    write_measurement(&mut meas, measurement);
    let mut bodies: Vec<Vec<u8>> = Vec::new();
    let mut buffer: Vec<u8> = Vec::new();
    let mut i: usize = 0;
    while i < ndays
        invariant
            fields_ok(fields@, stores@),
            start.ce_days + ndays <= i32::MAX,
            chunk == chunk_days(keyset@.len() as int),
            chunk >= 1,
            i <= ndays,
            meas@ == escaped(measurement@, measurement_specials()),
            texts(bodies@) == stream_state(meas@, keyset@, fields@, stores@, start, chunk as int, i as int).0,
            buffer@ == stream_state(meas@, keyset@, fields@, stores@, start, chunk as int, i as int).1,
        decreases ndays - i,
    {
        let d = Date { ce_days: (start.ce_days as i64 + i as i64) as i32 };
        write_day(&mut buffer, &meas, keyset, fields, stores, d);
        if i % chunk == 0 {
            let body = buffer;
            buffer = Vec::new();
            let ghost bv = body@;
            bodies.push(body);
            proof {
                assert(texts(bodies@) =~= stream_state(meas@, keyset@, fields@, stores@, start, chunk as int, i + 1).0);
            }
        }
        i = i + 1;
    }
    if buffer.len() > 0 {
        bodies.push(buffer);
        proof {
            assert(texts(bodies@) =~= stream_bodies(meas@, keyset@, fields@, stores@, start, ndays as int));
        }
    }
    bodies
}

/// Whether some field has a value for key `k` on day `d`.
pub open spec fn has_fields<K: TimeSeriesKey>(fields: Seq<FieldDescriptor>, stores: Seq<Counters<K>>, k: K, d: Date, n: int) -> bool {
    exists|i: int| 0 <= i < n && (#[trigger] value_at(fields[i].view_of(), stores, k, d)) is Some
}

/// The lines of day `d` for the first `n` keys: one for each key that has a
/// field value, in key order.
pub open spec fn day_lines<K: TimeSeriesKey>(meas: Seq<u8>, keyset: Seq<(K, Vec<u8>)>, fields: Seq<FieldDescriptor>, stores: Seq<Counters<K>>, d: Date, n: int) -> Seq<Seq<u8>>
    decreases n,
{
    if n <= 0 {
        Seq::empty()
    } else {
        let k = keyset[n - 1].0;
        day_lines(meas, keyset, fields, stores, d, n - 1) + if has_fields(fields, stores, k, d, fields.len() as int) {
            seq![meas + keyset[n - 1].1@ + seq![0x20u8] + fields_text(fields, stores, k, d, fields.len() as int)
                + seq![0x20u8] + day_stamp(d) + seq![0x0au8]]
        } else {
            Seq::empty()
        }
    }
}

/// The number of the first `n` keys that have a field value on day `d`.
pub open spec fn keys_with_fields<K: TimeSeriesKey>(keyset: Seq<(K, Vec<u8>)>, fields: Seq<FieldDescriptor>, stores: Seq<Counters<K>>, d: Date, n: int) -> nat
    decreases n,
{
    if n <= 0 {
        0
    } else {
        keys_with_fields(keyset, fields, stores, d, n - 1)
            + if has_fields(fields, stores, keyset[n - 1].0, d, fields.len() as int) { 1nat } else { 0nat }
    }
}

/// The byte strings one after the other.
pub open spec fn flatten(parts: Seq<Seq<u8>>) -> Seq<u8>
    decreases parts.len(),
{
    if parts.len() == 0 {
        Seq::empty()
    } else {
        flatten(parts.drop_last()) + parts.last()
    }
}

/// The lines of the first `n` days from `start`, day after day.
pub open spec fn days_text<K: TimeSeriesKey>(meas: Seq<u8>, keyset: Seq<(K, Vec<u8>)>, fields: Seq<FieldDescriptor>, stores: Seq<Counters<K>>, start: Date, n: int) -> Seq<u8>
    decreases n,
{
    if n <= 0 {
        Seq::empty()
    } else {
        days_text(meas, keyset, fields, stores, start, n - 1)
            + day_text(meas, keyset, fields, stores, Date { ce_days: (start.ce_days + n - 1) as i32 }, keyset.len() as int)
    }
}

proof fn lemma_fields_text_nonempty<K: TimeSeriesKey>(fields: Seq<FieldDescriptor>, stores: Seq<Counters<K>>, k: K, d: Date, n: int)
    requires
        0 <= n <= fields.len(),
    ensures
        fields_text(fields, stores, k, d, n).len() > 0 <==> has_fields(fields, stores, k, d, n),
    decreases n,
{
    if n > 0 {
        lemma_fields_text_nonempty(fields, stores, k, d, n - 1);
        if has_fields(fields, stores, k, d, n) && !has_fields(fields, stores, k, d, n - 1) {
            let i = choose|i: int| 0 <= i < n && (#[trigger] value_at(fields[i].view_of(), stores, k, d)) is Some;
            assert(i == n - 1);
        }
        if has_fields(fields, stores, k, d, n - 1) {
            let i = choose|i: int| 0 <= i < n - 1 && (#[trigger] value_at(fields[i].view_of(), stores, k, d)) is Some;
            assert(0 <= i < n);
        }
    }
}

/// A day's text holds one line per key that has a field value on that day,
/// in key order, each ending in a line feed; keys without any value get no
/// line.
pub proof fn lemma_day_lines<K: TimeSeriesKey>(meas: Seq<u8>, keyset: Seq<(K, Vec<u8>)>, fields: Seq<FieldDescriptor>, stores: Seq<Counters<K>>, d: Date, n: int)
    requires
        0 <= n <= keyset.len(),
    ensures
        day_text(meas, keyset, fields, stores, d, n) == flatten(day_lines(meas, keyset, fields, stores, d, n)),
        day_lines(meas, keyset, fields, stores, d, n).len() == keys_with_fields(keyset, fields, stores, d, n),
        forall|t: int| 0 <= t < day_lines(meas, keyset, fields, stores, d, n).len()
            ==> (#[trigger] day_lines(meas, keyset, fields, stores, d, n)[t]).last() == 0x0au8,
    decreases n,
{
    if n > 0 {
        lemma_day_lines(meas, keyset, fields, stores, d, n - 1);
        let k = keyset[n - 1].0;
        lemma_fields_text_nonempty(fields, stores, k, d, fields.len() as int);
        let prev = day_lines(meas, keyset, fields, stores, d, n - 1);
        let cur = day_lines(meas, keyset, fields, stores, d, n);
        if has_fields(fields, stores, k, d, fields.len() as int) {
            assert(cur.drop_last() =~= prev);
        } else {
            assert(cur =~= prev);
        }
        assert forall|t: int| 0 <= t < cur.len() implies (#[trigger] cur[t]).last() == 0x0au8 by {
            if t < prev.len() {
                assert(cur[t] == prev[t]);
            }
        }
    }
}

/// The bodies of a stream, one after the other, are the lines of its days,
/// day after day: each body is posted whole, and nothing is lost or
/// repeated between them.
pub proof fn lemma_stream_covers_days<K: TimeSeriesKey>(meas: Seq<u8>, keyset: Seq<(K, Vec<u8>)>, fields: Seq<FieldDescriptor>, stores: Seq<Counters<K>>, start: Date, ndays: int)
    requires
        0 <= ndays,
    ensures
        flatten(stream_bodies(meas, keyset, fields, stores, start, ndays)) == days_text(meas, keyset, fields, stores, start, ndays),
{
    let chunk = chunk_days(keyset.len() as int);
    lemma_stream_state(meas, keyset, fields, stores, start, chunk, ndays);
    let st = stream_state(meas, keyset, fields, stores, start, chunk, ndays);
    if st.1.len() > 0 {
        assert(st.0.push(st.1).drop_last() =~= st.0);
    } else {
        assert(st.1 =~= Seq::<u8>::empty());
        assert(flatten(st.0) + st.1 =~= flatten(st.0));
    }
}

proof fn lemma_stream_state<K: TimeSeriesKey>(meas: Seq<u8>, keyset: Seq<(K, Vec<u8>)>, fields: Seq<FieldDescriptor>, stores: Seq<Counters<K>>, start: Date, chunk: int, n: int)
    requires
        0 <= n,
        chunk >= 1,
    ensures
        flatten(stream_state(meas, keyset, fields, stores, start, chunk, n).0) + stream_state(meas, keyset, fields, stores, start, chunk, n).1
            == days_text(meas, keyset, fields, stores, start, n),
    decreases n,
{
    if n == 0 {
        assert(flatten(Seq::<Seq<u8>>::empty()) + Seq::<u8>::empty() =~= Seq::<u8>::empty());
    } else {
        lemma_stream_state(meas, keyset, fields, stores, start, chunk, n - 1);
        let prev = stream_state(meas, keyset, fields, stores, start, chunk, n - 1);
        let cur = stream_state(meas, keyset, fields, stores, start, chunk, n);
        let day = day_text(meas, keyset, fields, stores, Date { ce_days: (start.ce_days + n - 1) as i32 }, keyset.len() as int);
        if (n - 1) % chunk == 0 {
            assert(cur.0.drop_last() =~= prev.0);
            assert(flatten(cur.0) + cur.1 =~= flatten(prev.0) + prev.1 + day);
        } else {
            assert(flatten(cur.0) + cur.1 =~= flatten(prev.0) + prev.1 + day);
        }
    }
}

} // verus!
