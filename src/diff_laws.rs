//! Laws of the diff builder: loading an artifact and writing it back.

use vstd::prelude::*;

use crate::calendar::Date;
use crate::diffbuild::{field_of, loaded, record_key, PartialDiffData};
use crate::records::{DiffRecord, PartialCaseKey};

verus! {

/// The slot of a row's day.
pub open spec fn row_slot(r: DiffRecord, start: Date) -> int {
    r.date.ce_days - start.ce_days
}

/// The position of the last row with key `k` at slot `i`, if any.
pub open spec fn last_at(rows: Seq<DiffRecord>, start: Date, k: PartialCaseKey, i: int) -> Option<int>
    decreases rows.len(),
{
    if rows.len() == 0 {
        None
    } else if record_key(rows.last()) == k && row_slot(rows.last(), start) == i {
        Some(rows.len() - 1)
    } else {
        last_at(rows.drop_last(), start, k, i)
    }
}

/// Whether a row carries one of the counts that make a row be written.
pub open spec fn row_counts(r: DiffRecord) -> bool {
    r.cases != 0 || r.deaths != 0 || r.recovered != 0 || r.cases_rep_d7 != 0 || r.cases_retracted != 0
}

proof fn lemma_last_at(rows: Seq<DiffRecord>, start: Date, k: PartialCaseKey, i: int)
    ensures
        last_at(rows, start, k, i) is Some ==> {
            let t = last_at(rows, start, k, i).unwrap();
            &&& 0 <= t < rows.len()
            &&& record_key(rows[t]) == k
            &&& row_slot(rows[t], start) == i
        },
        (exists|t: int| 0 <= t < rows.len() && record_key(rows[t]) == k && row_slot(rows[t], start) == i)
            ==> last_at(rows, start, k, i) is Some,
    decreases rows.len(),
{
    if rows.len() > 0 {
        lemma_last_at(rows.drop_last(), start, k, i);
        if exists|t: int| 0 <= t < rows.len() && record_key(rows[t]) == k && row_slot(rows[t], start) == i {
            let t = choose|t: int| 0 <= t < rows.len() && record_key(rows[t]) == k && row_slot(rows[t], start) == i;
            if t < rows.len() - 1 {
                assert(rows.drop_last()[t] == rows[t]);
            }
        }
        if last_at(rows, start, k, i) is Some && last_at(rows, start, k, i).unwrap() < rows.len() - 1 {
            let t = last_at(rows, start, k, i).unwrap();
            assert(rows.drop_last()[t] == rows[t]);
        }
    }
}

/// What loading rows into empty stores gives: a key is present where some
/// row has it, and each slot holds the field of the last row for that key
/// and slot, or zero.
proof fn lemma_loaded_empty(slots: nat, start: Date, rows: Seq<DiffRecord>, f: int)
    requires
        forall|t: int| 0 <= t < rows.len() ==> 0 <= #[trigger] row_slot(rows[t], start) < slots,
    ensures
        forall|k: PartialCaseKey| #[trigger] loaded(Map::empty(), slots, start, rows, f).contains_key(k)
            <==> exists|t: int| 0 <= t < rows.len() && record_key(rows[t]) == k,
        forall|k: PartialCaseKey| #[trigger] loaded(Map::empty(), slots, start, rows, f).contains_key(k)
            ==> loaded(Map::empty(), slots, start, rows, f)[k].len() == slots,
        forall|k: PartialCaseKey, i: int| #[trigger] loaded(Map::empty(), slots, start, rows, f).contains_key(k) && 0 <= i < slots
            ==> #[trigger] loaded(Map::empty(), slots, start, rows, f)[k][i] == match last_at(rows, start, k, i) {
                Some(t) => field_of(rows[t], f),
                None => 0,
            },
    decreases rows.len(),
{
    let m = loaded(Map::empty(), slots, start, rows, f);
    if rows.len() > 0 {
        let pre = rows.drop_last();
        assert forall|t: int| 0 <= t < pre.len() implies 0 <= #[trigger] row_slot(pre[t], start) < slots by {
            assert(pre[t] == rows[t]);
            assert(0 <= row_slot(rows[t], start) < slots);
        }
        lemma_loaded_empty(slots, start, pre, f);
        let prev = loaded(Map::empty(), slots, start, pre, f);
        let r = rows.last();
        let kr = record_key(r);
        assert(0 <= row_slot(rows[rows.len() - 1], start) < slots);
        assert forall|k: PartialCaseKey| #[trigger] m.contains_key(k)
            <==> exists|t: int| 0 <= t < rows.len() && record_key(rows[t]) == k by {
            if k != kr && m.contains_key(k) {
                assert(prev.contains_key(k));
                let t = choose|t: int| 0 <= t < pre.len() && record_key(pre[t]) == k;
                assert(rows[t] == pre[t]);
            }
            if k == kr {
                assert(record_key(rows[rows.len() - 1]) == k);
            }
            if exists|t: int| 0 <= t < rows.len() && record_key(rows[t]) == k {
                let t = choose|t: int| 0 <= t < rows.len() && record_key(rows[t]) == k;
                if t < rows.len() - 1 {
                    assert(pre[t] == rows[t]);
                    assert(prev.contains_key(k));
                }
            }
        }
        assert forall|k: PartialCaseKey| #[trigger] m.contains_key(k) implies m[k].len() == slots by {
            if k == kr {
                if prev.contains_key(k) {
                    assert(prev[k].len() == slots);
                }
            }
        }
        assert forall|k: PartialCaseKey, i: int| #[trigger] m.contains_key(k) && 0 <= i < slots
            implies #[trigger] m[k][i] == match last_at(rows, start, k, i) {
                Some(t) => field_of(rows[t], f),
                None => 0,
            } by {
            let ri = row_slot(r, start);
            lemma_last_at(pre, start, k, i);
            if let Some(t) = last_at(pre, start, k, i) {
                assert(pre[t] == rows[t]);
            }
            if k == kr && i == ri {
                assert(last_at(rows, start, k, i) == Some(rows.len() - 1));
            } else {
                assert(last_at(rows, start, k, i) == last_at(pre, start, k, i));
                if k == kr {
                    if prev.contains_key(k) {
                        assert(prev[k].len() == slots);
                        assert(m[k][i] == prev[k][i]);
                    } else {
                        assert(m[k][i] == 0);
                        if last_at(pre, start, k, i) is Some {
                            let t = last_at(pre, start, k, i).unwrap();
                            assert(record_key(pre[t]) == k);
                            assert(prev.contains_key(k));
                        }
                    }
                } else {
                    assert(m[k] == prev[k]);
                }
            }
        }
    }
}

/// The rows written for slot `i`: each is the row of some key of
/// `cases_by_pub` at `i` that counts.
proof fn lemma_slot_rows_members(d: PartialDiffData, i: int, n: int)
    requires
        d.wf(),
        0 <= n <= d.row_keys().len(),
    ensures
        forall|t: int| 0 <= t < d.slot_rows(i, n).len() ==> exists|p: int| 0 <= p < n
            && #[trigger] d.slot_rows(i, n)[t] == d.row_at(i, d.row_keys()[p])
            && d.row_emitted(i, d.row_keys()[p]),
        forall|p: int| 0 <= p < n && #[trigger] d.row_emitted(i, d.row_keys()[p])
            ==> d.slot_rows(i, n).contains(d.row_at(i, d.row_keys()[p])),
    decreases n,
{
    if n > 0 {
        lemma_slot_rows_members(d, i, n - 1);
        let a = d.slot_rows(i, n - 1);
        let s = d.slot_rows(i, n);
        let k = d.row_keys()[n - 1];
        assert forall|t: int| 0 <= t < s.len() implies exists|p: int| 0 <= p < n
            && #[trigger] s[t] == d.row_at(i, d.row_keys()[p])
            && d.row_emitted(i, d.row_keys()[p]) by {
            if t < a.len() {
                assert(s[t] == a[t]);
                let p = choose|p: int| 0 <= p < n - 1 && #[trigger] a[t] == d.row_at(i, d.row_keys()[p])
                    && d.row_emitted(i, d.row_keys()[p]);
            } else {
                assert(s[t] == d.row_at(i, k));
            }
        }
        assert forall|p: int| 0 <= p < n && #[trigger] d.row_emitted(i, d.row_keys()[p])
            implies s.contains(d.row_at(i, d.row_keys()[p])) by {
            if p < n - 1 {
                let q = choose|q: int| 0 <= q < a.len() && a[q] == d.row_at(i, d.row_keys()[p]);
                assert(s[q] == a[q]);
            } else {
                assert(s[a.len() as int] == d.row_at(i, k));
            }
        }
    }
}

/// The rows written for the first `m` slots: each is the row of some key
/// at some slot below `m` that counts, and every such row is there.
proof fn lemma_rows_members(d: PartialDiffData, m: int)
    requires
        d.wf(),
        0 <= m <= d.cases_by_pub.slots(),
    ensures
        forall|t: int| 0 <= t < d.rows_upto(m).len() ==> exists|i: int, p: int| 0 <= i < m
            && 0 <= p < d.row_keys().len()
            && #[trigger] d.rows_upto(m)[t] == d.row_at(i, d.row_keys()[p])
            && d.row_emitted(i, d.row_keys()[p]),
        forall|i: int, p: int| 0 <= i < m && 0 <= p < d.row_keys().len()
            && #[trigger] d.row_emitted(i, d.row_keys()[p])
            ==> d.rows_upto(m).contains(d.row_at(i, d.row_keys()[p])),
    decreases m,
{
    if m > 0 {
        let n = d.row_keys().len() as int;
        lemma_rows_members(d, m - 1);
        lemma_slot_rows_members(d, m - 1, n);
        let a = d.rows_upto(m - 1);
        let b = d.slot_rows(m - 1, n);
        let s = d.rows_upto(m);
        assert forall|t: int| 0 <= t < s.len() implies exists|i: int, p: int| 0 <= i < m
            && 0 <= p < n
            && #[trigger] s[t] == d.row_at(i, d.row_keys()[p])
            && d.row_emitted(i, d.row_keys()[p]) by {
            if t < a.len() {
                assert(s[t] == a[t]);
                let (i, p) = choose|i: int, p: int| 0 <= i < m - 1 && 0 <= p < n
                    && #[trigger] a[t] == d.row_at(i, d.row_keys()[p])
                    && d.row_emitted(i, d.row_keys()[p]);
            } else {
                assert(s[t] == b[t - a.len()]);
                let p = choose|p: int| 0 <= p < n
                    && #[trigger] b[t - a.len()] == d.row_at(m - 1, d.row_keys()[p])
                    && d.row_emitted(m - 1, d.row_keys()[p]);
            }
        }
        assert forall|i: int, p: int| 0 <= i < m && 0 <= p < n
            && #[trigger] d.row_emitted(i, d.row_keys()[p])
            implies s.contains(d.row_at(i, d.row_keys()[p])) by {
            if i < m - 1 {
                let q = choose|q: int| 0 <= q < a.len() && a[q] == d.row_at(i, d.row_keys()[p]);
                assert(s[q] == a[q]);
            } else {
                let q = choose|q: int| 0 <= q < b.len() && b[q] == d.row_at(i, d.row_keys()[p]);
                assert(s[a.len() + q] == b[q]);
            }
        }
    }
}

/// The value a row written from `d` gives for field `f`: that store's value.
proof fn lemma_row_at_field(d: PartialDiffData, i: int, k: PartialCaseKey, f: int)
    requires
        0 <= f < 8,
    ensures
        field_of(d.row_at(i, k), f) == PartialDiffData::at(d.store(f), k, i),
        PartialDiffData::at(d.store(f), k, i) == (if d.store(f).contents().contains_key(k) {
            d.store(f).contents()[k][i]
        } else {
            0
        }),
{
}

/// A key the rows are written for, in stores loaded from `rows`, is the key
/// of some row.
proof fn lemma_row_key_loaded(s1: PartialDiffData, rows: Seq<DiffRecord>, k: PartialCaseKey)
    requires
        s1.wf(),
        forall|t: int| 0 <= t < rows.len()
            ==> 0 <= #[trigger] row_slot(rows[t], s1.cases_by_pub.start_day()) < s1.cases_by_pub.slots(),
        forall|f: int| 0 <= f < 8 ==> (#[trigger] s1.store(f)).contents()
            == loaded(Map::empty(), s1.cases_by_pub.slots(), s1.cases_by_pub.start_day(), rows, f),
        s1.row_keys().contains(k),
    ensures
        exists|t: int| 0 <= t < rows.len() && record_key(rows[t]) == k,
        forall|f: int| 0 <= f < 8 ==> (#[trigger] s1.store(f)).contents().contains_key(k),
{
    let slots = s1.cases_by_pub.slots();
    let start = s1.cases_by_pub.start_day();
    s1.lemma_row_keys();
    s1.cases_by_pub.lemma_contents_agree();
    s1.deaths_by_pub.lemma_contents_agree();
    s1.recovered_by_pub.lemma_contents_agree();
    s1.cases_by_rep_d7.lemma_contents_agree();
    s1.cases_retracted.lemma_contents_agree();
    lemma_loaded_empty(slots, start, rows, 0);
    lemma_loaded_empty(slots, start, rows, 1);
    lemma_loaded_empty(slots, start, rows, 2);
    lemma_loaded_empty(slots, start, rows, 6);
    lemma_loaded_empty(slots, start, rows, 7);
    assert(s1.store(0) == s1.cases_by_pub);
    assert(s1.store(1) == s1.deaths_by_pub);
    assert(s1.store(2) == s1.recovered_by_pub);
    assert(s1.store(6) == s1.cases_by_rep_d7);
    assert(s1.store(7) == s1.cases_retracted);
    if s1.cases_by_pub.has_key(k) {
        assert(s1.store(0).contents().contains_key(k));
    } else if s1.deaths_by_pub.has_key(k) {
        assert(s1.store(1).contents().contains_key(k));
    } else if s1.recovered_by_pub.has_key(k) {
        assert(s1.store(2).contents().contains_key(k));
    } else if s1.cases_by_rep_d7.has_key(k) {
        assert(s1.store(6).contents().contains_key(k));
    } else {
        assert(s1.store(7).contents().contains_key(k));
    }
    assert(exists|t: int| 0 <= t < rows.len() && record_key(rows[t]) == k);
    assert forall|f: int| 0 <= f < 8 implies (#[trigger] s1.store(f)).contents().contains_key(k) by {
        lemma_loaded_empty(slots, start, rows, f);
    }
}

/// Loading an artifact into empty stores, writing the stores back, and
/// loading the written rows into empty stores again gives the same
/// contents in every stored series, wherever each row of the artifact lies
/// in the calendar and carries a count that makes a row be written (a row
/// without one is dropped on writing).
pub proof fn lemma_load_write_load(s1: PartialDiffData, s2: PartialDiffData, rows: Seq<DiffRecord>)
    requires
        s1.wf(),
        s2.wf(),
        s2.cases_by_pub.start_day() == s1.cases_by_pub.start_day(),
        s2.cases_by_pub.slots() == s1.cases_by_pub.slots(),
        forall|t: int| 0 <= t < rows.len()
            ==> 0 <= #[trigger] row_slot(rows[t], s1.cases_by_pub.start_day()) < s1.cases_by_pub.slots(),
        forall|t: int| 0 <= t < rows.len() ==> #[trigger] row_counts(rows[t]),
        forall|f: int| 0 <= f < 8 ==> (#[trigger] s1.store(f)).contents()
            == loaded(Map::empty(), s1.cases_by_pub.slots(), s1.cases_by_pub.start_day(), rows, f),
        forall|f: int| 0 <= f < 8 ==> (#[trigger] s2.store(f)).contents()
            == loaded(Map::empty(), s1.cases_by_pub.slots(), s1.cases_by_pub.start_day(), s1.all_rows(), f),
    ensures
        forall|f: int| 0 <= f < 8 ==> (#[trigger] s2.store(f)).contents() == s1.store(f).contents(),
{
    let start = s1.cases_by_pub.start_day();
    let slots = s1.cases_by_pub.slots();
    let keys = s1.row_keys();
    let wr = s1.all_rows();
    lemma_rows_members(s1, slots as int);
    assert forall|t: int| 0 <= t < wr.len() implies 0 <= #[trigger] row_slot(wr[t], start) < slots by {
        let (i, p) = choose|i: int, p: int| 0 <= i < slots && 0 <= p < keys.len()
            && #[trigger] wr[t] == s1.row_at(i, keys[p]) && s1.row_emitted(i, keys[p]);
    }
    assert forall|f: int| 0 <= f < 8 implies (#[trigger] s2.store(f)).contents() == s1.store(f).contents() by {
        lemma_loaded_empty(slots, start, rows, f);
        lemma_loaded_empty(slots, start, wr, f);
        let m1 = s1.store(f).contents();
        let m2 = s2.store(f).contents();
        // a key of the first load has a slot whose row is written
        assert forall|k: PartialCaseKey| m1.contains_key(k) implies #[trigger] m2.contains_key(k) by {
            let t = choose|t: int| 0 <= t < rows.len() && record_key(rows[t]) == k;
            let i = row_slot(rows[t], start);
            lemma_last_at(rows, start, k, i);
            let t2 = last_at(rows, start, k, i).unwrap();
            assert(row_counts(rows[t2]));
            lemma_loaded_empty(slots, start, rows, 0);
            assert(s1.store(0).contents().contains_key(k));
            assert(s1.cases_by_pub.has_key(k));
            s1.lemma_row_keys();
            assert(keys.contains(k));
            let p = choose|p: int| 0 <= p < keys.len() && keys[p] == k;
            assert forall|g: int| 0 <= g < 8 implies PartialDiffData::at(#[trigger] s1.store(g), k, i) == field_of(rows[t2], g) by {
                lemma_loaded_empty(slots, start, rows, g);
                lemma_row_at_field(s1, i, k, g);
            }
            assert(PartialDiffData::at(s1.store(0), k, i) == rows[t2].cases);
            assert(PartialDiffData::at(s1.store(1), k, i) == rows[t2].deaths);
            assert(PartialDiffData::at(s1.store(2), k, i) == rows[t2].recovered);
            assert(PartialDiffData::at(s1.store(6), k, i) == rows[t2].cases_rep_d7);
            assert(PartialDiffData::at(s1.store(7), k, i) == rows[t2].cases_retracted);
            assert(s1.row_emitted(i, keys[p]));
            let q = choose|q: int| 0 <= q < wr.len() && wr[q] == s1.row_at(i, keys[p]);
            assert(record_key(wr[q]) == k);
        }
        assert forall|k: PartialCaseKey| m2.contains_key(k) implies #[trigger] m1.contains_key(k) by {
            let t = choose|t: int| 0 <= t < wr.len() && record_key(wr[t]) == k;
            let (i, p) = choose|i: int, p: int| 0 <= i < slots && 0 <= p < keys.len()
                && #[trigger] wr[t] == s1.row_at(i, keys[p]) && s1.row_emitted(i, keys[p]);
            assert(keys[p] == k);
            lemma_row_key_loaded(s1, rows, k);
        }
        assert forall|k: PartialCaseKey| #[trigger] m2.contains_key(k) implies m2[k] == m1[k] by {
            assert(m1.contains_key(k));
            assert forall|i: int| 0 <= i < slots implies #[trigger] m2[k][i] == m1[k][i] by {
                lemma_last_at(rows, start, k, i);
                lemma_last_at(wr, start, k, i);
                if s1.row_emitted(i, k) {
                    assert(s1.cases_by_pub.has_key(k)) by {
                        lemma_loaded_empty(slots, start, rows, f);
                        lemma_loaded_empty(slots, start, rows, 0);
                        s1.cases_by_pub.lemma_contents_agree();
                        assert(s1.store(0).contents().contains_key(k));
                    }
                    s1.lemma_row_keys();
                    assert(keys.contains(k));
                    let p = choose|p: int| 0 <= p < keys.len() && keys[p] == k;
                    let q = choose|q: int| 0 <= q < wr.len() && wr[q] == s1.row_at(i, keys[p]);
                    assert(record_key(wr[q]) == k && row_slot(wr[q], start) == i);
                    let t = last_at(wr, start, k, i).unwrap();
                    let (i2, p2) = choose|i2: int, p2: int| 0 <= i2 < slots && 0 <= p2 < keys.len()
                        && #[trigger] wr[t] == s1.row_at(i2, keys[p2]) && s1.row_emitted(i2, keys[p2]);
                    assert(i2 == i);
                    assert(keys[p2] == k);
                    lemma_row_at_field(s1, i, k, f);
                } else {
                    if last_at(wr, start, k, i) is Some {
                        let t = last_at(wr, start, k, i).unwrap();
                        let (i2, p2) = choose|i2: int, p2: int| 0 <= i2 < slots && 0 <= p2 < keys.len()
                            && #[trigger] wr[t] == s1.row_at(i2, keys[p2]) && s1.row_emitted(i2, keys[p2]);
                        assert(i2 == i);
                        assert(keys[p2] == k);
                    }
                    if last_at(rows, start, k, i) is Some {
                        let t2 = last_at(rows, start, k, i).unwrap();
                        assert(row_counts(rows[t2]));
                        assert forall|g: int| 0 <= g < 8 implies PartialDiffData::at(#[trigger] s1.store(g), k, i) == field_of(rows[t2], g) by {
                            lemma_loaded_empty(slots, start, rows, g);
                            lemma_row_at_field(s1, i, k, g);
                        }
                        assert(PartialDiffData::at(s1.store(0), k, i) == rows[t2].cases);
                        assert(PartialDiffData::at(s1.store(1), k, i) == rows[t2].deaths);
                        assert(PartialDiffData::at(s1.store(2), k, i) == rows[t2].recovered);
                        assert(PartialDiffData::at(s1.store(6), k, i) == rows[t2].cases_rep_d7);
                        assert(PartialDiffData::at(s1.store(7), k, i) == rows[t2].cases_retracted);
                    }
                }
            }
            assert(m2[k] =~= m1[k]);
        }
        assert(m2 =~= m1);
    }
}

proof fn lemma_row_at_is_row(s1: PartialDiffData, rows: Seq<DiffRecord>, k: PartialCaseKey, i: int)
    requires
        s1.wf(),
        0 <= i < s1.cases_by_pub.slots(),
        forall|f: int| 0 <= f < 8 ==> (#[trigger] s1.store(f)).contents()
            == loaded(Map::empty(), s1.cases_by_pub.slots(), s1.cases_by_pub.start_day(), rows, f),
        forall|t: int| 0 <= t < rows.len()
            ==> 0 <= #[trigger] row_slot(rows[t], s1.cases_by_pub.start_day()) < s1.cases_by_pub.slots(),
        last_at(rows, s1.cases_by_pub.start_day(), k, i) is Some,
    ensures
        s1.row_at(i, k) == rows[last_at(rows, s1.cases_by_pub.start_day(), k, i).unwrap()],
        row_counts(rows[last_at(rows, s1.cases_by_pub.start_day(), k, i).unwrap()]) ==> s1.row_emitted(i, k),
{
    let start = s1.cases_by_pub.start_day();
    let slots = s1.cases_by_pub.slots();
    lemma_last_at(rows, start, k, i);
    let t = last_at(rows, start, k, i).unwrap();
    assert forall|g: int| 0 <= g < 8 implies PartialDiffData::at(#[trigger] s1.store(g), k, i) == field_of(rows[t], g) by {
        lemma_loaded_empty(slots, start, rows, g);
        lemma_row_at_field(s1, i, k, g);
    }
    assert(PartialDiffData::at(s1.store(0), k, i) == rows[t].cases);
    assert(PartialDiffData::at(s1.store(1), k, i) == rows[t].deaths);
    assert(PartialDiffData::at(s1.store(2), k, i) == rows[t].recovered);
    assert(PartialDiffData::at(s1.store(3), k, i) == rows[t].delay_total);
    assert(PartialDiffData::at(s1.store(4), k, i) == rows[t].cases_delayed);
    assert(PartialDiffData::at(s1.store(5), k, i) == rows[t].late_cases);
    assert(PartialDiffData::at(s1.store(6), k, i) == rows[t].cases_rep_d7);
    assert(PartialDiffData::at(s1.store(7), k, i) == rows[t].cases_retracted);
    assert(s1.row_at(i, k).date == rows[t].date);
}

/// Loading an artifact into empty stores and writing the stores back, with
/// no snapshot merged in between, gives back the same rows (in slot order),
/// wherever each row lies in the calendar, carries a count that makes a
/// row be written, and no two rows share a day and key.
pub proof fn lemma_load_write_same_rows(s1: PartialDiffData, rows: Seq<DiffRecord>)
    requires
        s1.wf(),
        forall|t: int| 0 <= t < rows.len()
            ==> 0 <= #[trigger] row_slot(rows[t], s1.cases_by_pub.start_day()) < s1.cases_by_pub.slots(),
        forall|t: int| 0 <= t < rows.len() ==> #[trigger] row_counts(rows[t]),
        forall|t1: int, t2: int| 0 <= t1 < rows.len() && 0 <= t2 < rows.len() && t1 != t2
            ==> (#[trigger] rows[t1]).date != (#[trigger] rows[t2]).date || record_key(rows[t1]) != record_key(rows[t2]),
        forall|f: int| 0 <= f < 8 ==> (#[trigger] s1.store(f)).contents()
            == loaded(Map::empty(), s1.cases_by_pub.slots(), s1.cases_by_pub.start_day(), rows, f),
    ensures
        forall|r: DiffRecord| #[trigger] s1.all_rows().contains(r) <==> rows.contains(r),
{
    let start = s1.cases_by_pub.start_day();
    let slots = s1.cases_by_pub.slots();
    let keys = s1.row_keys();
    let wr = s1.all_rows();
    lemma_rows_members(s1, slots as int);
    lemma_loaded_empty(slots, start, rows, 0);
    assert forall|r: DiffRecord| #[trigger] wr.contains(r) implies rows.contains(r) by {
        let q = choose|q: int| 0 <= q < wr.len() && wr[q] == r;
        let (i, p) = choose|i: int, p: int| 0 <= i < slots && 0 <= p < keys.len()
            && #[trigger] wr[q] == s1.row_at(i, keys[p]) && s1.row_emitted(i, keys[p]);
        let k = keys[p];
        lemma_last_at(rows, start, k, i);
        if last_at(rows, start, k, i) is None {
            assert forall|g: int| 0 <= g < 8 implies PartialDiffData::at(#[trigger] s1.store(g), k, i) == 0 by {
                lemma_loaded_empty(slots, start, rows, g);
                lemma_row_at_field(s1, i, k, g);
            }
            assert(PartialDiffData::at(s1.store(0), k, i) == 0);
            assert(PartialDiffData::at(s1.store(1), k, i) == 0);
            assert(PartialDiffData::at(s1.store(2), k, i) == 0);
            assert(PartialDiffData::at(s1.store(6), k, i) == 0);
            assert(PartialDiffData::at(s1.store(7), k, i) == 0);
        }
        lemma_row_at_is_row(s1, rows, k, i);
        let t = last_at(rows, start, k, i).unwrap();
        assert(rows[t] == r);
    }
    assert forall|r: DiffRecord| rows.contains(r) implies #[trigger] wr.contains(r) by {
        let t = choose|t: int| 0 <= t < rows.len() && rows[t] == r;
        let k = record_key(r);
        let i = row_slot(r, start);
        lemma_last_at(rows, start, k, i);
        let t2 = last_at(rows, start, k, i).unwrap();
        assert(t2 == t) by {
            if t2 != t {
                assert(rows[t2].date.ce_days == rows[t].date.ce_days);
                assert(rows[t2].date == rows[t].date);
            }
        }
        lemma_row_at_is_row(s1, rows, k, i);
        assert(s1.store(0).contents().contains_key(k));
        assert(s1.cases_by_pub.has_key(k));
        s1.lemma_row_keys();
        assert(keys.contains(k));
        let p = choose|p: int| 0 <= p < keys.len() && keys[p] == k;
    }
}

} // verus!
