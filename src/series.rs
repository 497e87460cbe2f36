//! The dense keyed series store: one vector of daily `u64` slots per key,
//! all over one calendar.

use vstd::prelude::*;

use crate::calendar::Date;

verus! {

/// A key of a series store: a small value that can be told apart from
/// another of its type.
pub trait TimeSeriesKey: Copy {
    fn same_key(&self, other: &Self) -> (r: bool)
        ensures
            r == (*self == *other),
    ;
}

impl TimeSeriesKey for u32 {
    fn same_key(&self, other: &u32) -> (r: bool) {
        *self == *other
    }
}

impl TimeSeriesKey for u64 {
    fn same_key(&self, other: &u64) -> (r: bool) {
        *self == *other
    }
}

/// A dense store of daily counters over the half-open day range
/// `[start, start + len)`, one vector of `len` slots per key.
#[derive(Clone, Debug)]
pub struct TimeSeries<K> {
    start: Date,
    len: usize,
    keys: Vec<K>,
    rows: Vec<Vec<u64>>,
}

/// A series that falls where `diff` needs it to rise.
#[derive(Clone, Copy, Debug)]
pub struct FallError<K> {
    pub key: K,
    pub slot: usize,
    pub value: u64,
}

/// The store type of all counters.
pub type Counters<K> = TimeSeries<K>;

/// A sequence of `n` zeros.
pub open spec fn zeros(n: nat) -> Seq<u64> {
    Seq::new(n, |i: int| 0u64)
}


/// The sum of the first `n` values of `s`.
pub open spec fn prefix_sum(s: Seq<u64>, n: int) -> int
    decreases n,
{
    if n <= 0 {
        0
    } else {
        prefix_sum(s, n - 1) + s[n - 1]
    }
}

/// The sum of `s` over the slots `lo .. hi`.
pub open spec fn range_sum(s: Seq<u64>, lo: int, hi: int) -> int {
    prefix_sum(s, hi) - prefix_sum(s, lo)
}

/// The running total of `s`: slot `i` holds the sum of slots `0 ..= i`.
pub open spec fn cumulated(s: Seq<u64>) -> Seq<int> {
    Seq::new(s.len(), |i: int| prefix_sum(s, i + 1))
}

/// The sum of the first `n` values of an integer sequence.
pub open spec fn int_sum(s: Seq<int>, n: int) -> int
    decreases n,
{
    if n <= 0 {
        0
    } else {
        int_sum(s, n - 1) + s[n - 1]
    }
}

/// The running total of an integer sequence.
pub open spec fn cumulated_ints(s: Seq<int>) -> Seq<int> {
    Seq::new(s.len(), |i: int| int_sum(s, i + 1))
}

pub proof fn lemma_prefix_sum_ints(s: Seq<u64>, n: int)
    requires
        0 <= n <= s.len(),
    ensures
        prefix_sum(s, n) == int_sum(ints(s), n),
    decreases n,
{
    if n > 0 {
        lemma_prefix_sum_ints(s, n - 1);
    }
}

pub proof fn lemma_cumulated_ints(s: Seq<u64>)
    ensures
        cumulated(s) == cumulated_ints(ints(s)),
{
    assert forall|i: int| 0 <= i < s.len() implies #[trigger] cumulated(s)[i] == cumulated_ints(ints(s))[i] by {
        lemma_prefix_sum_ints(s, i + 1);
    }
    assert(cumulated(s) =~= cumulated_ints(ints(s)));
}

/// The `w`-slot difference of `s`: `s[i] - s[i - w]` from slot `w` on,
/// zero before.
pub open spec fn window_diff(s: Seq<u64>, w: int) -> Seq<int> {
    Seq::new(s.len(), |i: int| if i < w { 0 } else { s[i] - s[i - w] })
}

/// Whether `s` never falls over a distance of `w` slots.
pub open spec fn rises_over(s: Seq<u64>, w: int) -> bool {
    forall|i: int| w <= i < s.len() ==> #[trigger] s[i - w] <= s[i]
}

/// `s` moved `w` slots later, with zeros in front.
pub open spec fn shifted(s: Seq<u64>, w: int) -> Seq<u64> {
    Seq::new(s.len(), |i: int| if i < w { 0u64 } else { s[i - w] })
}

/// The values of `s` as integers.
pub open spec fn ints(s: Seq<u64>) -> Seq<int> {
    s.map_values(|v: u64| v as int)
}

/// The state of the unrolling of trailing `w`-slot sums `s` after its
/// first `n` slots: the daily values found so far and the negative carry.
/// Slot `i` takes `s[i] - s[i-1] + d[i-w]` (missing terms are zero), less
/// the carry; what would fall below zero is carried on instead.
pub open spec fn unroll_state(s: Seq<u64>, w: int, n: int) -> (Seq<int>, int)
    decreases n,
{
    if n <= 0 {
        (Seq::empty(), 0)
    } else {
        let prev = unroll_state(s, w, n - 1);
        let d = prev.0;
        let carry = prev.1;
        let i = n - 1;
        let vl: int = if i < w { 0 } else { d[i - w] };
        let vp: int = if i > 0 { s[i - 1] as int } else { 0 };
        let step = s[i] - vp + vl;
        if carry >= step {
            (d.push(0), carry - step)
        } else {
            (d.push(step - carry), 0)
        }
    }
}

/// The daily values that the unrolling of `s` gives.
pub open spec fn unrolled_seq(s: Seq<u64>, w: int) -> Seq<int> {
    unroll_state(s, w, s.len() as int).0
}

pub proof fn lemma_prefix_sum_mono(s: Seq<u64>, a: int, b: int)
    requires
        0 <= a <= b <= s.len(),
    ensures
        0 <= prefix_sum(s, a) <= prefix_sum(s, b),
    decreases b - a,
{
    if a < b {
        lemma_prefix_sum_mono(s, a, b - 1);
    } else {
        lemma_prefix_sum_nonneg(s, a);
    }
}

pub proof fn lemma_prefix_sum_nonneg(s: Seq<u64>, a: int)
    requires
        0 <= a <= s.len(),
    ensures
        0 <= prefix_sum(s, a),
    decreases a,
{
    if a > 0 {
        lemma_prefix_sum_nonneg(s, a - 1);
    }
}

pub proof fn lemma_unroll_state_len(s: Seq<u64>, w: int, n: int)
    requires
        0 <= n,
    ensures
        unroll_state(s, w, n).0.len() == n,
        unroll_state(s, w, n).1 >= 0,
        forall|t: int| 0 <= t < n ==> #[trigger] unroll_state(s, w, n).0[t] >= 0,
    decreases n,
{
    if n > 0 {
        lemma_unroll_state_len(s, w, n - 1);
    }
}

pub proof fn lemma_unroll_state_prefix(s: Seq<u64>, w: int, n: int, m: int)
    requires
        0 <= n <= m,
    ensures
        unroll_state(s, w, n).0 == unroll_state(s, w, m).0.subrange(0, n),
    decreases m - n,
{
    lemma_unroll_state_len(s, w, m);
    if n == m {
        assert(unroll_state(s, w, m).0 =~= unroll_state(s, w, m).0.subrange(0, n));
    } else {
        lemma_unroll_state_prefix(s, w, n, m - 1);
        lemma_unroll_state_len(s, w, m - 1);
        assert(unroll_state(s, w, m - 1).0 =~= unroll_state(s, w, m).0.subrange(0, m - 1));
        assert(unroll_state(s, w, n).0 =~= unroll_state(s, w, m).0.subrange(0, n));
    }
}

/// The running total of a series.
pub fn cumsum_row(row: &Vec<u64>) -> (r: Vec<u64>)
    requires
        prefix_sum(row@, row@.len() as int) <= u64::MAX,
    ensures
        ints(r@) == cumulated(row@),
{
    let mut out: Vec<u64> = Vec::new();
    let mut accum: u64 = 0;
    let mut i: usize = 0;
    while i < row.len()
        invariant
            i <= row@.len(),
            prefix_sum(row@, row@.len() as int) <= u64::MAX,
            accum == prefix_sum(row@, i as int),
            out@.len() == i,
            forall|t: int| 0 <= t < i ==> #[trigger] out@[t] == prefix_sum(row@, t + 1),
        decreases row@.len() - i,
    {
        proof {
            lemma_prefix_sum_mono(row@, i + 1, row@.len() as int);
        }
        accum = accum + row[i];
        out.push(accum);
        i = i + 1;
    }
    assert(ints(out@) =~= cumulated(row@));
    out
}

/// The `w`-slot difference of a series that never falls over `w` slots.
pub fn diff_row(row: &Vec<u64>, w: usize) -> (r: Vec<u64>)
    requires
        rises_over(row@, w as int),
    ensures
        ints(r@) == window_diff(row@, w as int),
{
    let mut out: Vec<u64> = Vec::new();
    let mut i: usize = 0;
    while i < row.len()
        invariant
            i <= row@.len(),
            rises_over(row@, w as int),
            out@.len() == i,
            forall|t: int| 0 <= t < i ==> #[trigger] out@[t] as int == window_diff(row@, w as int)[t],
        decreases row@.len() - i,
    {
        if i < w {
            out.push(0);
        } else {
            assert(row@[i - w] <= row@[i as int]);
            out.push(row[i] - row[i - w]);
        }
        i = i + 1;
    }
    assert(ints(out@) =~= window_diff(row@, w as int));
    out
}

/// Whether a series never falls over `w` slots; where it does, the first
/// slot at which it falls.
pub fn first_fall(row: &Vec<u64>, w: usize) -> (r: Option<usize>)
    ensures
        r.is_none() == rises_over(row@, w as int),
        r.is_some() ==> w <= r.unwrap() < row@.len() && row@[r.unwrap() - w] > row@[r.unwrap() as int],
        r.is_some() ==> forall|t: int| w <= t < r.unwrap() ==> row@[t - w] <= #[trigger] row@[t],
{
    let mut i: usize = w;
    if i >= row.len() {
        return None;
    }
    while i < row.len()
        invariant
            w <= i <= row@.len(),
            forall|t: int| w <= t < i ==> #[trigger] row@[t - w] <= row@[t],
        decreases row@.len() - i,
    {
        if row[i] < row[i - w] {
            return Some(i);
        }
        i = i + 1;
    }
    None
}

/// A series moved `w` slots later, with zeros in front.
pub fn shift_row(row: &Vec<u64>, w: usize) -> (r: Vec<u64>)
    ensures
        r@ == shifted(row@, w as int),
{
    let mut out: Vec<u64> = Vec::new();
    let mut i: usize = 0;
    while i < row.len()
        invariant
            i <= row@.len(),
            out@.len() == i,
            forall|t: int| 0 <= t < i ==> #[trigger] out@[t] == shifted(row@, w as int)[t],
        decreases row@.len() - i,
    {
        if i < w {
            out.push(0);
        } else {
            out.push(row[i - w]);
        }
        i = i + 1;
    }
    assert(out@ =~= shifted(row@, w as int));
    out
}

/// The daily values behind trailing `w`-slot sums, by the unrolling of
/// `unroll_state`.
pub fn unroll_row(row: &Vec<u64>, w: usize) -> (r: Option<Vec<u64>>)
    requires
        w > 0,
        row@.len() <= u32::MAX,
    ensures
        r.is_some() == unroll_fits(row@, w as int),
        r.is_some() ==> ints(r.unwrap()@) == unrolled_seq(row@, w as int),
{
    let ghost s = row@;
    let ghost n = row@.len() as int;
    let mut out: Vec<u64> = Vec::new();
    let mut carry: i128 = 0;
    let mut i: usize = 0;
    proof {
        lemma_unroll_state_len(s, w as int, n);
    }
    while i < row.len()
        invariant
            s == row@,
            w > 0,
            n == s.len(),
            n <= u32::MAX,
            i <= n,
            forall|t: int| 0 <= t < i ==> #[trigger] unrolled_seq(s, w as int)[t] <= u64::MAX,
            ints(out@) == unroll_state(s, w as int, i as int).0,
            carry == unroll_state(s, w as int, i as int).1,
            0 <= carry <= i * 0x4_0000_0000_0000_0000,
        decreases n - i,
    {
        proof {
            lemma_unroll_state_len(s, w as int, i as int);
            lemma_unroll_state_len(s, w as int, i + 1);
            lemma_unroll_state_prefix(s, w as int, i + 1, n);
            lemma_unroll_state_len(s, w as int, n);
            assert(unroll_state(s, w as int, i as int).0.len() == i);
            assert(out@.len() == i);
        }
        let vl: i128 = if i < w {
            0
        } else {
            proof {
                assert(ints(out@)[i - w] == out@[i - w] as int);
            }
            out[i - w] as i128
        };
        let vp: i128 = if i > 0 { row[i - 1] as i128 } else { 0 };
        let step: i128 = row[i] as i128 - vp + vl;
        let ghost d_next = unroll_state(s, w as int, i + 1).0;
        proof {
            assert(d_next[i as int] == unrolled_seq(s, w as int)[i as int]);
        }
        if carry >= step {
            carry = carry - step;
            out.push(0);
        } else {
            let v: i128 = step - carry;
            carry = 0;
            proof {
                assert(d_next[i as int] == v);
            }
            if v > u64::MAX as i128 {
                return None;
            }
            out.push(v as u64);
        }
        proof {
            assert(ints(out@) =~= unroll_state(s, w as int, i + 1).0);
        }
        i = i + 1;
    }
    Some(out)
}

/// Whether every daily value of the unrolling of `s` fits in a `u64`.
pub open spec fn unroll_fits(s: Seq<u64>, w: int) -> bool {
    forall|t: int| 0 <= t < s.len() ==> #[trigger] unrolled_seq(s, w) [t] <= u64::MAX
}


/// The position of the last non-zero slot among the first `n`, if any.
pub open spec fn last_nonzero(s: Seq<u64>, n: int) -> Option<int>
    decreases n,
{
    if n <= 0 {
        None
    } else if s[n - 1] != 0 {
        Some(n - 1)
    } else {
        last_nonzero(s, n - 1)
    }
}

/// `s` with the slots after its last non-zero slot set to that slot's
/// value (unchanged where all slots are zero).
pub open spec fn right_filled(s: Seq<u64>) -> Seq<u64> {
    match last_nonzero(s, s.len() as int) {
        Some(j) => Seq::new(s.len(), |i: int| if i > j { s[j] } else { s[i] }),
        None => s,
    }
}

proof fn lemma_last_nonzero(s: Seq<u64>, n: int)
    requires
        0 <= n <= s.len(),
    ensures
        last_nonzero(s, n) is Some ==> 0 <= last_nonzero(s, n).unwrap() < n && s[last_nonzero(s, n).unwrap()] != 0,
        last_nonzero(s, n) is Some ==> forall|t: int| last_nonzero(s, n).unwrap() < t < n ==> #[trigger] s[t] == 0,
        last_nonzero(s, n) is None ==> forall|t: int| 0 <= t < n ==> #[trigger] s[t] == 0,
    decreases n,
{
    if n > 0 {
        lemma_last_nonzero(s, n - 1);
    }
}

/// A series extended to the right with its last non-zero value.
pub fn rfill_row(row: &Vec<u64>) -> (r: Vec<u64>)
    ensures
        r@ == right_filled(row@),
{
    let mut j: usize = row.len();
    while j > 0
        invariant
            j <= row@.len(),
            forall|t: int| j <= t < row@.len() ==> #[trigger] row@[t] == 0,
            last_nonzero(row@, row@.len() as int) == last_nonzero(row@, j as int),
        ensures
            j == 0 || row@[j - 1] != 0,
            j <= row@.len(),
            last_nonzero(row@, row@.len() as int) == last_nonzero(row@, j as int),
        decreases j,
    {
        if row[j - 1] != 0 {
            break;
        }
        j = j - 1;
    }
    proof {
        lemma_last_nonzero(row@, row@.len() as int);
    }
    if j == 0 {
        let mut out: Vec<u64> = Vec::new();
        let mut i: usize = 0;
        while i < row.len()
            invariant
                i <= row@.len(),
                out@ == row@.subrange(0, i as int),
            decreases row@.len() - i,
        {
            out.push(row[i]);
            i = i + 1;
            assert(out@ =~= row@.subrange(0, i as int));
        }
        assert(out@ =~= row@);
        return out;
    }
    let fill = row[j - 1];
    let mut out: Vec<u64> = Vec::new();
    let mut i: usize = 0;
    while i < row.len()
        invariant
            0 < j <= row@.len(),
            fill == row@[j - 1],
            i <= row@.len(),
            out@.len() == i,
            forall|t: int| 0 <= t < i ==> #[trigger] out@[t] == (if t > j - 1 { fill } else { row@[t] }),
        decreases row@.len() - i,
    {
        if i >= j {
            out.push(fill);
        } else {
            out.push(row[i]);
        }
        i = i + 1;
    }
    proof {
        assert(row@[j - 1] != 0);
        assert(last_nonzero(row@, j as int) == Some(j - 1));
        assert(out@ =~= right_filled(row@));
    }
    out
}

/// The sum of slot `i` over the first `n` series whose key maps to `u`.
pub open spec fn fan_in_sum<U>(rows: Seq<Seq<u64>>, images: Seq<Option<U>>, u: U, i: int, n: int) -> int
    decreases n,
{
    if n <= 0 {
        0
    } else {
        fan_in_sum(rows, images, u, i, n - 1) + if images[n - 1] == Some(u) {
            rows[n - 1][i] as int
        } else {
            0
        }
    }
}

pub proof fn lemma_fan_in_absent<U>(rows: Seq<Seq<u64>>, images: Seq<Option<U>>, u: U, i: int, n: int)
    requires
        0 <= n <= images.len(),
        forall|t: int| 0 <= t < n ==> #[trigger] images[t] != Some(u),
    ensures
        fan_in_sum(rows, images, u, i, n) == 0,
    decreases n,
{
    if n > 0 {
        lemma_fan_in_absent(rows, images, u, i, n - 1);
    }
}

pub proof fn lemma_fan_in_extend<U>(rows: Seq<Seq<u64>>, images: Seq<Option<U>>, im2: Seq<Option<U>>, u: U, i: int, n: int)
    requires
        0 <= n <= images.len(),
        n <= im2.len(),
        forall|t: int| 0 <= t < n ==> #[trigger] images[t] == im2[t],
    ensures
        fan_in_sum(rows, images, u, i, n) == fan_in_sum(rows, im2, u, i, n),
    decreases n,
{
    if n > 0 {
        lemma_fan_in_extend(rows, images, im2, u, i, n - 1);
    }
}

/// Whether every slot-wise fan-in sum that rekeying through `f` can form
/// fits in `u64`: for every run of images that `f` gives for the first
/// keys, the sum over the keys mapped to each image.
pub open spec fn fan_in_fits<K: TimeSeriesKey, U, F: Fn(&K) -> Option<U>>(s: TimeSeries<K>, f: F) -> bool {
    forall|images: Seq<Option<U>>, u: U, i: int|
        images.len() <= s.key_seq().len()
        && (forall|j: int| 0 <= j < images.len() ==> #[trigger] f.ensures((&s.key_seq()[j],), images[j]))
        && 0 <= i < s.slots()
        ==> #[trigger] fan_in_sum(s.row_seq(), images, u, i, images.len() as int) <= u64::MAX
}

/// Whether the store `r` holds, for each key `u` that some image names, the
/// slot-wise sum of the series of `s` whose image is `Some(u)`, and no
/// other key.
pub open spec fn fanned_in<K: TimeSeriesKey, U: TimeSeriesKey>(r: TimeSeries<U>, s: TimeSeries<K>, images: Seq<Option<U>>) -> bool {
    &&& images.len() == s.key_seq().len()
    &&& forall|u: U| #[trigger] r.has_key(u) <==> exists|j: int| 0 <= j < images.len() && images[j] == Some(u)
    &&& forall|u: U, i: int| r.has_key(u) && 0 <= i < r.slots()
        ==> #[trigger] r.series(u)[i] == fan_in_sum(s.row_seq(), images, u, i, images.len() as int)
}

impl<K: TimeSeriesKey> TimeSeries<K> {
    /// The first day of the calendar.
    pub closed spec fn start_day(&self) -> Date {
        self.start
    }

    /// The number of day slots of every key.
    pub closed spec fn slots(&self) -> nat {
        self.len as nat
    }

    /// The keys, in the order in which they were added.
    pub closed spec fn key_seq(&self) -> Seq<K> {
        self.keys@
    }

    /// The series of each key, in the order of `key_seq`.
    pub closed spec fn row_seq(&self) -> Seq<Seq<u64>> {
        self.rows@.map_values(|r: Vec<u64>| r@)
    }

    /// Every key has one series of `slots()` values, keys are unique, and
    /// every day of the calendar has a day number.
    pub closed spec fn wf(&self) -> bool {
        &&& self.keys@.len() == self.rows@.len()
        &&& forall|j: int| 0 <= j < self.rows@.len() ==> #[trigger] self.rows@[j]@.len() == self.len
        &&& self.keys@.no_duplicates()
        &&& self.start.ce_days + self.len <= i32::MAX
    }

    /// Whether the store holds a series for `k`.
    pub open spec fn has_key(&self, k: K) -> bool {
        self.key_seq().contains(k)
    }

    /// The position of `k` among the keys.
    pub open spec fn pos_of(&self, k: K) -> int {
        self.key_seq().index_of(k)
    }

    /// The series of `k` (meaningful where `has_key(k)`).
    pub open spec fn series(&self, k: K) -> Seq<u64> {
        self.row_seq()[self.pos_of(k)]
    }

    /// The store as a map from key to series.
    pub open spec fn contents(&self) -> Map<K, Seq<u64>> {
        Map::new(|k: K| self.has_key(k), |k: K| self.series(k))
    }

    pub proof fn lemma_wf_rows(&self)
        requires
            self.wf(),
        ensures
            self.key_seq().len() == self.row_seq().len(),
            forall|j: int| 0 <= j < self.row_seq().len() ==> #[trigger] self.row_seq()[j].len() == self.slots(),
            self.key_seq().no_duplicates(),
            self.start_day().ce_days + self.slots() <= i32::MAX,
    {
    }

    /// A store with no keys over the days `[start, last)`.
    pub fn new(start: Date, last: Date) -> (r: Self)
        requires
            start.ce_days <= last.ce_days,
            last.ce_days < i32::MAX,
        ensures
            r.wf(),
            r.start_day() == start,
            r.slots() == last.ce_days - start.ce_days,
            r.key_seq().len() == 0,
    {
        let len = (last.ce_days as i64 - start.ce_days as i64) as usize;
        TimeSeries { start, len, keys: Vec::new(), rows: Vec::new() }
    }

    /// The slot of day `d`: its distance from the first day, where that is
    /// a slot.
    pub open spec fn slot_of(&self, d: Date) -> Option<int> {
        let i = d.ce_days - self.start_day().ce_days;
        if 0 <= i < self.slots() {
            Some(i)
        } else {
            None
        }
    }

    /// The day of slot `i`, where `i` is a slot.
    pub open spec fn day_of(&self, i: int) -> Option<Date> {
        if 0 <= i < self.slots() {
            Some(Date { ce_days: (self.start_day().ce_days + i) as i32 })
        } else {
            None
        }
    }

    /// The slot of `d`, or `None` where `d` is outside the calendar.
    pub fn date_index(&self, d: Date) -> (r: Option<usize>)
        ensures
            r.is_some() == self.slot_of(d).is_some(),
            r.is_some() ==> r.unwrap() == self.slot_of(d).unwrap(),
    {
        let days: i64 = d.ce_days as i64 - self.start.ce_days as i64;
        if days < 0 || days as u64 >= self.len as u64 {
            None
        } else {
            Some(days as usize)
        }
    }

    /// The day of slot `i`, or `None` where `i` is not a slot.
    pub fn index_date(&self, i: i64) -> (r: Option<Date>)
        requires
            self.wf(),
        ensures
            r == self.day_of(i as int),
    {
        if i < 0 || i as u64 >= self.len as u64 {
            None
        } else {
            Some(Date { ce_days: (self.start.ce_days as i64 + i) as i32 })
        }
    }

    /// Slots and days of the calendar correspond one to one: the slot of the
    /// day of slot `i` is `i`, the day of the slot of an in-range day is that
    /// day, and outside the range there is neither.
    pub proof fn lemma_calendar_bijection(&self)
        requires
            self.wf(),
        ensures
            forall|i: int| 0 <= i < self.slots() ==> #[trigger] self.day_of(i).is_some()
                && self.slot_of(self.day_of(i).unwrap()) == Some(i),
            forall|d: Date| #[trigger] self.slot_of(d).is_some() ==> self.day_of(self.slot_of(d).unwrap()) == Some(d),
            forall|i: int| !(0 <= i < self.slots()) ==> #[trigger] self.day_of(i).is_none(),
            forall|d: Date| (d.ce_days < self.start_day().ce_days
                || d.ce_days >= self.start_day().ce_days + self.slots()) ==> #[trigger] self.slot_of(d).is_none(),
    {
    }

    pub fn start(&self) -> (r: Date)
        ensures
            r == self.start_day(),
    {
        self.start
    }

    pub fn len(&self) -> (r: usize)
        ensures
            r == self.slots(),
    {
        self.len
    }

    /// The keys, in the order in which they were added.
    pub fn keys(&self) -> (r: &Vec<K>)
        ensures
            r@ == self.key_seq(),
    {
        &self.keys
    }

    /// The position of `k` among the keys, if the store holds it.
    pub fn get_index(&self, k: &K) -> (r: Option<usize>)
        requires
            self.wf(),
        ensures
            r.is_some() == self.has_key(*k),
            r.is_some() ==> r.unwrap() == self.pos_of(*k) && r.unwrap() < self.key_seq().len()
                && self.key_seq()[r.unwrap() as int] == *k,
    {
        let mut j: usize = 0;
        while j < self.keys.len()
            invariant
                self.wf(),
                j <= self.keys@.len(),
                forall|t: int| 0 <= t < j ==> self.keys@[t] != *k,
            decreases self.keys@.len() - j,
        {
            if self.keys[j].same_key(k) {
                proof {
                    self.lemma_index_of_unique(j as int);
                }
                return Some(j);
            }
            j = j + 1;
        }
        None
    }

    pub proof fn lemma_index_of_unique(&self, j: int)
        requires
            self.wf(),
            0 <= j < self.key_seq().len(),
        ensures
            self.key_seq().index_of(self.key_seq()[j]) == j,
            self.has_key(self.key_seq()[j]),
    {
        let k = self.keys@[j];
        assert(self.keys@.contains(k));
        let t = self.keys@.index_of(k);
        assert(self.keys@[t] == k);
    }

    /// The series of `k`, if the store holds it.
    pub fn get(&self, k: &K) -> (r: Option<&Vec<u64>>)
        requires
            self.wf(),
        ensures
            r.is_some() == self.has_key(*k),
            r.is_some() ==> r.unwrap()@ == self.series(*k),
    {
        match self.get_index(k) {
            Some(j) => Some(&self.rows[j]),
            None => None,
        }
    }

    /// The value of `k` at slot `i`; `None` where `i` is not a slot or the
    /// store does not hold `k`.
    pub fn get_value(&self, k: &K, i: usize) -> (r: Option<u64>)
        requires
            self.wf(),
        ensures
            r.is_some() == (i < self.slots() && self.has_key(*k)),
            r.is_some() ==> r.unwrap() == self.series(*k)[i as int],
    {
        if i >= self.len {
            return None;
        }
        match self.get_index(k) {
            Some(j) => {
                proof { self.lemma_wf_rows(); }
                Some(self.rows[j][i])
            },
            None => None,
        }
    }

    /// The value of `k` at slot `i`, zero where the store does not hold `k`.
    pub fn value_or_zero(&self, k: &K, i: usize) -> (r: u64)
        requires
            self.wf(),
            i < self.slots(),
        ensures
            r == (if self.has_key(*k) { self.series(*k)[i as int] } else { 0 }),
    {
        match self.get_value(k, i) {
            Some(v) => v,
            None => 0,
        }
    }

    /// The position of `k`, adding `k` with a series of zeros if the store
    /// does not hold it yet.
    pub fn get_index_or_create(&mut self, k: K) -> (r: usize)
        requires
            old(self).wf(),
        ensures
            final(self).wf(),
            final(self).start_day() == old(self).start_day(),
            final(self).slots() == old(self).slots(),
            r < final(self).key_seq().len(),
            final(self).key_seq()[r as int] == k,
            final(self).pos_of(k) == r,
            old(self).has_key(k) ==> final(self).key_seq() == old(self).key_seq()
                && final(self).row_seq() == old(self).row_seq(),
            !old(self).has_key(k) ==> final(self).key_seq() == old(self).key_seq().push(k)
                && final(self).row_seq() == old(self).row_seq().push(zeros(old(self).slots())),
    {
        match self.get_index(&k) {
            Some(j) => j,
            None => {
                let j = self.keys.len();
                let row: Vec<u64> = vec![0u64; self.len];
                assert(row@ =~= zeros(self.len as nat));
                self.keys.push(k);
                self.rows.push(row);
                proof {
                    assert(self.row_seq() =~= old(self).row_seq().push(zeros(old(self).slots())));
                    assert(self.keys@.no_duplicates());
                    self.lemma_index_of_unique(j as int);
                }
                j
            },
        }
    }

    proof fn lemma_rows_len(&self, j: int)
        requires
            self.wf(),
            0 <= j < self.rows@.len(),
        ensures
            self.rows@[j]@.len() == self.len,
            self.row_seq()[j] == self.rows@[j]@,
    {
    }

    /// Replaces the series at position `j` by one of the same length.
    fn replace_row(&mut self, j: usize, row: Vec<u64>)
        requires
            old(self).wf(),
            j < old(self).key_seq().len(),
            row@.len() == old(self).slots(),
        ensures
            final(self).wf(),
            final(self).start_day() == old(self).start_day(),
            final(self).slots() == old(self).slots(),
            final(self).key_seq() == old(self).key_seq(),
            final(self).row_seq() == old(self).row_seq().update(j as int, row@),
    {
        let ghost row_view = row@;
        self.rows.set(j, row);
        proof {
            assert(self.row_seq() =~= old(self).row_seq().update(j as int, row_view));
        }
    }

    /// Turns every series into its running total: slot `i` then holds the sum
    /// of the former slots `0 ..= i`.
    pub fn cumsum(&mut self)
        requires
            old(self).wf(),
            forall|j: int| 0 <= j < old(self).row_seq().len()
                ==> prefix_sum(#[trigger] old(self).row_seq()[j], old(self).slots() as int) <= u64::MAX,
        ensures
            final(self).wf(),
            final(self).start_day() == old(self).start_day(),
            final(self).slots() == old(self).slots(),
            final(self).key_seq() == old(self).key_seq(),
            final(self).row_seq().len() == old(self).row_seq().len(),
            forall|j: int| 0 <= j < old(self).row_seq().len()
                ==> ints(#[trigger] final(self).row_seq()[j]) == cumulated(old(self).row_seq()[j]),
            forall|k: K| #[trigger] old(self).has_key(k) ==> ints(final(self).series(k)) == cumulated(old(self).series(k)),
    {
        let ghost old_rows = self.row_seq();
        let mut j: usize = 0;
        while j < self.rows.len()
            invariant
                self.wf(),
                self.start_day() == old(self).start_day(),
                self.slots() == old(self).slots(),
                self.key_seq() == old(self).key_seq(),
                old_rows == old(self).row_seq(),
                self.row_seq().len() == old_rows.len(),
                j <= old_rows.len(),
                forall|t: int| j <= t < old_rows.len() ==> #[trigger] self.row_seq()[t] == old_rows[t],
                forall|t: int| 0 <= t < j ==> ints(#[trigger] self.row_seq()[t]) == cumulated(old_rows[t]),
                forall|t: int| 0 <= t < old_rows.len()
                    ==> prefix_sum(#[trigger] old_rows[t], self.slots() as int) <= u64::MAX,
            decreases old_rows.len() - j,
        {
            proof {
                self.lemma_rows_len(j as int);
                assert(old_rows[j as int] == self.rows@[j as int]@);
            }
            let row = cumsum_row(&self.rows[j]);
            proof {
                assert(row@.len() == cumulated(old_rows[j as int]).len());
            }
            self.replace_row(j, row);
            j = j + 1;
        }
        proof {
            assert forall|k: K| #[trigger] old(self).has_key(k) implies ints(self.series(k)) == cumulated(old(self).series(k)) by {
                old(self).lemma_key_position(self, k);
            }
        }
    }

    /// Replaces every series by its `w`-slot difference: from slot `w` on,
    /// slot `i` holds the former `v[i] - v[i - w]`, and the first `w` slots
    /// hold zero. A series that falls over `w` slots refuses the operation:
    /// the error names the first such key and its first falling slot, and
    /// the store is left as it was.
    pub fn diff(&mut self, w: usize) -> (r: Result<(), FallError<K>>)
        requires
            old(self).wf(),
        ensures
            final(self).wf(),
            final(self).start_day() == old(self).start_day(),
            final(self).slots() == old(self).slots(),
            final(self).key_seq() == old(self).key_seq(),
            final(self).row_seq().len() == old(self).row_seq().len(),
            r.is_ok() == (forall|j: int| 0 <= j < old(self).row_seq().len()
                ==> rises_over(#[trigger] old(self).row_seq()[j], w as int)),
            r.is_ok() ==> forall|j: int| 0 <= j < old(self).row_seq().len()
                ==> ints(#[trigger] final(self).row_seq()[j]) == window_diff(old(self).row_seq()[j], w as int),
            r.is_ok() ==> forall|k: K| #[trigger] old(self).has_key(k)
                ==> ints(final(self).series(k)) == window_diff(old(self).series(k), w as int),
            r.is_err() ==> final(self).row_seq() == old(self).row_seq(),
            r.is_err() ==> exists|j: int| 0 <= j < old(self).row_seq().len()
                && #[trigger] old(self).key_seq()[j] == r->Err_0.key
                && (forall|t: int| 0 <= t < j ==> rises_over(#[trigger] old(self).row_seq()[t], w as int))
                && w <= r->Err_0.slot < old(self).slots()
                && r->Err_0.value == old(self).row_seq()[j][r->Err_0.slot as int]
                && old(self).row_seq()[j][r->Err_0.slot - w] > r->Err_0.value
                && (forall|t: int| w <= t < r->Err_0.slot ==> old(self).row_seq()[j][t - w] <= #[trigger] old(self).row_seq()[j][t]),
    {
        let mut j: usize = 0;
        while j < self.rows.len()
            invariant
                self.wf(),
                self == old(self),
                j <= self.row_seq().len(),
                forall|t: int| 0 <= t < j ==> rises_over(#[trigger] self.row_seq()[t], w as int),
            decreases self.row_seq().len() - j,
        {
            proof {
                self.lemma_rows_len(j as int);
            }
            match first_fall(&self.rows[j], w) {
                Some(i) => {
                    let value = self.rows[j][i];
                    proof {
                        assert(self.key_seq()[j as int] == self.keys@[j as int]);
                        assert(self.row_seq()[j as int] == self.rows@[j as int]@);
                    }
                    return Err(FallError { key: self.keys[j], slot: i, value });
                },
                None => {},
            }
            j = j + 1;
        }
        let ghost old_rows = self.row_seq();
        let mut j: usize = 0;
        while j < self.rows.len()
            invariant
                self.wf(),
                self.start_day() == old(self).start_day(),
                self.slots() == old(self).slots(),
                self.key_seq() == old(self).key_seq(),
                old_rows == old(self).row_seq(),
                self.row_seq().len() == old_rows.len(),
                j <= old_rows.len(),
                forall|t: int| j <= t < old_rows.len() ==> #[trigger] self.row_seq()[t] == old_rows[t],
                forall|t: int| 0 <= t < j ==> ints(#[trigger] self.row_seq()[t]) == window_diff(old_rows[t], w as int),
                forall|t: int| 0 <= t < old_rows.len() ==> rises_over(#[trigger] old_rows[t], w as int),
            decreases old_rows.len() - j,
        {
            proof {
                self.lemma_rows_len(j as int);
                assert(old_rows[j as int] == self.rows@[j as int]@);
            }
            let row = diff_row(&self.rows[j], w);
            proof {
                assert(row@.len() == window_diff(old_rows[j as int], w as int).len());
            }
            self.replace_row(j, row);
            j = j + 1;
        }
        proof {
            assert forall|k: K| #[trigger] old(self).has_key(k) implies
                ints(self.series(k)) == window_diff(old(self).series(k), w as int) by {
                old(self).lemma_key_position(self, k);
            }
        }
        Ok(())
    }

    /// Moves every series `w` slots later: slot `i` takes the former slot
    /// `i - w`, and the first `w` slots (all of them, where `w >= len`)
    /// become zero.
    pub fn shift_fwd(&mut self, w: usize)
        requires
            old(self).wf(),
        ensures
            final(self).wf(),
            final(self).start_day() == old(self).start_day(),
            final(self).slots() == old(self).slots(),
            final(self).key_seq() == old(self).key_seq(),
            final(self).row_seq().len() == old(self).row_seq().len(),
            forall|j: int| 0 <= j < old(self).row_seq().len()
                ==> #[trigger] final(self).row_seq()[j] == shifted(old(self).row_seq()[j], w as int),
            forall|k: K| #[trigger] old(self).has_key(k) ==> final(self).series(k) == shifted(old(self).series(k), w as int),
    {
        let ghost old_rows = self.row_seq();
        let mut j: usize = 0;
        while j < self.rows.len()
            invariant
                self.wf(),
                self.start_day() == old(self).start_day(),
                self.slots() == old(self).slots(),
                self.key_seq() == old(self).key_seq(),
                old_rows == old(self).row_seq(),
                self.row_seq().len() == old_rows.len(),
                j <= old_rows.len(),
                forall|t: int| j <= t < old_rows.len() ==> #[trigger] self.row_seq()[t] == old_rows[t],
                forall|t: int| 0 <= t < j ==> #[trigger] self.row_seq()[t] == shifted(old_rows[t], w as int),
            decreases old_rows.len() - j,
        {
            proof {
                self.lemma_rows_len(j as int);
                assert(old_rows[j as int] == self.rows@[j as int]@);
            }
            let row = shift_row(&self.rows[j], w);
            self.replace_row(j, row);
            j = j + 1;
        }
        proof {
            assert forall|k: K| #[trigger] old(self).has_key(k) implies self.series(k) == shifted(old(self).series(k), w as int) by {
                old(self).lemma_key_position(self, k);
            }
        }
    }

    /// A new store with the same keys whose series are the daily values
    /// behind this store's trailing `w`-slot sums (see `unroll_state`);
    /// `None` where some daily value would not fit in a `u64`.
    pub fn unrolled(&self, w: usize) -> (r: Option<Self>)
        requires
            self.wf(),
            w > 0,
        ensures
            r.is_some() == (forall|j: int| 0 <= j < self.row_seq().len()
                ==> unroll_fits(#[trigger] self.row_seq()[j], w as int)),
            r.is_some() ==> ({
                let u = r.unwrap();
                &&& u.wf()
                &&& u.start_day() == self.start_day()
                &&& u.slots() == self.slots()
                &&& u.key_seq() == self.key_seq()
                &&& u.row_seq().len() == self.row_seq().len()
                &&& forall|j: int| 0 <= j < self.row_seq().len()
                    ==> ints(#[trigger] u.row_seq()[j]) == unrolled_seq(self.row_seq()[j], w as int)
            }),
    {
        let mut rows: Vec<Vec<u64>> = Vec::new();
        let mut keys: Vec<K> = Vec::new();
        let mut j: usize = 0;
        while j < self.rows.len()
            invariant
                self.wf(),
                w > 0,
                keys@ == self.keys@.subrange(0, j as int),
                j <= self.row_seq().len(),
                rows@.len() == j,
                forall|t: int| 0 <= t < j ==> ints(#[trigger] rows@[t]@) == unrolled_seq(self.row_seq()[t], w as int),
                forall|t: int| 0 <= t < j ==> unroll_fits(#[trigger] self.row_seq()[t], w as int),
                forall|t: int| 0 <= t < j ==> #[trigger] rows@[t]@.len() == self.len,
            decreases self.row_seq().len() - j,
        {
            proof {
                self.lemma_rows_len(j as int);
            }
            let row = match unroll_row(&self.rows[j], w) {
                Some(row) => row,
                None => {
                    return None;
                },
            };
            proof {
                lemma_unroll_state_len(self.rows@[j as int]@, w as int, self.len as int);
                assert(ints(row@).len() == row@.len());
            }
            rows.push(row);
            keys.push(self.keys[j]);
            j = j + 1;
            assert(keys@ =~= self.keys@.subrange(0, j as int));
        }
        let r = TimeSeries { start: self.start, len: self.len, keys, rows };
        proof {
            assert(r.keys@ =~= self.keys@);
            assert forall|t: int| 0 <= t < self.row_seq().len()
                implies ints(#[trigger] r.row_seq()[t]) == unrolled_seq(self.row_seq()[t], w as int) by {
                assert(r.row_seq()[t] == rows@[t]@);
            }
        }
        Some(r)
    }

    /// Adds `src` slot by slot into the series at position `p`.
    fn add_into(&mut self, p: usize, src: &Vec<u64>)
        requires
            old(self).wf(),
            p < old(self).key_seq().len(),
            src@.len() == old(self).slots(),
            forall|i: int| 0 <= i < src@.len() ==> old(self).row_seq()[p as int][i] + #[trigger] src@[i] <= u64::MAX,
        ensures
            final(self).wf(),
            final(self).start_day() == old(self).start_day(),
            final(self).slots() == old(self).slots(),
            final(self).key_seq() == old(self).key_seq(),
            final(self).row_seq() == old(self).row_seq().update(p as int,
                Seq::new(old(self).slots(), |i: int| (old(self).row_seq()[p as int][i] + src@[i]) as u64)),
    {
        proof {
            self.lemma_rows_len(p as int);
        }
        let mut row: Vec<u64> = Vec::new();
        let mut i: usize = 0;
        while i < self.len
            invariant
                self.wf(),
                p < self.key_seq().len(),
                src@.len() == self.len,
                self.rows@[p as int]@.len() == self.len,
                forall|i: int| 0 <= i < src@.len() ==> self.row_seq()[p as int][i] + #[trigger] src@[i] <= u64::MAX,
                self.row_seq()[p as int] == self.rows@[p as int]@,
                i <= self.len,
                row@.len() == i,
                forall|t: int| 0 <= t < i ==> #[trigger] row@[t] == (self.row_seq()[p as int][t] + src@[t]) as u64,
            decreases self.len - i,
        {
            assert(self.row_seq()[p as int][i as int] + src@[i as int] <= u64::MAX);
            row.push(self.rows[p][i] + src[i]);
            i = i + 1;
        }
        let ghost sum_row = row@;
        assert(sum_row =~= Seq::new(self.slots(), |i: int| (self.row_seq()[p as int][i] + src@[i]) as u64));
        self.replace_row(p, row);
    }

    /// A new store over the same calendar that maps every key `k` through
    /// `f`: the series of the keys that map to `Some(u)` are added slot by
    /// slot into the series of `u`, and those that map to `None` are
    /// dropped.
    pub fn rekeyed<U: TimeSeriesKey, F: Fn(&K) -> Option<U>>(&self, f: F) -> (r: TimeSeries<U>)
        requires
            self.wf(),
            forall|k: &K| #[trigger] f.requires((k,)),
            fan_in_fits(*self, f),
        ensures
            r.wf(),
            r.start_day() == self.start_day(),
            r.slots() == self.slots(),
            exists|images: Seq<Option<U>>| {
                &&& images.len() == self.key_seq().len()
                &&& forall|j: int| 0 <= j < images.len() ==> #[trigger] f.ensures((&self.key_seq()[j],), images[j])
                &&& fanned_in(r, *self, images)
            },
    {
        let mut result: TimeSeries<U> = TimeSeries { start: self.start, len: self.len, keys: Vec::new(), rows: Vec::new() };
        let ghost mut images: Seq<Option<U>> = Seq::empty();
        let ghost rows = self.row_seq();
        let ghost n = self.row_seq().len() as int;
        let mut j: usize = 0;
        while j < self.keys.len()
            invariant
                self.wf(),
                rows == self.row_seq(),
                n == rows.len(),
                forall|k: &K| #[trigger] f.requires((k,)),
                fan_in_fits(*self, f),
                result.wf(),
                result.start_day() == self.start_day(),
                result.slots() == self.slots(),
                j <= n,
                images.len() == j,
                forall|t: int| 0 <= t < j ==> #[trigger] f.ensures((&self.key_seq()[t],), images[t]),
                forall|u: U| #[trigger] result.has_key(u) <==> exists|t: int| 0 <= t < j && images[t] == Some(u),
                forall|p: int, i: int| 0 <= p < result.key_seq().len() && 0 <= i < self.slots()
                    ==> #[trigger] result.row_seq()[p][i] == fan_in_sum(rows, images, result.key_seq()[p], i, j as int),
            decreases n - j,
        {
            let image = f(&self.keys[j]);
            let ghost old_images = images;
            proof {
                images = images.push(image);
                assert forall|u: U, i: int| 0 <= i < self.slots() implies
                    fan_in_sum(rows, old_images, u, i, j as int) == #[trigger] fan_in_sum(rows, images, u, i, j as int) by {
                    lemma_fan_in_extend(rows, old_images, images, u, i, j as int);
                }
                assert(self.key_seq()[j as int] == self.keys@[j as int]);
            }
            match image {
                Some(u) => {
                    let ghost before = result;
                    let p = result.get_index_or_create(u);
                    proof {
                        self.lemma_rows_len(j as int);
                        assert forall|i: int| 0 <= i < self.rows@[j as int]@.len() implies
                            result.row_seq()[p as int][i] + #[trigger] self.rows@[j as int]@[i] <= u64::MAX by {
                            if before.has_key(u) {
                                assert(result.row_seq()[p as int][i] == fan_in_sum(rows, old_images, u, i, j as int));
                            } else {
                                assert forall|t: int| 0 <= t < j implies #[trigger] old_images[t] != Some(u) by {
                                    if old_images[t] == Some(u) {
                                        assert(before.has_key(u));
                                    }
                                }
                                lemma_fan_in_absent(rows, old_images, u, i, j as int);
                                assert(result.row_seq()[p as int] == zeros(self.len as nat));
                            }
                            assert(rows[j as int] == self.rows@[j as int]@);
                            lemma_fan_in_extend(rows, old_images, images, u, i, j as int);
                            assert(fan_in_sum(rows, images, u, i, j + 1)
                                == fan_in_sum(rows, images, u, i, j as int) + rows[j as int][i]);
                            assert(images.len() == j + 1);
                            assert(fan_in_sum(self.row_seq(), images, u, i, images.len() as int) <= u64::MAX);
                        }
                    }
                    let ghost mid = result;
                    result.add_into(p, &self.rows[j]);
                    proof {
                        assert forall|p2: int, i: int| 0 <= p2 < result.key_seq().len() && 0 <= i < self.slots()
                            implies #[trigger] result.row_seq()[p2][i] == fan_in_sum(rows, images, result.key_seq()[p2], i, j + 1) by {
                            let u2 = result.key_seq()[p2];
                            if p2 == p {
                                if before.has_key(u) {
                                    assert(mid.row_seq()[p2][i] == fan_in_sum(rows, old_images, u, i, j as int));
                                } else {
                                    assert forall|t: int| 0 <= t < j implies #[trigger] old_images[t] != Some(u) by {
                                        if old_images[t] == Some(u) {
                                            assert(before.has_key(u));
                                        }
                                    }
                                    lemma_fan_in_absent(rows, old_images, u, i, j as int);
                                }
                                assert(rows[j as int] == self.rows@[j as int]@);
                                lemma_fan_in_extend(rows, old_images, images, u, i, j as int);
                                assert(fan_in_sum(rows, images, u, i, j + 1)
                                    == fan_in_sum(rows, images, u, i, j as int) + rows[j as int][i]);
                            } else {
                                assert(mid.key_seq()[p2] == u2);
                                assert(p2 < before.key_seq().len());
                                assert(before.key_seq()[p2] == u2);
                                assert(u2 != u);
                                assert(mid.row_seq()[p2][i] == fan_in_sum(rows, old_images, u2, i, j as int));
                                lemma_fan_in_extend(rows, old_images, images, u2, i, j as int);
                                assert(fan_in_sum(rows, images, u2, i, j + 1)
                                    == fan_in_sum(rows, images, u2, i, j as int));
                            }
                        }
                        assert forall|u2: U| #[trigger] result.has_key(u2) <==> exists|t: int| 0 <= t < j + 1 && images[t] == Some(u2) by {
                            if result.has_key(u2) && u2 != u {
                                assert(before.has_key(u2));
                                let t = choose|t: int| 0 <= t < j && old_images[t] == Some(u2);
                                assert(images[t] == Some(u2));
                            }
                            if exists|t: int| 0 <= t < j + 1 && images[t] == Some(u2) {
                                let t = choose|t: int| 0 <= t < j + 1 && images[t] == Some(u2);
                                if t < j {
                                    assert(old_images[t] == Some(u2));
                                    assert(before.has_key(u2));
                                    assert(before.key_seq().contains(u2));
                                    let q = choose|q: int| 0 <= q < before.key_seq().len() && before.key_seq()[q] == u2;
                                    assert(result.key_seq()[q] == u2);
                                } else {
                                    assert(result.key_seq()[p as int] == u2);
                                }
                            }
                        }
                    }
                },
                None => {
                    proof {
                        assert forall|p2: int, i: int| 0 <= p2 < result.key_seq().len() && 0 <= i < self.slots()
                            implies #[trigger] result.row_seq()[p2][i] == fan_in_sum(rows, images, result.key_seq()[p2], i, j + 1) by {
                            let u2 = result.key_seq()[p2];
                            lemma_fan_in_extend(rows, old_images, images, u2, i, j as int);
                            assert(fan_in_sum(rows, images, u2, i, j + 1)
                                == fan_in_sum(rows, images, u2, i, j as int));
                        }
                        assert forall|u2: U| #[trigger] result.has_key(u2) <==> exists|t: int| 0 <= t < j + 1 && images[t] == Some(u2) by {
                            if result.has_key(u2) {
                                let t = choose|t: int| 0 <= t < j && old_images[t] == Some(u2);
                                assert(images[t] == Some(u2));
                            }
                            if exists|t: int| 0 <= t < j + 1 && images[t] == Some(u2) {
                                let t = choose|t: int| 0 <= t < j + 1 && images[t] == Some(u2);
                                assert(t < j);
                                assert(old_images[t] == Some(u2));
                            }
                        }
                    }
                },
            }
            j = j + 1;
        }
        proof {
            assert forall|u: U, i: int| result.has_key(u) && 0 <= i < result.slots()
                implies #[trigger] result.series(u)[i] == fan_in_sum(self.row_seq(), images, u, i, images.len() as int) by {
                let p = result.pos_of(u);
                assert(result.key_seq()[p] == u);
            }
            assert(fanned_in(result, *self, images));
        }
        result
    }

    /// The sum of slot `i` over the series of the first `n` keys of `kin`
    /// that the store holds (a key listed twice counts twice).
    pub open spec fn kin_sum(&self, kin: Seq<K>, i: int, n: int) -> int
        decreases n,
    {
        if n <= 0 {
            0
        } else {
            self.kin_sum(kin, i, n - 1) + if self.has_key(kin[n - 1]) {
                self.series(kin[n - 1])[i] as int
            } else {
                0
            }
        }
    }

    proof fn lemma_kin_sum_mono(&self, kin: Seq<K>, i: int, n: int, m: int)
        requires
            0 <= n <= m,
        ensures
            0 <= self.kin_sum(kin, i, n) <= self.kin_sum(kin, i, m),
        decreases m,
    {
        if m > n {
            self.lemma_kin_sum_mono(kin, i, n, m - 1);
        } else if n > 0 {
            self.lemma_kin_sum_mono(kin, i, n - 1, n - 1);
        }
    }

    /// Adds a series for `kout` that holds, slot by slot, the sum of the
    /// series of the keys in `kin` (keys the store lacks add nothing). Where
    /// the store already holds `kout`, it is left as it was.
    pub fn synthesize(&mut self, kin: &Vec<K>, kout: K)
        requires
            old(self).wf(),
            forall|i: int| 0 <= i < old(self).slots()
                ==> #[trigger] old(self).kin_sum(kin@, i, kin@.len() as int) <= u64::MAX,
        ensures
            final(self).wf(),
            final(self).start_day() == old(self).start_day(),
            final(self).slots() == old(self).slots(),
            old(self).has_key(kout) ==> *final(self) == *old(self),
            !old(self).has_key(kout) ==> final(self).key_seq() == old(self).key_seq().push(kout)
                && final(self).row_seq() == old(self).row_seq().push(
                    Seq::new(old(self).slots(), |i: int| old(self).kin_sum(kin@, i, kin@.len() as int) as u64)),
    {
        let mut acc: Vec<u64> = vec![0u64; self.len];
        let mut t: usize = 0;
        while t < kin.len()
            invariant
                self.wf(),
                forall|i: int| 0 <= i < self.slots() ==> #[trigger] self.kin_sum(kin@, i, kin@.len() as int) <= u64::MAX,
                t <= kin@.len(),
                acc@.len() == self.len,
                forall|i: int| 0 <= i < self.len ==> #[trigger] acc@[i] == self.kin_sum(kin@, i, t as int),
            decreases kin@.len() - t,
        {
            match self.get(&kin[t]) {
                Some(row) => {
                    let mut next: Vec<u64> = Vec::new();
                    let mut i: usize = 0;
                    while i < self.len
                        invariant
                            self.wf(),
                            forall|i: int| 0 <= i < self.slots() ==> #[trigger] self.kin_sum(kin@, i, kin@.len() as int) <= u64::MAX,
                            t < kin@.len(),
                            self.has_key(kin@[t as int]),
                            row@ == self.series(kin@[t as int]),
                            row@.len() == self.len,
                            acc@.len() == self.len,
                            forall|i: int| 0 <= i < self.len ==> #[trigger] acc@[i] == self.kin_sum(kin@, i, t as int),
                            i <= self.len,
                            next@.len() == i,
                            forall|q: int| 0 <= q < i ==> #[trigger] next@[q] == self.kin_sum(kin@, q, t + 1),
                        decreases self.len - i,
                    {
                        proof {
                            self.lemma_kin_sum_mono(kin@, i as int, t + 1, kin@.len() as int);
                        }
                        next.push(acc[i] + row[i]);
                        i = i + 1;
                    }
                    acc = next;
                },
                None => {
                    assert forall|i: int| 0 <= i < self.len implies #[trigger] acc@[i] == self.kin_sum(kin@, i, t + 1) by {
                    }
                },
            }
            t = t + 1;
        }
        if self.get_index(&kout).is_none() {
            let ghost acc_view = acc@;
            self.keys.push(kout);
            self.rows.push(acc);
            proof {
                assert(acc_view =~= Seq::new(old(self).slots(), |i: int| old(self).kin_sum(kin@, i, kin@.len() as int) as u64));
                assert(self.row_seq() =~= old(self).row_seq().push(acc_view));
                assert(self.keys@.no_duplicates());
                assert forall|j: int| 0 <= j < self.rows@.len() implies #[trigger] self.rows@[j]@.len() == self.len by {
                    if j < old(self).rows@.len() {
                        assert(self.rows@[j] == old(self).rows@[j]);
                    }
                }
            }
        }
    }

    /// The series of `k`, or zeros where the store does not hold `k`.
    pub open spec fn series_or_zeros(&self, k: K) -> Seq<u64> {
        if self.has_key(k) {
            self.series(k)
        } else {
            zeros(self.slots())
        }
    }

    /// The contents after slot `i` of `k` (created with zeros if missing)
    /// is set to `v`.
    pub open spec fn with_value(&self, k: K, i: int, v: u64) -> Map<K, Seq<u64>> {
        self.contents().insert(k, self.series_or_zeros(k).update(i, v))
    }

    /// The keys after `k` is added where missing.
    pub open spec fn keys_with(&self, k: K) -> Seq<K> {
        if self.has_key(k) {
            self.key_seq()
        } else {
            self.key_seq().push(k)
        }
    }

    proof fn lemma_contents_after_row_update(&self, other: &Self, p: int, row: Seq<u64>)
        requires
            self.wf(),
            other.wf(),
            0 <= p < self.key_seq().len(),
            other.key_seq() == self.key_seq(),
            other.row_seq() == self.row_seq().update(p, row),
        ensures
            other.contents() == self.contents().insert(self.key_seq()[p], row),
    {
        let k = self.key_seq()[p];
        self.lemma_index_of_unique(p);
        assert forall|k2: K| #[trigger] other.contents().contains_key(k2) implies
            other.contents()[k2] == self.contents().insert(k, row)[k2] by {
            let q = self.pos_of(k2);
            assert(self.key_seq()[q] == k2);
            if k2 != k {
                assert(q != p);
            }
        }
        assert(other.contents() =~= self.contents().insert(k, row));
    }

    proof fn lemma_contents_after_push(&self, other: &Self, k: K, row: Seq<u64>)
        requires
            self.wf(),
            other.wf(),
            !self.has_key(k),
            other.key_seq() == self.key_seq().push(k),
            other.row_seq() == self.row_seq().push(row),
        ensures
            other.contents() == self.contents().insert(k, row),
    {
        let n = self.key_seq().len() as int;
        other.lemma_index_of_unique(n);
        assert forall|k2: K| #[trigger] other.contents().contains_key(k2) implies
            other.contents()[k2] == self.contents().insert(k, row)[k2] by {
            if k2 != k {
                let q = self.pos_of(k2);
                assert(self.key_seq()[q] == k2);
                assert(other.key_seq()[q] == k2);
                other.lemma_index_of_unique(q);
            }
        }
        assert forall|k2: K| #[trigger] self.contents().insert(k, row).contains_key(k2) implies
            other.contents().contains_key(k2) by {
            if k2 != k {
                let q = self.pos_of(k2);
                assert(other.key_seq()[q] == k2);
            }
        }
        assert(other.contents() =~= self.contents().insert(k, row));
    }

    /// Sets slot `i` of `k` to `v`, adding `k` with zeros first if missing.
    pub fn set_value(&mut self, k: K, i: usize, v: u64)
        requires
            old(self).wf(),
            i < old(self).slots(),
        ensures
            final(self).wf(),
            final(self).start_day() == old(self).start_day(),
            final(self).slots() == old(self).slots(),
            final(self).key_seq() == old(self).keys_with(k),
            final(self).contents() == old(self).with_value(k, i as int, v),
            final(self).has_key(k),
            final(self).series(k) == old(self).series_or_zeros(k).update(i as int, v),
            forall|k2: K| k2 != k ==> #[trigger] final(self).has_key(k2) == old(self).has_key(k2),
            forall|k2: K| k2 != k && old(self).has_key(k2) ==> #[trigger] final(self).series(k2) == old(self).series(k2),
    {
        let p = self.get_index_or_create(k);
        let ghost mid = *self;
        proof {
            mid.lemma_rows_len(p as int);
            if old(self).has_key(k) {
                assert(mid.contents() == old(self).contents());
            } else {
                old(self).lemma_contents_after_push(&mid, k, zeros(old(self).slots()));
            }
            mid.lemma_index_of_unique(p as int);
        }
        let mut row = self.rows[p].clone();
        row.set(i, v);
        let ghost row_view = row@;
        self.replace_row(p, row);
        proof {
            mid.lemma_contents_after_row_update(self, p as int, row_view);
            assert(row_view =~= old(self).series_or_zeros(k).update(i as int, v));
            assert(self.contents() =~= old(self).with_value(k, i as int, v));
            self.lemma_contents_agree();
            old(self).lemma_contents_agree();
            assert(self.contents().contains_key(k));
            assert(self.contents()[k] == old(self).series_or_zeros(k).update(i as int, v));
            assert forall|k2: K| k2 != k implies #[trigger] self.has_key(k2) == old(self).has_key(k2) by {
                assert(self.contents().contains_key(k2) == old(self).contents().contains_key(k2));
            }
            assert forall|k2: K| k2 != k && old(self).has_key(k2) implies #[trigger] self.series(k2) == old(self).series(k2) by {
                assert(self.contents().contains_key(k2) == old(self).contents().contains_key(k2));
                assert(self.contents()[k2] == old(self).contents()[k2]);
            }
        }
    }

    /// Where two stores have the same keys, a key's series sits at the same
    /// position in both.
    pub proof fn lemma_key_position(&self, other: &Self, k: K)
        requires
            self.wf(),
            other.key_seq() == self.key_seq(),
            other.row_seq().len() == self.row_seq().len(),
            self.has_key(k),
        ensures
            other.has_key(k),
            0 <= self.pos_of(k) < self.row_seq().len(),
            other.pos_of(k) == self.pos_of(k),
            self.series(k) == self.row_seq()[self.pos_of(k)],
            other.series(k) == other.row_seq()[self.pos_of(k)],
    {
    }

    /// The map view agrees with `has_key` and `series`.
    pub proof fn lemma_contents_agree(&self)
        ensures
            forall|k: K| #[trigger] self.contents().contains_key(k) == self.has_key(k),
            forall|k: K| self.has_key(k) ==> #[trigger] self.contents()[k] == self.series(k),
    {
    }

    /// Removes every key.
    pub fn clear(&mut self)
        requires
            old(self).wf(),
        ensures
            final(self).wf(),
            final(self).start_day() == old(self).start_day(),
            final(self).slots() == old(self).slots(),
            final(self).key_seq().len() == 0,
    {
        self.keys = Vec::new();
        self.rows = Vec::new();
    }

    /// Whether every running total fits in a `u64`, which `cumsum` needs.
    pub fn cumsum_fits(&self) -> (r: bool)
        requires
            self.wf(),
        ensures
            r == (forall|j: int| 0 <= j < self.row_seq().len()
                ==> prefix_sum(#[trigger] self.row_seq()[j], self.slots() as int) <= u64::MAX),
    {
        let mut j: usize = 0;
        while j < self.rows.len()
            invariant
                self.wf(),
                j <= self.rows@.len(),
                forall|t: int| 0 <= t < j ==> prefix_sum(#[trigger] self.row_seq()[t], self.slots() as int) <= u64::MAX,
            decreases self.rows@.len() - j,
        {
            proof { self.lemma_rows_len(j as int); }
            let mut acc: u64 = 0;
            let mut i: usize = 0;
            while i < self.len
                invariant
                    self.wf(),
                    j < self.rows@.len(),
                    self.rows@[j as int]@.len() == self.len,
                    self.row_seq()[j as int] == self.rows@[j as int]@,
                    i <= self.len,
                    acc == prefix_sum(self.rows@[j as int]@, i as int),
                decreases self.len - i,
            {
                let v = self.rows[j][i];
                if acc > u64::MAX - v {
                    proof {
                        lemma_prefix_sum_mono(self.rows@[j as int]@, i + 1, self.len as int);
                    }
                    return false;
                }
                acc = acc + v;
                i = i + 1;
            }
            j = j + 1;
        }
        true
    }

    /// Extends every series to the right with its last non-zero value.
    pub fn rfill_zeroes(&mut self)
        requires
            old(self).wf(),
        ensures
            final(self).wf(),
            final(self).start_day() == old(self).start_day(),
            final(self).slots() == old(self).slots(),
            final(self).key_seq() == old(self).key_seq(),
            final(self).row_seq().len() == old(self).row_seq().len(),
            forall|j: int| 0 <= j < old(self).row_seq().len()
                ==> #[trigger] final(self).row_seq()[j] == right_filled(old(self).row_seq()[j]),
    {
        let ghost old_rows = self.row_seq();
        let mut j: usize = 0;
        while j < self.rows.len()
            invariant
                self.wf(),
                self.start_day() == old(self).start_day(),
                self.slots() == old(self).slots(),
                self.key_seq() == old(self).key_seq(),
                old_rows == old(self).row_seq(),
                self.row_seq().len() == old_rows.len(),
                j <= old_rows.len(),
                forall|t: int| j <= t < old_rows.len() ==> #[trigger] self.row_seq()[t] == old_rows[t],
                forall|t: int| 0 <= t < j ==> #[trigger] self.row_seq()[t] == right_filled(old_rows[t]),
            decreases old_rows.len() - j,
        {
            proof {
                self.lemma_rows_len(j as int);
                assert(old_rows[j as int] == self.rows@[j as int]@);
            }
            let row = rfill_row(&self.rows[j]);
            self.replace_row(j, row);
            j = j + 1;
        }
    }

    /// The first slot from `start_at` on where `k`'s series reaches
    /// `value`; `None` where there is none or the store lacks `k`.
    pub fn find_ge(&self, k: &K, start_at: usize, value: u64) -> (r: Option<usize>)
        requires
            self.wf(),
        ensures
            r.is_some() ==> self.has_key(*k) && start_at <= r.unwrap() < self.slots()
                && self.series(*k)[r.unwrap() as int] >= value
                && forall|t: int| start_at <= t < r.unwrap() ==> #[trigger] self.series(*k)[t] < value,
            r.is_none() ==> !self.has_key(*k)
                || forall|t: int| start_at <= t < self.slots() ==> #[trigger] self.series(*k)[t] < value,
    {
        let row = match self.get(k) {
            Some(row) => row,
            None => { return None; },
        };
        proof { self.lemma_wf_rows(); }
        let mut i: usize = start_at;
        while i < row.len()
            invariant
                row@ == self.series(*k),
                self.has_key(*k),
                row@.len() == self.slots(),
                start_at <= i,
                forall|t: int| start_at <= t < i ==> #[trigger] row@[t] < value,
            decreases row@.len() - i,
        {
            if row[i] >= value {
                return Some(i);
            }
            i = i + 1;
        }
        None
    }

    /// Adds `other`'s series slot by slot into the series of the same key;
    /// keys that `other` lacks stay as they were.
    pub fn add(&mut self, other: &Self)
        requires
            old(self).wf(),
            other.wf(),
            other.slots() == old(self).slots(),
            forall|j: int, i: int| 0 <= j < old(self).key_seq().len() && other.has_key(old(self).key_seq()[j])
                && 0 <= i < old(self).slots()
                ==> #[trigger] old(self).row_seq()[j][i] + other.series(old(self).key_seq()[j])[i] <= u64::MAX,
        ensures
            final(self).wf(),
            final(self).start_day() == old(self).start_day(),
            final(self).slots() == old(self).slots(),
            final(self).key_seq() == old(self).key_seq(),
            final(self).row_seq().len() == old(self).row_seq().len(),
            forall|j: int| 0 <= j < old(self).row_seq().len() ==> #[trigger] final(self).row_seq()[j]
                == if other.has_key(old(self).key_seq()[j]) {
                    Seq::new(old(self).slots(), |i: int| (old(self).row_seq()[j][i] + other.series(old(self).key_seq()[j])[i]) as u64)
                } else {
                    old(self).row_seq()[j]
                },
    {
        let ghost old_rows = self.row_seq();
        let mut j: usize = 0;
        while j < self.rows.len()
            invariant
                self.wf(),
                other.wf(),
                other.slots() == old(self).slots(),
                self.start_day() == old(self).start_day(),
                self.slots() == old(self).slots(),
                self.key_seq() == old(self).key_seq(),
                old_rows == old(self).row_seq(),
                self.row_seq().len() == old_rows.len(),
                j <= old_rows.len(),
                forall|j: int, i: int| 0 <= j < old(self).key_seq().len() && other.has_key(old(self).key_seq()[j])
                    && 0 <= i < old(self).slots()
                    ==> #[trigger] old(self).row_seq()[j][i] + other.series(old(self).key_seq()[j])[i] <= u64::MAX,
                forall|t: int| j <= t < old_rows.len() ==> #[trigger] self.row_seq()[t] == old_rows[t],
                forall|t: int| 0 <= t < j ==> #[trigger] self.row_seq()[t]
                    == if other.has_key(old(self).key_seq()[t]) {
                        Seq::new(old(self).slots(), |i: int| (old_rows[t][i] + other.series(old(self).key_seq()[t])[i]) as u64)
                    } else {
                        old_rows[t]
                    },
            decreases old_rows.len() - j,
        {
            let k = self.keys[j];
            match other.get(&k) {
                Some(src) => {
                    proof {
                        self.lemma_rows_len(j as int);
                        assert(self.key_seq()[j as int] == k);
                        other.lemma_wf_rows();
                    }
                    let ghost before = *self;
                    self.add_into(j, src);
                    proof {
                        assert(self.row_seq()[j as int] =~= Seq::new(old(self).slots(),
                            |i: int| (old_rows[j as int][i] + other.series(old(self).key_seq()[j as int])[i]) as u64));
                    }
                },
                None => {},
            }
            j = j + 1;
        }
    }

    /// The value that `sub_at` takes off position `j`: `other`'s value of
    /// the same key at `i_remote`, zero where `other` lacks the key.
    pub open spec fn taken(&self, other: &Self, j: int, i_remote: int) -> int {
        if other.has_key(self.key_seq()[j]) {
            other.series(self.key_seq()[j])[i_remote] as int
        } else {
            0
        }
    }

    /// Takes, for every key, `other`'s value of that key at `i_remote` off
    /// this store's value at `i_local`. Where that would go below zero the
    /// first such key, its slot and value are reported and nothing changes.
    pub fn sub_at(&mut self, i_local: usize, other: &Self, i_remote: usize) -> (r: Result<(), FallError<K>>)
        requires
            old(self).wf(),
            other.wf(),
            i_local < old(self).slots(),
            i_remote < other.slots(),
        ensures
            final(self).wf(),
            final(self).start_day() == old(self).start_day(),
            final(self).slots() == old(self).slots(),
            final(self).key_seq() == old(self).key_seq(),
            r is Ok <==> forall|j: int| 0 <= j < old(self).key_seq().len()
                ==> old(self).taken(other, j, i_remote as int) <= #[trigger] old(self).row_seq()[j][i_local as int],
            r is Err ==> *final(self) == *old(self) && r->Err_0.slot == i_local
                && exists|j: int| 0 <= j < old(self).key_seq().len() && #[trigger] old(self).key_seq()[j] == r->Err_0.key
                    && r->Err_0.value == old(self).row_seq()[j][i_local as int]
                    && old(self).taken(other, j, i_remote as int) > r->Err_0.value,
            r is Ok ==> final(self).row_seq().len() == old(self).row_seq().len(),
            r is Ok ==> forall|j: int| 0 <= j < old(self).key_seq().len() ==> #[trigger] final(self).row_seq()[j]
                == old(self).row_seq()[j].update(i_local as int,
                    (old(self).row_seq()[j][i_local as int] - old(self).taken(other, j, i_remote as int)) as u64),
    {
        proof { other.lemma_wf_rows(); }
        let mut j: usize = 0;
        while j < self.keys.len()
            invariant
                self.wf(),
                other.wf(),
                self == old(self),
                i_local < self.slots(),
                i_remote < other.slots(),
                j <= self.key_seq().len(),
                forall|t: int| 0 <= t < j ==> self.taken(other, t, i_remote as int) <= #[trigger] self.row_seq()[t][i_local as int],
            decreases self.key_seq().len() - j,
        {
            proof { self.lemma_rows_len(j as int); }
            let k = self.keys[j];
            let cur = self.rows[j][i_local];
            let take = other.value_or_zero(&k, i_remote);
            proof {
                assert(self.key_seq()[j as int] == k);
                assert(self.row_seq()[j as int][i_local as int] == cur);
            }
            if take > cur {
                return Err(FallError { key: k, slot: i_local, value: cur });
            }
            j = j + 1;
        }
        let ghost old_rows = self.row_seq();
        let mut j: usize = 0;
        while j < self.keys.len()
            invariant
                self.wf(),
                other.wf(),
                i_local < self.slots(),
                i_remote < other.slots(),
                self.start_day() == old(self).start_day(),
                self.slots() == old(self).slots(),
                self.key_seq() == old(self).key_seq(),
                old_rows == old(self).row_seq(),
                self.row_seq().len() == old_rows.len(),
                j <= old_rows.len(),
                forall|t: int| 0 <= t < old_rows.len() ==> old(self).taken(other, t, i_remote as int) <= #[trigger] old_rows[t][i_local as int],
                forall|t: int| j <= t < old_rows.len() ==> #[trigger] self.row_seq()[t] == old_rows[t],
                forall|t: int| 0 <= t < j ==> #[trigger] self.row_seq()[t]
                    == old_rows[t].update(i_local as int, (old_rows[t][i_local as int] - old(self).taken(other, t, i_remote as int)) as u64),
            decreases old_rows.len() - j,
        {
            proof { self.lemma_rows_len(j as int); }
            let k = self.keys[j];
            let take = other.value_or_zero(&k, i_remote);
            let mut row = self.rows[j].clone();
            proof {
                assert(self.key_seq()[j as int] == k);
                assert(old_rows[j as int] == row@);
                assert(old(self).taken(other, j as int, i_remote as int) <= old_rows[j as int][i_local as int]);
            }
            let v = row[i_local] - take;
            row.set(i_local, v);
            self.replace_row(j, row);
            j = j + 1;
        }
        Ok(())
    }
}

} // verus!
