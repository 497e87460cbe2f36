use covid_counters::calendar::Date;
use covid_counters::series::{Counters, TimeSeries};

fn day(n: i32) -> Date {
    Date::from_ce_days(737425 + n)
}

fn store_with(rows: &[(u32, Vec<u64>)]) -> Counters<u32> {
    let len = rows.first().map(|r| r.1.len()).unwrap_or(0) as i32;
    let mut s: Counters<u32> = TimeSeries::new(day(0), day(len));
    for (k, vals) in rows {
        for (i, v) in vals.iter().enumerate() {
            s.set_value(*k, i, *v);
        }
    }
    s
}

fn series(s: &Counters<u32>, k: u32) -> Vec<u64> {
    s.get(&k).unwrap().clone()
}

#[test]
fn calendar_bijection() {
    let s: Counters<u32> = TimeSeries::new(day(0), day(7));
    assert_eq!(s.len(), 7);
    for i in 0..7i64 {
        let d = s.index_date(i).unwrap();
        assert_eq!(s.date_index(d), Some(i as usize));
    }
    for n in 0..7 {
        let d = day(n);
        assert_eq!(s.index_date(s.date_index(d).unwrap() as i64), Some(d));
    }
    assert_eq!(s.date_index(day(-1)), None);
    assert_eq!(s.date_index(day(7)), None);
    assert_eq!(s.index_date(-1), None);
    assert_eq!(s.index_date(7), None);
}

#[test]
fn get_value_of_absent_key_and_slot() {
    let s = store_with(&[(1, vec![4, 5, 6])]);
    assert_eq!(s.get_value(&1, 2), Some(6));
    assert_eq!(s.get_value(&1, 3), None);
    assert_eq!(s.get_value(&2, 0), None);
    assert!(s.get(&2).is_none());
    assert_eq!(s.get_index(&1), Some(0));
    assert_eq!(s.keys().len(), 1);
}

#[test]
fn get_index_or_create_zero_fills() {
    let mut s: Counters<u32> = TimeSeries::new(day(0), day(4));
    let a = s.get_index_or_create(9);
    let b = s.get_index_or_create(9);
    assert_eq!(a, b);
    assert_eq!(series(&s, 9), vec![0, 0, 0, 0]);
}

#[test]
fn cumsum_then_diff_one_restores_series() {
    let mut s = store_with(&[(1, vec![3, 1, 4, 1, 5, 9, 2, 6])]);
    s.cumsum();
    assert_eq!(series(&s, 1), vec![3, 4, 8, 9, 14, 23, 25, 31]);
    assert!(s.diff(1).is_ok());
    assert_eq!(series(&s, 1), vec![0, 1, 4, 1, 5, 9, 2, 6]);
}

#[test]
fn cumsum_window_identity() {
    let orig = vec![3u64, 1, 4, 1, 5, 9, 2, 6];
    let mut s = store_with(&[(1, orig.clone())]);
    s.cumsum();
    let cum = series(&s, 1);
    let w = 3;
    for i in w..orig.len() {
        let window: u64 = orig[i - w + 1..=i].iter().sum();
        assert_eq!(cum[i] - cum[i - w], window);
    }
    assert!(s.diff(3).is_ok());
    assert_eq!(series(&s, 1), vec![0, 0, 0, 6, 10, 15, 16, 17]);
}

#[test]
fn diff_refuses_a_falling_series() {
    let mut s = store_with(&[(1, vec![1, 2, 3]), (2, vec![5, 4, 6])]);
    let e = s.diff(1).unwrap_err();
    assert_eq!(e.key, 2);
    assert_eq!(e.slot, 1);
    assert_eq!(e.value, 4);
    assert_eq!(series(&s, 2), vec![5, 4, 6]);
}

#[test]
fn shift_law() {
    let mut s = store_with(&[(1, vec![1, 2, 3, 4, 5])]);
    s.shift_fwd(2);
    assert_eq!(series(&s, 1), vec![0, 0, 1, 2, 3]);
    let mut t = store_with(&[(1, vec![1, 2, 3])]);
    t.shift_fwd(3);
    assert_eq!(series(&t, 1), vec![0, 0, 0]);
    let mut u = store_with(&[(1, vec![1, 2, 3])]);
    u.shift_fwd(10);
    assert_eq!(series(&u, 1), vec![0, 0, 0]);
}

#[test]
fn unroll_of_trailing_sums_recovers_daily_values() {
    let daily = vec![2u64, 0, 5, 1, 3, 0, 0, 4, 2, 7];
    let w = 3;
    let sums: Vec<u64> = (0..daily.len())
        .map(|i| daily[i.saturating_sub(w - 1)..=i].iter().sum())
        .collect();
    let s = store_with(&[(1, sums.clone())]);
    let mut u = s.unrolled(w).unwrap();
    assert_eq!(series(&u, 1), daily);
    u.cumsum();
    assert!(u.diff(w).is_ok());
    let back = series(&u, 1);
    for i in w..daily.len() {
        assert_eq!(back[i], sums[i]);
    }
}

#[test]
fn unroll_follows_the_recurrence_on_a_step() {
    // a step of 7 in the trailing seven-day sums is one day of 7
    let s = store_with(&[(1, vec![0, 0, 0, 0, 0, 0, 7, 7, 7, 7, 7, 7, 7])]);
    let u = s.unrolled(7).unwrap();
    assert_eq!(series(&u, 1), vec![0, 0, 0, 0, 0, 0, 7, 0, 0, 0, 0, 0, 0]);
}

#[test]
fn unroll_carries_negative_steps() {
    let s = store_with(&[(1, vec![0, 5, 0, 7])]);
    let u = s.unrolled(2).unwrap();
    // slot 2 would be -5: it is carried and taken off slot 3 (12 - 5)
    assert_eq!(series(&u, 1), vec![0, 5, 0, 7]);
    let t = store_with(&[(1, vec![0, 5, 0, 3])]);
    let v = t.unrolled(2).unwrap();
    // slot 3 would be 3 + 5 = 8, less the carried 5
    assert_eq!(series(&v, 1), vec![0, 5, 0, 3]);
}

#[test]
fn rekey_fans_in() {
    let s = store_with(&[(1, vec![1, 2]), (2, vec![10, 20]), (3, vec![100, 200]), (4, vec![7, 7])]);
    let r = s.rekeyed(|k: &u32| if *k == 4 { None } else { Some((*k % 2) as u64) });
    assert_eq!(r.keys().len(), 2);
    assert_eq!(r.get(&1).unwrap().clone(), vec![101, 202]);
    assert_eq!(r.get(&0).unwrap().clone(), vec![10, 20]);
    assert_eq!(r.len(), s.len());
    assert_eq!(r.start(), s.start());
}

#[test]
fn synthesize_adds_an_aggregate() {
    let mut s = store_with(&[(1, vec![1, 2]), (2, vec![10, 20])]);
    s.synthesize(&vec![1, 2, 5], 9);
    assert_eq!(series(&s, 9), vec![11, 22]);
    assert_eq!(series(&s, 1), vec![1, 2]);
    s.synthesize(&vec![1], 9);
    assert_eq!(series(&s, 9), vec![11, 22]);
}

#[test]
fn cumsum_fits_detects_overflow() {
    let s = store_with(&[(1, vec![u64::MAX, 1])]);
    assert!(!s.cumsum_fits());
    let t = store_with(&[(1, vec![u64::MAX - 1, 1])]);
    assert!(t.cumsum_fits());
}

#[test]
fn clear_removes_keys() {
    let mut s = store_with(&[(1, vec![1, 2])]);
    s.clear();
    assert_eq!(s.keys().len(), 0);
    assert_eq!(s.len(), 2);
}

#[test]
fn right_fill_extends_the_last_value() {
    let mut s = store_with(&[(1, vec![0, 3, 0, 5, 0, 0]), (2, vec![0, 0, 0, 0, 0, 0]), (3, vec![1, 0, 0, 0, 0, 2])]);
    s.rfill_zeroes();
    assert_eq!(series(&s, 1), vec![0, 3, 0, 5, 5, 5]);
    assert_eq!(series(&s, 2), vec![0, 0, 0, 0, 0, 0]);
    assert_eq!(series(&s, 3), vec![1, 0, 0, 0, 0, 2]);
}

#[test]
fn find_first_slot_reaching_a_value() {
    let s = store_with(&[(1, vec![1, 4, 2, 9, 3])]);
    assert_eq!(s.find_ge(&1, 0, 4), Some(1));
    assert_eq!(s.find_ge(&1, 2, 4), Some(3));
    assert_eq!(s.find_ge(&1, 4, 4), None);
    assert_eq!(s.find_ge(&1, 9, 0), None);
    assert_eq!(s.find_ge(&2, 0, 0), None);
}

#[test]
fn add_matches_keys() {
    let mut s = store_with(&[(1, vec![1, 2]), (2, vec![3, 4])]);
    let o = store_with(&[(2, vec![10, 20]), (5, vec![7, 7])]);
    s.add(&o);
    assert_eq!(series(&s, 1), vec![1, 2]);
    assert_eq!(series(&s, 2), vec![13, 24]);
    assert!(s.get(&5).is_none());
}

#[test]
fn point_subtraction() {
    let mut s = store_with(&[(1, vec![5, 6]), (2, vec![3, 4])]);
    let o = store_with(&[(1, vec![2, 9]), (2, vec![1, 1])]);
    assert!(s.sub_at(1, &o, 0).is_ok());
    assert_eq!(series(&s, 1), vec![5, 4]);
    assert_eq!(series(&s, 2), vec![3, 3]);
    let e = s.sub_at(0, &o, 1).unwrap_err();
    assert_eq!(e.key, 1);
    assert_eq!(e.slot, 0);
    assert_eq!(e.value, 5);
    assert_eq!(series(&s, 1), vec![5, 4]);
}
