use covid_counters::calendar::Date;
use covid_counters::counters::CounterGroup;
use covid_counters::series::{Counters, TimeSeries};
use covid_counters::stream::{chunk_size, prepare_keyset, stream_dynamic, FieldDescriptor};
use covid_counters::views::{Diff, Filled, MovingSum, TimeMap, ViewTimeSeries};

const JAN1: i32 = 737425;

fn day(n: i32) -> Date {
    Date::from_ce_days(JAN1 + n)
}

fn store(rows: &[(u32, Vec<u64>)], len: i32) -> Counters<u32> {
    let mut s: Counters<u32> = TimeSeries::new(day(0), day(len));
    for (k, vals) in rows {
        for (i, v) in vals.iter().enumerate() {
            s.set_value(*k, i, *v);
        }
    }
    s
}

#[test]
fn series_view_values() {
    let stores = vec![store(&[(1, vec![3, 5, 9])], 3)];
    let v = ViewTimeSeries::Series(0);
    assert_eq!(v.getf(&stores, &1, day(1)), Some(5));
    assert_eq!(v.getf(&stores, &2, day(1)), Some(0));
    assert_eq!(v.getf(&stores, &1, day(3)), None);
    assert_eq!(v.getf(&stores, &1, day(-1)), None);
}

#[test]
fn diff_and_moving_sum_views() {
    let stores = vec![store(&[(1, vec![3, 5, 9, 10])], 4)];
    let d1 = ViewTimeSeries::Diff(Diff::padded(ViewTimeSeries::Series(0), 1, 0));
    assert_eq!(d1.getf(&stores, &1, day(0)), Some(3));
    assert_eq!(d1.getf(&stores, &1, day(2)), Some(4));
    let d2 = ViewTimeSeries::Diff(Diff { inner: Box::new(ViewTimeSeries::Series(0)), window: 2, pad: None });
    assert_eq!(d2.getf(&stores, &1, day(1)), None);
    assert_eq!(d2.getf(&stores, &1, day(3)), Some(5));
    let ms = ViewTimeSeries::MovingSum(MovingSum::new(ViewTimeSeries::Series(0), 3));
    assert_eq!(ms.getf(&stores, &1, day(3)), Some(24));
    assert_eq!(ms.getf(&stores, &1, day(0)), Some(3));
    assert_eq!(ms.getf(&stores, &1, day(4)), None);
}

#[test]
fn shift_clamp_and_filled_views() {
    let stores = vec![store(&[(1, vec![3, 5, 9, 10])], 4)];
    let sh = ViewTimeSeries::Shift(TimeMap::shift(ViewTimeSeries::Series(0), 2));
    assert_eq!(sh.getf(&stores, &1, day(0)), Some(9));
    assert_eq!(sh.getf(&stores, &1, day(2)), None);
    let cl = ViewTimeSeries::Shift(TimeMap::clamp(ViewTimeSeries::Series(0), Some(day(1)), Some(day(3))));
    assert_eq!(cl.getf(&stores, &1, day(0)), None);
    assert_eq!(cl.getf(&stores, &1, day(2)), Some(9));
    assert_eq!(cl.getf(&stores, &1, day(3)), None);
    let padded = ViewTimeSeries::Shift(TimeMap { inner: Box::new(ViewTimeSeries::Series(0)), by: 10, from: None, until: None, pad: Some(-1) });
    assert_eq!(padded.getf(&stores, &1, day(0)), Some(-1));
    let f = ViewTimeSeries::Filled(Filled::new(ViewTimeSeries::Series(0), day(1)));
    assert_eq!(f.getf(&stores, &1, day(400)), Some(5));
}

#[test]
fn counter_group_views() {
    let d1 = store(&[(1, vec![1, 2, 3, 4, 5, 6, 7, 8, 9])], 9);
    let g = CounterGroup::from_d1(d1).unwrap();
    assert_eq!(g.cum.get(&1).unwrap().clone(), vec![1, 3, 6, 10, 15, 21, 28, 36, 45]);
    let stores = vec![g.cum];
    let g2 = CounterGroup::from_cum(TimeSeries::<u32>::new(day(0), day(1)));
    assert_eq!(g2.d1(0).getf(&stores, &1, day(3)), Some(4));
    assert_eq!(g2.d7(0).getf(&stores, &1, day(8)), Some(42));
    assert_eq!(g2.d7(0).getf(&stores, &1, day(2)), Some(6));
    assert_eq!(g2.d7s7(0).getf(&stores, &1, day(8)), Some(3));
    assert_eq!(g2.d7s7(0).getf(&stores, &1, day(14)), Some(35));
    assert_eq!(g2.d7s7(0).getf(&stores, &1, day(3)), None);
    assert_eq!(g2.cum(0).getf(&stores, &1, day(1)), Some(3));
}

#[test]
fn counter_group_from_weekly_sums() {
    let d7 = store(&[(1, vec![1, 3, 3, 3, 3, 3, 3, 2])], 8);
    let g = CounterGroup::from_d7(d7).unwrap();
    // daily values 1, 2, 0, 0, 0, 0, 0, 0: a running total of 1, 3, 3, ...
    assert_eq!(g.cum.get(&1).unwrap().clone(), vec![1, 3, 3, 3, 3, 3, 3, 3]);
}

#[test]
fn chunk_sizes() {
    assert_eq!(chunk_size(1), 5000);
    assert_eq!(chunk_size(2), 2500);
    assert_eq!(chunk_size(6000), 1);
    assert_eq!(chunk_size(0), 5000);
}

#[test]
fn keyset_tags_are_escaped() {
    let ks = prepare_keyset(&vec![b"state".to_vec(), b"name".to_vec()], &vec![7u32], &vec![vec![b"BE".to_vec(), b"a b".to_vec()]]);
    assert_eq!(ks.len(), 1);
    assert_eq!(ks[0].0, 7);
    assert_eq!(String::from_utf8(ks[0].1.clone()).unwrap(), ",state=BE,name=a\\ b");
}

#[test]
fn lines_without_fields_are_left_out() {
    // two keys, three days; the field has no value on the third day
    let stores = vec![store(&[(1, vec![1, 2, 3]), (2, vec![4, 5, 6])], 3)];
    let view = ViewTimeSeries::Shift(TimeMap::clamp(ViewTimeSeries::Series(0), None, Some(day(2))));
    let fields = vec![FieldDescriptor::new(view, b"cases".to_vec())];
    assert_eq!(fields[0].name(), b"cases");
    let keyset = prepare_keyset(&vec![b"k".to_vec()], &vec![1u32, 2u32], &vec![vec![b"A".to_vec()], vec![b"B".to_vec()]]);
    let bodies = stream_dynamic(b"m", day(0), 3, &keyset, &fields, &stores);
    let text: String = bodies.iter().map(|b| String::from_utf8(b.clone()).unwrap()).collect();
    let lines: Vec<&str> = text.lines().collect();
    assert_eq!(lines.len(), 4);
    assert_eq!(lines[0], "m,k=A cases=1.0 1577836800");
    assert_eq!(lines[3], "m,k=B cases=5.0 1577923200");
}

#[test]
fn every_key_and_day_with_a_value_gets_a_line() {
    let stores = vec![store(&[(1, vec![1, 2, 3]), (2, vec![4, 5, 6])], 3)];
    let fields = vec![
        FieldDescriptor::new(ViewTimeSeries::Series(0), b"cum".to_vec()),
        FieldDescriptor::new(ViewTimeSeries::Diff(Diff { inner: Box::new(ViewTimeSeries::Series(0)), window: 1, pad: None }), b"d1".to_vec()),
    ];
    let keyset = prepare_keyset(&vec![b"k".to_vec()], &vec![1u32, 2u32], &vec![vec![b"A".to_vec()], vec![b"B".to_vec()]]);
    let bodies = stream_dynamic(b"m", day(0), 3, &keyset, &fields, &stores);
    // a body after the first day, then the rest
    assert_eq!(bodies.len(), 2);
    let text: String = bodies.iter().map(|b| String::from_utf8(b.clone()).unwrap()).collect();
    let lines: Vec<&str> = text.lines().collect();
    assert_eq!(lines.len(), 6);
    assert_eq!(lines[0], "m,k=A cum=1.0 1577836800");
    assert_eq!(lines[2], "m,k=A cum=2.0,d1=1.0 1577923200");
}
