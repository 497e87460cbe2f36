use covid_counters::districts::{find_berlin_districts, inject_berlin, remap_berlin, DistrictInfo, StateInfo};
use covid_counters::influx::{basic_header_from, check_status, Auth, WriteError};
use covid_counters::progress::{CountMeter, NullSink, Report, Status, StepMeter, SummarySink};
use covid_counters::records::GeoCaseKey;

#[test]
fn basic_auth_header() {
    let a = Auth::HTTP { username: b"user".to_vec(), password: b"pass".to_vec() };
    assert_eq!(a.header_value(), Some(b"Basic dXNlcjpwYXNz".to_vec()));
    assert_eq!(Auth::Anonymous.header_value(), None);
    assert_eq!(Auth::Query { username: b"u".to_vec(), password: b"p".to_vec() }.header_value(), None);
    assert_eq!(basic_header_from(b"QQ=="), b"Basic QQ==".to_vec());
}

#[test]
fn status_codes() {
    assert_eq!(check_status(204), Ok(()));
    assert_eq!(check_status(200), Err(WriteError::UnexpectedSuccessStatus));
    assert_eq!(check_status(401), Err(WriteError::PermissionError));
    assert_eq!(check_status(403), Err(WriteError::PermissionError));
    assert_eq!(check_status(400), Err(WriteError::DataError));
    assert_eq!(check_status(413), Err(WriteError::DataError));
    assert_eq!(check_status(404), Err(WriteError::DatabaseNotFound));
    assert_eq!(check_status(500), Err(WriteError::Status(500)));
    assert_eq!(check_status(301), Err(WriteError::UnexpectedSuccessStatus));
    assert_eq!(check_status(101), Err(WriteError::UnexpectedSuccessStatus));
}

#[test]
fn summary_of_the_last_report() {
    let mut s = SummarySink::new();
    assert_eq!(s.finish(), None);
    s.update(Status::Count(3), 100);
    s.update(Status::Step(7, 10), 1234);
    assert_eq!(String::from_utf8(s.finish().unwrap()).unwrap(), "... processed 7 items in 12.34 seconds\n");
    assert_eq!(s.finish(), None);
    assert_eq!(Status::Count(5).count(), Some(5));
    let mut n = NullSink();
    n.update(Status::Count(1), 0);
    n.finish();
}

fn district(id: u32, state: u32, population: u64) -> DistrictInfo {
    DistrictInfo { id, name: format!("d{}", id), state: StateInfo { id: state, name: format!("s{}", state) }, population }
}

#[test]
fn berlin_districts() {
    assert_eq!(remap_berlin(11004), 11000);
    assert_eq!(remap_berlin(12001), 12001);
    let mut ds = vec![district(11001, 11, 10), district(1001, 1, 5), district(11002, 11, 20), district(11000, 11, 99)];
    let keys = find_berlin_districts(&ds);
    assert_eq!(keys.len(), 3);
    assert_eq!(keys[0], GeoCaseKey { state_id: 11, district_id: 11001 });
    let states = vec![StateInfo { id: 1, name: "s1".to_string() }, StateInfo { id: 11, name: "Berlin".to_string() }];
    inject_berlin(&states, &mut ds);
    assert_eq!(ds.len(), 4);
    let b = ds.last().unwrap();
    assert_eq!(b.id, 11000);
    assert_eq!(b.population, 129);
    assert_eq!(b.name, "SK Berlin");
    assert_eq!(b.state.name, "Berlin");
}

#[test]
fn step_and_count_meters() {
    let mut m = StepMeter::new(10, 1_000);
    assert_eq!(m.update(4, 3_000), Report { status: Status::Step(4, 10), elapsed_nanos: 2_000, items: 4, window_nanos: 2_000 });
    assert_eq!(m.update(6, 4_000), Report { status: Status::Step(6, 10), elapsed_nanos: 3_000, items: 2, window_nanos: 1_000 });
    assert_eq!(m.finish(9_000), Report { status: Status::Step(10, 10), elapsed_nanos: 8_000, items: 10, window_nanos: 8_000 });
    let mut c = CountMeter::new(0);
    assert_eq!(c.update(500, 10), Report { status: Status::Count(500), elapsed_nanos: 10, items: 500, window_nanos: 10 });
    assert_eq!(c.finish(700, 30), Report { status: Status::Count(700), elapsed_nanos: 30, items: 700, window_nanos: 30 });
}
