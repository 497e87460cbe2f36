use covid_counters::lineproto::{
    write_escaped, write_measurement, write_name, write_str, FieldValue, Precision, Readout, Sample, Timestamp,
};

fn measurement(s: &str) -> String {
    let mut w = Vec::new();
    write_measurement(&mut w, s.as_bytes());
    String::from_utf8(w).unwrap()
}

fn name(s: &str) -> String {
    let mut w = Vec::new();
    write_name(&mut w, s.as_bytes());
    String::from_utf8(w).unwrap()
}

fn unescape(s: &str) -> String {
    let mut out = String::new();
    let mut chars = s.chars();
    while let Some(c) = chars.next() {
        if c == '\\' {
            if let Some(n) = chars.next() {
                out.push(n);
                continue;
            }
        }
        out.push(c);
    }
    out
}

#[test]
fn measurement_and_tag_escaping() {
    let mut line = measurement("a,b c");
    line.push(',');
    line.push_str(&name("k=v"));
    line.push('=');
    line.push_str(&name("x y"));
    assert_eq!(line, "a\\,b\\ c,k\\=v=x\\ y");
    assert_eq!(measurement("x=y"), "x=y");
    assert_eq!(measurement("t\tn\nr\r\\"), "t\\\tn\\\nr\\\r\\\\");
}

#[test]
fn escaping_round_trips() {
    let samples = ["plain", "a,b c", "k=v", "\\\\", "tab\there", "line\nfeed\r", " , = \\ ", ""];
    for s in samples.iter() {
        assert_eq!(unescape(&name(s)), *s);
        assert_eq!(unescape(&measurement(s)), *s);
    }
    let mut all = String::new();
    for b in 0x20u8..0x7f {
        all.push(b as char);
    }
    all.push_str("\t\n\r");
    assert_eq!(unescape(&name(&all)), all);
}

#[test]
fn escaped_with_a_custom_set() {
    let mut w = Vec::new();
    write_escaped(&mut w, b"a-b", b"-");
    assert_eq!(w, b"a\\-b".to_vec());
}

#[test]
fn string_values_are_quoted() {
    let mut w = Vec::new();
    write_str(&mut w, b"say \"hi\" \\o/");
    assert_eq!(String::from_utf8(w).unwrap(), "\"say \\\"hi\\\" \\\\o/\"");
}

fn stamp(p: Precision, secs: i64, nanos: u32) -> String {
    let mut w = Vec::new();
    p.encode_timestamp(&mut w, &Timestamp { secs, subsec_nanos: nanos });
    String::from_utf8(w).unwrap()
}

#[test]
fn timestamps_in_each_precision() {
    assert_eq!(stamp(Precision::Seconds, 1577836800, 5), "1577836800");
    assert_eq!(stamp(Precision::Milliseconds, 12, 5_000_000), "12005");
    assert_eq!(stamp(Precision::Microseconds, 12, 5_000), "12000005");
    assert_eq!(stamp(Precision::Nanoseconds, 12, 5), "12000000005");
    assert_eq!(stamp(Precision::Seconds, -3, 0), "-3");
}

#[test]
fn sub_second_field_is_clamped() {
    assert_eq!(stamp(Precision::Nanoseconds, 7, 999_999_999), "7999999999");
    assert_eq!(stamp(Precision::Nanoseconds, 7, 1_500_000_000), "7999999999");
    assert_eq!(stamp(Precision::Milliseconds, 7, 1_999_000_000), "7999");
    assert_eq!(stamp(Precision::Microseconds, 7, 1_000_000_000), "7999999");
}

#[test]
fn precision_names() {
    assert_eq!(Precision::Nanoseconds.value(), "ns");
    assert_eq!(Precision::Microseconds.value(), "u");
    assert_eq!(Precision::Milliseconds.value(), "ms");
    assert_eq!(Precision::Seconds.value(), "s");
}

#[test]
fn field_values() {
    let mut w = Vec::new();
    FieldValue::Integer(-42).write_into(&mut w);
    w.push(b' ');
    FieldValue::Bool(true).write_into(&mut w);
    w.push(b' ');
    FieldValue::Bool(false).write_into(&mut w);
    w.push(b' ');
    FieldValue::String(b"a\"b".to_vec()).write_into(&mut w);
    assert_eq!(String::from_utf8(w).unwrap(), "-42i true false \"a\\\"b\"");
}

#[test]
fn readout_lines() {
    let r = Readout {
        ts: Timestamp { secs: 100, subsec_nanos: 0 },
        measurement: b"m x".to_vec(),
        precision: Precision::Seconds,
        tags: vec![b"state".to_vec(), b"district".to_vec()],
        fields: vec![b"cases".to_vec(), b"ok".to_vec()],
        samples: vec![
            Sample { tagv: vec![b"A".to_vec(), b"B C".to_vec()], fieldv: vec![FieldValue::Integer(3), FieldValue::Bool(true)] },
            Sample { tagv: vec![b"D".to_vec()], fieldv: vec![FieldValue::Integer(0)] },
        ],
    };
    let mut w = Vec::new();
    r.write(&mut w);
    assert_eq!(
        String::from_utf8(w).unwrap(),
        "m\\ x,state=A,district=B\\ C cases=3i,ok=true 100\nm\\ x,state=D cases=0i 100\n"
    );
}
