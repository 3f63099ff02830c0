use katcp::address::SocketAddress;
use katcp::float::Float64;
use katcp::sampling::{Interval, SamplingObserver, SamplingStrategy};
use katcp::sensor::{
    Moment, Notice, Observer, Sensor, SensorReading, SensorStatus, SensorType,
};

fn float(v: f64) -> Float64 {
    Float64::new(
        v.to_bits(),
        format!("{}", v),
        format!("{:.17e}", v),
        format!("{:.6}", v),
    )
}

fn moment(s: &Sensor) -> Moment {
    Moment { wall: float(100.0), now: 0, moved: vec![false; s.observers.len()] }
}

fn local(port: u16) -> SocketAddress {
    SocketAddress {
        ip: "127.0.0.1".to_string(),
        port,
        flow: 0,
        scope: 0,
        text: format!("127.0.0.1:{}", port),
    }
}

fn sampler(port: u16) -> Observer {
    Observer::Sampling(SamplingObserver::new(
        "x".into(),
        SamplingStrategy::Event,
        local(port),
    ))
}

#[test]
fn test_integer_sensor() {
    let mut s = Sensor::integer("count", "A counter", "count", Some(0), Some(100), 0);
    assert_eq!(s.name, "count");
    assert_eq!(s.sensor_type, SensorType::Integer);

    let m = moment(&s);
    s.set_int(42, SensorStatus::Nominal, &m);
    let r = s.read();
    assert_eq!(r.status, SensorStatus::Nominal);
    assert_eq!(r.value, b"42");
}

#[test]
fn test_float_sensor() {
    let mut s = Sensor::float(
        "temp",
        "Temperature",
        "C",
        Some(float(-40.0)),
        Some(float(80.0)),
        float(20.0),
    );
    let m = moment(&s);
    s.set_float(float(25.5), SensorStatus::Nominal, &m);
    let r = s.read();
    assert_eq!(r.status, SensorStatus::Nominal);
    let val: f64 = std::str::from_utf8(&r.value).unwrap().parse().unwrap();
    assert!((val - 25.5).abs() < 1e-10);
}

#[test]
fn test_boolean_sensor() {
    let mut s = Sensor::boolean("flag", "A flag", "", false);
    let m = moment(&s);
    s.set_bool(true, SensorStatus::Nominal, &m);
    assert_eq!(s.read().value, b"1");
    s.set_bool(false, SensorStatus::Warn, &m);
    assert_eq!(s.read().value, b"0");
    assert_eq!(s.read().status, SensorStatus::Warn);
}

#[test]
fn test_discrete_sensor() {
    let mut s = Sensor::discrete(
        "mode",
        "Operating mode",
        "",
        vec!["idle".into(), "running".into(), "error".into()],
        "idle",
    );
    assert_eq!(s.sensor_type, SensorType::Discrete);
    let m = moment(&s);
    s.set_str("running", SensorStatus::Nominal, &m);
    assert_eq!(s.read().value, b"running");
}

#[test]
fn test_string_sensor() {
    let mut s = Sensor::string("label", "A label", "", "");
    let m = moment(&s);
    s.set_str("hello world", SensorStatus::Nominal, &m);
    assert_eq!(s.read().value, b"hello world");
}

#[test]
fn test_read_formatted() {
    let mut s = Sensor::integer("x", "", "", None, None, 0);
    let m = moment(&s);
    s.set_value(
        b"99".to_vec(),
        SensorStatus::Warn,
        Some(float(1234567890.123456)),
        &m,
    );
    let (ts, status, val) = s.read_formatted();
    assert_eq!(ts, b"1234567890.123456");
    assert_eq!(status, b"warn");
    assert_eq!(val, b"99");
}

#[test]
fn test_sensor_observer() {
    let mut s = Sensor::integer("x", "", "", None, None, 0);
    s.attach(Observer::External { handle: 7, client: None });
    let m = moment(&s);
    let mut called = false;
    for notice in s.set_int(1, SensorStatus::Nominal, &m) {
        if let Notice::Call { handle: 7 } = notice {
            called = true;
        }
    }
    assert!(called);
}

#[test]
fn test_sensor_status_roundtrip() {
    for status in [
        SensorStatus::Unknown,
        SensorStatus::Nominal,
        SensorStatus::Warn,
        SensorStatus::Error,
        SensorStatus::Failure,
        SensorStatus::Unreachable,
        SensorStatus::Inactive,
    ] {
        let s = status.as_str();
        assert_eq!(SensorStatus::from_str(s), Some(status));
    }
}

#[test]
fn sensor_test_params_str() {
    let s = Sensor::integer("x", "", "", Some(0), Some(100), 0);
    assert_eq!(s.params_str(), "0 100");

    let s = Sensor::discrete("m", "", "", vec!["a".into(), "b".into()], "a");
    assert_eq!(s.params_str(), "a b");

    let s = Sensor::string("s", "", "", "");
    assert_eq!(s.params_str(), "");
}

#[test]
fn names_of_statuses_and_types() {
    assert_eq!(SensorStatus::Unreachable.as_str(), "unreachable");
    assert_eq!(SensorStatus::from_str("Nominal"), None);
    assert_eq!(SensorType::Integer.as_str(), "integer");
    assert_eq!(SensorType::Float.as_str(), "float");
    assert_eq!(SensorType::Boolean.as_str(), "boolean");
    assert_eq!(SensorType::Lru.as_str(), "lru");
    assert_eq!(SensorType::Discrete.as_str(), "discrete");
    assert_eq!(SensorType::String.as_str(), "string");
    assert_eq!(SensorType::Timestamp.as_str(), "timestamp");
    assert_eq!(SensorType::Address.as_str(), "address");
}

#[test]
fn first_readings() {
    let s = Sensor::integer("x", "", "", None, None, -7);
    let (ts, status, val) = s.read_formatted();
    assert_eq!(ts, b"0.000000");
    assert_eq!(status, b"unknown");
    assert_eq!(val, b"-7");
    assert_eq!(Sensor::boolean("x", "", "", true).read().value, b"1");
    assert_eq!(Sensor::lru("x", "", "", true).read().value, b"nominal");
    assert_eq!(Sensor::lru("x", "", "", false).read().value, b"error");
    assert_eq!(
        Sensor::timestamp("x", "", "", float(2.5)).read().value,
        b"2.500000"
    );
    assert_eq!(
        Sensor::float("x", "", "", None, None, float(2.5)).read().value,
        format!("{:.17e}", 2.5).into_bytes()
    );
    assert_eq!(Sensor::string("x", "", "", "text").read().value, b"text");
}

#[test]
fn bounds_are_shown_as_far_as_there_are_any() {
    assert_eq!(Sensor::integer("x", "", "", Some(-1), None, 0).params_str(), "-1");
    assert_eq!(Sensor::integer("x", "", "", None, Some(5), 0).params_str(), "5");
    assert_eq!(Sensor::integer("x", "", "", None, None, 0).params_str(), "");
    let s = Sensor::float("x", "", "", Some(float(-40.0)), Some(float(85.0)), float(0.0));
    assert_eq!(s.params_str(), format!("{:.17e} {:.17e}", -40.0, 85.0));
}

#[test]
fn without_a_time_an_update_has_the_time_of_day() {
    let mut s = Sensor::string("x", "", "", "");
    let m = moment(&s);
    s.set_str("a", SensorStatus::Nominal, &m);
    assert_eq!(s.read_formatted().0, b"100.000000");
}

#[test]
fn observers_are_told_in_order() {
    let mut s = Sensor::integer("x", "", "", None, None, 0);
    s.attach(Observer::External { handle: 1, client: None });
    s.attach(sampler(5));
    s.attach(Observer::External { handle: 2, client: None });
    assert!(s.can_update());
    let m = moment(&s);
    let notices = s.set_int(3, SensorStatus::Nominal, &m);
    assert_eq!(notices.len(), 3);
    assert!(matches!(notices[0], Notice::Call { handle: 1 }));
    match &notices[1] {
        Notice::Deliver { client, bytes } => {
            assert_eq!(*client, local(5));
            assert_eq!(*bytes, b"#sensor-status 100.000000 1 x nominal 3\n".to_vec());
        }
        _ => panic!("nothing to deliver"),
    }
    assert!(matches!(notices[2], Notice::Call { handle: 2 }));
    // The value is the same: the client is not told again.
    assert_eq!(s.set_int(3, SensorStatus::Nominal, &m).len(), 2);
}

#[test]
fn detaching_one_client_leaves_the_others() {
    let mut s = Sensor::integer("x", "", "", None, None, 0);
    s.attach(sampler(1));
    s.attach(sampler(2));
    s.attach(Observer::External { handle: 9, client: Some(local(1)) });
    s.attach(Observer::External { handle: 8, client: None });
    s.attach(sampler(1));
    s.detach_client(&local(1));
    assert_eq!(s.observers.len(), 2);
    let m = moment(&s);
    let notices = s.set_int(3, SensorStatus::Nominal, &m);
    match &notices[0] {
        Notice::Deliver { client, bytes: _ } => assert_eq!(*client, local(2)),
        _ => panic!("nothing to deliver"),
    }
    assert!(matches!(notices[1], Notice::Call { handle: 8 }));
}

#[test]
fn intervals_that_do_not_fit_forbid_updates() {
    let mut s = Sensor::integer("x", "", "", None, None, 0);
    s.attach(Observer::Sampling(SamplingObserver::new(
        "x".into(),
        SamplingStrategy::Period(Interval {
            secs: u64::MAX,
            nanos: 1_000_000_000,
            text: "1".into(),
        }),
        local(1),
    )));
    assert!(!s.can_update());
}

#[test]
fn readings_are_copied() {
    let r = SensorReading::new(float(1.0), SensorStatus::Error, b"v".to_vec());
    let c = r.clone();
    assert_eq!(c.status, SensorStatus::Error);
    assert_eq!(c.value, b"v");
    assert_eq!(c.timestamp.fixed, "1.000000");
}
