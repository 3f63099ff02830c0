use katcp::address::SocketAddress;
use katcp::float::Float64;
use katcp::message::MessageParser;
use katcp::sampling::{Interval, Parameter, SamplingObserver, SamplingStrategy};
use katcp::sensor::{SensorReading, SensorStatus};

fn float(v: f64) -> Float64 {
    Float64::new(
        v.to_bits(),
        format!("{}", v),
        format!("{:.17e}", v),
        format!("{:.6}", v),
    )
}

fn interval(secs: u64, nanos: u32) -> Interval {
    Interval {
        secs,
        nanos,
        text: format!("{:.6}", secs as f64 + nanos as f64 / 1_000_000_000.0),
    }
}

fn parameter(text: &str) -> Option<Parameter> {
    let v: f64 = text.parse().ok()?;
    let whole = v as u64;
    let frac = ((v - whole as f64) * 1_000_000_000.0) as u32;
    Some(Parameter { number: float(v), interval: interval(whole, frac) })
}

fn parse(name: &str, params: &[&str]) -> Option<SamplingStrategy> {
    let params: Vec<Option<Parameter>> = params.iter().map(|p| parameter(p)).collect();
    SamplingStrategy::parse(name, &params)
}

fn test_addr() -> SocketAddress {
    SocketAddress {
        ip: "127.0.0.1".to_string(),
        port: 9999,
        flow: 0,
        scope: 0,
        text: "127.0.0.1:9999".to_string(),
    }
}

fn reading(time: f64, value: &[u8]) -> SensorReading {
    SensorReading::new(float(time), SensorStatus::Nominal, value.to_vec())
}

/// Whether a value is at least a difference away from the last that was sent.
fn moved(o: &SamplingObserver, value: &[u8], difference: f64) -> bool {
    let number = |b: &[u8]| -> f64 {
        std::str::from_utf8(b).unwrap_or("0").parse().unwrap_or(0.0)
    };
    match o.last_value() {
        Some(last) => (number(value) - number(last)).abs() >= difference,
        None => true,
    }
}

#[test]
fn test_parse_strategy() {
    assert_eq!(parse("none", &[]), Some(SamplingStrategy::NoSampling));
    assert_eq!(parse("auto", &[]), Some(SamplingStrategy::Auto));
    assert_eq!(parse("event", &[]), Some(SamplingStrategy::Event));

    match parse("period", &["1.5"]) {
        Some(SamplingStrategy::Period(i)) => {
            assert_eq!(i.secs, 1);
            assert!(i.nanos > 0);
        }
        other => panic!("expected Period, got {:?}", other),
    }

    assert_eq!(
        parse("differential", &["0.5"]),
        Some(SamplingStrategy::Differential(float(0.5)))
    );
}

#[test]
fn test_strategy_as_str() {
    assert_eq!(SamplingStrategy::NoSampling.as_str(), "none");
    assert_eq!(SamplingStrategy::Event.as_str(), "event");
    assert_eq!(SamplingStrategy::Period(interval(1, 0)).as_str(), "period");
}

#[test]
fn sampling_test_params_str() {
    assert_eq!(SamplingStrategy::NoSampling.params_str(), "");
    assert_eq!(SamplingStrategy::Period(interval(1, 0)).params_str(), "1.000000");
    assert_eq!(SamplingStrategy::Differential(float(0.5)).params_str(), "0.5");
}

#[test]
fn test_sampling_observer_event() {
    let mut obs =
        SamplingObserver::new("test-sensor".into(), SamplingStrategy::Event, test_addr());

    // First update should always send
    assert!(obs.on_update(&reading(1.0, b"10"), 1, false).is_some());

    // Same value should not send
    assert!(obs.on_update(&reading(2.0, b"10"), 2, false).is_none());

    // Different value should send
    assert!(obs.on_update(&reading(3.0, b"20"), 3, false).is_some());
}

#[test]
fn test_sampling_observer_none() {
    let mut obs =
        SamplingObserver::new("test-sensor".into(), SamplingStrategy::NoSampling, test_addr());
    assert!(obs.on_update(&reading(1.0, b"10"), 1, true).is_none());
}

#[test]
fn test_sampling_observer_differential() {
    let mut obs = SamplingObserver::new(
        "test-sensor".into(),
        SamplingStrategy::Differential(float(5.0)),
        test_addr(),
    );

    let m = moved(&obs, b"10", 5.0);
    assert!(obs.on_update(&reading(1.0, b"10"), 1, m).is_some()); // first always sends

    let m = moved(&obs, b"12", 5.0);
    assert!(obs.on_update(&reading(2.0, b"12"), 2, m).is_none()); // diff < 5

    let m = moved(&obs, b"20", 5.0);
    assert!(obs.on_update(&reading(3.0, b"20"), 3, m).is_some()); // diff >= 5
}

#[test]
fn what_is_sent_is_a_status_inform() {
    let mut obs =
        SamplingObserver::new("test-sensor".into(), SamplingStrategy::Auto, test_addr());
    let bytes = obs.on_update(&reading(1.5, b"10"), 1, false).unwrap();
    assert_eq!(bytes, b"#sensor-status 1.500000 1 test-sensor nominal 10\n");
    let msg = MessageParser::parse(&bytes[..bytes.len() - 1]).unwrap();
    assert_eq!(msg.arg_str(2), Some("test-sensor"));
    assert_eq!(obs.last_value(), Some(&b"10".to_vec()));
    assert_eq!(*obs.client_addr(), test_addr());
    assert_eq!(*obs.strategy(), SamplingStrategy::Auto);
}

#[test]
fn all_strategies_are_read_and_shown() {
    let rate = parse("event-rate", &["0.25", "10"]).unwrap();
    assert_eq!(rate.as_str(), "event-rate");
    assert_eq!(rate.params_str(), "0.250000 10.000000");
    let both = parse("differential-rate", &["1.5", "0.25", "10"]).unwrap();
    assert_eq!(both.as_str(), "differential-rate");
    assert_eq!(both.params_str(), "1.5 0.250000 10.000000");
    assert_eq!(both.clone(), both);
    assert_eq!(SamplingStrategy::Auto.as_str(), "auto");
    assert_eq!(SamplingStrategy::Differential(float(1.0)).as_str(), "differential");
}

#[test]
fn strategies_that_cannot_be_read() {
    assert_eq!(parse("sometimes", &[]), None);
    assert_eq!(parse("period", &[]), None);
    assert_eq!(parse("period", &["soon"]), None);
    assert_eq!(parse("differential", &["x"]), None);
    assert_eq!(parse("event-rate", &["1"]), None);
    assert_eq!(parse("event-rate", &["1", "x"]), None);
    assert_eq!(parse("differential-rate", &["1", "2"]), None);
}

#[test]
fn periods_are_kept() {
    let mut obs = SamplingObserver::new(
        "s".into(),
        SamplingStrategy::Period(interval(1, 500_000_000)),
        test_addr(),
    );
    assert!(obs.should_send(&reading(0.0, b"1"), 10, false));
    assert!(!obs.should_send(&reading(0.0, b"2"), 10 + 1_499_999_999, false));
    assert!(obs.should_send(&reading(0.0, b"2"), 10 + 1_500_000_000, false));
    assert!(!obs.should_send(&reading(0.0, b"3"), 10 + 1_500_000_001, false));
}

#[test]
fn event_rates_are_kept() {
    let mut obs = SamplingObserver::new(
        "s".into(),
        SamplingStrategy::EventRate(interval(1, 0), interval(10, 0)),
        test_addr(),
    );
    assert!(obs.should_send(&reading(0.0, b"1"), 0, false));
    assert!(!obs.should_send(&reading(0.0, b"2"), 999_999_999, false));
    assert!(obs.should_send(&reading(0.0, b"2"), 1_000_000_000, false));
    assert!(!obs.should_send(&reading(0.0, b"2"), 9_000_000_000, false));
}

#[test]
fn differential_rates_are_kept() {
    let mut obs = SamplingObserver::new(
        "s".into(),
        SamplingStrategy::DifferentialRate(float(5.0), interval(1, 0), interval(10, 0)),
        test_addr(),
    );
    assert!(obs.should_send(&reading(0.0, b"1"), 0, true));
    assert!(!obs.should_send(&reading(0.0, b"9"), 500_000_000, true));
    assert!(!obs.should_send(&reading(0.0, b"2"), 2_000_000_000, false));
    assert!(obs.should_send(&reading(0.0, b"9"), 2_000_000_000, true));
}

#[test]
fn intervals_that_do_not_fit() {
    assert!(interval(u64::MAX, 999_999_999).is_representable());
    assert!(!interval(u64::MAX, 1_000_000_000).is_representable());
    assert!(!SamplingStrategy::Period(interval(u64::MAX, u32::MAX)).is_representable());
    assert!(SamplingStrategy::Event.is_representable());
    assert!(SamplingStrategy::NoSampling.is_none());
    assert!(!SamplingStrategy::Event.is_none());
}

#[test]
fn the_first_update_is_sent_by_all_strategies_but_none() {
    for strategy in [
        SamplingStrategy::Auto,
        SamplingStrategy::Event,
        SamplingStrategy::Period(interval(9, 0)),
        SamplingStrategy::Differential(float(5.0)),
        SamplingStrategy::EventRate(interval(9, 0), interval(10, 0)),
        SamplingStrategy::DifferentialRate(float(5.0), interval(9, 0), interval(10, 0)),
    ] {
        let mut obs = SamplingObserver::new("s".into(), strategy, test_addr());
        assert!(obs.should_send(&reading(0.0, b"1"), 0, false));
        assert!(!obs.should_send(&reading(0.0, b"1"), 1, false));
    }
    let mut obs = SamplingObserver::new("s".into(), SamplingStrategy::NoSampling, test_addr());
    assert!(!obs.should_send(&reading(0.0, b"1"), 0, true));
    assert!(!obs.should_send(&reading(0.0, b"2"), 1, true));
}
