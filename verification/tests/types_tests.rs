use katcp::address::SocketAddress;
use katcp::float::Float64;
use katcp::types::{
    decode_timestamp, encode_timestamp, KatcpType, KatcpValue, TextReading, TypeError,
};

fn float(v: f64) -> Float64 {
    Float64::new(
        v.to_bits(),
        format!("{}", v),
        format!("{:.17e}", v),
        format!("{:.6}", v),
    )
}

fn value(f: &Float64) -> f64 {
    f64::from_bits(f.bits)
}

fn number_in(data: &[u8]) -> Option<Float64> {
    std::str::from_utf8(data)
        .unwrap_or("")
        .parse::<f64>()
        .ok()
        .map(float)
}

fn reading(data: &[u8]) -> TextReading {
    TextReading { float: number_in(data), address: None }
}

fn decode(t: &KatcpType, data: &[u8]) -> Result<KatcpValue, TypeError> {
    t.decode(data, reading(data))
}

fn local(port: u16) -> SocketAddress {
    SocketAddress {
        ip: "127.0.0.1".to_string(),
        port,
        flow: 0,
        scope: 0,
        text: format!("127.0.0.1:{}", port),
    }
}

#[test]
fn test_int_encode_decode() {
    let t = KatcpType::Int { min: None, max: None };
    let encoded = t.encode(&KatcpValue::Int(42)).unwrap();
    assert_eq!(encoded, b"42");
    let decoded = decode(&t, &encoded).unwrap();
    assert_eq!(decoded, KatcpValue::Int(42));
}

#[test]
fn test_int_range() {
    let t = KatcpType::Int { min: Some(0), max: Some(100) };
    assert!(t.encode(&KatcpValue::Int(50)).is_ok());
    assert!(t.encode(&KatcpValue::Int(-1)).is_err());
    assert!(t.encode(&KatcpValue::Int(101)).is_err());
}

#[test]
fn test_float_encode_decode() {
    let t = KatcpType::Float { min: None, max: None };
    let encoded = t.encode(&KatcpValue::Float(float(3.14))).unwrap();
    let decoded = decode(&t, &encoded).unwrap();
    match decoded {
        KatcpValue::Float(v) => assert!((value(&v) - 3.14).abs() < 1e-10),
        _ => panic!("expected float"),
    }
}

#[test]
fn test_bool_encode_decode() {
    let t = KatcpType::Bool;
    assert_eq!(t.encode(&KatcpValue::Bool(true)).unwrap(), b"1");
    assert_eq!(t.encode(&KatcpValue::Bool(false)).unwrap(), b"0");
    assert_eq!(decode(&t, b"1").unwrap(), KatcpValue::Bool(true));
    assert_eq!(decode(&t, b"0").unwrap(), KatcpValue::Bool(false));
    assert!(decode(&t, b"yes").is_err());
}

#[test]
fn test_str_encode_decode() {
    let t = KatcpType::Str;
    let encoded = t.encode(&KatcpValue::Str("hello".into())).unwrap();
    assert_eq!(encoded, b"hello");
    assert_eq!(
        decode(&t, b"hello").unwrap(),
        KatcpValue::Str("hello".into())
    );
}

#[test]
fn test_discrete() {
    let t = KatcpType::Discrete { values: vec!["on".into(), "off".into()] };
    assert!(t.encode(&KatcpValue::Str("on".into())).is_ok());
    assert!(t.encode(&KatcpValue::Str("maybe".into())).is_err());
}

#[test]
fn test_timestamp() {
    let t = KatcpType::Timestamp;
    let encoded = t
        .encode(&KatcpValue::Timestamp(float(1234567890.123456)))
        .unwrap();
    let s = std::str::from_utf8(&encoded).unwrap();
    assert!(s.contains("1234567890.123456"));
}

#[test]
fn test_lru() {
    let t = KatcpType::Lru;
    assert_eq!(t.encode(&KatcpValue::Lru(true)).unwrap(), b"nominal");
    assert_eq!(t.encode(&KatcpValue::Lru(false)).unwrap(), b"error");
    assert_eq!(decode(&t, b"nominal").unwrap(), KatcpValue::Lru(true));
    assert_eq!(decode(&t, b"error").unwrap(), KatcpValue::Lru(false));
}

#[test]
fn integers_out_of_range_are_told_with_the_range() {
    let t = KatcpType::Int { min: Some(0), max: None };
    match t.encode(&KatcpValue::Int(-5)) {
        Err(TypeError::OutOfRange(v, lo, hi)) => {
            assert_eq!(v, "-5");
            assert_eq!(lo, "0");
            assert_eq!(hi, i64::MAX.to_string());
        }
        other => panic!("{:?}", other),
    }
    let t = KatcpType::Int { min: None, max: Some(7) };
    match decode(&t, b"8") {
        Err(TypeError::OutOfRange(v, lo, hi)) => {
            assert_eq!(v, "8");
            assert_eq!(lo, i64::MIN.to_string());
            assert_eq!(hi, "7");
        }
        other => panic!("{:?}", other),
    }
}

#[test]
fn floats_out_of_range_are_told_with_the_range() {
    let t = KatcpType::Float { min: Some(float(-1.5)), max: None };
    match t.encode(&KatcpValue::Float(float(-2.0))) {
        Err(TypeError::OutOfRange(v, lo, hi)) => {
            assert_eq!(v, "-2");
            assert_eq!(lo, "-1.5");
            assert_eq!(hi, f64::MAX.to_string());
        }
        other => panic!("{:?}", other),
    }
    let t = KatcpType::Float { min: None, max: Some(float(0.5)) };
    match decode(&t, b"1e3") {
        Err(TypeError::OutOfRange(v, lo, hi)) => {
            assert_eq!(v, "1000");
            assert_eq!(lo, f64::MIN.to_string());
            assert_eq!(hi, "0.5");
        }
        other => panic!("{:?}", other),
    }
    assert!(decode(&t, b"0.5").is_ok());
    assert!(decode(&t, b"NaN").is_ok());
}

#[test]
fn float_comparison_is_that_of_the_numbers() {
    let values = [
        f64::NEG_INFINITY, f64::MIN, -2.5, -1.0, -f64::MIN_POSITIVE, -0.0, 0.0,
        f64::MIN_POSITIVE, 1.0, 2.5, f64::MAX, f64::INFINITY, f64::NAN, -f64::NAN,
    ];
    for a in values {
        for b in values {
            assert_eq!(float(a).is_below(&float(b)), a < b, "{} {}", a, b);
            assert_eq!(float(a) == float(b), a == b, "{} {}", a, b);
        }
    }
    assert_eq!(value(&Float64::zero()), 0.0);
    assert_eq!(Float64::zero().display, format!("{}", 0.0));
    assert_eq!(Float64::zero().scientific, format!("{:.17e}", 0.0));
    assert_eq!(Float64::zero().fixed, format!("{:.6}", 0.0));
}

#[test]
fn integers_are_read_as_decimal_numbers() {
    let t = KatcpType::Int { min: None, max: None };
    for text in [
        "0", "-0", "+7", "007", "9223372036854775807", "-9223372036854775808",
        "9223372036854775808", "-9223372036854775809", "", "-", "+", " 1", "1x", "99999999999999999999",
    ] {
        match (decode(&t, text.as_bytes()), text.parse::<i64>()) {
            (Ok(KatcpValue::Int(v)), Ok(w)) => assert_eq!(v, w),
            (Err(TypeError::InvalidInt(s)), Err(_)) => assert_eq!(s, text),
            (other, _) => panic!("{}: {:?}", text, other),
        }
    }
    for v in [0, 1, -1, 9, 10, -10, 1234567890, i64::MAX, i64::MIN] {
        assert_eq!(
            t.encode(&KatcpValue::Int(v)).unwrap(),
            v.to_string().into_bytes()
        );
    }
}

#[test]
fn each_type_error_has_an_input() {
    let float_type = KatcpType::Float { min: None, max: None };
    assert!(matches!(
        decode(&float_type, b"abc"),
        Err(TypeError::InvalidFloat(s)) if s == "abc"
    ));
    assert!(matches!(
        decode(&KatcpType::Bool, b"yes"),
        Err(TypeError::InvalidBool(s)) if s == "yes"
    ));
    assert!(matches!(
        decode(&KatcpType::Lru, b"fine"),
        Err(TypeError::InvalidBool(s)) if s == "fine"
    ));
    assert!(matches!(
        decode(&KatcpType::Timestamp, b"noon"),
        Err(TypeError::InvalidTimestamp(s)) if s == "noon"
    ));
    assert!(matches!(
        decode(&KatcpType::Address, b"nowhere"),
        Err(TypeError::InvalidAddress(s)) if s == "nowhere"
    ));
    let discrete = KatcpType::Discrete { values: vec!["on".into(), "off".into()] };
    match decode(&discrete, b"maybe") {
        Err(TypeError::InvalidDiscrete(v, all)) => {
            assert_eq!(v, "maybe");
            assert_eq!(all, vec!["on".to_string(), "off".to_string()]);
        }
        other => panic!("{:?}", other),
    }
    assert!(matches!(
        KatcpType::Bool.encode(&KatcpValue::Int(1)),
        Err(TypeError::InvalidInt(s)) if s == "type mismatch"
    ));
}

#[test]
fn bytes_that_are_not_text_read_as_nothing() {
    assert_eq!(
        decode(&KatcpType::Str, &[0xff]).unwrap(),
        KatcpValue::Str(String::new())
    );
    assert_eq!(
        KatcpType::Str.encode(&KatcpValue::Bytes(vec![0xff])).unwrap(),
        vec![0xff]
    );
}

#[test]
fn addresses_are_written_as_ip_and_port() {
    let t = KatcpType::Address;
    assert_eq!(
        t.encode(&KatcpValue::Address(local(7147))).unwrap(),
        b"127.0.0.1:7147"
    );
    let r = TextReading { float: None, address: Some(local(7147)) };
    assert_eq!(
        t.decode(b"127.0.0.1:7147", r).unwrap(),
        KatcpValue::Address(local(7147))
    );
    assert!(t.decode(b"x", TextReading::none()).is_err());
}

#[test]
fn timestamps_have_six_digits() {
    assert_eq!(encode_timestamp(&float(1.5)), b"1.500000");
    assert_eq!(
        value(&decode_timestamp(b"1.5", number_in(b"1.5")).unwrap()),
        1.5
    );
    assert!(matches!(
        decode_timestamp(b"x", number_in(b"x")),
        Err(TypeError::InvalidTimestamp(s)) if s == "x"
    ));
}

#[test]
fn copies_are_equal() {
    let v = KatcpValue::Address(local(1));
    assert_eq!(v.clone(), v);
    let t = KatcpType::Discrete { values: vec!["a".into()] };
    assert_eq!(format!("{:?}", t.clone()), format!("{:?}", t));
}

#[test]
fn values_of_each_type_are_read_back() {
    let free = KatcpType::Float { min: None, max: None };
    for v in [0.0, -0.0, 0.1, 3.14, -1e300, f64::MIN_POSITIVE, f64::MAX, f64::INFINITY] {
        let bytes = free.encode(&KatcpValue::Float(float(v))).unwrap();
        match decode(&free, &bytes).unwrap() {
            KatcpValue::Float(back) => assert_eq!(back.bits, v.to_bits()),
            other => panic!("{:?}", other),
        }
    }
    let bytes = KatcpType::Timestamp
        .encode(&KatcpValue::Timestamp(float(1.25)))
        .unwrap();
    assert_eq!(
        decode(&KatcpType::Timestamp, &bytes).unwrap(),
        KatcpValue::Timestamp(float(1.25))
    );
}
