use katcp::protocol::{FlagSet, ProtocolFlag, ProtocolFlags};

#[test]
fn test_parse_version() {
    let pf = ProtocolFlags::parse("5.0-MI").unwrap();
    assert_eq!(pf.major, 5);
    assert_eq!(pf.minor, 0);
    assert!(pf.has_message_ids());
    assert!(pf.has_multi_client());
}

#[test]
fn test_parse_version_no_flags() {
    let pf = ProtocolFlags::parse("5.0").unwrap();
    assert_eq!(pf.major, 5);
    assert_eq!(pf.minor, 0);
    assert!(!pf.has_message_ids());
}

#[test]
fn protocol_test_display() {
    let pf = ProtocolFlags::default_v5();
    let s = pf.to_string();
    assert!(s.starts_with("5.0-"));
    assert!(s.contains('M'));
    assert!(s.contains('I'));
}

#[test]
fn test_parse_roundtrip() {
    let pf = ProtocolFlags::default_v5();
    let s = pf.to_string();
    let pf2 = ProtocolFlags::parse(&s).unwrap();
    assert_eq!(pf2.major, pf.major);
    assert_eq!(pf2.minor, pf.minor);
    assert_eq!(pf2.flags, pf.flags);
}

#[test]
fn versions_are_shown_with_letters_in_order() {
    assert_eq!(ProtocolFlags::default_v5().to_string(), "5.0-IM");
    assert_eq!(ProtocolFlags::minimal_v5().to_string(), "5.0");
    let mut flags = FlagSet::new();
    flags.insert(ProtocolFlag::BulkSetSensorSampling);
    let p = ProtocolFlags::new(12, 345, flags);
    assert_eq!(
        p.to_string(),
        format!("12.345-{}", ProtocolFlag::BulkSetSensorSampling.to_char())
    );
    assert!(p.supports(ProtocolFlag::BulkSetSensorSampling));
    assert!(!p.supports(ProtocolFlag::MultiClient));
}

#[test]
fn letters_stand_for_flags() {
    assert_eq!(ProtocolFlag::MultiClient.to_char(), 'M');
    assert_eq!(ProtocolFlag::MessageIds.to_char(), 'I');
    assert_eq!(ProtocolFlag::from_char('M'), Some(ProtocolFlag::MultiClient));
    assert_eq!(ProtocolFlag::from_char('I'), Some(ProtocolFlag::MessageIds));
    assert_eq!(ProtocolFlag::from_char('?'), None);
}

#[test]
fn what_is_no_version() {
    assert!(ProtocolFlags::parse("").is_none());
    assert!(ProtocolFlags::parse("x.0").is_none());
    assert!(ProtocolFlags::parse("5.").is_none());
    assert!(ProtocolFlags::parse("5.4294967296").is_none());
    assert!(ProtocolFlags::parse("5.4294967295").is_some());
}

#[test]
fn what_a_version_may_lack_or_have() {
    let p = ProtocolFlags::parse("5").unwrap();
    assert_eq!((p.major, p.minor), (5, 0));
    let p = ProtocolFlags::parse("5.1.9").unwrap();
    assert_eq!((p.major, p.minor), (5, 1));
    assert!(!ProtocolFlags::parse("5-").unwrap().has_multi_client());
}

#[test]
fn unknown_letters_are_ignored() {
    let p = ProtocolFlags::parse("5.1-MxI").unwrap();
    assert_eq!(p.minor, 1);
    assert!(p.has_multi_client() && p.has_message_ids());
}
