use katcp::message::{Message, MessageError, MessageParser, MessageType};
use katcp::wire::MAX_MSG_SIZE;

#[test]
fn test_parse_request() {
    let msg = MessageParser::parse(b"?help").unwrap();
    assert_eq!(msg.mtype, MessageType::Request);
    assert_eq!(msg.name, "help");
    assert!(msg.arguments.is_empty());
    assert!(msg.mid.is_none());
}

#[test]
fn test_parse_request_with_args() {
    let msg = MessageParser::parse(b"?sensor-value temperature").unwrap();
    assert_eq!(msg.mtype, MessageType::Request);
    assert_eq!(msg.name, "sensor-value");
    assert_eq!(msg.arguments, vec![b"temperature".to_vec()]);
}

#[test]
fn test_parse_reply() {
    let msg = MessageParser::parse(b"!help ok 3").unwrap();
    assert_eq!(msg.mtype, MessageType::Reply);
    assert_eq!(msg.name, "help");
    assert_eq!(msg.arguments, vec![b"ok".to_vec(), b"3".to_vec()]);
}

#[test]
fn test_parse_inform() {
    let msg = MessageParser::parse(b"#version-connect katcp-protocol 5.0-MI").unwrap();
    assert_eq!(msg.mtype, MessageType::Inform);
    assert_eq!(msg.name, "version-connect");
    assert_eq!(
        msg.arguments,
        vec![b"katcp-protocol".to_vec(), b"5.0-MI".to_vec()]
    );
}

#[test]
fn test_parse_with_mid() {
    let msg = MessageParser::parse(b"?help[123]").unwrap();
    assert_eq!(msg.mtype, MessageType::Request);
    assert_eq!(msg.name, "help");
    assert_eq!(msg.mid, Some("123".to_string()));
}

#[test]
fn test_parse_with_mid_and_args() {
    let msg = MessageParser::parse(b"!add[42] ok 7.5").unwrap();
    assert_eq!(msg.mtype, MessageType::Reply);
    assert_eq!(msg.name, "add");
    assert_eq!(msg.mid, Some("42".to_string()));
    assert_eq!(msg.arguments, vec![b"ok".to_vec(), b"7.5".to_vec()]);
}

#[test]
fn test_escape_unescape_roundtrip() {
    let original = b"hello world\ntest\\path\ttab\0null";
    let msg = Message::request("test", vec![original.to_vec()]);
    let bytes = msg.to_bytes();
    let parsed = MessageParser::parse(&bytes[..bytes.len() - 1]).unwrap();
    assert_eq!(parsed.arguments[0], original.to_vec());
}

#[test]
fn test_empty_argument() {
    let msg = Message::request("test", vec![Vec::new(), b"hello".to_vec()]);
    let bytes = msg.to_bytes();
    let parsed = MessageParser::parse(&bytes[..bytes.len() - 1]).unwrap();
    assert_eq!(parsed.arguments[0], Vec::<u8>::new());
    assert_eq!(parsed.arguments[1], b"hello".to_vec());
}

#[test]
fn test_serialize_request() {
    let msg = Message::request_with_str_args("help", &[]);
    assert_eq!(msg.to_bytes(), b"?help\n");
}

#[test]
fn test_serialize_reply_with_mid() {
    let msg = Message::reply_with_str_args("help", &["ok", "3"]).with_mid("1");
    assert_eq!(msg.to_bytes(), b"!help[1] ok 3\n");
}

#[test]
fn test_reply_to_request() {
    let req = Message::request_with_str_args("add", &["3", "4"]).with_mid("7");
    let reply = Message::reply_to_request(&req, vec![b"ok".to_vec(), b"7".to_vec()]);
    assert_eq!(reply.mtype, MessageType::Reply);
    assert_eq!(reply.name, "add");
    assert_eq!(reply.mid, Some("7".to_string()));
}

#[test]
fn test_parse_stream() {
    let data = b"?help\n!help ok\n#version katcp";
    let (msgs, remainder) = MessageParser::parse_stream(data);
    assert_eq!(msgs.len(), 2);
    assert!(msgs[0].is_ok());
    assert!(msgs[1].is_ok());
    assert_eq!(remainder, b"#version katcp");
}

#[test]
fn test_invalid_type() {
    assert!(MessageParser::parse(b"xhelp").is_err());
}

#[test]
fn test_invalid_name() {
    assert!(MessageParser::parse(b"?123bad").is_err());
}

#[test]
fn message_test_display() {
    let msg = Message::request_with_str_args("help", &[]);
    assert_eq!(msg.to_string(), "?help");
}

#[test]
fn test_is_ok() {
    let msg = Message::reply_with_str_args("test", &["ok", "value"]);
    assert!(msg.is_ok());

    let msg = Message::reply_with_str_args("test", &["fail", "error"]);
    assert!(!msg.is_ok());
}

#[test]
fn prefixes_and_types() {
    assert_eq!(MessageType::Request.prefix(), '?');
    assert_eq!(MessageType::Reply.prefix(), '!');
    assert_eq!(MessageType::Inform.prefix(), '#');
    assert_eq!(MessageType::from_char('?').unwrap(), MessageType::Request);
    assert_eq!(MessageType::from_char('!').unwrap(), MessageType::Reply);
    assert_eq!(MessageType::from_char('#').unwrap(), MessageType::Inform);
    assert!(matches!(
        MessageType::from_char('x'),
        Err(MessageError::InvalidType('x'))
    ));
}

#[test]
fn each_escape_is_written_and_read() {
    let msg = Message::inform("x", vec![b"\\ \0\n\r\x1b\t".to_vec()]);
    assert_eq!(msg.to_bytes(), b"#x \\\\\\_\\0\\n\\r\\e\\t\n");
    let back = MessageParser::parse(b"#x \\\\\\_\\0\\n\\r\\e\\t").unwrap();
    assert_eq!(back.arguments[0], b"\\ \0\n\r\x1b\t".to_vec());
}

#[test]
fn empty_arguments_are_written_as_an_escape() {
    let msg = Message::request("x", vec![Vec::new()]);
    assert_eq!(msg.to_bytes(), b"?x \\@\n");
    let back = MessageParser::parse(b"?x \\@ a").unwrap();
    assert_eq!(back.arguments, vec![Vec::<u8>::new(), b"a".to_vec()]);
}

#[test]
fn blanks_separate_arguments() {
    let msg = MessageParser::parse(b"?x  a\t b ").unwrap();
    assert_eq!(msg.arguments, vec![b"a".to_vec(), b"b".to_vec()]);
}

#[test]
fn each_error_has_an_input() {
    assert!(matches!(MessageParser::parse(b""), Err(MessageError::Empty)));
    assert!(matches!(
        MessageParser::parse(b"xhelp"),
        Err(MessageError::InvalidType('x'))
    ));
    match MessageParser::parse(b"?123bad") {
        Err(MessageError::InvalidName(name)) => assert_eq!(name, "123bad"),
        other => panic!("{:?}", other),
    }
    assert!(matches!(
        MessageParser::parse(b"?help[12"),
        Err(MessageError::InvalidMid(_))
    ));
    match MessageParser::parse(b"?help[1x]") {
        Err(MessageError::InvalidMid(mid)) => assert_eq!(mid, "1x"),
        other => panic!("{:?}", other),
    }
    assert!(matches!(
        MessageParser::parse(b"?x \\q"),
        Err(MessageError::InvalidEscape('q'))
    ));
    let long = vec![b'?'; MAX_MSG_SIZE + 1];
    match MessageParser::parse(&long) {
        Err(MessageError::TooLarge(n)) => assert_eq!(n, MAX_MSG_SIZE + 1),
        other => panic!("{:?}", other),
    }
}

#[test]
fn names_that_are_not_text_are_shown_with_replacements() {
    match MessageParser::parse(b"?a\xff") {
        Err(MessageError::InvalidName(name)) => assert_eq!(name, "a\u{fffd}"),
        other => panic!("{:?}", other),
    }
}

#[test]
fn arguments_that_are_not_text() {
    let msg = Message::reply("x", vec![vec![0xff], b"a".to_vec()]);
    assert_eq!(msg.arg_str(0), None);
    assert_eq!(msg.arg_str(1), Some("a"));
    assert_eq!(msg.arg_str(2), None);
    assert_eq!(msg.reply_status(), None);
    assert!(!msg.is_ok());
    assert_eq!(msg.to_string(), "<binary>");
}

#[test]
fn constructors_build_what_they_are_named_after() {
    let req = Message::request_with_str_args("a", &["1"]).with_mid("5");
    let inform = Message::reply_inform(&req, vec![b"x".to_vec()]);
    assert_eq!(inform.to_bytes(), b"#a[5] x\n");
    assert_eq!(Message::inform_with_str_args("b", &["y"]).to_bytes(), b"#b y\n");
    assert_eq!(Message::reply("c", vec![]).to_bytes(), b"!c\n");
    assert_eq!(req.clone(), req);
}

#[test]
fn streams_may_be_cut_anywhere() {
    let data: &[u8] = b"?a x\r\n\n!b[7] ok\nbad\n#c\npart";
    let (whole, whole_rest) = MessageParser::parse_stream(data);
    for cut in 0..data.len() {
        let (mut first, rest) = MessageParser::parse_stream(&data[..cut]);
        let mut joined = rest.clone();
        joined.extend_from_slice(&data[cut..]);
        let (second, last) = MessageParser::parse_stream(&joined);
        first.extend(second);
        assert_eq!(last, whole_rest);
        assert_eq!(first.len(), whole.len());
        for i in 0..whole.len() {
            match (&first[i], &whole[i]) {
                (Ok(a), Ok(b)) => assert_eq!(a, b),
                (Err(a), Err(b)) => assert_eq!(format!("{:?}", a), format!("{:?}", b)),
                _ => panic!("the messages differ"),
            }
        }
    }
    assert_eq!(whole.len(), 4);
    assert_eq!(whole_rest, b"part");
}
