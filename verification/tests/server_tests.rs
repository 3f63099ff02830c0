use katcp::address::SocketAddress;
use katcp::filter::SensorFilter;
use katcp::float::Float64;
use katcp::message::Message;
use katcp::sampling::{Interval, Parameter};
use katcp::sensor::{Moment, Notice, Observer, Sensor, SensorStatus};
use katcp::server_model::Listing;
use katcp::server::{
    find_sensor, list_sensors, read_incoming, sampling_params, Answer, DeviceServer, Incoming, RequestResult,
};

fn float(v: f64) -> Float64 {
    Float64::new(
        v.to_bits(),
        format!("{}", v),
        format!("{:.17e}", v),
        format!("{:.6}", v),
    )
}

fn parameter(text: &str) -> Option<Parameter> {
    let v: f64 = text.parse().ok()?;
    let whole = v as u64;
    let frac = ((v - whole as f64) * 1_000_000_000.0) as u32;
    Some(Parameter {
        number: float(v),
        interval: Interval {
            secs: whole,
            nanos: frac,
            text: format!("{:.6}", whole as f64 + frac as f64 / 1_000_000_000.0),
        },
    })
}

fn local(port: u16) -> SocketAddress {
    SocketAddress {
        ip: "127.0.0.1".to_string(),
        port,
        flow: 0,
        scope: 0,
        text: format!("127.0.0.1:{}", port),
    }
}

fn test_server() -> DeviceServer {
    DeviceServer::new(
        "127.0.0.1",
        0,
        ("test-server", 0, 1),
        ("test-build", 0, 1, "dev"),
    )
}

fn counters() -> DeviceServer {
    let mut server = test_server();
    server.add_sensor(Sensor::integer("a.one", "First", "count", Some(0), Some(9), 1));
    server.add_sensor(Sensor::integer("a.two", "Second", "count", None, None, 2));
    server.add_sensor(Sensor::string("b", "Third", "", "x"));
    server
}

fn answer(server: &mut DeviceServer, addr: &SocketAddress, msg: &Message) -> RequestResult {
    let params: Vec<Option<Parameter>> =
        sampling_params(msg).iter().map(|p| parameter(p)).collect();
    match server.handle_request(msg, addr, &params) {
        Answer::Done(r) => r,
        Answer::Custom => panic!("the request has a handler of its own"),
    }
}

/// What the server sends back for a line.
fn serve(server: &mut DeviceServer, addr: &SocketAddress, line: &str) -> String {
    let mut all = Vec::new();
    if let Incoming::Request(msg) = read_incoming(line) {
        for frame in answer(server, addr, &msg).to_frames() {
            all.extend_from_slice(&frame);
        }
    }
    String::from_utf8(all).unwrap()
}

fn connect(server: &mut DeviceServer, port: u16) -> String {
    let frames = server.connect_client(local(port));
    String::from_utf8(frames.concat()).unwrap()
}

fn set(server: &mut DeviceServer, name: &str, value: i64, now: u128) -> Vec<Notice> {
    let n = find_sensor(&server.context.sensors, name);
    let sensor = &mut server.context.sensors[n];
    let m = Moment { wall: float(5.0), now, moved: vec![true; sensor.observers.len()] };
    sensor.set_int(value, SensorStatus::Nominal, &m)
}

fn receivers(notices: &Vec<Notice>) -> Vec<u16> {
    notices
        .iter()
        .map(|n| match n {
            Notice::Deliver { client, bytes: _ } => client.port,
            Notice::Call { handle: _ } => panic!("no such observer"),
        })
        .collect()
}

#[test]
fn test_server_version_connect() {
    let mut server = test_server();
    let response = connect(&mut server, 1);
    assert!(response.contains("#version-connect katcp-protocol"));
    assert!(response.contains("#version-connect katcp-library"));
    assert!(response.contains("#version-connect katcp-device"));
}

#[test]
fn test_server_watchdog() {
    let mut server = test_server();
    connect(&mut server, 1);
    let response = serve(&mut server, &local(1), "?watchdog\n");
    assert!(response.contains("!watchdog ok"));
}

#[test]
fn test_server_help() {
    let mut server = test_server();
    connect(&mut server, 1);
    let response = serve(&mut server, &local(1), "?help\n");
    assert!(response.contains("#help"));
    assert!(response.contains("!help ok"));
}

#[test]
fn test_server_unknown_request() {
    let mut server = test_server();
    connect(&mut server, 1);
    let response = serve(&mut server, &local(1), "?nonexistent\n");
    assert!(response.contains("!nonexistent invalid"));
}

#[test]
fn test_server_with_mid() {
    let mut server = test_server();
    connect(&mut server, 1);
    let response = serve(&mut server, &local(1), "?watchdog[42]\n");
    assert!(response.contains("!watchdog[42] ok"));
}

#[test]
fn greeting_names_protocol_library_and_device() {
    let mut server = test_server();
    assert_eq!(
        connect(&mut server, 1),
        "#version-connect katcp-protocol 5.0-IM\n\
         #version-connect katcp-library katcp-rust-0.1.0\n\
         #version-connect katcp-device test-server-0.1 test-build-0.1-dev\n"
    );
}

#[test]
fn version_list_names_the_build_of_library_and_device() {
    let mut server = test_server();
    assert_eq!(
        serve(&mut server, &local(1), "?version-list[3]\n"),
        "#version-list[3] katcp-protocol 5.0-IM\n\
         #version-list[3] katcp-library katcp-rust-0.1.0 test-build-0.1-dev\n\
         #version-list[3] katcp-device test-server-0.1 test-build-0.1-dev\n\
         !version-list[3] ok 3\n"
    );
}

#[test]
fn an_empty_host_stands_for_all_addresses() {
    let server = DeviceServer::new("", 5000, ("d", 1, 0), ("b", 1, 0, "x"));
    assert_eq!(server.bind_target(), "0.0.0.0:5000");
    assert_eq!(test_server().bind_target(), "127.0.0.1:0");
    assert_eq!(server.context().log_level, "warn");
}

#[test]
fn lines_from_clients() {
    assert!(matches!(read_incoming(""), Incoming::Nothing));
    assert!(matches!(read_incoming("\r\n"), Incoming::Nothing));
    assert!(matches!(read_incoming("!reply ok\n"), Incoming::Nothing));
    assert!(matches!(read_incoming("nonsense\n"), Incoming::Malformed(_)));
    match read_incoming("?help x\r\r\n\n") {
        Incoming::Request(m) => {
            assert_eq!(m.name, "help");
            assert_eq!(m.arg_str(0), Some("x"));
        }
        _ => panic!("no request"),
    }
}

#[test]
fn help_lists_and_looks_up() {
    let mut server = test_server();
    server.register_request_handler("multiply");
    server.register_request_handler("multiply");
    let all = serve(&mut server, &local(1), "?help\n");
    assert_eq!(all.lines().count(), 11);
    assert!(all.contains("#help halt Shut\\_down\\_the\\_server.\n"));
    assert!(all.contains("#help multiply Custom\\_request\\_handler.\n"));
    assert!(all.ends_with("!help ok 10\n"));
    assert_eq!(
        serve(&mut server, &local(1), "?help multiply\n"),
        "#help multiply Custom\\_request\\_handler.\n!help ok 1\n"
    );
    assert_eq!(
        serve(&mut server, &local(1), "?help watchdog\n"),
        "#help watchdog Ping\\_the\\_server.\n!help ok 1\n"
    );
    assert_eq!(
        serve(&mut server, &local(1), "?help nothing\n"),
        "!help fail Unknown\\_request.\n"
    );
}

#[test]
fn handlers_come_before_built_in_requests() {
    let mut server = test_server();
    server.register_request_handler("watchdog");
    let msg = Message::request("watchdog", vec![]);
    assert!(matches!(
        server.handle_request(&msg, &local(1), &[]),
        Answer::Custom
    ));
}

#[test]
fn sensors_are_listed_in_order() {
    let mut server = counters();
    assert_eq!(
        serve(&mut server, &local(1), "?sensor-list[1]\n"),
        "#sensor-list[1] a.one First count integer 0 9\n\
         #sensor-list[1] a.two Second count integer\n\
         #sensor-list[1] b Third \\@ string\n\
         !sensor-list[1] ok 3\n"
    );
    assert_eq!(
        serve(&mut server, &local(1), "?sensor-value b\n"),
        "#sensor-value 0.000000 1 b unknown x\n!sensor-value ok 1\n"
    );
    assert_eq!(
        serve(&mut server, &local(1), "?sensor-list c\n"),
        "!sensor-list fail Unknown\\_sensor\\_name.\n"
    );
}

#[test]
fn patterns_select_sensors() {
    let mut server = counters();
    let found = serve(&mut server, &local(1), "?sensor-value /^a\\\\./\n");
    assert_eq!(
        found,
        "#sensor-value 0.000000 1 a.one unknown 1\n\
         #sensor-value 0.000000 1 a.two unknown 2\n\
         !sensor-value ok 2\n"
    );
    assert_eq!(
        serve(&mut server, &local(1), "?sensor-list /zzz/\n"),
        "!sensor-list ok 0\n"
    );
    assert!(serve(&mut server, &local(1), "?sensor-list /(/\n")
        .starts_with("!sensor-list fail Invalid\\_regex:\\_"));
    // A single slash is a name.
    assert_eq!(
        serve(&mut server, &local(1), "?sensor-list /\n"),
        "!sensor-list fail Unknown\\_sensor\\_name.\n"
    );
    // Two slashes match everything.
    assert!(serve(&mut server, &local(1), "?sensor-list //\n").ends_with("!sensor-list ok 3\n"));
}

#[test]
fn filters_accept_names() {
    assert!(SensorFilter::parse(None).unwrap().matches("x"));
    let exact = SensorFilter::parse(Some("x")).unwrap();
    assert!(exact.matches("x") && !exact.matches("xy"));
    let pattern = SensorFilter::parse(Some("/x.z/")).unwrap();
    assert!(pattern.matches("axyzb") && !pattern.matches("x.y"));
    match SensorFilter::parse(Some("/[/")) {
        Err(why) => {
            assert!(why.starts_with("Invalid regex: "));
            assert!(why.contains("regex parse error"));
        }
        Ok(_) => panic!("the pattern is malformed"),
    }
}

#[test]
fn compiled_patterns_make_filters() {
    let f = SensorFilter::of_compiled(Ok(regex::Regex::new("^b").unwrap())).unwrap();
    assert!(f.matches("bc") && !f.matches("cb"));
    match SensorFilter::of_compiled(Err("why".to_string())) {
        Err(text) => assert_eq!(text, "Invalid regex: why"),
        Ok(_) => panic!("there is no pattern"),
    }
}

#[test]
fn filters_decide_what_is_listed() {
    let server = counters();
    let msg = Message::request("sensor-value", vec![]).with_mid("8");
    let shown = |filter: Result<SensorFilter, String>| -> String {
        let r = list_sensors(Listing::Value, &msg, server.context(), filter);
        String::from_utf8(r.to_frames().concat()).unwrap()
    };
    assert_eq!(shown(Err("no".into())), "!sensor-value[8] fail no\n");
    assert_eq!(
        shown(Ok(SensorFilter::Exact("b".into()))),
        "#sensor-value[8] 0.000000 1 b unknown x\n!sensor-value[8] ok 1\n"
    );
    assert!(shown(Ok(SensorFilter::All)).ends_with("!sensor-value[8] ok 3\n"));
    let pattern = SensorFilter::Pattern(regex::Regex::new("two$").unwrap());
    assert_eq!(
        shown(Ok(pattern)),
        "#sensor-value[8] 0.000000 1 a.two unknown 2\n!sensor-value[8] ok 1\n"
    );
}

#[test]
fn sensors_are_updated_by_name() {
    let mut server = counters();
    connect(&mut server, 1);
    serve(&mut server, &local(1), "?sensor-sampling b event\n");
    let m = Moment { wall: float(5.0), now: 0, moved: vec![false] };
    let notices = server
        .update_sensor("b", b"y".to_vec(), SensorStatus::Warn, Some(float(2.5)), &m)
        .unwrap();
    assert_eq!(receivers(&notices), vec![1]);
    match &notices[0] {
        Notice::Deliver { client: _, bytes } => {
            assert_eq!(*bytes, b"#sensor-status 2.500000 1 b warn y\n".to_vec())
        }
        _ => panic!("nothing to deliver"),
    }
    assert_eq!(
        serve(&mut server, &local(1), "?sensor-value b\n"),
        "#sensor-value 2.500000 1 b warn y\n!sensor-value ok 1\n"
    );
    assert!(server
        .update_sensor("c", b"y".to_vec(), SensorStatus::Warn, None, &m)
        .is_none());
}

#[test]
fn observers_are_attached_and_detached_by_name() {
    let mut server = counters();
    connect(&mut server, 1);
    serve(&mut server, &local(1), "?sensor-sampling b event\n");
    let external = |handle: u64, client: Option<SocketAddress>| -> Observer {
        Observer::External { handle, client }
    };
    assert!(server.attach("b", external(1, None)));
    assert!(server.attach("b", external(2, Some(local(1)))));
    assert!(!server.attach("c", external(3, None)));
    assert_eq!(server.context.sensors[2].observers.len(), 3);
    assert!(!server.detach_client("c", &local(1)));
    assert!(server.detach_client("b", &local(2)));
    assert_eq!(server.context.sensors[2].observers.len(), 3);
    // With the client its own observer goes too.
    server.disconnect_client(&local(1));
    assert_eq!(server.context.sensors[2].observers.len(), 1);
    assert!(server.attach("b", external(4, Some(local(5)))));
    assert!(server.detach_client("b", &local(5)));
    let m = Moment { wall: float(5.0), now: 0, moved: vec![false] };
    let notices = server
        .update_sensor("b", b"y".to_vec(), SensorStatus::Warn, None, &m)
        .unwrap();
    assert_eq!(notices.len(), 1);
    assert!(matches!(notices[0], Notice::Call { handle: 1 }));
}

#[test]
fn readers_see_the_latest_value() {
    let mut server = counters();
    set(&mut server, "a.two", 41, 0);
    set(&mut server, "a.two", 42, 1);
    assert_eq!(
        serve(&mut server, &local(1), "?sensor-value a.two\n"),
        "#sensor-value 5.000000 1 a.two nominal 42\n!sensor-value ok 1\n"
    );
}

#[test]
fn connecting_again_starts_afresh() {
    let mut server = counters();
    connect(&mut server, 1);
    serve(&mut server, &local(1), "?sensor-sampling b event\n");
    connect(&mut server, 1);
    assert_eq!(
        serve(&mut server, &local(1), "?sensor-sampling b\n"),
        "!sensor-sampling ok b none\n"
    );
    assert_eq!(server.clients.len(), 1);
}

#[test]
fn adding_a_sensor_again_replaces_it() {
    let mut server = counters();
    server.add_sensor(Sensor::string("a.one", "Replaced", "", ""));
    let all = serve(&mut server, &local(1), "?sensor-list\n");
    assert!(all.starts_with("#sensor-list a.one Replaced \\@ string\n"));
    assert!(all.ends_with("!sensor-list ok 3\n"));
}

#[test]
fn clients_are_listed() {
    let mut server = test_server();
    connect(&mut server, 4);
    connect(&mut server, 5);
    assert_eq!(
        serve(&mut server, &local(4), "?client-list\n"),
        "#client-list 127.0.0.1:4\n#client-list 127.0.0.1:5\n!client-list ok 2\n"
    );
    server.disconnect_client(&local(4));
    server.disconnect_client(&local(4));
    assert_eq!(
        serve(&mut server, &local(5), "?client-list\n"),
        "#client-list 127.0.0.1:5\n!client-list ok 1\n"
    );
}

#[test]
fn log_levels() {
    let mut server = test_server();
    assert_eq!(serve(&mut server, &local(1), "?log-level\n"), "!log-level ok warn\n");
    assert_eq!(
        serve(&mut server, &local(1), "?log-level loud\n"),
        "!log-level fail Invalid\\_log\\_level.\n"
    );
    for level in ["all", "trace", "debug", "info", "warn", "error", "fatal", "off"] {
        assert_eq!(
            serve(&mut server, &local(1), &format!("?log-level {}\n", level)),
            format!("!log-level ok {}\n", level)
        );
        assert_eq!(
            serve(&mut server, &local(1), "?log-level\n"),
            format!("!log-level ok {}\n", level)
        );
    }
}

#[test]
fn halt_is_acknowledged() {
    let mut server = test_server();
    assert_eq!(serve(&mut server, &local(1), "?halt[9]\n"), "!halt[9] ok\n");
    assert_eq!(
        katcp::server::handle_halt(&Message::request("halt", vec![])).to_frames(),
        vec![b"!halt ok\n".to_vec()]
    );
    assert_eq!(
        katcp::server::handle_watchdog(&Message::request("watchdog", vec![])).to_frames(),
        vec![b"!watchdog ok\n".to_vec()]
    );
}

#[test]
fn sampling_is_set_queried_and_cleared() {
    let mut server = counters();
    connect(&mut server, 1);
    let me = local(1);
    let query = "?sensor-sampling a.one\n";
    assert_eq!(serve(&mut server, &me, query), "!sensor-sampling ok a.one none\n");
    let request = "?sensor-sampling a.one period 1.5\n";
    let told = "!sensor-sampling ok a.one period 1.500000\n";
    assert_eq!(serve(&mut server, &me, request), told);
    assert_eq!(serve(&mut server, &me, query), told);
    let request = "?sensor-sampling a.one differential-rate 2.5 1 10\n";
    let told = "!sensor-sampling ok a.one differential-rate 2.5 1.000000 10.000000\n";
    assert_eq!(serve(&mut server, &me, request), told);
    assert_eq!(serve(&mut server, &me, query), told);
    assert_eq!(server.context.sensors[0].observers.len(), 1);
    assert_eq!(
        serve(&mut server, &me, "?sensor-sampling a.one none\n"),
        "!sensor-sampling ok a.one none\n"
    );
    assert_eq!(serve(&mut server, &me, query), "!sensor-sampling ok a.one none\n");
    assert_eq!(server.context.sensors[0].observers.len(), 0);
}

#[test]
fn sampling_requests_that_are_refused_change_nothing() {
    let mut server = counters();
    connect(&mut server, 1);
    let me = local(1);
    serve(&mut server, &me, "?sensor-sampling b event\n");
    assert_eq!(
        serve(&mut server, &me, "?sensor-sampling\n"),
        "!sensor-sampling fail sensor\\_name\\_required\n"
    );
    assert_eq!(
        serve(&mut server, &me, "?sensor-sampling c event\n"),
        "!sensor-sampling fail Unknown\\_sensor\\_name.\n"
    );
    assert_eq!(
        serve(&mut server, &me, "?sensor-sampling b often\n"),
        "!sensor-sampling fail invalid\\_sampling\\_strategy\n"
    );
    assert_eq!(
        serve(&mut server, &me, "?sensor-sampling b period soon\n"),
        "!sensor-sampling fail invalid\\_sampling\\_strategy\n"
    );
    assert_eq!(
        serve(&mut server, &me, "?sensor-sampling b\n"),
        "!sensor-sampling ok b event\n"
    );
}

#[test]
fn sampling_parameters_are_the_arguments_that_are_text() {
    let msg = Message::request(
        "sensor-sampling",
        vec![b"s".to_vec(), b"period".to_vec(), vec![0xff], b"2".to_vec()],
    );
    assert_eq!(sampling_params(&msg), vec!["2".to_string()]);
    assert!(sampling_params(&Message::request("x", vec![b"a".to_vec()])).is_empty());
}

#[test]
fn clients_sample_apart_from_each_other() {
    let mut server = counters();
    for port in [1, 2] {
        connect(&mut server, port);
        serve(&mut server, &local(port), "?sensor-sampling a.one event\n");
        serve(&mut server, &local(port), "?sensor-sampling a.two event\n");
    }
    assert_eq!(receivers(&set(&mut server, "a.one", 7, 1)), vec![1, 2]);
    serve(&mut server, &local(1), "?sensor-sampling a.one none\n");
    assert_eq!(receivers(&set(&mut server, "a.one", 8, 2)), vec![2]);
    assert_eq!(receivers(&set(&mut server, "a.two", 8, 2)), vec![1, 2]);
    server.disconnect_client(&local(2));
    assert!(set(&mut server, "a.one", 9, 3).is_empty());
    assert_eq!(receivers(&set(&mut server, "a.two", 9, 3)), vec![1]);
    assert_eq!(
        serve(&mut server, &local(1), "?sensor-sampling a.two\n"),
        "!sensor-sampling ok a.two event\n"
    );
}

#[test]
fn every_client_hears_of_the_shutdown() {
    let mut server = test_server();
    connect(&mut server, 1);
    connect(&mut server, 2);
    let notices = server.shutdown_notices();
    assert_eq!(receivers(&notices), vec![1, 2]);
    match &notices[0] {
        Notice::Deliver { client: _, bytes } => {
            assert_eq!(*bytes, b"#disconnect server\\_shutting\\_down\n".to_vec())
        }
        _ => panic!("nothing to deliver"),
    }
}
