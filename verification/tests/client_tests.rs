use katcp::address::SocketAddress;
use katcp::client::{
    Action, ClientError, DeviceClient, Outcome, ProtocolWait, SensorUpdate,
};
use katcp::float::Float64;
use katcp::line::{read_received, Received};
use katcp::message::Message;
use katcp::sampling::{Interval, Parameter};
use katcp::sensor::{Moment, Notice, Sensor, SensorStatus};
use katcp::server::{
    find_sensor, read_incoming, sampling_params, Answer, DeviceServer, Incoming, RequestResult,
};

fn float(v: f64) -> Float64 {
    Float64::new(
        v.to_bits(),
        format!("{}", v),
        format!("{:.17e}", v),
        format!("{:.6}", v),
    )
}

fn number(text: Option<&str>) -> Option<Float64> {
    text.and_then(|t| t.parse::<f64>().ok()).map(float)
}

fn parameter(text: &str) -> Option<Parameter> {
    let v: f64 = text.parse().ok()?;
    let whole = v as u64;
    let frac = ((v - whole as f64) * 1_000_000_000.0) as u32;
    Some(Parameter {
        number: float(v),
        interval: Interval {
            secs: whole,
            nanos: frac,
            text: format!("{:.6}", whole as f64 + frac as f64 / 1_000_000_000.0),
        },
    })
}

fn local(port: u16) -> SocketAddress {
    SocketAddress {
        ip: "127.0.0.1".to_string(),
        port,
        flow: 0,
        scope: 0,
        text: format!("127.0.0.1:{}", port),
    }
}

fn multiply(msg: &Message) -> RequestResult {
    let x: f64 = msg.arg_str(0).and_then(|s| s.parse().ok()).unwrap_or(0.0);
    let y: f64 = msg.arg_str(1).and_then(|s| s.parse().ok()).unwrap_or(0.0);
    RequestResult {
        informs: vec![],
        reply: Message::reply_to_request(
            msg,
            vec![b"ok".to_vec(), format!("{}", x * y).into_bytes()],
        ),
    }
}

/// A server with one sensor.
fn setup() -> DeviceServer {
    let mut server = DeviceServer::new(
        "127.0.0.1",
        0,
        ("test-server", 0, 1),
        ("test-build", 0, 1, "dev"),
    );
    server.add_sensor(Sensor::integer(
        "test-sensor",
        "A test sensor",
        "count",
        Some(0),
        Some(100),
        0,
    ));
    server
}

/// A server with several sensors and a handler of its own.
fn start_server() -> DeviceServer {
    let mut server = DeviceServer::new(
        "127.0.0.1",
        5000,
        ("integration-test", 1, 0),
        ("test-build", 1, 0, "dev"),
    );
    server.add_sensor(Sensor::float(
        "temperature",
        "Device temperature",
        "degC",
        Some(float(-40.0)),
        Some(float(85.0)),
        float(25.0),
    ));
    server.add_sensor(Sensor::integer("counter", "A counter", "count", Some(0), None, 0));
    server.add_sensor(Sensor::boolean("flag", "A flag", "", false));
    server.add_sensor(Sensor::discrete(
        "mode",
        "Operating mode",
        "",
        vec!["idle".into(), "active".into(), "error".into()],
        "idle",
    ));
    server.register_request_handler("multiply");
    server
}

/// A client, the address under which the server knows it, and the updates that its callbacks saw.
struct Peer {
    client: DeviceClient,
    addr: SocketAddress,
    updates: Vec<SensorUpdate>,
    informs: Vec<Message>,
    completed: Vec<(String, Message, Vec<Message>)>,
}

impl Peer {
    fn connect(server: &mut DeviceServer, port: u16) -> Peer {
        let mut peer = Peer {
            client: DeviceClient::new("127.0.0.1", 5000),
            addr: local(port),
            updates: Vec::new(),
            informs: Vec::new(),
            completed: Vec::new(),
        };
        peer.client.connect();
        let frames = server.connect_client(peer.addr.clone());
        peer.receive(&frames);
        peer
    }

    fn receive(&mut self, frames: &Vec<Vec<u8>>) {
        for frame in frames {
            let line = std::str::from_utf8(frame).unwrap();
            if let Received::Message(msg) = read_received(line) {
                let time = number(msg.arg_str(0));
                for action in self.client.dispatch_message(&msg, time) {
                    match action {
                        Action::CallSensor(u) => self.updates.push(u),
                        Action::CallInform(m) => self.informs.push(m),
                        Action::Complete { mid, reply, informs } => {
                            self.completed.push((mid, reply, informs))
                        }
                        Action::Unexpected(m) => panic!("{:?}", m),
                    }
                }
            }
        }
    }

    fn exchange(
        &mut self,
        server: &mut DeviceServer,
        msg: Message,
    ) -> Result<(Message, Vec<Message>), ClientError> {
        let mid = msg.mid.clone().unwrap();
        let bytes = match self.client.send_message(&msg) {
            Some(bytes) => bytes,
            None => return self.client.finish_request(&mid, Outcome::NotSent),
        };
        let line = std::str::from_utf8(&bytes).unwrap();
        if let Incoming::Request(request) = read_incoming(line) {
            assert_eq!(request, msg);
            let params: Vec<Option<Parameter>> =
                sampling_params(&request).iter().map(|p| parameter(p)).collect();
            let result = match server.handle_request(&request, &self.addr, &params) {
                Answer::Done(r) => r,
                Answer::Custom => multiply(&request),
            };
            self.receive(&result.to_frames());
        }
        let outcome = match self.completed.pop() {
            Some((done, reply, informs)) => {
                assert_eq!(done, mid);
                Outcome::Answered(reply, informs)
            }
            None => Outcome::TimedOut,
        };
        self.client.finish_request(&mid, outcome)
    }

    fn request_str(
        &mut self,
        server: &mut DeviceServer,
        name: &str,
        args: &[&str],
    ) -> Result<(Message, Vec<Message>), ClientError> {
        let msg = self.client.request_str(name, args);
        self.exchange(server, msg)
    }

    fn set_sensor_sampling(
        &mut self,
        server: &mut DeviceServer,
        sensor: &str,
        strategy: &str,
        params: &[&str],
    ) -> Message {
        let msg = self.client.set_sensor_sampling(sensor, strategy, params);
        let (reply, _) = self.exchange(server, msg).unwrap();
        self.client.sampling_set(sensor, &reply);
        reply
    }

    fn clear_sensor_sampling(&mut self, server: &mut DeviceServer, sensor: &str) -> Message {
        let msg = self.client.clear_sensor_sampling(sensor);
        let (reply, _) = self.exchange(server, msg).unwrap();
        self.client.sampling_cleared(sensor, &reply);
        reply
    }

    fn wait_protocol(&self) -> katcp::ProtocolFlags {
        match self.client.wait_protocol(0, 2_000_000_000) {
            ProtocolWait::Known(p) => p,
            _ => panic!("the protocol is not known"),
        }
    }
}

/// Updates a sensor and hands what is to be sent to those of the peers that it is for.
fn set_int(
    server: &mut DeviceServer,
    peers: &mut [&mut Peer],
    name: &str,
    value: i64,
    status: SensorStatus,
) {
    let n = find_sensor(&server.context.sensors, name);
    let sensor = &mut server.context.sensors[n];
    let m = Moment { wall: float(7.25), now: 0, moved: vec![true; sensor.observers.len()] };
    for notice in sensor.set_int(value, status, &m) {
        if let Notice::Deliver { client, bytes } = notice {
            for peer in peers.iter_mut() {
                if peer.addr == client {
                    peer.receive(&vec![bytes.clone()]);
                }
            }
        }
    }
}

#[test]
fn test_client_connect_and_protocol() {
    let mut server = setup();
    let peer = Peer::connect(&mut server, 1);
    let pf = peer.wait_protocol();
    assert_eq!(pf.major, 5);
}

#[test]
fn test_client_watchdog() {
    let mut server = setup();
    let mut peer = Peer::connect(&mut server, 1);
    let (reply, _) = peer.request_str(&mut server, "watchdog", &[]).unwrap();
    assert!(reply.is_ok());
}

#[test]
fn test_client_help() {
    let mut server = setup();
    let mut peer = Peer::connect(&mut server, 1);
    let (reply, informs) = peer.request_str(&mut server, "help", &[]).unwrap();
    assert!(reply.is_ok());
    assert!(!informs.is_empty());
}

#[test]
fn test_client_sensor_list() {
    let mut server = setup();
    let mut peer = Peer::connect(&mut server, 1);
    let (reply, informs) = peer.request_str(&mut server, "sensor-list", &[]).unwrap();
    assert!(reply.is_ok());
    assert_eq!(informs.len(), 1);
    assert_eq!(informs[0].arg_str(0), Some("test-sensor"));
}

#[test]
fn test_client_sensor_value() {
    let mut server = setup();
    set_int(&mut server, &mut [], "test-sensor", 42, SensorStatus::Nominal);
    let mut peer = Peer::connect(&mut server, 1);
    let (reply, informs) = peer
        .request_str(&mut server, "sensor-value", &["test-sensor"])
        .unwrap();
    assert!(reply.is_ok());
    assert_eq!(informs.len(), 1);
    // informs: timestamp, count, name, status, value
    assert_eq!(informs[0].arg_str(2), Some("test-sensor"));
    assert_eq!(informs[0].arg_str(3), Some("nominal"));
    assert_eq!(informs[0].arg_str(4), Some("42"));
}

#[test]
fn test_client_unknown_request() {
    let mut server = setup();
    let mut peer = Peer::connect(&mut server, 1);
    let (reply, _) = peer.request_str(&mut server, "nonexistent", &[]).unwrap();
    assert!(!reply.is_ok());
    assert_eq!(reply.reply_status(), Some("invalid"));
}

#[test]
fn test_full_client_server_flow() {
    let mut server = start_server();
    let mut peer = Peer::connect(&mut server, 1);
    let pf = peer.wait_protocol();
    assert_eq!(pf.major, 5);

    // Watchdog
    let (reply, _) = peer.request_str(&mut server, "watchdog", &[]).unwrap();
    assert!(reply.is_ok());

    // Help
    let (reply, informs) = peer.request_str(&mut server, "help", &[]).unwrap();
    assert!(reply.is_ok());
    assert!(informs.len() >= 9); // built-in + custom

    // Sensor list
    let (reply, informs) = peer.request_str(&mut server, "sensor-list", &[]).unwrap();
    assert!(reply.is_ok());
    assert_eq!(informs.len(), 4); // temperature, counter, flag, mode

    // Set sensor value and read it
    {
        let n = find_sensor(&server.context.sensors, "temperature");
        let m = Moment { wall: float(1.0), now: 0, moved: vec![] };
        server.context.sensors[n].set_float(float(37.5), SensorStatus::Nominal, &m);
    }
    let (reply, informs) = peer
        .request_str(&mut server, "sensor-value", &["temperature"])
        .unwrap();
    assert!(reply.is_ok());
    assert_eq!(informs.len(), 1);
    assert_eq!(informs[0].arg_str(2), Some("temperature"));
    assert_eq!(informs[0].arg_str(3), Some("nominal"));

    // Custom handler
    let (reply, _) = peer.request_str(&mut server, "multiply", &["3", "7"]).unwrap();
    assert!(reply.is_ok());
    assert_eq!(reply.arg_str(1), Some("21"));

    // Version list
    let (reply, informs) = peer.request_str(&mut server, "version-list", &[]).unwrap();
    assert!(reply.is_ok());
    assert_eq!(informs.len(), 3);

    // Client list (should include ourselves)
    let (reply, informs) = peer.request_str(&mut server, "client-list", &[]).unwrap();
    assert!(reply.is_ok());
    assert_eq!(informs.len(), 1);

    // Log level
    let (reply, _) = peer.request_str(&mut server, "log-level", &["info"]).unwrap();
    assert!(reply.is_ok());

    peer.client.disconnect();
}

#[test]
fn test_multiple_clients() {
    let mut server = start_server();
    let mut peer1 = Peer::connect(&mut server, 1);
    let mut peer2 = Peer::connect(&mut server, 2);
    peer1.wait_protocol();
    peer2.wait_protocol();

    // Both clients should work independently
    let (r1, _) = peer1.request_str(&mut server, "watchdog", &[]).unwrap();
    let (r2, _) = peer2.request_str(&mut server, "watchdog", &[]).unwrap();
    assert!(r1.is_ok());
    assert!(r2.is_ok());

    // Client list should show 2 clients
    let (reply, informs) = peer1.request_str(&mut server, "client-list", &[]).unwrap();
    assert!(reply.is_ok());
    assert_eq!(informs.len(), 2);

    peer1.client.disconnect();
    peer2.client.disconnect();
}

#[test]
fn test_sensor_sampling() {
    let mut server = start_server();
    let mut peer = Peer::connect(&mut server, 1);

    // Subscribe to counter sensor with event strategy and a callback
    let reply = peer.set_sensor_sampling(&mut server, "counter", "event", &[]);
    assert!(reply.is_ok());
    assert_eq!(reply.arg_str(1), Some("counter"));
    assert_eq!(reply.arg_str(2), Some("event"));

    // Update the sensor - should trigger a callback
    set_int(&mut server, &mut [&mut peer], "counter", 42, SensorStatus::Nominal);
    assert_eq!(peer.updates.len(), 1);
    assert_eq!(peer.updates[0].name, "counter");
    assert_eq!(peer.updates[0].status, SensorStatus::Nominal);
    assert_eq!(peer.updates[0].value_str(), Some("42"));

    // Update again with a different value
    set_int(&mut server, &mut [&mut peer], "counter", 99, SensorStatus::Warn);
    assert_eq!(peer.updates.len(), 2);
    assert_eq!(peer.updates[1].name, "counter");
    assert_eq!(peer.updates[1].status, SensorStatus::Warn);
    assert_eq!(peer.updates[1].value_str(), Some("99"));

    // Clear sampling for this sensor
    let reply = peer.clear_sensor_sampling(&mut server, "counter");
    assert!(reply.is_ok());

    // Update again: should NOT trigger a callback
    set_int(&mut server, &mut [&mut peer], "counter", 200, SensorStatus::Nominal);
    assert_eq!(peer.updates.len(), 2); // still 2, no new update

    peer.client.disconnect();
}

#[test]
fn test_disconnect_cleanup_isolates_clients() {
    let mut server = start_server();
    let mut peer1 = Peer::connect(&mut server, 1);
    let mut peer2 = Peer::connect(&mut server, 2);

    // Both clients subscribe to the same sensor
    peer1.set_sensor_sampling(&mut server, "counter", "event", &[]);
    peer2.set_sensor_sampling(&mut server, "counter", "event", &[]);

    // Update sensor: both clients should receive
    set_int(
        &mut server,
        &mut [&mut peer1, &mut peer2],
        "counter",
        1,
        SensorStatus::Nominal,
    );
    assert_eq!(peer1.updates.len(), 1);
    assert_eq!(peer2.updates.len(), 1);

    // Disconnect client1: its sampling should be cleaned up
    peer1.client.disconnect();
    server.disconnect_client(&peer1.addr);

    // Update sensor again: only client2 should receive
    set_int(
        &mut server,
        &mut [&mut peer1, &mut peer2],
        "counter",
        2,
        SensorStatus::Nominal,
    );
    assert_eq!(peer1.updates.len(), 1); // unchanged, client1 disconnected
    assert_eq!(peer2.updates.len(), 2); // client2 still receiving

    peer2.client.disconnect();
}

#[test]
fn test_sensor_value_all() {
    let mut server = start_server();
    let mut peer = Peer::connect(&mut server, 1);
    // No sensor name: return all sensor values
    let (reply, informs) = peer.request_str(&mut server, "sensor-value", &[]).unwrap();
    assert!(reply.is_ok());
    assert_eq!(informs.len(), 4); // temperature, counter, flag, mode
}

#[test]
fn test_sensor_value_unknown() {
    let mut server = start_server();
    let mut peer = Peer::connect(&mut server, 1);
    let (reply, _) = peer
        .request_str(&mut server, "sensor-value", &["nonexistent"])
        .unwrap();
    assert!(!reply.is_ok());
    assert_eq!(reply.reply_status(), Some("fail"));
    assert_eq!(reply.arg_str(1), Some("Unknown sensor name."));

    peer.client.disconnect();
}

#[test]
fn test_help_specific_request() {
    let mut server = start_server();
    let mut peer = Peer::connect(&mut server, 1);

    // Help for known request
    let (reply, informs) = peer.request_str(&mut server, "help", &["watchdog"]).unwrap();
    assert!(reply.is_ok());
    assert_eq!(informs.len(), 1);

    // Help for custom handler
    let (reply, informs) = peer.request_str(&mut server, "help", &["multiply"]).unwrap();
    assert!(reply.is_ok());
    assert_eq!(informs.len(), 1);

    // Help for unknown request
    let (reply, _) = peer.request_str(&mut server, "help", &["nonexistent"]).unwrap();
    assert!(!reply.is_ok());

    peer.client.disconnect();
}

#[test]
fn identifiers_count_up() {
    let mut client = DeviceClient::new("h", 1);
    assert_eq!(client.connect_target(), "h:1");
    assert_eq!(
        client.request("x", vec![b"a b".to_vec()]).to_bytes(),
        b"?x[1] a\\_b\n"
    );
    assert_eq!(client.request_str("y", &["1"]).to_bytes(), b"?y[2] 1\n");
    assert_eq!(
        client.set_sensor_sampling("s", "period", &["2"]).to_bytes(),
        b"?sensor-sampling[3] s period 2\n"
    );
    assert_eq!(
        client.clear_sensor_sampling("s").to_bytes(),
        b"?sensor-sampling[4] s none\n"
    );
    assert_eq!(client.pending.len(), 4);
}

#[test]
fn requests_end_in_one_of_five_ways() {
    let mut client = DeviceClient::new("h", 1);
    let msg = client.request("x", vec![]);
    assert!(client.send_message(&msg).is_none());
    assert!(matches!(
        client.finish_request("1", Outcome::NotSent),
        Err(ClientError::NotConnected)
    ));
    assert!(client.pending.is_empty());
    client.connect();
    assert!(client.is_connected());
    let msg = client.request("x", vec![]);
    assert_eq!(client.send_message(&msg), Some(b"?x[2]\n".to_vec()));
    assert!(matches!(
        client.finish_request("2", Outcome::TimedOut),
        Err(ClientError::Timeout)
    ));
    client.request("x", vec![]);
    assert!(matches!(
        client.finish_request("3", Outcome::Lost),
        Err(ClientError::NotConnected)
    ));
    assert!(client.pending.is_empty());
    client.request("x", vec![]);
    assert!(matches!(
        client.finish_request("4", Outcome::Closed),
        Err(ClientError::ChannelClosed)
    ));
    assert!(client.pending.is_empty());
    let reply = Message::reply("x", vec![]);
    match client.finish_request("5", Outcome::Answered(reply, vec![])) {
        Ok((reply, informs)) => {
            assert_eq!(reply.name, "x");
            assert!(informs.is_empty());
        }
        Err(e) => panic!("{:?}", e),
    }
    assert_eq!(format!("{:?}", ClientError::Io("gone".into())), "Io(\"gone\")");
}

#[test]
fn connections_open_and_close() {
    let mut client = DeviceClient::new("h", 1);
    let msg = Message::request("x", vec![]);
    assert!(!client.is_connected());
    assert_eq!(client.connect(), 1);
    assert!(client.close(1).is_empty());
    assert!(!client.is_connected());
    assert!(client.send_message(&msg).is_some());
    client.disconnect();
    assert!(client.send_message(&msg).is_none());
}

#[test]
fn a_lost_connection_ends_the_requests_that_wait() {
    let mut client = DeviceClient::new("h", 1);
    client.connect();
    let msg = client.request("a", vec![]);
    assert_eq!(client.send_request(&msg).ok(), Some(b"?a[1]\n".to_vec()));
    client.request("b", vec![]);
    assert_eq!(client.close(1), vec!["1".to_string(), "2".to_string()]);
    assert!(client.pending.is_empty());
    assert!(!client.is_connected());
    for mid in ["1", "2"] {
        assert!(matches!(
            client.finish_request(mid, Outcome::Lost),
            Err(ClientError::NotConnected)
        ));
    }
    // A reply that comes too late completes nothing.
    let late = Message::reply_with_str_args("a", &["ok"]).with_mid("1");
    assert!(client.dispatch_message(&late, None).is_empty());
    // A request that is made now ends at once.
    let msg = client.request("c", vec![]);
    assert!(matches!(client.send_request(&msg), Err(Outcome::Lost)));
    client.disconnect();
    assert!(matches!(client.send_request(&msg), Err(Outcome::NotSent)));
}

#[test]
fn the_loss_of_an_earlier_connection_leaves_the_present_one() {
    let mut client = DeviceClient::new("h", 1);
    let first = client.connect();
    client.request("a", vec![]);
    client.disconnect();
    let second = client.connect();
    assert_eq!((first, second), (1, 2));
    let msg = client.request("b", vec![]);
    // Only now does the first connection end.
    assert_eq!(client.close(first), vec!["1".to_string()]);
    assert!(client.is_connected());
    assert_eq!(client.send_request(&msg).ok(), Some(b"?b[2]\n".to_vec()));
    assert_eq!(client.pending.len(), 1);
    let reply = Message::reply_with_str_args("b", &["ok"]).with_mid("2");
    assert!(matches!(
        &client.dispatch_message(&reply, None)[0],
        Action::Complete { mid, reply: _, informs: _ } if mid == "2"
    ));
    assert!(client.close(second).is_empty());
    assert!(!client.is_connected());
}

#[test]
fn replies_without_identifier_go_to_the_oldest_request_of_their_name() {
    let mut client = DeviceClient::new("h", 1);
    for name in ["a", "b", "b"] {
        client.request(name, vec![]);
    }
    let reply = Message::reply_with_str_args("b", &["ok"]);
    for expected in ["2", "3"] {
        let actions = client.dispatch_message(&reply, None);
        assert_eq!(actions.len(), 1);
        assert!(matches!(
            &actions[0],
            Action::Complete { mid, reply: r, informs: _ } if mid == expected && *r == reply
        ));
    }
    assert!(client.dispatch_message(&reply, None).is_empty());
    assert_eq!(client.pending.len(), 1);
    assert_eq!(client.pending[0].name, "a");
}

#[test]
fn replies_find_their_requests() {
    let mut client = DeviceClient::new("h", 1);
    client.request("a", vec![]);
    client.request("b", vec![]);
    let inform = |mid: &str, text: &str| -> Message {
        Message::inform_with_str_args("b", &[text]).with_mid(mid)
    };
    assert!(client.dispatch_message(&inform("2", "x"), None).is_empty());
    assert!(client.dispatch_message(&inform("1", "y"), None).is_empty());
    assert!(client.dispatch_message(&inform("2", "z"), None).is_empty());
    let reply = Message::reply_with_str_args("b", &["ok"]).with_mid("2");
    let mut actions = client.dispatch_message(&reply, None);
    match actions.pop() {
        Some(Action::Complete { mid, reply, informs }) => {
            assert_eq!(mid, "2");
            assert!(reply.is_ok());
            assert_eq!(informs, vec![inform("2", "x"), inform("2", "z")]);
        }
        _ => panic!("the request is not complete"),
    }
    // It no longer waits.
    assert!(client.dispatch_message(&reply, None).is_empty());
    // A reply without an identifier goes by its name: nobody waits for this one.
    assert!(client.dispatch_message(&Message::reply("b", vec![]), None).is_empty());
    assert_eq!(client.pending.len(), 1);
    // The request of its name is complete.
    let actions = client.dispatch_message(&Message::reply("a", vec![]), None);
    match &actions[0] {
        Action::Complete { mid, reply: _, informs } => {
            assert_eq!(mid, "1");
            assert_eq!(*informs, vec![inform("1", "y")]);
        }
        _ => panic!("the request is not complete"),
    }
    assert!(client.dispatch_message(&Message::reply("a", vec![]), None).is_empty());
}

#[test]
fn informs_that_nobody_waits_for_are_queued() {
    let mut client = DeviceClient::new("h", 1);
    client.on_inform("log");
    let first = Message::inform_with_str_args("log", &["a"]);
    let second = Message::inform_with_str_args("other", &["b"]).with_mid("77");
    let actions = client.dispatch_message(&first, None);
    assert_eq!(actions.len(), 1);
    assert!(matches!(&actions[0], Action::CallInform(m) if *m == first));
    assert!(client.dispatch_message(&second, None).is_empty());
    assert_eq!(client.recv_inform(), Some(first));
    assert_eq!(client.recv_inform(), Some(second));
    assert_eq!(client.recv_inform(), None);
}

#[test]
fn requests_from_the_server_are_unexpected() {
    let mut client = DeviceClient::new("h", 1);
    let msg = Message::request("x", vec![]);
    let actions = client.dispatch_message(&msg, None);
    assert!(matches!(&actions[0], Action::Unexpected(m) if *m == msg));
    assert_eq!(actions.len(), 1);
}

#[test]
fn the_protocol_is_learned_once_it_can_be_read() {
    let mut client = DeviceClient::new("h", 1);
    assert!(matches!(client.wait_protocol(9, 10), ProtocolWait::Waiting));
    assert!(matches!(client.wait_protocol(10, 10), ProtocolWait::TimedOut));
    let tell = |what: &str, version: &str| -> Message {
        Message::inform_with_str_args("version-connect", &[what, version])
    };
    client.dispatch_message(&tell("katcp-protocol", "five"), None);
    client.dispatch_message(&tell("katcp-library", "5.0"), None);
    assert!(client.protocol.is_none());
    client.dispatch_message(&tell("katcp-protocol", "5.1-M"), None);
    match client.wait_protocol(10, 10) {
        ProtocolWait::Known(p) => {
            assert_eq!(p.minor, 1);
            assert!(p.has_multi_client() && !p.has_message_ids());
        }
        _ => panic!("the protocol is not known"),
    }
}

#[test]
fn updates_are_read_from_informs() {
    let msg = Message::inform_with_str_args(
        "sensor-status",
        &["1.500000", "1", "s", "warn", "a b"],
    );
    let u = SensorUpdate::from_inform(&msg, number(msg.arg_str(0))).unwrap();
    assert_eq!(u.name, "s");
    assert_eq!(u.status, SensorStatus::Warn);
    assert_eq!(u.value, b"a b");
    assert_eq!(f64::from_bits(u.timestamp.bits), 1.5);
    assert_eq!(u.clone().value_str(), Some("a b"));
    let read = |name: &str, args: &[&str]| -> bool {
        let m = Message::inform_with_str_args(name, args);
        SensorUpdate::from_inform(&m, number(m.arg_str(0))).is_some()
    };
    assert!(read("sensor-status", &["1", "1", "s", "warn", "v"]));
    assert!(!read("sensor-value", &["1", "1", "s", "warn", "v"]));
    assert!(!read("sensor-status", &["1", "1", "s", "warn"]));
    assert!(!read("sensor-status", &["x", "1", "s", "warn", "v"]));
    assert!(!read("sensor-status", &["1", "1", "s", "odd", "v"]));
}

#[test]
fn refused_sampling_registers_no_callback() {
    let mut server = start_server();
    let mut peer = Peer::connect(&mut server, 1);
    let reply = peer.set_sensor_sampling(&mut server, "nothing", "event", &[]);
    assert!(!reply.is_ok());
    assert!(peer.client.sensor_callbacks.is_empty());
    peer.set_sensor_sampling(&mut server, "counter", "event", &[]);
    assert_eq!(peer.client.sensor_callbacks, vec!["counter".to_string()]);
    let reply = peer.clear_sensor_sampling(&mut server, "nothing");
    assert!(!reply.is_ok());
    assert_eq!(peer.client.sensor_callbacks, vec!["counter".to_string()]);
}

#[test]
fn lines_are_read_without_what_ends_them() {
    assert!(matches!(read_received("\r\n"), Received::Nothing));
    assert!(matches!(read_received("oops\n"), Received::Malformed(_)));
    match read_received("#a b\r\n") {
        Received::Message(m) => assert_eq!(m.to_bytes(), b"#a b\n"),
        _ => panic!("no message"),
    }
}
