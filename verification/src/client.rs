//! The device client: its requests, and what it does with what the server sends.

use vstd::prelude::*;
use vstd::utf8::encode_utf8;
use crate::address::address_text;
use crate::client_laws::client_order_is_kept;
use crate::client_laws::ClientEventView;
use crate::client_model::client_closed;
use crate::client_model::client_connected;
use crate::client_model::client_giving_up;
use crate::client_model::client_requesting;
use crate::client_model::dispatched;
use crate::client_model::inform_calls;
use crate::client_model::inform_dispatched;
use crate::client_model::inform_place;
use crate::client_model::made_off;
use crate::client_model::made_on;
use crate::client_model::names_with;
use crate::client_model::names_without;
use crate::client_model::new_client;
use crate::client_model::next_request;
use crate::client_model::pending_mids;
use crate::client_model::pending_names;
use crate::client_model::pending_place;
use crate::client_model::protocol_after;
use crate::client_model::read_update;
use crate::client_model::reply_dispatched;
use crate::client_model::sampling_arguments;
use crate::client_model::sensor_calls;
use crate::client_model::ActionView;
use crate::client_model::DeviceClientView;
use crate::client_model::DispatchView;
use crate::client_model::PendingView;
use crate::client_model::SensorUpdateView;
use crate::decimal::nat_text;
use crate::decimal::u64_text;
use crate::float::Float64;
use crate::message::args_view;
use crate::message::bytes_of_strs;
use crate::message::copy_bytes;
use crate::message::str_args;
use crate::message::Message;
use crate::message::MessageType;
use crate::message::MessageView;
use crate::protocol::ProtocolFlags;
use crate::protocol::ProtocolFlagsView;
use crate::sensor::SensorStatus;
use crate::server::messages_view;
use crate::server_model::lemma_place_is;
use crate::server_model::place;
use crate::text::find_text;
use crate::text::opt_str;
use crate::text::str_eq;
use crate::text::texts_view;
use crate::text::utf8_text;
use crate::types::opt_float;
use crate::wire::wire;

verus! {

/// Client errors.
#[derive(Debug)]
pub enum ClientError {
    /// The client is not connected.
    NotConnected,
    /// No reply came in time.
    Timeout,
    /// Whoever was to hand over the reply is gone.
    ChannelClosed,
    /// Input or output failed, for this reason.
    Io(String),
}

/// Client errors as mathematics sees them.
#[verifier::ext_equal]
pub enum ClientErrorView {
    NotConnected,
    Timeout,
    ChannelClosed,
    Io(Seq<char>),
}

impl View for ClientError {
    type V = ClientErrorView;

    open spec fn view(&self) -> ClientErrorView {
        match self {
            ClientError::NotConnected => ClientErrorView::NotConnected,
            ClientError::Timeout => ClientErrorView::Timeout,
            ClientError::ChannelClosed => ClientErrorView::ChannelClosed,
            ClientError::Io(why) => ClientErrorView::Io(why@),
        }
    }
}

/// A parsed sensor status update received from the server.
#[derive(Debug)]
pub struct SensorUpdate {
    pub timestamp: Float64,
    pub name: String,
    pub status: SensorStatus,
    pub value: Vec<u8>,
}

impl View for SensorUpdate {
    type V = SensorUpdateView;

    open spec fn view(&self) -> SensorUpdateView {
        SensorUpdateView {
            timestamp: self.timestamp@,
            name: self.name@,
            status: self.status,
            value: self.value@,
        }
    }
}

impl Clone for SensorUpdate {
    fn clone(&self) -> (copy: SensorUpdate)
        ensures
            copy@ == self@,
    {
        SensorUpdate {
            timestamp: self.timestamp.clone(),
            name: self.name.clone(),
            status: self.status,
            value: copy_bytes(&self.value),
        }
    }
}

/// The update that an optional update holds.
pub open spec fn opt_update(u: Option<SensorUpdate>) -> Option<SensorUpdateView> {
    match u {
        Some(x) => Some(x@),
        None => None,
    }
}

impl SensorUpdate {
    /// Get the value as a UTF-8 string.
    pub fn value_str(&self) -> (text: Option<&str>)
        ensures
            opt_str(text) == (if vstd::utf8::valid_utf8(self@.value) {
                Some(vstd::utf8::decode_utf8(self@.value))
            } else {
                None
            }),
    {
        utf8_text(self.value.as_slice())
    }

    /// Try to parse from a `#sensor-status` inform message: time, count, name, status and value.
    /// `time` is the time, read as a number.
    pub fn from_inform(msg: &Message, time: Option<Float64>) -> (update: Option<SensorUpdate>)
        ensures
            opt_update(update) == read_update(msg@, opt_float(time)),
    {
        if !str_eq(msg.name.as_str(), "sensor-status") || msg.arguments.len() < 5 {
            return None;
        }
        if msg.arg_str(0).is_none() {
            return None;
        }
        match (time, msg.arg_str(2), msg.arg_str(3)) {
            (Some(timestamp), Some(name), Some(word)) => match SensorStatus::from_str(word) {
                Some(status) => {
                    assert(msg@.arguments[4] == msg.arguments@[4]@);
                    Some(
                        SensorUpdate {
                            timestamp,
                            name: name.to_owned(),
                            status,
                            value: copy_bytes(&msg.arguments[4]),
                        },
                    )
                },
                None => None,
            },
            _ => None,
        }
    }
}

/// A pending request waiting for its reply.
pub struct PendingRequest {
    pub mid: String,
    pub name: String,
    /// The connection that it was made on.
    pub connection: u64,
    pub informs: Vec<Message>,
}

impl View for PendingRequest {
    type V = PendingView;

    open spec fn view(&self) -> PendingView {
        PendingView {
            mid: self.mid@,
            name: self.name@,
            connection: self.connection,
            informs: messages_view(self.informs@),
        }
    }
}

/// The requests that a list holds.
pub open spec fn pending_view(ps: Seq<PendingRequest>) -> Seq<PendingView> {
    ps.map_values(|p: PendingRequest| p@)
}

/// The protocol that an optional protocol holds.
pub open spec fn opt_protocol(p: Option<ProtocolFlags>) -> Option<ProtocolFlagsView> {
    match p {
        Some(x) => Some(x@),
        None => None,
    }
}

/// A device client.
pub struct DeviceClient {
    pub host: String,
    pub port: u16,
    /// The requests that wait for their replies, in the order in which they were made.
    pub pending: Vec<PendingRequest>,
    /// The number of the next request.
    pub next_mid: u64,
    /// The protocol that the server told of.
    pub protocol: Option<ProtocolFlags>,
    /// The names of the informs that have callbacks.
    pub inform_callbacks: Vec<String>,
    /// The names of the sensors that have callbacks.
    pub sensor_callbacks: Vec<String>,
    /// How many connections were made; the latest has this number.
    pub connection: u64,
    /// Whether messages can be sent.
    pub writable: bool,
    pub connected: bool,
    /// The informs that belong to no request, in the order in which they came.
    pub unsolicited: Vec<Message>,
}

impl View for DeviceClient {
    type V = DeviceClientView;

    open spec fn view(&self) -> DeviceClientView {
        DeviceClientView {
            host: self.host@,
            port: self.port,
            pending: pending_view(self.pending@),
            next_mid: self.next_mid,
            protocol: opt_protocol(self.protocol),
            inform_callbacks: texts_view(self.inform_callbacks@),
            sensor_callbacks: texts_view(self.sensor_callbacks@),
            connection: self.connection,
            writable: self.writable,
            connected: self.connected,
            unsolicited: messages_view(self.unsolicited@),
        }
    }
}

/// What is to be done because a message came.
pub enum Action {
    /// Call the callback of the update's sensor.
    CallSensor(SensorUpdate),
    /// Call the callback of the inform's name.
    CallInform(Message),
    /// Hand the reply and the informs to whoever waits for the request.
    Complete { mid: String, reply: Message, informs: Vec<Message> },
    /// The server sent a request, which it should not.
    Unexpected(Message),
}

impl View for Action {
    type V = ActionView;

    open spec fn view(&self) -> ActionView {
        match self {
            Action::CallSensor(u) => ActionView::CallSensor(u@),
            Action::CallInform(m) => ActionView::CallInform(m@),
            Action::Complete { mid, reply, informs } => ActionView::Complete {
                mid: mid@,
                reply: reply@,
                informs: messages_view(informs@),
            },
            Action::Unexpected(m) => ActionView::Unexpected(m@),
        }
    }
}

/// The actions that a list holds.
pub open spec fn actions_view(actions: Seq<Action>) -> Seq<ActionView> {
    actions.map_values(|a: Action| a@)
}

/// How the wait for a reply ended.
pub enum Outcome {
    /// The request could not be sent.
    NotSent,
    /// The reply came, and these informs before it.
    Answered(Message, Vec<Message>),
    /// Whoever was to hand over the reply is gone.
    Closed,
    /// No reply came in time.
    TimedOut,
    /// The connection was lost before the reply came.
    Lost,
}

/// What a request gives for each way in which the wait for its reply can end.
pub open spec fn outcome_result(outcome: Outcome) -> Result<
    (MessageView, Seq<MessageView>),
    ClientErrorView,
> {
    match outcome {
        Outcome::NotSent => Err(ClientErrorView::NotConnected),
        Outcome::Answered(reply, informs) => Ok((reply@, messages_view(informs@))),
        Outcome::Closed => Err(ClientErrorView::ChannelClosed),
        Outcome::TimedOut => Err(ClientErrorView::Timeout),
        Outcome::Lost => Err(ClientErrorView::NotConnected),
    }
}

/// What a request gives.
pub open spec fn result_view(r: Result<(Message, Vec<Message>), ClientError>) -> Result<
    (MessageView, Seq<MessageView>),
    ClientErrorView,
> {
    match r {
        Ok((reply, informs)) => Ok((reply@, messages_view(informs@))),
        Err(e) => Err(e@),
    }
}

/// Whether the wait for the protocol is over.
pub enum ProtocolWait {
    /// The server told of its protocol.
    Known(ProtocolFlags),
    /// It did not in time.
    TimedOut,
    /// Ask again in a while.
    Waiting,
}

/// Finds a request among those that wait.
fn find_pending(pending: &Vec<PendingRequest>, mid: &str) -> (p: usize)
    ensures
        p == pending_place(pending_view(pending@), mid@),
        p <= pending@.len(),
{
    let ghost keys = pending_mids(pending_view(pending@));
    let mut i: usize = 0;
    while i < pending.len() && !str_eq(pending[i].mid.as_str(), mid)
        invariant
            i <= pending@.len(),
            keys == pending_mids(pending_view(pending@)),
            forall|k: int| 0 <= k < i ==> (#[trigger] keys[k]) != mid@,
        decreases pending@.len() - i,
    {
        assert(keys[i as int] == pending@[i as int].mid@);
        i = i + 1;
    }
    proof {
        lemma_place_is(keys, mid@, i as int);
    }
    i
}

/// Finds the first request of a name among those that wait.
fn find_named(pending: &Vec<PendingRequest>, name: &str) -> (p: usize)
    ensures
        p == place(pending_names(pending_view(pending@)), name@),
        p <= pending@.len(),
{
    let ghost keys = pending_names(pending_view(pending@));
    let mut i: usize = 0;
    while i < pending.len() && !str_eq(pending[i].name.as_str(), name)
        invariant
            i <= pending@.len(),
            keys == pending_names(pending_view(pending@)),
            forall|k: int| 0 <= k < i ==> (#[trigger] keys[k]) != name@,
        decreases pending@.len() - i,
    {
        assert(keys[i as int] == pending@[i as int].name@);
        i = i + 1;
    }
    proof {
        lemma_place_is(keys, name@, i as int);
    }
    i
}

/// Adds a name to names, once.
fn add_name(names: &mut Vec<String>, name: &str)
    ensures
        texts_view(final(names)@) == names_with(texts_view(old(names)@), name@),
{
    let ghost before = texts_view(names@);
    if find_text(names, name).is_none() {
        names.push(name.to_owned());
        assert(texts_view(names@) =~= before.push(name@));
    }
}

/// Removes a name from names.
fn remove_name(names: &mut Vec<String>, name: &str)
    ensures
        texts_view(final(names)@) == names_without(texts_view(old(names)@), name@),
{
    let ghost before = texts_view(names@);
    match find_text(names, name) {
        Some(i) => {
            proof {
                lemma_place_is(before, name@, i as int);
            }
            names.remove(i);
            assert(texts_view(names@) =~= before.remove(i as int));
        },
        None => {
            proof {
                assert forall|k: int| 0 <= k < before.len() implies (#[trigger] before[k])
                    != name@ by {
                    assert(names@[k]@ != name@);
                }
                lemma_place_is(before, name@, before.len() as int);
            }
        },
    }
}

impl DeviceClient {
    /// Create a new client targeting the given host and port.
    pub fn new(host: &str, port: u16) -> (client: DeviceClient)
        ensures
            client@ == new_client(host@, port),
            client@.wf(),
    {
        let pending: Vec<PendingRequest> = Vec::new();
        let inform_callbacks: Vec<String> = Vec::new();
        let sensor_callbacks: Vec<String> = Vec::new();
        let unsolicited: Vec<Message> = Vec::new();
        assert(pending_view(pending@) =~= seq![]);
        assert(texts_view(inform_callbacks@) =~= seq![]);
        assert(texts_view(sensor_callbacks@) =~= seq![]);
        assert(messages_view(unsolicited@) =~= seq![]);
        DeviceClient {
            host: host.to_owned(),
            port,
            pending,
            next_mid: 1,
            protocol: None,
            inform_callbacks,
            sensor_callbacks,
            connection: 0,
            writable: false,
            connected: false,
            unsolicited,
        }
    }

    /// The address to connect to.
    pub fn connect_target(&self) -> (text: String)
        ensures
            text@ == self@.host + seq![':'] + nat_text(self@.port as nat),
    {
        address_text(self.host.as_str(), self.port)
    }

    /// A connection was made: it takes the place of the one before it. Returns its number.
    pub fn connect(&mut self) -> (connection: u64)
        requires
            old(self)@.connection < u64::MAX,
        ensures
            connection == old(self)@.connection + 1,
            final(self)@ == client_connected(old(self)@),
            old(self)@.wf() ==> final(self)@.wf(),
    {
        proof {
            if old(self)@.wf() {
                client_order_is_kept(old(self)@, ClientEventView::Connect);
            }
        }
        self.connection = self.connection + 1;
        self.writable = true;
        self.connected = true;
        self.connection
    }

    /// A connection was lost. The requests that were made on it no longer wait: their identifiers
    /// come back, in the order in which the requests were made, and each of them is to end as lost.
    /// Where another connection has taken its place, the client stays connected.
    pub fn close(&mut self, connection: u64) -> (lost: Vec<String>)
        ensures
            texts_view(lost@) == pending_mids(made_on(old(self)@.pending, connection)),
            final(self)@ == client_closed(old(self)@, connection),
            old(self)@.wf() ==> final(self)@.wf(),
    {
        proof {
            if old(self)@.wf() {
                client_order_is_kept(old(self)@, ClientEventView::Close(connection));
            }
        }
        let ghost before = self@;
        let ghost all = before.pending;
        let ghost mut seen: int = 0;
        let mut lost: Vec<String> = Vec::new();
        let mut i: usize = 0;
        proof {
            reveal(Seq::filter);
            assert(all.take(0) =~= Seq::<PendingView>::empty());
            assert(texts_view(lost@) =~= pending_mids(made_on(all.take(0), connection)));
            assert(self@.pending =~= made_off(all.take(0), connection) + all.skip(0));
        }
        while i < self.pending.len()
            invariant
                i <= self.pending@.len(),
                0 <= seen <= all.len(),
                all == before.pending,
                i == made_off(all.take(seen), connection).len(),
                self.pending@.len() - i == all.len() - seen,
                texts_view(lost@) == pending_mids(made_on(all.take(seen), connection)),
                self@ == (DeviceClientView {
                    pending: made_off(all.take(seen), connection) + all.skip(seen),
                    ..before
                }),
            decreases all.len() - seen,
        {
            let ghost p = all[seen];
            let ghost kept = made_off(all.take(seen), connection);
            let ghost gone = made_on(all.take(seen), connection);
            proof {
                assert(self@.pending[i as int] == p);
                assert(self.pending@[i as int]@ == p);
                reveal(Seq::filter);
                assert(all.take(seen + 1).drop_last() =~= all.take(seen));
                assert(all.take(seen + 1).last() == p);
                assert(all.skip(seen) =~= seq![p] + all.skip(seen + 1));
            }
            if self.pending[i].connection == connection {
                let ghost prev = self.pending@;
                let ghost done = texts_view(lost@);
                let req = self.pending.remove(i);
                assert(pending_view(self.pending@) =~= pending_view(prev).remove(i as int));
                lost.push(req.mid);
                assert(texts_view(lost@) =~= done.push(p.mid));
                assert(made_on(all.take(seen + 1), connection) =~= gone.push(p));
                assert(pending_mids(gone.push(p)) =~= pending_mids(gone).push(p.mid));
                assert(made_off(all.take(seen + 1), connection) =~= kept);
            } else {
                i = i + 1;
                assert(made_off(all.take(seen + 1), connection) =~= kept.push(p));
                assert(made_on(all.take(seen + 1), connection) =~= gone);
            }
            assert(self@.pending =~= made_off(all.take(seen + 1), connection) + all.skip(seen + 1));
            proof {
                seen = seen + 1;
            }
        }
        assert(all.take(seen) =~= all);
        assert(self@.pending =~= made_off(all, connection));
        if connection == self.connection {
            self.connected = false;
        }
        lost
    }

    /// Disconnect from the server.
    pub fn disconnect(&mut self)
        ensures
            final(self)@ == (DeviceClientView { writable: false, connected: false, ..old(self)@ }),
            old(self)@.wf() ==> final(self)@.wf(),
    {
        self.writable = false;
        self.connected = false;
    }

    /// Check if the client is connected.
    pub fn is_connected(&self) -> (r: bool)
        ensures
            r == self@.connected,
    {
        self.connected
    }

    /// Register a callback for a specific inform message name.
    pub fn on_inform(&mut self, name: &str)
        ensures
            final(self)@ == (DeviceClientView {
                inform_callbacks: names_with(old(self)@.inform_callbacks, name@),
                ..old(self)@
            }),
            old(self)@.wf() ==> final(self)@.wf(),
    {
        proof {
            if old(self)@.wf() {
                client_order_is_kept(old(self)@, ClientEventView::OnInform(name@));
            }
        }
        add_name(&mut self.inform_callbacks, name);
    }

    /// The bytes that send a raw message to the server, if messages can be sent.
    pub fn send_message(&self, msg: &Message) -> (bytes: Option<Vec<u8>>)
        ensures
            match bytes {
                Some(b) => self@.writable && b@ == wire(msg@),
                None => !self@.writable,
            },
    {
        if self.writable {
            Some(msg.to_bytes())
        } else {
            None
        }
    }

    /// The bytes that send a request to the server, or how the wait for its reply ends at once: the
    /// request cannot be sent, or the connection is lost.
    pub fn send_request(&self, msg: &Message) -> (r: Result<Vec<u8>, Outcome>)
        ensures
            match r {
                Ok(bytes) => self@.writable && self@.connected && bytes@ == wire(msg@),
                Err(Outcome::NotSent) => !self@.writable,
                Err(Outcome::Lost) => self@.writable && !self@.connected,
                Err(_) => false,
            },
    {
        match self.send_message(msg) {
            None => Err(Outcome::NotSent),
            Some(bytes) => if self.connected {
                Ok(bytes)
            } else {
                Err(Outcome::Lost)
            },
        }
    }

    /// Make a request: it gets an identifier of its own and waits for its reply.
    pub fn request(&mut self, name: &str, args: Vec<Vec<u8>>) -> (msg: Message)
        requires
            old(self)@.next_mid < u64::MAX,
        ensures
            msg@ == next_request(old(self)@, name@, args_view(args@)),
            final(self)@ == client_requesting(old(self)@, name@),
            old(self)@.wf() ==> final(self)@.wf(),
    {
        proof {
            if old(self)@.wf() {
                client_order_is_kept(old(self)@, ClientEventView::Request(name@));
            }
        }
        let ghost before = self@.pending;
        let mid = u64_text(self.next_mid);
        self.next_mid = self.next_mid + 1;
        let informs: Vec<Message> = Vec::new();
        assert(messages_view(informs@) =~= seq![]);
        let p = find_pending(&self.pending, mid.as_str());
        let msg = Message::request(name, args).with_mid(mid.as_str());
        let fresh = PendingRequest {
            mid,
            name: name.to_owned(),
            connection: self.connection,
            informs,
        };
        if p < self.pending.len() {
            self.pending.set(p, fresh);
            assert(self@.pending =~= before.update(p as int, fresh@));
        } else {
            self.pending.push(fresh);
            assert(self@.pending =~= before.push(fresh@));
        }
        msg
    }

    /// Convenience method: make a request with string arguments.
    pub fn request_str(&mut self, name: &str, args: &[&str]) -> (msg: Message)
        requires
            old(self)@.next_mid < u64::MAX,
        ensures
            msg@ == next_request(old(self)@, name@, str_args(args@)),
            final(self)@ == client_requesting(old(self)@, name@),
            old(self)@.wf() ==> final(self)@.wf(),
    {
        self.request(name, bytes_of_strs(args))
    }

    /// The wait for the reply to a request is over: what the request gives. Unless the reply came,
    /// the request is given up.
    pub fn finish_request(&mut self, mid: &str, outcome: Outcome) -> (r: Result<
        (Message, Vec<Message>),
        ClientError,
    >)
        ensures
            result_view(r) == outcome_result(outcome),
            final(self)@ == (if outcome is Answered {
                old(self)@
            } else {
                client_giving_up(old(self)@, mid@)
            }),
            old(self)@.wf() ==> final(self)@.wf(),
    {
        proof {
            if old(self)@.wf() {
                client_order_is_kept(old(self)@, ClientEventView::GiveUp(mid@));
            }
        }
        let error = match outcome {
            Outcome::Answered(reply, informs) => {
                return Ok((reply, informs));
            },
            Outcome::NotSent => ClientError::NotConnected,
            Outcome::Closed => ClientError::ChannelClosed,
            Outcome::TimedOut => ClientError::Timeout,
            Outcome::Lost => ClientError::NotConnected,
        };
        let ghost before = self@.pending;
        let p = find_pending(&self.pending, mid);
        if p < self.pending.len() {
            self.pending.remove(p);
            assert(self@.pending =~= before.remove(p as int));
        }
        Err(error)
    }

    /// Ask the server to let this client sample a sensor.
    pub fn set_sensor_sampling(&mut self, sensor_name: &str, strategy: &str, params: &[&str]) -> (msg:
        Message)
        requires
            old(self)@.next_mid < u64::MAX,
        ensures
            msg@ == next_request(
                old(self)@,
                "sensor-sampling"@,
                sampling_arguments(sensor_name@, strategy@, str_args(params@)),
            ),
            final(self)@ == client_requesting(old(self)@, "sensor-sampling"@),
            old(self)@.wf() ==> final(self)@.wf(),
    {
        let mut args: Vec<Vec<u8>> = Vec::new();
        args.push(sensor_name.as_bytes_vec());
        args.push(strategy.as_bytes_vec());
        let ghost front = args_view(args@);
        let mut rest = bytes_of_strs(params);
        let ghost back = args_view(rest@);
        args.append(&mut rest);
        assert(args_view(args@) =~= front + back);
        assert(front =~= seq![encode_utf8(sensor_name@), encode_utf8(strategy@)]);
        self.request("sensor-sampling", args)
    }

    /// The server replied to the request to sample a sensor: on success the sensor's updates have a
    /// callback from now on.
    pub fn sampling_set(&mut self, sensor_name: &str, reply: &Message)
        ensures
            final(self)@ == (if reply@.says_ok() {
                DeviceClientView {
                    sensor_callbacks: names_with(old(self)@.sensor_callbacks, sensor_name@),
                    ..old(self)@
                }
            } else {
                old(self)@
            }),
            old(self)@.wf() ==> final(self)@.wf(),
    {
        proof {
            if old(self)@.wf() {
                client_order_is_kept(old(self)@, ClientEventView::SamplingSet(sensor_name@));
            }
        }
        if reply.is_ok() {
            add_name(&mut self.sensor_callbacks, sensor_name);
        }
    }

    /// Ask the server to let this client no longer sample a sensor.
    pub fn clear_sensor_sampling(&mut self, sensor_name: &str) -> (msg: Message)
        requires
            old(self)@.next_mid < u64::MAX,
        ensures
            msg@ == next_request(
                old(self)@,
                "sensor-sampling"@,
                sampling_arguments(sensor_name@, "none"@, seq![]),
            ),
            final(self)@ == client_requesting(old(self)@, "sensor-sampling"@),
            old(self)@.wf() ==> final(self)@.wf(),
    {
        let mut args: Vec<Vec<u8>> = Vec::new();
        args.push(sensor_name.as_bytes_vec());
        args.push("none".as_bytes_vec());
        assert(args_view(args@) =~= sampling_arguments(sensor_name@, "none"@, seq![]));
        self.request("sensor-sampling", args)
    }

    /// The server replied to the request to no longer sample a sensor: on success the sensor's
    /// updates have no callback from now on.
    pub fn sampling_cleared(&mut self, sensor_name: &str, reply: &Message)
        ensures
            final(self)@ == (if reply@.says_ok() {
                DeviceClientView {
                    sensor_callbacks: names_without(old(self)@.sensor_callbacks, sensor_name@),
                    ..old(self)@
                }
            } else {
                old(self)@
            }),
            old(self)@.wf() ==> final(self)@.wf(),
    {
        proof {
            if old(self)@.wf() {
                client_order_is_kept(old(self)@, ClientEventView::SamplingCleared(sensor_name@));
            }
        }
        if reply.is_ok() {
            remove_name(&mut self.sensor_callbacks, sensor_name);
        }
    }

    /// Wait for the protocol version to be received from the server: whether the wait is over, when
    /// so many nanoseconds have gone by, and so many are allowed.
    pub fn wait_protocol(&self, elapsed: u128, timeout: u128) -> (w: ProtocolWait)
        ensures
            match w {
                ProtocolWait::Known(p) => self@.protocol == Some(p@),
                ProtocolWait::TimedOut => self@.protocol is None && elapsed >= timeout,
                ProtocolWait::Waiting => self@.protocol is None && elapsed < timeout,
            },
    {
        match &self.protocol {
            Some(p) => ProtocolWait::Known(*p),
            None => if elapsed >= timeout {
                ProtocolWait::TimedOut
            } else {
                ProtocolWait::Waiting
            },
        }
    }

    /// Receive the next unsolicited inform message, if one has come.
    pub fn recv_inform(&mut self) -> (msg: Option<Message>)
        ensures
            match msg {
                Some(m) => {
                    &&& old(self)@.unsolicited.len() > 0
                    &&& m@ == old(self)@.unsolicited[0]
                    &&& final(self)@ == (DeviceClientView {
                        unsolicited: old(self)@.unsolicited.skip(1),
                        ..old(self)@
                    })
                },
                None => {
                    &&& old(self)@.unsolicited.len() == 0
                    &&& final(self)@ == old(self)@
                },
            },
            old(self)@.wf() ==> final(self)@.wf(),
    {
        let ghost before = self@.unsolicited;
        if self.unsolicited.len() > 0 {
            let m = self.unsolicited.remove(0);
            assert(self@.unsolicited =~= before.skip(1));
            assert(m@ == before[0]);
            Some(m)
        } else {
            None
        }
    }

    /// Learns the protocol from an inform, if the inform tells of it.
    fn learn_protocol(&mut self, msg: &Message)
        ensures
            final(self)@ == (DeviceClientView {
                protocol: protocol_after(old(self)@.protocol, msg@),
                ..old(self)@
            }),
    {
        if str_eq(msg.name.as_str(), "version-connect") {
            let tells = match msg.arg_str(0) {
                Some(what) => str_eq(what, "katcp-protocol"),
                None => false,
            };
            if tells {
                if let Some(version) = msg.arg_str(1) {
                    if let Some(p) = ProtocolFlags::parse(version) {
                        self.protocol = Some(p);
                    }
                }
            }
        }
    }

    /// Collects an inform or passes it on.
    fn dispatch_inform(&mut self, msg: &Message, time: Option<Float64>) -> (actions: Vec<Action>)
        ensures
            (DispatchView { client: final(self)@, actions: actions_view(actions@) })
                == inform_dispatched(old(self)@, msg@, opt_float(time)),
    {
        self.learn_protocol(msg);
        let ghost before = self@;
        let p = match &msg.mid {
            Some(mid) => find_pending(&self.pending, mid.as_str()),
            None => self.pending.len(),
        };
        assert(p == inform_place(before.pending, msg@));
        let mut actions: Vec<Action> = Vec::new();
        assert(actions_view(actions@) =~= seq![]);
        if p < self.pending.len() {
            let ghost informs = self.pending@[p as int].informs@;
            let copy = msg.clone();
            self.pending[p].informs.push(copy);
            assert(messages_view(self.pending@[p as int].informs@) =~= messages_view(informs).push(
                msg@,
            ));
            assert(self@.pending =~= before.pending.update(
                p as int,
                PendingView {
                    informs: before.pending[p as int].informs.push(msg@),
                    ..before.pending[p as int]
                },
            ));
            return actions;
        }
        let ghost calls = sensor_calls(before.sensor_callbacks, msg@, opt_float(time));
        if let Some(update) = SensorUpdate::from_inform(msg, time) {
            if find_text(&self.sensor_callbacks, update.name.as_str()).is_some() {
                actions.push(Action::CallSensor(update));
            }
        }
        assert(actions_view(actions@) =~= calls);
        if find_text(&self.inform_callbacks, msg.name.as_str()).is_some() {
            actions.push(Action::CallInform(msg.clone()));
            assert(actions_view(actions@) =~= calls.push(ActionView::CallInform(msg@)));
        }
        assert(actions_view(actions@) =~= calls + inform_calls(before.inform_callbacks, msg@));
        let ghost queue = self.unsolicited@;
        self.unsolicited.push(msg.clone());
        assert(messages_view(self.unsolicited@) =~= messages_view(queue).push(msg@));
        actions
    }

    /// Completes the request that a reply came for.
    fn dispatch_reply(&mut self, msg: &Message) -> (actions: Vec<Action>)
        ensures
            (DispatchView { client: final(self)@, actions: actions_view(actions@) })
                == reply_dispatched(old(self)@, msg@),
    {
        let ghost before = self@;
        let p = match &msg.mid {
            Some(mid) => find_pending(&self.pending, mid.as_str()),
            None => find_named(&self.pending, msg.name.as_str()),
        };
        let mut actions: Vec<Action> = Vec::new();
        assert(actions_view(actions@) =~= seq![]);
        if p < self.pending.len() {
            let req = self.pending.remove(p);
            assert(self@.pending =~= before.pending.remove(p as int));
            assert(req@ == before.pending[p as int]);
            let action = Action::Complete {
                mid: req.mid,
                reply: msg.clone(),
                informs: req.informs,
            };
            actions.push(action);
            assert(actions_view(actions@) =~= seq![action@]);
        }
        actions
    }

    /// Dispatch an incoming message. `time` is the first argument of a `#sensor-status` inform, read
    /// as a number. What comes back is to be done, in order.
    pub fn dispatch_message(&mut self, msg: &Message, time: Option<Float64>) -> (actions: Vec<Action>)
        ensures
            (DispatchView { client: final(self)@, actions: actions_view(actions@) }) == dispatched(
                old(self)@,
                msg@,
                opt_float(time),
            ),
            old(self)@.wf() ==> final(self)@.wf(),
    {
        proof {
            if old(self)@.wf() {
                client_order_is_kept(old(self)@, ClientEventView::Message(msg@, opt_float(time)));
            }
        }
        match msg.mtype {
            MessageType::Inform => self.dispatch_inform(msg, time),
            MessageType::Reply => self.dispatch_reply(msg),
            MessageType::Request => {
                let mut actions: Vec<Action> = Vec::new();
                actions.push(Action::Unexpected(msg.clone()));
                assert(actions_view(actions@) =~= seq![ActionView::Unexpected(msg@)]);
                actions
            },
        }
    }
}

} // verus!
