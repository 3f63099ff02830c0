//! What a device client is and what it does with what it receives, as mathematics sees it.

use vstd::prelude::*;
use vstd::utf8::encode_utf8;
use crate::decimal::nat_text;
use crate::float::Float64View;
use crate::message::MessageType;
use crate::message::MessageView;
use crate::protocol::read_version;
use crate::protocol::ProtocolFlagsView;
use crate::sensor::read_status;
use crate::sensor::SensorStatus;
use crate::server_model::distinct;
use crate::server_model::place;

verus! {

/// A sensor update that the server told of.
#[verifier::ext_equal]
pub struct SensorUpdateView {
    pub timestamp: Float64View,
    pub name: Seq<char>,
    pub status: SensorStatus,
    pub value: Seq<u8>,
}

/// The update that a `#sensor-status` inform tells of: time, count, name, status and value. `time`
/// is the time, read as a number.
pub open spec fn read_update(msg: MessageView, time: Option<Float64View>) -> Option<
    SensorUpdateView,
> {
    if msg.name != "sensor-status"@ || msg.arguments.len() < 5 {
        None
    } else {
        match (msg.arg_text(0), time, msg.arg_text(2), msg.arg_text(3)) {
            (Some(_), Some(timestamp), Some(name), Some(word)) => match read_status(word) {
                Some(status) => Some(
                    SensorUpdateView { timestamp, name, status, value: msg.arguments[4] },
                ),
                None => None,
            },
            _ => None,
        }
    }
}

/// A request that waits for its reply, and the informs that came for it.
#[verifier::ext_equal]
pub struct PendingView {
    pub mid: Seq<char>,
    pub name: Seq<char>,
    pub connection: u64,
    pub informs: Seq<MessageView>,
}

/// A device client.
#[verifier::ext_equal]
pub struct DeviceClientView {
    pub host: Seq<char>,
    pub port: u16,
    pub pending: Seq<PendingView>,
    pub next_mid: u64,
    pub protocol: Option<ProtocolFlagsView>,
    pub inform_callbacks: Seq<Seq<char>>,
    pub sensor_callbacks: Seq<Seq<char>>,
    pub connection: u64,
    pub writable: bool,
    pub connected: bool,
    pub unsolicited: Seq<MessageView>,
}

/// What is to be done because a message came.
#[verifier::ext_equal]
pub enum ActionView {
    /// Call the callback of the update's sensor.
    CallSensor(SensorUpdateView),
    /// Call the callback of the inform's name.
    CallInform(MessageView),
    /// Hand the reply and the informs to whoever waits for the request.
    Complete { mid: Seq<char>, reply: MessageView, informs: Seq<MessageView> },
    /// The server sent a request, which it should not.
    Unexpected(MessageView),
}

/// What becomes of a message that came: the client after it, and what is to be done.
#[verifier::ext_equal]
pub struct DispatchView {
    pub client: DeviceClientView,
    pub actions: Seq<ActionView>,
}

/// The identifiers of requests.
pub open spec fn pending_mids(pending: Seq<PendingView>) -> Seq<Seq<char>> {
    pending.map_values(|p: PendingView| p.mid)
}

/// The names of requests.
pub open spec fn pending_names(pending: Seq<PendingView>) -> Seq<Seq<char>> {
    pending.map_values(|p: PendingView| p.name)
}

/// The place of a request among those that wait; their number where it is not among them.
pub open spec fn pending_place(pending: Seq<PendingView>, mid: Seq<char>) -> int {
    place(pending_mids(pending), mid)
}

/// A client that was just made.
pub open spec fn new_client(host: Seq<char>, port: u16) -> DeviceClientView {
    DeviceClientView {
        host,
        port,
        pending: seq![],
        next_mid: 1,
        protocol: None,
        inform_callbacks: seq![],
        sensor_callbacks: seq![],
        connection: 0,
        writable: false,
        connected: false,
        unsolicited: seq![],
    }
}

/// Names after one is added to them.
pub open spec fn names_with(names: Seq<Seq<char>>, name: Seq<char>) -> Seq<Seq<char>> {
    if names.contains(name) {
        names
    } else {
        names.push(name)
    }
}

/// Names after one is removed from them.
pub open spec fn names_without(names: Seq<Seq<char>>, name: Seq<char>) -> Seq<Seq<char>> {
    let n = place(names, name);
    if n < names.len() {
        names.remove(n)
    } else {
        names
    }
}

/// The protocol that the client knows after an inform.
pub open spec fn protocol_after(
    protocol: Option<ProtocolFlagsView>,
    msg: MessageView,
) -> Option<ProtocolFlagsView> {
    if msg.name == "version-connect"@ && msg.arg_text(0) == Some("katcp-protocol"@) {
        match msg.arg_text(1) {
            Some(version) => match read_version(version) {
                Some(p) => Some(p),
                None => protocol,
            },
            None => protocol,
        }
    } else {
        protocol
    }
}

/// The place of the request that an inform came for.
pub open spec fn inform_place(pending: Seq<PendingView>, msg: MessageView) -> int {
    match msg.mid {
        Some(mid) => pending_place(pending, mid),
        None => pending.len() as int,
    }
}

/// The place of the request that a reply came for: without an identifier, the one of its name that
/// has waited longest.
pub open spec fn reply_place(pending: Seq<PendingView>, msg: MessageView) -> int {
    match msg.mid {
        Some(mid) => pending_place(pending, mid),
        None => place(pending_names(pending), msg.name),
    }
}

/// The sensor callback that an inform calls.
pub open spec fn sensor_calls(
    callbacks: Seq<Seq<char>>,
    msg: MessageView,
    time: Option<Float64View>,
) -> Seq<ActionView> {
    match read_update(msg, time) {
        Some(update) => if callbacks.contains(update.name) {
            seq![ActionView::CallSensor(update)]
        } else {
            seq![]
        },
        None => seq![],
    }
}

/// The inform callback that an inform calls.
pub open spec fn inform_calls(callbacks: Seq<Seq<char>>, msg: MessageView) -> Seq<ActionView> {
    if callbacks.contains(msg.name) {
        seq![ActionView::CallInform(msg)]
    } else {
        seq![]
    }
}

/// What becomes of an inform: it is collected where a request waits for it; else the callbacks are
/// called, and it is queued.
pub open spec fn inform_dispatched(
    client: DeviceClientView,
    msg: MessageView,
    time: Option<Float64View>,
) -> DispatchView {
    let protocol = protocol_after(client.protocol, msg);
    let p = inform_place(client.pending, msg);
    if p < client.pending.len() {
        DispatchView {
            client: DeviceClientView {
                protocol,
                pending: client.pending.update(
                    p,
                    PendingView {
                        informs: client.pending[p].informs.push(msg),
                        ..client.pending[p]
                    },
                ),
                ..client
            },
            actions: seq![],
        }
    } else {
        DispatchView {
            client: DeviceClientView {
                protocol,
                unsolicited: client.unsolicited.push(msg),
                ..client
            },
            actions: sensor_calls(client.sensor_callbacks, msg, time) + inform_calls(
                client.inform_callbacks,
                msg,
            ),
        }
    }
}

/// What becomes of a reply: the request that it came for is complete.
pub open spec fn reply_dispatched(client: DeviceClientView, msg: MessageView) -> DispatchView {
    let p = reply_place(client.pending, msg);
    if p < client.pending.len() {
        DispatchView {
            client: DeviceClientView { pending: client.pending.remove(p), ..client },
            actions: seq![
                ActionView::Complete {
                    mid: client.pending[p].mid,
                    reply: msg,
                    informs: client.pending[p].informs,
                },
            ],
        }
    } else {
        DispatchView { client, actions: seq![] }
    }
}

/// What becomes of a message that came.
pub open spec fn dispatched(
    client: DeviceClientView,
    msg: MessageView,
    time: Option<Float64View>,
) -> DispatchView {
    match msg.mtype {
        MessageType::Inform => inform_dispatched(client, msg, time),
        MessageType::Reply => reply_dispatched(client, msg),
        MessageType::Request => DispatchView { client, actions: seq![ActionView::Unexpected(msg)] },
    }
}

/// The identifier of the next request.
pub open spec fn next_mid_text(client: DeviceClientView) -> Seq<char> {
    nat_text(client.next_mid as nat)
}

/// The next request of a client.
pub open spec fn next_request(
    client: DeviceClientView,
    name: Seq<char>,
    arguments: Seq<Seq<u8>>,
) -> MessageView {
    MessageView {
        mtype: MessageType::Request,
        name,
        mid: Some(next_mid_text(client)),
        arguments,
    }
}

/// The requests that wait after one is made.
pub open spec fn pending_with(
    pending: Seq<PendingView>,
    mid: Seq<char>,
    name: Seq<char>,
    connection: u64,
) -> Seq<PendingView> {
    let p = pending_place(pending, mid);
    let fresh = PendingView { mid, name, connection, informs: seq![] };
    if p < pending.len() {
        pending.update(p, fresh)
    } else {
        pending.push(fresh)
    }
}

/// The requests that wait after one is given up.
pub open spec fn pending_without(pending: Seq<PendingView>, mid: Seq<char>) -> Seq<PendingView> {
    let p = pending_place(pending, mid);
    if p < pending.len() {
        pending.remove(p)
    } else {
        pending
    }
}

/// The client after it made a request of a name.
pub open spec fn client_requesting(client: DeviceClientView, name: Seq<char>) -> DeviceClientView {
    DeviceClientView {
        pending: pending_with(client.pending, next_mid_text(client), name, client.connection),
        next_mid: (client.next_mid + 1) as u64,
        ..client
    }
}

/// The waiting requests that were made on a connection.
pub open spec fn made_on(pending: Seq<PendingView>, connection: u64) -> Seq<PendingView> {
    pending.filter(|p: PendingView| p.connection == connection)
}

/// The waiting requests that were not made on a connection.
pub open spec fn made_off(pending: Seq<PendingView>, connection: u64) -> Seq<PendingView> {
    pending.filter(|p: PendingView| p.connection != connection)
}

/// The client after a connection was made: it takes the place of the one before it.
pub open spec fn client_connected(client: DeviceClientView) -> DeviceClientView {
    DeviceClientView {
        connection: (client.connection + 1) as u64,
        writable: true,
        connected: true,
        ..client
    }
}

/// The client after a connection was lost: the requests that were made on it no longer wait. Where
/// another connection has taken its place, the client stays connected.
pub open spec fn client_closed(client: DeviceClientView, connection: u64) -> DeviceClientView {
    DeviceClientView {
        connected: client.connected && connection != client.connection,
        pending: made_off(client.pending, connection),
        ..client
    }
}

/// The client after it gave up a request.
pub open spec fn client_giving_up(client: DeviceClientView, mid: Seq<char>) -> DeviceClientView {
    DeviceClientView { pending: pending_without(client.pending, mid), ..client }
}

/// The arguments of a request to sample a sensor.
pub open spec fn sampling_arguments(
    sensor_name: Seq<char>,
    strategy: Seq<char>,
    params: Seq<Seq<u8>>,
) -> Seq<Seq<u8>> {
    seq![encode_utf8(sensor_name), encode_utf8(strategy)] + params
}

impl DeviceClientView {
    /// Whether no two waiting requests have one identifier, each has one that was given out, each was
    /// made on a connection that there was by then, and each callback is known once.
    pub open spec fn wf(self) -> bool {
        &&& distinct(pending_mids(self.pending))
        &&& forall|i: int|
            0 <= i < self.pending.len() ==> was_given(self.next_mid, #[trigger] self.pending[i].mid)
        &&& forall|i: int|
            0 <= i < self.pending.len() ==> (#[trigger] self.pending[i].connection)
                <= self.connection
        &&& distinct(self.inform_callbacks)
        &&& distinct(self.sensor_callbacks)
    }
}

/// Whether an identifier was given to a request before the number `next` came up.
pub open spec fn was_given(next: u64, mid: Seq<char>) -> bool {
    exists|k: nat| k < next && mid == #[trigger] nat_text(k)
}

} // verus!
