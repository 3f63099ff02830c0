//! What holds of a device client's callbacks, requests and of what it does with each message, stated
//! by what it was given.

use vstd::prelude::*;
use vstd::utf8::decode_utf8;
use vstd::utf8::encode_utf8;
use vstd::utf8::encode_utf8_decode_utf8;
use vstd::utf8::encode_utf8_valid_utf8;
use vstd::utf8::valid_utf8;
use crate::answer_laws::written_parameters_are_read;
use crate::client::outcome_result;
use crate::client::Outcome;
use crate::client_laws::client_run;
use crate::client_laws::client_step;
use crate::client_laws::identifiers_are_fresh;
use crate::client_laws::lemma_pending_at;
use crate::client_laws::ClientEventView;
use crate::client_model::client_giving_up;
use crate::client_model::client_requesting;
use crate::client_model::dispatched;
use crate::client_model::names_with;
use crate::client_model::names_without;
use crate::client_model::new_client;
use crate::client_model::next_request;
use crate::client_model::pending_mids;
use crate::client_model::read_update;
use crate::client_model::sampling_arguments;
use crate::client_model::ActionView;
use crate::client_model::DeviceClientView;
use crate::client_model::PendingView;
use crate::client_model::SensorUpdateView;
use crate::decimal::nat_text;
use crate::float::Float64View;
use crate::message::Message;
use crate::message::MessageType;
use crate::message::MessageView;
use crate::protocol::read_version;
use crate::sampling::SamplingObserverView;
use crate::sensor::status_is_read_by_its_name;
use crate::sensor::SensorReadingView;
use crate::sensor::SensorStatus;
use crate::server_laws::lemma_distinct_remove;
use crate::server_model::distinct;
use crate::server_model::lemma_place;
use crate::server_model::param_texts;
use crate::server_model::place;

verus! {

/// A name that is added joins those that there are, all of which stay; none other comes in.
pub proof fn added_names_join_the_others(
    names: Seq<Seq<char>>,
    name: Seq<char>,
    other: Seq<char>,
)
    ensures
        names_with(names, name).contains(other) <==> other == name || names.contains(other),
{
    let after = names_with(names, name);
    if !names.contains(name) {
        assert(after =~= names.push(name));
        assert(after[names.len() as int] == name);
        if names.contains(other) {
            let k = choose|k: int| 0 <= k < names.len() && names[k] == other;
            assert(after[k] == other);
        }
        if after.contains(other) {
            let k = choose|k: int| 0 <= k < after.len() && after[k] == other;
            if k < names.len() {
                assert(names[k] == other);
            }
        }
    }
}

/// Of distinct names, the one that is removed goes and all others stay.
pub proof fn removed_names_leave_the_others(
    names: Seq<Seq<char>>,
    name: Seq<char>,
    other: Seq<char>,
)
    requires
        distinct(names),
    ensures
        names_without(names, name).contains(other) <==> other != name && names.contains(other),
{
    let after = names_without(names, name);
    let n = place(names, name);
    lemma_place(names, name);
    if n < names.len() {
        lemma_distinct_remove(names, n);
        if names.contains(other) && other != name {
            let k = choose|k: int| 0 <= k < names.len() && names[k] == other;
            let a = if k < n { k } else { k - 1 };
            assert(after[a] == other);
        }
        if after.contains(other) {
            let k = choose|k: int| 0 <= k < after.len() && after[k] == other;
            let a = if k < n { k } else { k + 1 };
            assert(names[a] == other);
        }
    }
}

/// A sensor has a callback from when its sampling was set until its sampling is cleared, whatever else
/// happens; an inform has one for good from when it was registered.
pub proof fn callbacks_stay(client: DeviceClientView, event: ClientEventView, name: Seq<char>)
    requires
        client.wf(),
    ensures
        ({
            let after = client_step(client, event);
            &&& after.sensor_callbacks.contains(name) <==> {
                ||| event == ClientEventView::SamplingSet(name)
                ||| client.sensor_callbacks.contains(name) && event
                    != ClientEventView::SamplingCleared(name)
            }
            &&& after.inform_callbacks.contains(name) <==> {
                ||| event == ClientEventView::OnInform(name)
                ||| client.inform_callbacks.contains(name)
            }
        }),
{
    match event {
        ClientEventView::OnInform(other) => {
            added_names_join_the_others(client.inform_callbacks, other, name);
        },
        ClientEventView::SamplingSet(other) => {
            added_names_join_the_others(client.sensor_callbacks, other, name);
        },
        ClientEventView::SamplingCleared(other) => {
            removed_names_leave_the_others(client.sensor_callbacks, other, name);
        },
        _ => {},
    }
}

/// After the sampling of a sensor was set, and through any run of events in which it is not cleared,
/// every update of the sensor that the server tells of is handed to its callback.
pub proof fn subscriptions_last(
    client: DeviceClientView,
    name: Seq<char>,
    events: Seq<ClientEventView>,
    o: SamplingObserverView,
    reading: SensorReadingView,
    time: Float64View,
)
    requires
        client.wf(),
        crate::client_laws::all_numbered(
            client_step(client, ClientEventView::SamplingSet(name)),
            events,
        ),
        forall|i: int|
            0 <= i < events.len() ==> (#[trigger] events[i]) != ClientEventView::SamplingCleared(
                name,
            ),
        o.sensor_name == name,
    ensures
        dispatched(
            client_run(client_step(client, ClientEventView::SamplingSet(name)), events),
            o.status_inform(reading),
            Some(time),
        ).actions.contains(
            ActionView::CallSensor(
                SensorUpdateView {
                    timestamp: time,
                    name,
                    status: reading.status,
                    value: reading.value,
                },
            ),
        ),
{
    let start = client_step(client, ClientEventView::SamplingSet(name));
    crate::client_laws::client_order_is_kept(client, ClientEventView::SamplingSet(name));
    callbacks_stay(client, ClientEventView::SamplingSet(name), name);
    lemma_callback_lasts(start, name, events);
    crate::client_laws::updates_reach_callbacks(client_run(start, events), o, reading, time);
}

/// A sensor keeps its callback through a run of events in which its sampling is not cleared.
proof fn lemma_callback_lasts(
    client: DeviceClientView,
    name: Seq<char>,
    events: Seq<ClientEventView>,
)
    requires
        client.wf(),
        client.sensor_callbacks.contains(name),
        crate::client_laws::all_numbered(client, events),
        forall|i: int|
            0 <= i < events.len() ==> (#[trigger] events[i]) != ClientEventView::SamplingCleared(
                name,
            ),
    ensures
        client_run(client, events).wf(),
        client_run(client, events).sensor_callbacks.contains(name),
    decreases events.len(),
{
    if events.len() > 0 {
        let rest = events.drop_last();
        assert forall|i: int| 0 <= i < rest.len() implies (#[trigger] rest[i])
            != ClientEventView::SamplingCleared(name) by {
            assert(rest[i] == events[i]);
        }
        lemma_callback_lasts(client, name, rest);
        let before = client_run(client, rest);
        assert(events[events.len() - 1] != ClientEventView::SamplingCleared(name));
        callbacks_stay(before, events.last(), name);
        crate::client_laws::client_order_is_kept(before, events.last());
    }
}

/// An update is read from an inform if and only if the inform is a sensor's status with at least five
/// arguments, of which the first reads as a number, the third is a text and the fourth names a status.
/// It holds that number, that text and that status, and the fifth argument as it is.
pub proof fn updates_are_read_from_their_arguments(msg: MessageView, time: Option<Float64View>)
    ensures
        ({
            let args = msg.arguments;
            let readable = msg.name == "sensor-status"@ && args.len() >= 5 && valid_utf8(args[0])
                && time is Some && valid_utf8(args[2]) && valid_utf8(args[3]) && exists|
                s: SensorStatus,
            | (#[trigger] s.name()) == decode_utf8(args[3]);
            &&& read_update(msg, time) is Some <==> readable
            &&& read_update(msg, time) matches Some(u) ==> {
                &&& u.timestamp == time->0
                &&& u.name == decode_utf8(args[2])
                &&& u.status.name() == decode_utf8(args[3])
                &&& u.value == args[4]
            }
        }),
{
    if exists|s: SensorStatus| (#[trigger] s.name()) == decode_utf8(msg.arguments[3]) {
        let s = choose|s: SensorStatus| (#[trigger] s.name()) == decode_utf8(msg.arguments[3]);
        status_is_read_by_its_name(s);
    }
}

/// Whether a request waits for an inform or a reply that carries its identifier.
pub open spec fn is_awaited(client: DeviceClientView, msg: MessageView) -> bool {
    msg.mid matches Some(mid) && pending_mids(client.pending).contains(mid)
}

/// An inform that no request waits for is handed to the callback of the sensor whose update it tells of,
/// if there is one, then to the callback of its name, if there is one, and then queued behind those
/// before it; and nothing else comes of it but what it tells of the protocol.
pub proof fn informs_are_passed_on(
    client: DeviceClientView,
    msg: MessageView,
    time: Option<Float64View>,
)
    requires
        msg.mtype == MessageType::Inform,
        !is_awaited(client, msg),
    ensures
        ({
            let d = dispatched(client, msg, time);
            let u = read_update(msg, time);
            let to_sensor = u is Some && client.sensor_callbacks.contains(u->0.name);
            let to_inform = client.inform_callbacks.contains(msg.name);
            &&& d.actions.len() == (if to_sensor {
                1int
            } else {
                0int
            }) + (if to_inform {
                1int
            } else {
                0int
            })
            &&& to_sensor ==> d.actions[0] == ActionView::CallSensor(u->0)
            &&& to_inform ==> d.actions.last() == ActionView::CallInform(msg)
            &&& d.client == (DeviceClientView {
                protocol: d.client.protocol,
                unsolicited: client.unsolicited.push(msg),
                ..client
            })
        }),
{
    if msg.mid is Some {
        lemma_place(pending_mids(client.pending), msg.mid->0);
    }
}

/// An inform that a request waits for is put behind those that came for it before, and nothing else
/// comes of it but what it tells of the protocol.
pub proof fn awaited_informs_are_kept(
    client: DeviceClientView,
    i: int,
    msg: MessageView,
    time: Option<Float64View>,
)
    requires
        client.wf(),
        0 <= i < client.pending.len(),
        msg.mtype == MessageType::Inform,
        msg.mid == Some(client.pending[i].mid),
    ensures
        ({
            let d = dispatched(client, msg, time);
            let p = client.pending[i];
            &&& d.actions.len() == 0
            &&& d.client == (DeviceClientView {
                protocol: d.client.protocol,
                pending: client.pending.update(
                    i,
                    PendingView { informs: p.informs.push(msg), ..p },
                ),
                ..client
            })
        }),
{
    lemma_pending_at(client, i);
}

/// The protocol that the client knows changes if and only if an inform on connecting tells of one that
/// can be read, and is then that one.
pub proof fn protocols_are_learned_from_the_greeting(
    client: DeviceClientView,
    msg: MessageView,
    time: Option<Float64View>,
)
    ensures
        ({
            let after = dispatched(client, msg, time).client.protocol;
            let tells = msg.mtype == MessageType::Inform && msg.name == "version-connect"@
                && msg.arg_text(0) == Some("katcp-protocol"@) && msg.arg_text(1) is Some;
            let version = read_version(msg.arg_text(1)->0);
            &&& tells && version is Some ==> after == version
            &&& !(tells && version is Some) ==> after == client.protocol
        }),
{
}

/// A reply that carries the identifier of a waiting request hands that request's informs and the reply
/// to whoever waits, and the request no longer waits; others do. One that carries another identifier
/// changes nothing, and neither does a request from the server.
pub proof fn replies_complete_their_own(
    client: DeviceClientView,
    i: int,
    msg: MessageView,
    time: Option<Float64View>,
)
    requires
        client.wf(),
    ensures
        ({
            let d = dispatched(client, msg, time);
            let p = client.pending[i];
            &&& msg.mtype == MessageType::Reply && 0 <= i < client.pending.len() && msg.mid == Some(
                p.mid,
            ) ==> {
                &&& d.actions == seq![
                    ActionView::Complete { mid: p.mid, reply: msg, informs: p.informs },
                ]
                &&& d.client == (DeviceClientView { pending: client.pending.remove(i), ..client })
            }
            &&& msg.mtype == MessageType::Reply && msg.mid is Some && !is_awaited(client, msg) ==> {
                &&& d.actions.len() == 0
                &&& d.client == client
            }
            &&& msg.mtype == MessageType::Request ==> {
                &&& d.actions == seq![ActionView::Unexpected(msg)]
                &&& d.client == client
            }
        }),
{
    if 0 <= i < client.pending.len() {
        lemma_pending_at(client, i);
    }
    if msg.mid is Some {
        lemma_place(pending_mids(client.pending), msg.mid->0);
    }
}

/// A request that is made waits behind those that wait, under the next number, with nothing that came
/// for it; nothing else of the client changes but the number. The message is a request of the name and
/// the arguments given, with that number as its identifier.
pub proof fn requests_wait_behind_the_others(
    client: DeviceClientView,
    name: Seq<char>,
    arguments: Seq<Seq<u8>>,
)
    requires
        client.wf(),
        client.next_mid < u64::MAX,
    ensures
        ({
            let after = client_requesting(client, name);
            let mid = nat_text(client.next_mid as nat);
            &&& after == (DeviceClientView {
                pending: client.pending.push(
                    PendingView {
                        mid,
                        name,
                        connection: client.connection,
                        informs: Seq::empty(),
                    },
                ),
                next_mid: after.next_mid,
                ..client
            })
            &&& after.next_mid == client.next_mid + 1
            &&& next_request(client, name, arguments) == (MessageView {
                mtype: MessageType::Request,
                name,
                mid: Some(mid),
                arguments,
            })
        }),
{
    identifiers_are_fresh(client);
}

/// A request that is given up no longer waits; all others do, and nothing else changes. To give up one
/// that does not wait changes nothing.
pub proof fn giving_up_leaves_the_others(client: DeviceClientView, i: int, mid: Seq<char>)
    requires
        client.wf(),
    ensures
        0 <= i < client.pending.len() ==> client_giving_up(client, client.pending[i].mid) == (
        DeviceClientView { pending: client.pending.remove(i), ..client }),
        !pending_mids(client.pending).contains(mid) ==> client_giving_up(client, mid) == client,
{
    if 0 <= i < client.pending.len() {
        lemma_pending_at(client, i);
    }
    lemma_place(pending_mids(client.pending), mid);
}

/// What a client sends to sample a sensor is what a server reads: the sensor's name first, the
/// strategy's name second, and then the parameters, all of them and in order.
pub proof fn sampling_requests_are_understood(
    client: DeviceClientView,
    sensor_name: Seq<char>,
    strategy: Seq<char>,
    params: Seq<Seq<char>>,
)
    ensures
        ({
            let m = next_request(
                client,
                "sensor-sampling"@,
                sampling_arguments(
                    sensor_name,
                    strategy,
                    params.map_values(|t: Seq<char>| encode_utf8(t)),
                ),
            );
            &&& m.mtype == MessageType::Request
            &&& m.name == "sensor-sampling"@
            &&& m.arg_text(0) == Some(sensor_name)
            &&& m.arg_text(1) == Some(strategy)
            &&& param_texts(m.arguments) == params
        }),
{
    encode_utf8_valid_utf8(sensor_name);
    encode_utf8_decode_utf8(sensor_name);
    encode_utf8_valid_utf8(strategy);
    encode_utf8_decode_utf8(strategy);
    written_parameters_are_read(encode_utf8(sensor_name), encode_utf8(strategy), params);
}

/// A client that was just made knows where to connect to and nothing else: it is not connected, nothing
/// waits and nothing has come.
pub proof fn new_clients_know_nothing(host: Seq<char>, port: u16)
    ensures
        ({
            let c = new_client(host, port);
            &&& c.host == host && c.port == port
            &&& !c.connected && !c.writable
            &&& c.pending.len() == 0 && c.unsolicited.len() == 0
            &&& c.inform_callbacks.len() == 0 && c.sensor_callbacks.len() == 0
            &&& c.protocol is None
            &&& c.next_mid == 1 && c.connection == 0
        }),
{
}

/// Nothing that happens to a client changes where it connects to. Connecting lets it send and be
/// connected, disconnecting ends both, and no message changes either.
pub proof fn events_leave_the_rest(client: DeviceClientView, event: ClientEventView)
    ensures
        ({
            let after = client_step(client, event);
            &&& after.host == client.host && after.port == client.port
            &&& event is Connect ==> after.connected && after.writable
            &&& event is Disconnect ==> !after.connected && !after.writable
            &&& !(event is Connect || event is Disconnect) ==> after.writable == client.writable
            &&& !(event is Connect || event is Disconnect || event is Close) ==> after.connected
                == client.connected
            &&& !(event is Message) ==> after.protocol == client.protocol
            &&& !(event is Message || event is Receive) ==> after.unsolicited == client.unsolicited
            &&& !(event is Message || event is Request || event is GiveUp || event is Close)
                ==> after.pending == client.pending
            &&& !(event is Request) ==> after.next_mid == client.next_mid
            &&& !(event is Connect) ==> after.connection == client.connection
        }),
{
}

/// A request succeeds if and only if its reply came, and then gives the reply and the informs that came;
/// else the error tells whether it was not sent or its connection was lost, nobody was left to hand
/// over the reply, or none came in time.
pub proof fn requests_end_as_their_wait_did(outcome: Outcome)
    ensures
        outcome_result(outcome) is Ok <==> outcome is Answered,
        match outcome {
            Outcome::Answered(reply, informs) => outcome_result(outcome)->Ok_0 == (
                reply@,
                informs@.map_values(|m: Message| m@),
            ),
            Outcome::NotSent => outcome_result(outcome)->Err_0 is NotConnected,
            Outcome::Lost => outcome_result(outcome)->Err_0 is NotConnected,
            Outcome::Closed => outcome_result(outcome)->Err_0 is ChannelClosed,
            Outcome::TimedOut => outcome_result(outcome)->Err_0 is Timeout,
        },
{
    if let Outcome::Answered(reply, informs) = outcome {
        assert(outcome_result(outcome)->Ok_0.1 =~= informs@.map_values(|m: Message| m@));
    }
}

} // verus!
