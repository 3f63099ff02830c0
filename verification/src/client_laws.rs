//! What holds of the device client as a whole, and of a client and a server that talk to each other:
//! identifiers are never given out twice, a request is completed by its own reply with its own
//! informs, and updates arrive as they were sent.

use vstd::prelude::*;
use vstd::utf8::encode_utf8;
use vstd::utf8::encode_utf8_decode_utf8;
use vstd::utf8::encode_utf8_valid_utf8;
use crate::address::SocketAddressView;
use crate::client::outcome_result;
use crate::client::ClientErrorView;
use crate::client::Outcome;
use crate::client_model::client_closed;
use crate::client_model::client_connected;
use crate::client_model::client_giving_up;
use crate::client_model::client_requesting;
use crate::client_model::dispatched;
use crate::client_model::inform_place;
use crate::client_model::made_off;
use crate::client_model::made_on;
use crate::client_model::names_with;
use crate::client_model::names_without;
use crate::client_model::new_client;
use crate::client_model::next_mid_text;
use crate::client_model::next_request;
use crate::client_model::pending_mids;
use crate::client_model::pending_names;
use crate::client_model::pending_place;
use crate::client_model::read_update;
use crate::client_model::reply_place;
use crate::client_model::was_given;
use crate::client_model::ActionView;
use crate::client_model::DeviceClientView;
use crate::client_model::DispatchView;
use crate::client_model::PendingView;
use crate::client_model::SensorUpdateView;
use crate::decimal::lemma_nat_text;
use crate::decimal::nat_text;
use crate::decimal::read_unsigned_undoes_nat_text;
use crate::filter::FilterView;
use crate::float::Float64View;
use crate::message::MessageType;
use crate::message::MessageView;
use crate::protocol::parse_undoes_to_string;
use crate::sampling::ParameterView;
use crate::sampling::SamplingObserverView;
use crate::sensor::status_is_read_by_its_name;
use crate::sensor::SensorReadingView;
use crate::server_laws::answers_belong_to_requests;
use crate::server_laws::lemma_distinct_push;
use crate::server_laws::lemma_distinct_remove;
use crate::server_model::builtin_answer;
use crate::server_model::distinct;
use crate::server_model::lemma_place;
use crate::server_model::lemma_place_is;
use crate::server_model::place;
use crate::server_model::ContextView;
use crate::server_model::RequestResultView;
use crate::server_model::ServerView;
use crate::wire::is_name;
use crate::wire_laws::well_named;

verus! {

/// What can happen to a client.
pub enum ClientEventView {
    Connect,
    Close(u64),
    Disconnect,
    OnInform(Seq<char>),
    Request(Seq<char>),
    GiveUp(Seq<char>),
    SamplingSet(Seq<char>),
    SamplingCleared(Seq<char>),
    Message(MessageView, Option<Float64View>),
    Receive,
}

/// The client after an event.
pub open spec fn client_step(client: DeviceClientView, event: ClientEventView) -> DeviceClientView {
    match event {
        ClientEventView::Connect => client_connected(client),
        ClientEventView::Close(connection) => client_closed(client, connection),
        ClientEventView::Disconnect => DeviceClientView {
            writable: false,
            connected: false,
            ..client
        },
        ClientEventView::OnInform(name) => DeviceClientView {
            inform_callbacks: names_with(client.inform_callbacks, name),
            ..client
        },
        ClientEventView::Request(name) => client_requesting(client, name),
        ClientEventView::GiveUp(mid) => client_giving_up(client, mid),
        ClientEventView::SamplingSet(name) => DeviceClientView {
            sensor_callbacks: names_with(client.sensor_callbacks, name),
            ..client
        },
        ClientEventView::SamplingCleared(name) => DeviceClientView {
            sensor_callbacks: names_without(client.sensor_callbacks, name),
            ..client
        },
        ClientEventView::Message(msg, time) => dispatched(client, msg, time).client,
        ClientEventView::Receive => DeviceClientView {
            unsolicited: if client.unsolicited.len() > 0 {
                client.unsolicited.skip(1)
            } else {
                client.unsolicited
            },
            ..client
        },
    }
}

/// Different numbers have different decimal texts.
proof fn lemma_texts_differ(a: nat, b: nat)
    requires
        nat_text(a) == nat_text(b),
    ensures
        a == b,
{
    read_unsigned_undoes_nat_text(a, a + b);
    read_unsigned_undoes_nat_text(b, a + b);
}

/// The identifier of a request was never given to one that still waits.
pub proof fn identifiers_are_fresh(client: DeviceClientView)
    requires
        client.wf(),
    ensures
        !pending_mids(client.pending).contains(next_mid_text(client)),
        pending_place(client.pending, next_mid_text(client)) == client.pending.len(),
{
    let keys = pending_mids(client.pending);
    let mid = next_mid_text(client);
    assert forall|i: int| 0 <= i < keys.len() implies (#[trigger] keys[i]) != mid by {
        assert(keys[i] == client.pending[i].mid);
        assert(was_given(client.next_mid, client.pending[i].mid));
        let k = choose|k: nat|
            k < client.next_mid && client.pending[i].mid == #[trigger] nat_text(k);
        if keys[i] == mid {
            lemma_texts_differ(k, client.next_mid as nat);
        }
    }
    lemma_place_is(keys, mid, keys.len() as int);
}

/// Two requests of one client never have one identifier, whatever happens in between.
pub proof fn identifiers_are_never_given_twice(
    client: DeviceClientView,
    name: Seq<char>,
    events: Seq<ClientEventView>,
)
    requires
        client.next_mid < u64::MAX,
        all_numbered(client_requesting(client, name), events),
    ensures
        next_mid_text(client_run(client_requesting(client, name), events)) != next_mid_text(client),
{
    let start = client_requesting(client, name);
    lemma_numbers_grow(start, events);
    if next_mid_text(client_run(start, events)) == next_mid_text(client) {
        lemma_texts_differ(client_run(start, events).next_mid as nat, client.next_mid as nat);
    }
}

/// The client after a run of events.
pub open spec fn client_run(client: DeviceClientView, events: Seq<ClientEventView>) -> DeviceClientView
    decreases events.len(),
{
    if events.len() == 0 {
        client
    } else {
        client_step(client_run(client, events.drop_last()), events.last())
    }
}

/// Whether there is a number left for the request or the connection that an event makes.
pub open spec fn numbered(client: DeviceClientView, event: ClientEventView) -> bool {
    &&& event is Request ==> client.next_mid < u64::MAX
    &&& event is Connect ==> client.connection < u64::MAX
}

/// Whether there is a number left for each request and each connection of a run of events.
pub open spec fn all_numbered(client: DeviceClientView, events: Seq<ClientEventView>) -> bool
    decreases events.len(),
{
    events.len() > 0 ==> {
        &&& all_numbered(client, events.drop_last())
        &&& numbered(client_run(client, events.drop_last()), events.last())
    }
}

/// The number of the next request never goes back.
proof fn lemma_numbers_grow(client: DeviceClientView, events: Seq<ClientEventView>)
    requires
        all_numbered(client, events),
    ensures
        client_run(client, events).next_mid >= client.next_mid,
    decreases events.len(),
{
    if events.len() > 0 {
        lemma_numbers_grow(client, events.drop_last());
    }
}

/// Every event keeps the client well-formed: no two waiting requests have one identifier, each has
/// one that was given out, each was made on a connection that there was by then, and each callback is
/// known once.
pub proof fn client_order_is_kept(client: DeviceClientView, event: ClientEventView)
    requires
        client.wf(),
        numbered(client, event),
    ensures
        client_step(client, event).wf(),
{
    let after = client_step(client, event);
    let keys = pending_mids(client.pending);
    match event {
        ClientEventView::Connect => {
            assert forall|i: int| 0 <= i < after.pending.len() implies (
            #[trigger] after.pending[i].connection) <= after.connection by {
                assert(client.pending[i].connection <= client.connection);
            }
        },
        ClientEventView::Close(connection) => {
            lemma_made_off(client.pending, connection);
            assert forall|i: int| 0 <= i < after.pending.len() implies was_given(
                after.next_mid,
                #[trigger] after.pending[i].mid,
            ) && after.pending[i].connection <= after.connection by {
                assert(client.pending.contains(after.pending[i]));
                let k = choose|k: int|
                    0 <= k < client.pending.len() && client.pending[k] == after.pending[i];
                assert(was_given(client.next_mid, client.pending[k].mid));
                assert(client.pending[k].connection <= client.connection);
            }
        },
        ClientEventView::OnInform(name) => {
            if !client.inform_callbacks.contains(name) {
                lemma_distinct_push(client.inform_callbacks, name);
            }
        },
        ClientEventView::SamplingSet(name) => {
            if !client.sensor_callbacks.contains(name) {
                lemma_distinct_push(client.sensor_callbacks, name);
            }
        },
        ClientEventView::SamplingCleared(name) => {
            let n = place(client.sensor_callbacks, name);
            lemma_place(client.sensor_callbacks, name);
            if n < client.sensor_callbacks.len() {
                lemma_distinct_remove(client.sensor_callbacks, n);
            }
        },
        ClientEventView::Request(name) => {
            let mid = next_mid_text(client);
            identifiers_are_fresh(client);
            lemma_distinct_push(keys, mid);
            assert(pending_mids(after.pending) =~= keys.push(mid));
            assert forall|i: int| 0 <= i < after.pending.len() implies was_given(
                after.next_mid,
                #[trigger] after.pending[i].mid,
            ) by {
                if i < client.pending.len() {
                    assert(was_given(client.next_mid, client.pending[i].mid));
                    let k = choose|k: nat|
                        k < client.next_mid && client.pending[i].mid == #[trigger] nat_text(k);
                    assert(k < after.next_mid && after.pending[i].mid == nat_text(k));
                } else {
                    let k = client.next_mid as nat;
                    assert(k < after.next_mid && after.pending[i].mid == nat_text(k));
                }
            }
        },
        ClientEventView::GiveUp(mid) => {
            lemma_place(keys, mid);
            let p = pending_place(client.pending, mid);
            if p < client.pending.len() {
                lemma_removed(client, p, after);
            }
        },
        ClientEventView::Message(msg, time) => {
            match msg.mtype {
                MessageType::Inform => {
                    let p = inform_place(client.pending, msg);
                    if msg.mid is Some {
                        lemma_place(keys, msg.mid->0);
                    }
                    assert(pending_mids(after.pending) =~= keys);
                    assert forall|i: int| 0 <= i < after.pending.len() implies was_given(
                        after.next_mid,
                        #[trigger] after.pending[i].mid,
                    ) by {
                        assert(was_given(client.next_mid, client.pending[i].mid));
                    }
                },
                MessageType::Reply => {
                    let p = reply_place(client.pending, msg);
                    if msg.mid is Some {
                        lemma_place(keys, msg.mid->0);
                    } else {
                        lemma_place(pending_names(client.pending), msg.name);
                    }
                    if p < client.pending.len() {
                        lemma_removed(client, p, after);
                    }
                },
                MessageType::Request => {},
            }
        },
        _ => {},
    }
}

/// A client stays well-formed when one of the waiting requests is removed.
proof fn lemma_removed(client: DeviceClientView, p: int, after: DeviceClientView)
    requires
        client.wf(),
        0 <= p < client.pending.len(),
        after == (DeviceClientView { pending: client.pending.remove(p), ..client }),
    ensures
        after.wf(),
{
    let keys = pending_mids(client.pending);
    lemma_distinct_remove(keys, p);
    assert(pending_mids(after.pending) =~= keys.remove(p));
    assert forall|i: int| 0 <= i < after.pending.len() implies was_given(
        after.next_mid,
        #[trigger] after.pending[i].mid,
    ) by {
        let a = if i < p { i } else { i + 1 };
        assert(was_given(client.next_mid, client.pending[a].mid));
    }
}

/// Whatever happens to a client that was just made, it stays well-formed.
pub proof fn clients_stay_in_order(host: Seq<char>, port: u16, events: Seq<ClientEventView>)
    requires
        all_numbered(new_client(host, port), events),
    ensures
        client_run(new_client(host, port), events).wf(),
    decreases events.len(),
{
    if events.len() > 0 {
        clients_stay_in_order(host, port, events.drop_last());
        client_order_is_kept(client_run(new_client(host, port), events.drop_last()), events.last());
    }
}

/// What becomes of a run of messages. Each comes with the time that it tells of, read as a number.
pub open spec fn all_dispatched(
    client: DeviceClientView,
    ms: Seq<(MessageView, Option<Float64View>)>,
) -> DispatchView
    decreases ms.len(),
{
    if ms.len() == 0 {
        DispatchView { client, actions: seq![] }
    } else {
        let before = all_dispatched(client, ms.drop_last());
        let last = dispatched(before.client, ms.last().0, ms.last().1);
        DispatchView { client: last.client, actions: before.actions + last.actions }
    }
}

/// The informs among messages that carry an identifier, in order.
pub open spec fn informs_for(
    ms: Seq<(MessageView, Option<Float64View>)>,
    mid: Seq<char>,
) -> Seq<MessageView>
    decreases ms.len(),
{
    if ms.len() == 0 {
        seq![]
    } else {
        let before = informs_for(ms.drop_last(), mid);
        let m = ms.last().0;
        if m.mtype == MessageType::Inform && m.mid == Some(mid) {
            before.push(m)
        } else {
            before
        }
    }
}

/// Whether a message completes the waiting request of an identifier.
pub open spec fn completes(client: DeviceClientView, m: MessageView, mid: Seq<char>) -> bool {
    let p = reply_place(client.pending, m);
    m.mtype == MessageType::Reply && p < client.pending.len() && client.pending[p].mid == mid
}

/// Whether none of a run of messages completes the waiting request of an identifier when its turn
/// comes.
pub open spec fn none_completes(
    client: DeviceClientView,
    ms: Seq<(MessageView, Option<Float64View>)>,
    mid: Seq<char>,
) -> bool
    decreases ms.len(),
{
    ms.len() > 0 ==> {
        &&& none_completes(client, ms.drop_last(), mid)
        &&& !completes(all_dispatched(client, ms.drop_last()).client, ms.last().0, mid)
    }
}

/// The place of a request among those that wait, from one of its entries.
pub proof fn lemma_pending_at(client: DeviceClientView, i: int)
    requires
        client.wf(),
        0 <= i < client.pending.len(),
    ensures
        pending_place(client.pending, client.pending[i].mid) == i,
{
    let keys = pending_mids(client.pending);
    assert(keys[i] == client.pending[i].mid);
    assert forall|k: int| 0 <= k < i implies (#[trigger] keys[k]) != client.pending[i].mid by {
        assert(keys[k] != keys[i]);
    }
    lemma_place_is(keys, client.pending[i].mid, i);
}

/// Whether a request waits, and these informs came for it.
pub open spec fn waits_with(
    client: DeviceClientView,
    mid: Seq<char>,
    informs: Seq<MessageView>,
) -> bool {
    exists|i: int|
        0 <= i < client.pending.len() && (#[trigger] client.pending[i]).mid == mid
            && client.pending[i].informs == informs
}

/// A message that does not complete a request leaves it waiting, with one inform more if the message
/// is an inform for it.
proof fn lemma_still_waits(
    client: DeviceClientView,
    m: MessageView,
    time: Option<Float64View>,
    mid: Seq<char>,
    informs: Seq<MessageView>,
)
    requires
        client.wf(),
        waits_with(client, mid, informs),
        !completes(client, m, mid),
    ensures
        waits_with(
            dispatched(client, m, time).client,
            mid,
            if m.mtype == MessageType::Inform && m.mid == Some(mid) {
                informs.push(m)
            } else {
                informs
            },
        ),
{
    let i = choose|i: int|
        0 <= i < client.pending.len() && (#[trigger] client.pending[i]).mid == mid
            && client.pending[i].informs == informs;
    let keys = pending_mids(client.pending);
    let after = dispatched(client, m, time).client;
    lemma_pending_at(client, i);
    match m.mtype {
        MessageType::Inform => {
            if m.mid is Some {
                lemma_place(keys, m.mid->0);
                assert(keys[i] == mid);
            }
            assert(after.pending[i].mid == mid);
        },
        MessageType::Reply => {
            let p = reply_place(client.pending, m);
            if m.mid is Some {
                lemma_place(keys, m.mid->0);
            } else {
                lemma_place(pending_names(client.pending), m.name);
            }
            if p < client.pending.len() {
                assert(p != i);
                let a = if i < p { i } else { i - 1 };
                assert(after.pending[a].mid == mid);
            } else {
                assert(after.pending[i].mid == mid);
            }
        },
        MessageType::Request => {
            assert(after.pending[i].mid == mid);
        },
    }
}

/// While nothing completes it, a request waits and collects the informs that carry its identifier,
/// in order, whatever else comes.
pub proof fn informs_are_collected(
    client: DeviceClientView,
    ms: Seq<(MessageView, Option<Float64View>)>,
    mid: Seq<char>,
)
    requires
        client.wf(),
        waits_with(client, mid, seq![]),
        none_completes(client, ms, mid),
    ensures
        all_dispatched(client, ms).client.wf(),
        waits_with(all_dispatched(client, ms).client, mid, informs_for(ms, mid)),
    decreases ms.len(),
{
    if ms.len() > 0 {
        let rest = ms.drop_last();
        informs_are_collected(client, rest, mid);
        let before = all_dispatched(client, rest).client;
        let (m, time) = ms.last();
        lemma_still_waits(before, m, time, mid, informs_for(rest, mid));
        client_order_is_kept(before, ClientEventView::Message(m, time));
    }
}

/// A request is completed by the reply that carries its identifier, and by the reply without one that
/// is for it, with exactly the informs that carry its identifier, in order, whatever else comes in
/// between; and it then no longer waits.
pub proof fn requests_are_completed(
    client: DeviceClientView,
    name: Seq<char>,
    ms: Seq<(MessageView, Option<Float64View>)>,
    reply: MessageView,
    time: Option<Float64View>,
)
    requires
        client.wf(),
        client.next_mid < u64::MAX,
        none_completes(client_requesting(client, name), ms, next_mid_text(client)),
        reply.mtype == MessageType::Reply,
        reply.mid == Some(next_mid_text(client)) || completes(
            all_dispatched(client_requesting(client, name), ms).client,
            reply,
            next_mid_text(client),
        ),
    ensures
        ({
            let mid = next_mid_text(client);
            let before = all_dispatched(client_requesting(client, name), ms).client;
            let last = dispatched(before, reply, time);
            &&& last.actions == seq![
                ActionView::Complete { mid, reply, informs: informs_for(ms, mid) },
            ]
            &&& !pending_mids(last.client.pending).contains(mid)
        }),
{
    let mid = next_mid_text(client);
    let start = client_requesting(client, name);
    lemma_fresh_request_waits(client, name);
    informs_are_collected(start, ms, mid);
    let before = all_dispatched(start, ms).client;
    let informs = informs_for(ms, mid);
    let i = choose|i: int|
        0 <= i < before.pending.len() && (#[trigger] before.pending[i]).mid == mid
            && before.pending[i].informs == informs;
    lemma_pending_at(before, i);
    let p = reply_place(before.pending, reply);
    if reply.mid != Some(mid) {
        match reply.mid {
            Some(other) => lemma_place(pending_mids(before.pending), other),
            None => lemma_place(pending_names(before.pending), reply.name),
        }
        lemma_pending_at(before, p);
    }
    assert(p == i);
    let keys = pending_mids(before.pending);
    assert(keys[i] == mid);
    lemma_distinct_remove(keys, i);
    assert(pending_mids(dispatched(before, reply, time).client.pending) =~= keys.remove(i));
}

/// A request that was just made waits, and nothing came for it yet.
proof fn lemma_fresh_request_waits(client: DeviceClientView, name: Seq<char>)
    requires
        client.wf(),
        client.next_mid < u64::MAX,
    ensures
        client_requesting(client, name).wf(),
        waits_with(client_requesting(client, name), next_mid_text(client), seq![]),
{
    let start = client_requesting(client, name);
    identifiers_are_fresh(client);
    client_order_is_kept(client, ClientEventView::Request(name));
    let n = client.pending.len() as int;
    assert(start.pending[n].mid == next_mid_text(client));
    assert(start.pending[n].informs =~= seq![]);
}

/// A reply without an identifier completes the request of its name that has waited longest, with the
/// informs that came for it. Where no waiting request has its name, it changes nothing and completes
/// nothing.
pub proof fn replies_without_identifier_go_by_name(
    client: DeviceClientView,
    reply: MessageView,
    time: Option<Float64View>,
)
    requires
        reply.mtype == MessageType::Reply,
        reply.mid is None,
    ensures
        ({
            let names = pending_names(client.pending);
            let d = dispatched(client, reply, time);
            &&& !names.contains(reply.name) ==> d.client == client && d.actions == Seq::<
                ActionView,
            >::empty()
            &&& names.contains(reply.name) ==> exists|p: int|
                {
                    &&& 0 <= p < client.pending.len()
                    &&& (#[trigger] client.pending[p]).name == reply.name
                    &&& forall|k: int| 0 <= k < p ==> (#[trigger] names[k]) != reply.name
                    &&& d.client == (DeviceClientView {
                        pending: client.pending.remove(p),
                        ..client
                    })
                    &&& d.actions == seq![
                        ActionView::Complete {
                            mid: client.pending[p].mid,
                            reply,
                            informs: client.pending[p].informs,
                        },
                    ]
                }
        }),
{
    let names = pending_names(client.pending);
    let p = place(names, reply.name);
    lemma_place(names, reply.name);
    if names.contains(reply.name) {
        let k = choose|k: int| 0 <= k < names.len() && names[k] == reply.name;
        assert(p <= k);
        assert(names[p] == client.pending[p].name);
    }
}

/// Of the requests that wait after a connection was lost, each waited before and was not made on that
/// connection; each that was not made on it still waits; and identifiers stay distinct.
proof fn lemma_made_off(pending: Seq<PendingView>, connection: u64)
    requires
        distinct(pending_mids(pending)),
    ensures
        forall|i: int|
            0 <= i < made_off(pending, connection).len() ==> pending.contains(
                #[trigger] made_off(pending, connection)[i],
            ) && made_off(pending, connection)[i].connection != connection,
        forall|k: int|
            0 <= k < pending.len() && (#[trigger] pending[k]).connection != connection ==> made_off(
                pending,
                connection,
            ).contains(pending[k]),
        distinct(pending_mids(made_off(pending, connection))),
    decreases pending.len(),
{
    reveal(Seq::filter);
    if pending.len() > 0 {
        let rest = pending.drop_last();
        let p = pending.last();
        let keys = pending_mids(pending);
        let kept = made_off(rest, connection);
        let left = made_off(pending, connection);
        assert(distinct(pending_mids(rest))) by {
            let rest_keys = pending_mids(rest);
            assert forall|i: int, j: int| 0 <= i < j < rest_keys.len() implies #[trigger] rest_keys[i]
                != #[trigger] rest_keys[j] by {
                assert(rest_keys[i] == keys[i] && rest_keys[j] == keys[j]);
            }
        }
        lemma_made_off(rest, connection);
        assert forall|i: int| 0 <= i < left.len() implies pending.contains(#[trigger] left[i])
            && left[i].connection != connection by {
            if i < kept.len() {
                assert(left[i] == kept[i]);
                assert(rest.contains(kept[i]));
                let k = choose|k: int| 0 <= k < rest.len() && rest[k] == kept[i];
                assert(pending[k] == kept[i]);
            } else {
                assert(pending[pending.len() - 1] == left[i]);
            }
        }
        assert forall|k: int|
            0 <= k < pending.len() && (#[trigger] pending[k]).connection
                != connection implies left.contains(pending[k]) by {
            if k < rest.len() {
                assert(rest[k] == pending[k]);
                assert(kept.contains(rest[k]));
                let i = choose|i: int| 0 <= i < kept.len() && kept[i] == rest[k];
                assert(left[i] == pending[k]);
            } else {
                assert(left[kept.len() as int] == pending[k]);
            }
        }
        if p.connection != connection {
            assert(pending_mids(left) =~= pending_mids(kept).push(p.mid));
            assert forall|i: int| 0 <= i < kept.len() implies pending_mids(kept)[i] != p.mid by {
                assert(rest.contains(kept[i]));
                let k = choose|k: int| 0 <= k < rest.len() && rest[k] == kept[i];
                assert(keys[k] == kept[i].mid);
                assert(keys[k] != keys[pending.len() - 1]);
            }
            lemma_distinct_push(pending_mids(kept), p.mid);
        }
    }
}

/// A request that waits when the connection that it was made on is lost is among the lost ones, ends
/// in an error that says so, and no longer waits.
pub proof fn lost_requests_end(client: DeviceClientView, i: int)
    requires
        client.wf(),
        0 <= i < client.pending.len(),
    ensures
        ({
            let p = client.pending[i];
            let after = client_step(client, ClientEventView::Close(p.connection));
            &&& pending_mids(made_on(client.pending, p.connection)).contains(p.mid)
            &&& outcome_result(Outcome::Lost) == Err::<
                (MessageView, Seq<MessageView>),
                ClientErrorView,
            >(ClientErrorView::NotConnected)
            &&& !pending_mids(after.pending).contains(p.mid)
            &&& client_giving_up(after, p.mid) == after
        }),
{
    let p = client.pending[i];
    let gone = made_on(client.pending, p.connection);
    let after = client_step(client, ClientEventView::Close(p.connection));
    let keys = pending_mids(client.pending);
    let on = |q: PendingView| q.connection == p.connection;
    client.pending.lemma_filter_contains(on, i);
    let g = choose|g: int| 0 <= g < gone.len() && gone[g] == p;
    assert(pending_mids(gone)[g] == p.mid);
    lemma_made_off(client.pending, p.connection);
    let left = pending_mids(after.pending);
    assert forall|j: int| 0 <= j < left.len() implies left[j] != p.mid by {
        let q = after.pending[j];
        assert(client.pending.contains(q));
        let k = choose|k: int| 0 <= k < client.pending.len() && client.pending[k] == q;
        assert(keys[k] == q.mid && keys[i] == p.mid);
        if k < i {
            assert(keys[k] != keys[i]);
        } else {
            assert(k != i);
            assert(keys[i] != keys[k]);
        }
    }
    lemma_place(left, p.mid);
}

/// When the connection that is in use is lost, the client is no longer connected. The loss of one
/// that another has taken the place of leaves the client connected as it was, and the requests that
/// were not made on it still wait, with what came for them.
pub proof fn losses_are_isolated(client: DeviceClientView, connection: u64)
    requires
        client.wf(),
    ensures
        ({
            let after = client_step(client, ClientEventView::Close(connection));
            &&& connection == client.connection ==> !after.connected
            &&& connection != client.connection ==> after.connected == client.connected
            &&& after.writable == client.writable
            &&& forall|k: int|
                0 <= k < client.pending.len() && (#[trigger] client.pending[k]).connection
                    != connection ==> after.pending.contains(client.pending[k])
        }),
{
    lemma_made_off(client.pending, connection);
}

/// A connection that was just made is in use, and no request was made on it yet.
pub proof fn connections_start_afresh(client: DeviceClientView)
    requires
        client.wf(),
        client.connection < u64::MAX,
    ensures
        ({
            let after = client_step(client, ClientEventView::Connect);
            &&& after.connected && after.writable
            &&& after.connection != client.connection
            &&& after.pending == client.pending
            &&& forall|k: int|
                0 <= k < after.pending.len() ==> (#[trigger] after.pending[k]).connection
                    != after.connection
        }),
{
    let after = client_step(client, ClientEventView::Connect);
    assert forall|k: int| 0 <= k < after.pending.len() implies (
    #[trigger] after.pending[k]).connection != after.connection by {
        assert(client.pending[k].connection <= client.connection);
    }
}

/// The messages of an answer, in the order in which they come, with the times that they tell of.
pub open spec fn answer_messages(
    a: RequestResultView,
    times: Seq<Option<Float64View>>,
) -> Seq<(MessageView, Option<Float64View>)> {
    Seq::new(a.informs.len(), |i: int| (a.informs[i], times[i]))
}

/// What the server answers to a request of a client completes that request, with the informs of the
/// answer.
pub proof fn server_answers_complete_requests(
    client: DeviceClientView,
    server: ServerView,
    addr: SocketAddressView,
    name: Seq<char>,
    arguments: Seq<Seq<u8>>,
    params: Seq<Option<ParameterView>>,
    filter: Result<FilterView, Seq<char>>,
    times: Seq<Option<Float64View>>,
    time: Option<Float64View>,
)
    requires
        client.wf(),
        client.next_mid < u64::MAX,
    ensures
        ({
            let a = builtin_answer(
                server,
                next_request(client, name, arguments),
                addr,
                params,
                filter,
            );
            let start = client_requesting(client, name);
            let before = all_dispatched(start, answer_messages(a, times)).client;
            dispatched(before, a.reply, time).actions == seq![
                ActionView::Complete {
                    mid: next_mid_text(client),
                    reply: a.reply,
                    informs: a.informs,
                },
            ]
        }),
{
    let msg = next_request(client, name, arguments);
    let mid = next_mid_text(client);
    let a = builtin_answer(server, msg, addr, params, filter);
    let ms = answer_messages(a, times);
    answers_belong_to_requests(server, msg, addr, params, filter);
    lemma_informs_complete_nothing(client_requesting(client, name), ms, mid);
    requests_are_completed(client, name, ms, a.reply, time);
    lemma_informs_for_all(ms, a.informs, mid);
}

/// Informs complete nothing.
proof fn lemma_informs_complete_nothing(
    client: DeviceClientView,
    ms: Seq<(MessageView, Option<Float64View>)>,
    mid: Seq<char>,
)
    requires
        forall|i: int| 0 <= i < ms.len() ==> (#[trigger] ms[i]).0.mtype == MessageType::Inform,
    ensures
        none_completes(client, ms, mid),
    decreases ms.len(),
{
    if ms.len() > 0 {
        let rest = ms.drop_last();
        assert forall|i: int| 0 <= i < rest.len() implies (#[trigger] rest[i]).0.mtype
            == MessageType::Inform by {
            assert(rest[i] == ms[i]);
        }
        lemma_informs_complete_nothing(client, rest, mid);
        assert(ms[ms.len() - 1].0.mtype == MessageType::Inform);
    }
}

/// If all messages are informs that carry an identifier, all of them are informs for it.
proof fn lemma_informs_for_all(
    ms: Seq<(MessageView, Option<Float64View>)>,
    informs: Seq<MessageView>,
    mid: Seq<char>,
)
    requires
        ms.len() == informs.len(),
        forall|i: int|
            0 <= i < ms.len() ==> (#[trigger] ms[i]).0 == informs[i] && informs[i].mtype
                == MessageType::Inform && informs[i].mid == Some(mid),
    ensures
        informs_for(ms, mid) == informs,
    decreases ms.len(),
{
    if ms.len() > 0 {
        let rest = ms.drop_last();
        assert forall|i: int| 0 <= i < rest.len() implies (#[trigger] rest[i]).0
            == informs.drop_last()[i] && informs.drop_last()[i].mtype == MessageType::Inform
            && informs.drop_last()[i].mid == Some(mid) by {
            assert(rest[i] == ms[i]);
        }
        lemma_informs_for_all(rest, informs.drop_last(), mid);
        assert(ms[ms.len() - 1].0 == informs.last());
        assert(informs.drop_last().push(informs.last()) =~= informs);
    } else {
        assert(informs =~= seq![]);
    }
}

/// Text that was written as an argument is read back.
proof fn lemma_text_argument(m: MessageView, i: int, text: Seq<char>)
    requires
        0 <= i < m.arguments.len(),
        m.arguments[i] == encode_utf8(text),
    ensures
        m.arg_text(i) == Some(text),
{
    encode_utf8_valid_utf8(text);
    encode_utf8_decode_utf8(text);
}

/// The inform by which the server tells of an update is read by the client as that update: the
/// sensor's name, the status and the value are those of the reading.
pub proof fn updates_arrive_as_sent(
    o: SamplingObserverView,
    reading: SensorReadingView,
    time: Float64View,
)
    ensures
        read_update(o.status_inform(reading), Some(time)) == Some(
            SensorUpdateView {
                timestamp: time,
                name: o.sensor_name,
                status: reading.status,
                value: reading.value,
            },
        ),
{
    let m = o.status_inform(reading);
    lemma_text_argument(m, 0, reading.timestamp.fixed);
    lemma_text_argument(m, 2, o.sensor_name);
    lemma_text_argument(m, 3, reading.status.name());
    status_is_read_by_its_name(reading.status);
}

/// An update that the server tells of reaches the callback of its sensor, if there is one.
pub proof fn updates_reach_callbacks(
    client: DeviceClientView,
    o: SamplingObserverView,
    reading: SensorReadingView,
    time: Float64View,
)
    requires
        client.sensor_callbacks.contains(o.sensor_name),
    ensures
        dispatched(client, o.status_inform(reading), Some(time)).actions.contains(
            ActionView::CallSensor(
                SensorUpdateView {
                    timestamp: time,
                    name: o.sensor_name,
                    status: reading.status,
                    value: reading.value,
                },
            ),
        ),
{
    updates_arrive_as_sent(o, reading, time);
    let d = dispatched(client, o.status_inform(reading), Some(time));
    assert(d.actions[0] == ActionView::CallSensor(
        SensorUpdateView {
            timestamp: time,
            name: o.sensor_name,
            status: reading.status,
            value: reading.value,
        },
    ));
}

/// After the sampling of a sensor is cleared, no message calls a callback for that sensor.
pub proof fn cleared_sensors_are_not_called(
    client: DeviceClientView,
    name: Seq<char>,
    msg: MessageView,
    time: Option<Float64View>,
    update: SensorUpdateView,
)
    requires
        client.wf(),
        update.name == name,
    ensures
        !dispatched(
            client_step(client, ClientEventView::SamplingCleared(name)),
            msg,
            time,
        ).actions.contains(ActionView::CallSensor(update)),
{
    let after = client_step(client, ClientEventView::SamplingCleared(name));
    let n = place(client.sensor_callbacks, name);
    lemma_place(client.sensor_callbacks, name);
    if n < client.sensor_callbacks.len() {
        lemma_distinct_remove(client.sensor_callbacks, n);
    }
    assert(!after.sensor_callbacks.contains(name));
}

/// The greeting of a server tells the client the server's protocol.
pub proof fn greeting_tells_protocol(
    client: DeviceClientView,
    context: ContextView,
    time: Option<Float64View>,
)
    ensures
        dispatched(client, context.greeting()[0], time).client.protocol == Some(context.protocol),
{
    let m = context.greeting()[0];
    lemma_text_argument(m, 0, "katcp-protocol"@);
    lemma_text_argument(m, 1, context.protocol.shown());
    parse_undoes_to_string(context.protocol);
}

/// An inform that belongs to no waiting request is received after those that came before it.
pub proof fn unsolicited_informs_are_queued(
    client: DeviceClientView,
    msg: MessageView,
    time: Option<Float64View>,
)
    requires
        msg.mtype == MessageType::Inform,
        msg.mid matches Some(mid) ==> !pending_mids(client.pending).contains(mid),
    ensures
        dispatched(client, msg, time).client.unsolicited == client.unsolicited.push(msg),
        dispatched(client, msg, time).client.pending == client.pending,
{
    if msg.mid is Some {
        lemma_place(pending_mids(client.pending), msg.mid->0);
    }
}

/// The wire format can carry every request whose name it can carry.
pub proof fn requests_are_well_named(
    client: DeviceClientView,
    name: Seq<char>,
    arguments: Seq<Seq<u8>>,
)
    requires
        is_name(name),
    ensures
        well_named(next_request(client, name, arguments)),
{
    lemma_nat_text(client.next_mid as nat);
}

} // verus!
