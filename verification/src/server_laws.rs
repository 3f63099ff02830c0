//! What holds of the device server as a whole: every operation keeps it in order, clients do not
//! disturb each other, nothing is left of a client that is gone, and answers belong to their
//! requests.

use vstd::prelude::*;
use vstd::utf8::encode_utf8;
use vstd::utf8::encode_utf8_decode_utf8;
use crate::address::SocketAddressView;
use crate::decimal::nat_text;
use crate::filter::FilterView;
use crate::line::written_message_is_received;
use crate::message::MessageType;
use crate::message::MessageView;
use crate::sampling::ParameterView;
use crate::sampling::SamplingObserverView;
use crate::sampling::StrategyView;
use crate::sensor::detaching_is_isolated;
use crate::sensor::of_client;
use crate::sensor::without_client;
use crate::sensor::ObserverView;
use crate::sensor::SensorReadingView;
use crate::sensor::SensorView;
use crate::server_model::builtin_answer;
use crate::server_model::client_addrs;
use crate::server_model::client_place;
use crate::server_model::clients_after;
use crate::server_model::current_strategy;
use crate::server_model::distinct;
use crate::server_model::entries_after;
use crate::server_model::entry_place;
use crate::server_model::farewell;
use crate::server_model::fresh_observer;
use crate::server_model::incoming;
use crate::server_model::is_log_level;
use crate::server_model::lemma_place;
use crate::server_model::lemma_place_is;
use crate::server_model::log_level_after;
use crate::server_model::log_level_answer;
use crate::server_model::new_server;
use crate::server_model::observers_with;
use crate::server_model::place;
use crate::server_model::request_kind;
use crate::server_model::sampled_names;
use crate::server_model::sampling_answer;
use crate::server_model::sampling_request;
use crate::server_model::sensor_answer;
use crate::server_model::sensor_inform;
use crate::server_model::sensor_informs;
use crate::server_model::sensor_names;
use crate::server_model::sensor_place;
use crate::server_model::sensors_after;
use crate::server_model::server_after;
use crate::server_model::server_after_sampling;
use crate::server_model::server_with_client;
use crate::server_model::server_with_handler;
use crate::server_model::server_with_sensor;
use crate::server_model::server_without;
use crate::server_model::strategy_reply;
use crate::server_model::BuildInfoView;
use crate::server_model::ClientView;
use crate::server_model::ContextView;
use crate::server_model::IncomingView;
use crate::server_model::Listing;
use crate::server_model::RequestKind;
use crate::server_model::RequestResultView;
use crate::server_model::SamplingEntryView;
use crate::server_model::SamplingRequestView;
use crate::server_model::ServerView;
use crate::server_model::VersionInfoView;
use crate::wire::is_name;
use crate::wire::wire;
use crate::wire::wire_line;
use crate::wire::MAX_MSG_SIZE;
use crate::wire_laws::well_named;

verus! {

/// What can happen to a server.
pub enum EventView {
    AddSensor(SensorView),
    Register(Seq<char>),
    Connect(SocketAddressView),
    Disconnect(SocketAddressView),
    Request(MessageView, SocketAddressView, Seq<Option<ParameterView>>),
    Update(Seq<char>, SensorReadingView, u128, Seq<bool>),
    Attach(Seq<char>, ObserverView),
    Detach(Seq<char>, SocketAddressView),
}

/// The sensors after one of them is updated.
pub open spec fn sensors_updated(
    sensors: Seq<SensorView>,
    name: Seq<char>,
    reading: SensorReadingView,
    now: u128,
    moved: Seq<bool>,
) -> Seq<SensorView> {
    let n = sensor_place(sensors, name);
    if n < sensors.len() {
        sensors.update(n, sensors[n].updated(reading, now, moved))
    } else {
        sensors
    }
}

/// The sensors after the observers of one of them change.
pub open spec fn sensors_observed(
    sensors: Seq<SensorView>,
    name: Seq<char>,
    observers: spec_fn(Seq<ObserverView>) -> Seq<ObserverView>,
) -> Seq<SensorView> {
    let n = sensor_place(sensors, name);
    if n < sensors.len() {
        sensors.update(
            n,
            SensorView { observers: observers(sensors[n].observers), ..sensors[n] },
        )
    } else {
        sensors
    }
}

/// The sensors after an observer is attached to one of them.
pub open spec fn sensors_attached(
    sensors: Seq<SensorView>,
    name: Seq<char>,
    o: ObserverView,
) -> Seq<SensorView> {
    sensors_observed(sensors, name, |os: Seq<ObserverView>| os.push(o))
}

/// The sensors after a client is detached from one of them.
pub open spec fn sensors_released(
    sensors: Seq<SensorView>,
    name: Seq<char>,
    addr: SocketAddressView,
) -> Seq<SensorView> {
    sensors_observed(sensors, name, |os: Seq<ObserverView>| without_client(os, addr))
}

/// The server with other sensors.
pub open spec fn server_with_sensors(server: ServerView, sensors: Seq<SensorView>) -> ServerView {
    ServerView { context: ContextView { sensors, ..server.context }, ..server }
}

/// The server after an event.
pub open spec fn step(server: ServerView, event: EventView) -> ServerView {
    match event {
        EventView::AddSensor(s) => server_with_sensor(server, s),
        EventView::Register(name) => server_with_handler(server, name),
        EventView::Connect(addr) => server_with_client(server, addr),
        EventView::Disconnect(addr) => server_without(server, addr),
        EventView::Request(msg, addr, params) => if server.context.handlers.contains(msg.name) {
            server
        } else {
            server_after(server, msg, addr, params)
        },
        EventView::Update(name, reading, now, moved) => server_with_sensors(
            server,
            sensors_updated(server.context.sensors, name, reading, now, moved),
        ),
        EventView::Attach(name, o) => server_with_sensors(
            server,
            sensors_attached(server.context.sensors, name, o),
        ),
        EventView::Detach(name, addr) => server_with_sensors(
            server,
            sensors_released(server.context.sensors, name, addr),
        ),
    }
}

/// Keys stay distinct when one that is not among them is added.
pub proof fn lemma_distinct_push<K>(keys: Seq<K>, key: K)
    requires
        distinct(keys),
        !keys.contains(key),
    ensures
        distinct(keys.push(key)),
{
    let all = keys.push(key);
    assert forall|i: int, j: int| 0 <= i < j < all.len() implies #[trigger] all[i]
        != #[trigger] all[j] by {
        assert(all[i] == keys[i]);
        if j < keys.len() {
            assert(all[j] == keys[j]);
        }
    }
}

/// Keys stay distinct when one of them is removed, and that one is then gone.
pub proof fn lemma_distinct_remove<K>(keys: Seq<K>, n: int)
    requires
        distinct(keys),
        0 <= n < keys.len(),
    ensures
        distinct(keys.remove(n)),
        !keys.remove(n).contains(keys[n]),
{
    let rest = keys.remove(n);
    assert forall|i: int, j: int| 0 <= i < j < rest.len() implies #[trigger] rest[i]
        != #[trigger] rest[j] by {
        let a = if i < n { i } else { i + 1 };
        let b = if j < n { j } else { j + 1 };
        assert(rest[i] == keys[a] && rest[j] == keys[b]);
    }
    assert forall|i: int| 0 <= i < rest.len() implies rest[i] != keys[n] by {
        let a = if i < n { i } else { i + 1 };
        assert(rest[i] == keys[a]);
    }
}

/// A key has a place in a list if and only if the list holds it.
proof fn lemma_place_contains<K>(keys: Seq<K>, key: K)
    ensures
        place(keys, key) < keys.len() <==> keys.contains(key),
{
    lemma_place(keys, key);
}

/// A client's samplings stay distinct when it sets how it samples a sensor.
proof fn lemma_entries_distinct(
    entries: Seq<SamplingEntryView>,
    name: Seq<char>,
    strategy: StrategyView,
)
    requires
        distinct(sampled_names(entries)),
    ensures
        distinct(sampled_names(entries_after(entries, name, strategy))),
{
    let keys = sampled_names(entries);
    let e = entry_place(entries, name);
    let after = entries_after(entries, name, strategy);
    lemma_place(keys, name);
    if strategy == StrategyView::NoSampling {
        if e < entries.len() {
            lemma_distinct_remove(keys, e);
            assert(sampled_names(after) =~= keys.remove(e));
        }
    } else if e < entries.len() {
        assert(sampled_names(after) =~= keys);
    } else {
        lemma_distinct_push(keys, name);
        assert(sampled_names(after) =~= keys.push(name));
    }
}

/// A client's samplings stay distinct in every client's list when one client sets how it samples.
proof fn lemma_clients_after(
    clients: Seq<ClientView>,
    addr: SocketAddressView,
    name: Seq<char>,
    strategy: StrategyView,
)
    requires
        forall|i: int|
            0 <= i < clients.len() ==> distinct(sampled_names(#[trigger] clients[i].sampling)),
    ensures
        client_addrs(clients_after(clients, addr, name, strategy)) == client_addrs(clients),
        forall|i: int|
            0 <= i < clients.len() ==> distinct(
                sampled_names(
                    #[trigger] clients_after(clients, addr, name, strategy)[i].sampling,
                ),
            ),
{
    let after = clients_after(clients, addr, name, strategy);
    let c = client_place(clients, addr);
    lemma_place(client_addrs(clients), addr);
    assert(client_addrs(after) =~= client_addrs(clients));
    assert forall|i: int| 0 <= i < clients.len() implies distinct(
        sampled_names(#[trigger] after[i].sampling),
    ) by {
        assert(distinct(sampled_names(clients[i].sampling)));
        if i == c {
            lemma_entries_distinct(clients[c].sampling, name, strategy);
        }
    }
}

/// Every operation keeps the server well-formed: each sensor, each client, each handler and each of
/// a client's samplings stays in it once, and the log level stays one that there is.
pub proof fn order_is_kept(server: ServerView, event: EventView)
    requires
        server.wf(),
    ensures
        step(server, event).wf(),
{
    let sensors = server.context.sensors;
    let clients = server.clients;
    let after = step(server, event);
    match event {
        EventView::AddSensor(s) => {
            let keys = sensor_names(sensors);
            lemma_place(keys, s.name);
            if sensor_place(sensors, s.name) < sensors.len() {
                assert(sensor_names(after.context.sensors) =~= keys);
            } else {
                lemma_distinct_push(keys, s.name);
                assert(sensor_names(after.context.sensors) =~= keys.push(s.name));
            }
        },
        EventView::Register(name) => {
            if !server.context.handlers.contains(name) {
                lemma_distinct_push(server.context.handlers, name);
            }
        },
        EventView::Connect(addr) => {
            let keys = client_addrs(clients);
            lemma_place(keys, addr);
            if client_place(clients, addr) < clients.len() {
                assert(client_addrs(after.clients) =~= keys);
            } else {
                lemma_distinct_push(keys, addr);
                assert(client_addrs(after.clients) =~= keys.push(addr));
            }
            assert forall|i: int| 0 <= i < after.clients.len() implies distinct(
                sampled_names(#[trigger] after.clients[i].sampling),
            ) by {
                if i < clients.len() {
                    assert(distinct(sampled_names(clients[i].sampling)));
                }
            }
        },
        EventView::Disconnect(addr) => {
            let keys = client_addrs(clients);
            let n = client_place(clients, addr);
            lemma_place(keys, addr);
            if n < clients.len() {
                lemma_distinct_remove(keys, n);
                assert(client_addrs(after.clients) =~= keys.remove(n));
                assert(sensor_names(after.context.sensors) =~= sensor_names(sensors));
                assert forall|i: int| 0 <= i < after.clients.len() implies distinct(
                    sampled_names(#[trigger] after.clients[i].sampling),
                ) by {
                    let a = if i < n { i } else { i + 1 };
                    assert(distinct(sampled_names(clients[a].sampling)));
                }
            }
        },
        EventView::Request(msg, addr, params) => {
            if let SamplingRequestView::Assign(name, strategy) = sampling_request(
                msg,
                sensors,
                params,
            ) {
                lemma_place(sensor_names(sensors), name);
                lemma_clients_after(clients, addr, name, strategy);
                assert(sensor_names(sensors_after(sensors, addr, name, strategy)) =~= sensor_names(
                    sensors,
                ));
            }
        },
        EventView::Update(name, _, _, _) | EventView::Attach(name, _) | EventView::Detach(
            name,
            _,
        ) => {
            lemma_place(sensor_names(sensors), name);
            assert(sensor_names(after.context.sensors) =~= sensor_names(sensors));
        },
    }
}

/// Whether a client is connected.
pub open spec fn is_connected(server: ServerView, addr: SocketAddressView) -> bool {
    client_addrs(server.clients).contains(addr)
}

/// Whether a client is connected and samples a sensor.
pub open spec fn samples(server: ServerView, addr: SocketAddressView, name: Seq<char>) -> bool {
    exists|c: int|
        0 <= c < server.clients.len() && (#[trigger] server.clients[c]).addr == addr
            && sampled_names(server.clients[c].sampling).contains(name)
}

/// Whether every observer that belongs to a client belongs to one that is connected and samples the
/// observed sensor.
pub open spec fn accounted(server: ServerView) -> bool {
    forall|i: int, j: int|
        0 <= i < server.context.sensors.len() && 0 <= j
            < server.context.sensors[i].observers.len() ==> (
        (#[trigger] server.context.sensors[i].observers[j]).client() matches Some(addr) ==> samples(
            server,
            addr,
            server.context.sensors[i].name,
        ))
}

/// Whether an event can happen to a server: a client connects that is not connected yet, only a
/// connected client requests, the sensor that is added is observed by no client, and an observer that
/// is attached belongs to no client, or to one that samples the sensor.
pub open spec fn possible(server: ServerView, event: EventView) -> bool {
    match event {
        EventView::AddSensor(s) => forall|j: int|
            0 <= j < s.observers.len() ==> (#[trigger] s.observers[j]).client() is None,
        EventView::Connect(addr) => !is_connected(server, addr),
        EventView::Request(msg, addr, params) => is_connected(server, addr),
        EventView::Attach(name, o) => o.client() matches Some(addr) ==> samples(server, addr, name),
        _ => true,
    }
}

/// What is left when a client is detached was there before, and is not the client's.
pub proof fn lemma_without_client(os: Seq<ObserverView>, addr: SocketAddressView)
    ensures
        forall|j: int|
            0 <= j < without_client(os, addr).len() ==> os.contains(
                #[trigger] without_client(os, addr)[j],
            ) && without_client(os, addr)[j].client() != Some(addr),
    decreases os.len(),
{
    reveal(Seq::filter);
    if os.len() > 0 {
        let rest = os.drop_last();
        let o = os.last();
        let kept = without_client(rest, addr);
        lemma_without_client(rest, addr);
        let left = without_client(os, addr);
        assert forall|j: int| 0 <= j < left.len() implies os.contains(#[trigger] left[j])
            && left[j].client() != Some(addr) by {
            if j < kept.len() {
                assert(left[j] == kept[j]);
                assert(rest.contains(kept[j]));
                let k = choose|k: int| 0 <= k < rest.len() && rest[k] == kept[j];
                assert(os[k] == kept[j]);
            } else {
                assert(left[j] == o);
                assert(os[os.len() - 1] == o);
            }
        }
    }
}

/// Which sensors a client samples after it set how it samples one of them.
proof fn lemma_entries_after(
    entries: Seq<SamplingEntryView>,
    name: Seq<char>,
    strategy: StrategyView,
    other: Seq<char>,
)
    ensures
        other != name && sampled_names(entries).contains(other) ==> sampled_names(
            entries_after(entries, name, strategy),
        ).contains(other),
        strategy != StrategyView::NoSampling ==> sampled_names(
            entries_after(entries, name, strategy),
        ).contains(name),
{
    let keys = sampled_names(entries);
    let after = entries_after(entries, name, strategy);
    let e = entry_place(entries, name);
    lemma_place(keys, name);
    if other != name && keys.contains(other) {
        let k = choose|k: int| 0 <= k < keys.len() && keys[k] == other;
        let a = if strategy == StrategyView::NoSampling && e < entries.len() && e < k {
            k - 1
        } else {
            k
        };
        assert(sampled_names(after)[a] == other);
    }
    if strategy != StrategyView::NoSampling {
        let a = if e < entries.len() { e } else { entries.len() as int };
        assert(sampled_names(after)[a] == name);
    }
}

/// A client that is connected has a place among the clients.
proof fn lemma_connected(server: ServerView, addr: SocketAddressView)
    requires
        is_connected(server, addr),
    ensures
        0 <= client_place(server.clients, addr) < server.clients.len(),
        server.clients[client_place(server.clients, addr)].addr == addr,
{
    let keys = client_addrs(server.clients);
    lemma_place(keys, addr);
    lemma_place_contains(keys, addr);
    let c = client_place(server.clients, addr);
    assert(keys[c] == server.clients[c].addr);
}

/// Of well-formed clients, the one that has an address is at the address's place.
proof fn lemma_client_at(clients: Seq<ClientView>, c: int)
    requires
        distinct(client_addrs(clients)),
        0 <= c < clients.len(),
    ensures
        client_place(clients, clients[c].addr) == c,
{
    let keys = client_addrs(clients);
    assert(keys[c] == clients[c].addr);
    assert forall|i: int| 0 <= i < c implies (#[trigger] keys[i]) != clients[c].addr by {
        assert(keys[i] != keys[c]);
    }
    lemma_place_is(keys, clients[c].addr, c);
}

/// A request to sample leaves every observer accounted for.
proof fn lemma_accounted_assign(
    server: ServerView,
    addr: SocketAddressView,
    name: Seq<char>,
    strategy: StrategyView,
    after: ServerView,
)
    requires
        server.wf(),
        accounted(server),
        is_connected(server, addr),
        sensor_place(server.context.sensors, name) < server.context.sensors.len(),
        after.context.sensors == sensors_after(server.context.sensors, addr, name, strategy),
        after.clients == clients_after(server.clients, addr, name, strategy),
    ensures
        accounted(after),
{
    let before = server.context.sensors;
    let sensors = after.context.sensors;
    let n = sensor_place(before, name);
    let keys = sensor_names(before);
    lemma_place(keys, name);
    lemma_connected(server, addr);
    let me = client_place(server.clients, addr);
    assert(keys[n] == before[n].name);
    assert forall|i: int, j: int|
        0 <= i < sensors.len() && 0 <= j < sensors[i].observers.len() implies ((
    #[trigger] sensors[i].observers[j]).client() matches Some(a) ==> samples(
        after,
        a,
        sensors[i].name,
    )) by {
        let o = sensors[i].observers[j];
        if let Some(a) = o.client() {
            let kept = without_client(before[n].observers, addr);
            lemma_without_client(before[n].observers, addr);
            lemma_entries_after(server.clients[me].sampling, name, strategy, before[i].name);
            if i == n && j >= kept.len() {
                assert(o == fresh_observer(addr, name, strategy));
                assert(after.clients[me].addr == a);
            } else {
                if i == n {
                    assert(o == kept[j]);
                    assert(before[n].observers.contains(o));
                    let k = choose|k: int|
                        0 <= k < before[n].observers.len() && before[n].observers[k] == o;
                    assert(before[n].observers[k].client() == Some(a));
                } else {
                    assert(before[i].observers[j].client() == Some(a));
                    assert(keys[i] != keys[n]) by {
                        if i < n {
                            assert(keys[i] != keys[n]);
                        } else {
                            assert(keys[n] != keys[i]);
                        }
                    }
                }
                assert(samples(server, a, before[i].name));
                let c = choose|c: int|
                    0 <= c < server.clients.len() && (#[trigger] server.clients[c]).addr == a
                        && sampled_names(server.clients[c].sampling).contains(before[i].name);
                lemma_client_at(server.clients, c);
                assert(after.clients[c].addr == a);
                assert(sampled_names(after.clients[c].sampling).contains(before[i].name));
            }
        }
    }
}

/// Every event that can happen leaves every client's observer accounted for: it belongs to a client
/// that is connected and samples the observed sensor.
pub proof fn observers_stay_accounted(server: ServerView, event: EventView)
    requires
        server.wf(),
        accounted(server),
        possible(server, event),
    ensures
        accounted(step(server, event)),
{
    let before = server.context.sensors;
    let after = step(server, event);
    let sensors = after.context.sensors;
    if let EventView::Request(msg, addr, params) = event {
        if let SamplingRequestView::Assign(name, strategy) = sampling_request(msg, before, params) {
            if request_kind(msg.name) == RequestKind::SensorSampling
                && !server.context.handlers.contains(msg.name) {
                lemma_accounted_assign(server, addr, name, strategy, after);
            }
        }
    }
    if event is Request {
        if sensors == before && after.clients == server.clients {
            assert(accounted(after)) by {
                lemma_same_observers(server, after);
            }
        }
    } else {
        assert forall|i: int, j: int|
            0 <= i < sensors.len() && 0 <= j < sensors[i].observers.len() implies ((
        #[trigger] sensors[i].observers[j]).client() matches Some(a) ==> samples(
            after,
            a,
            sensors[i].name,
        )) by {
            let o = sensors[i].observers[j];
            if let Some(a) = o.client() {
                lemma_observer_before(server, event, i, j);
                assert(samples(server, a, sensors[i].name));
                let c = choose|c: int|
                    0 <= c < server.clients.len() && (#[trigger] server.clients[c]).addr == a
                        && sampled_names(server.clients[c].sampling).contains(sensors[i].name);
                lemma_client_at(server.clients, c);
                lemma_place(client_addrs(server.clients), a);
                match event {
                    EventView::Connect(addr) => {
                        lemma_place_contains(client_addrs(server.clients), addr);
                        assert(after.clients[c] == server.clients[c]);
                    },
                    EventView::Disconnect(addr) => {
                        let n = client_place(server.clients, addr);
                        lemma_place(client_addrs(server.clients), addr);
                        if n < server.clients.len() {
                            if c < n {
                                assert(after.clients[c] == server.clients[c]);
                            } else {
                                assert(c != n);
                                assert(after.clients[c - 1] == server.clients[c]);
                            }
                        } else {
                            assert(after.clients[c] == server.clients[c]);
                        }
                    },
                    _ => {
                        assert(after.clients[c] == server.clients[c]);
                    },
                }
            }
        }
    }
}

/// Servers of the same sensors and clients are alike in what is accounted for.
proof fn lemma_same_observers(a: ServerView, b: ServerView)
    requires
        accounted(a),
        b.context.sensors == a.context.sensors,
        b.clients == a.clients,
    ensures
        accounted(b),
{
    assert forall|i: int, j: int|
        0 <= i < b.context.sensors.len() && 0 <= j
            < b.context.sensors[i].observers.len() implies ((
    #[trigger] b.context.sensors[i].observers[j]).client() matches Some(addr) ==> samples(
        b,
        addr,
        b.context.sensors[i].name,
    )) by {
        if let Some(addr) = a.context.sensors[i].observers[j].client() {
            assert(samples(a, addr, a.context.sensors[i].name));
            let c = choose|c: int|
                0 <= c < a.clients.len() && (#[trigger] a.clients[c]).addr == addr
                    && sampled_names(a.clients[c].sampling).contains(a.context.sensors[i].name);
            assert(b.clients[c].addr == addr);
        }
    }
}

/// An observer that belongs to a client after an event, other than a request, that can happen was
/// accounted for before, and is not that of a client which the event disconnects.
proof fn lemma_observer_before(server: ServerView, event: EventView, i: int, j: int)
    requires
        server.wf(),
        accounted(server),
        possible(server, event),
        !(event is Request),
        0 <= i < step(server, event).context.sensors.len(),
        0 <= j < step(server, event).context.sensors[i].observers.len(),
        step(server, event).context.sensors[i].observers[j].client() is Some,
    ensures
        ({
            let s = step(server, event).context.sensors[i];
            let addr = s.observers[j].client()->0;
            &&& samples(server, addr, s.name)
            &&& event matches EventView::Disconnect(gone) ==> addr != gone
        }),
{
    let before = server.context.sensors;
    let sensors = step(server, event).context.sensors;
    let o = sensors[i].observers[j];
    let addr = o.client()->0;
    match event {
        EventView::AddSensor(s) => {
            lemma_place(sensor_names(before), s.name);
            if sensors[i] == s {
                assert(s.observers[j].client() is None);
            } else {
                assert(sensors[i] == before[i]);
                assert(before[i].observers[j].client() == Some(addr));
            }
        },
        EventView::Disconnect(gone) => {
            let n = client_place(server.clients, gone);
            lemma_place(client_addrs(server.clients), gone);
            if n < server.clients.len() && sampled_names(server.clients[n].sampling).contains(
                before[i].name,
            ) {
                lemma_without_client(before[i].observers, gone);
                assert(sensors[i].observers == without_client(before[i].observers, gone));
                assert(o == without_client(before[i].observers, gone)[j]);
                assert(before[i].observers.contains(o));
                let k = choose|k: int|
                    0 <= k < before[i].observers.len() && before[i].observers[k] == o;
                assert(before[i].observers[k].client() == Some(addr));
            } else {
                assert(sensors[i] == before[i]);
                assert(before[i].observers[j].client() == Some(addr));
                assert(samples(server, addr, before[i].name));
                let c = choose|c: int|
                    0 <= c < server.clients.len() && (#[trigger] server.clients[c]).addr == addr
                        && sampled_names(server.clients[c].sampling).contains(before[i].name);
                lemma_client_at(server.clients, c);
            }
        },
        EventView::Update(name, reading, now, moved) => {
            let n = sensor_place(before, name);
            lemma_place(sensor_names(before), name);
            if n < before.len() && i == n {
                assert(o == before[n].observers[j].after(reading, now, moved[j]));
            }
            assert(before[i].observers[j].client() == Some(addr));
        },
        EventView::Attach(name, new) => {
            let n = sensor_place(before, name);
            lemma_place(sensor_names(before), name);
            if n < before.len() && i == n && j == before[n].observers.len() {
                assert(o == new);
                assert(sensor_names(before)[n] == before[n].name);
            } else {
                assert(before[i].observers[j].client() == Some(addr));
            }
        },
        EventView::Detach(name, gone) => {
            let n = sensor_place(before, name);
            lemma_place(sensor_names(before), name);
            if n < before.len() && i == n {
                lemma_without_client(before[n].observers, gone);
                assert(o == without_client(before[n].observers, gone)[j]);
                assert(before[n].observers.contains(o));
                let k = choose|k: int|
                    0 <= k < before[n].observers.len() && before[n].observers[k] == o;
                assert(before[n].observers[k].client() == Some(addr));
            } else {
                assert(before[i].observers[j].client() == Some(addr));
            }
        },
        _ => {
            assert(before[i].observers[j].client() == Some(addr));
        },
    }
}

/// When a client disconnects, none of its observers is left on any sensor, and it is no longer
/// connected.
pub proof fn nothing_is_left_of_a_client(server: ServerView, addr: SocketAddressView)
    requires
        server.wf(),
        accounted(server),
    ensures
        !is_connected(server_without(server, addr), addr),
        forall|i: int|
            0 <= i < server.context.sensors.len() ==> of_client(
                #[trigger] server_without(server, addr).context.sensors[i].observers,
                addr,
            ) == Seq::<ObserverView>::empty(),
{
    let after = server_without(server, addr);
    let keys = client_addrs(server.clients);
    let n = client_place(server.clients, addr);
    lemma_place(keys, addr);
    if n < server.clients.len() {
        lemma_distinct_remove(keys, n);
        assert(client_addrs(after.clients) =~= keys.remove(n));
    }
    assert forall|i: int| 0 <= i < server.context.sensors.len() implies of_client(
        #[trigger] after.context.sensors[i].observers,
        addr,
    ) == Seq::<ObserverView>::empty() by {
        let os = after.context.sensors[i].observers;
        assert forall|j: int| 0 <= j < os.len() implies (#[trigger] os[j]).client() != Some(
            addr,
        ) by {
            if os[j].client() is Some {
                lemma_observer_before(server, EventView::Disconnect(addr), i, j);
            }
        }
        lemma_none_of_client(os, addr);
    }
}

/// A client that none of the observers belongs to has no observers among them.
proof fn lemma_none_of_client(os: Seq<ObserverView>, addr: SocketAddressView)
    requires
        forall|j: int| 0 <= j < os.len() ==> (#[trigger] os[j]).client() != Some(addr),
    ensures
        of_client(os, addr) == Seq::<ObserverView>::empty(),
    decreases os.len(),
{
    reveal(Seq::filter);
    if os.len() > 0 {
        let rest = os.drop_last();
        assert forall|j: int| 0 <= j < rest.len() implies (#[trigger] rest[j]).client() != Some(
            addr,
        ) by {
            assert(rest[j] == os[j]);
        }
        lemma_none_of_client(rest, addr);
        assert(os[os.len() - 1].client() != Some(addr));
    }
}

/// The server after a run of events.
pub open spec fn run(server: ServerView, events: Seq<EventView>) -> ServerView
    decreases events.len(),
{
    if events.len() == 0 {
        server
    } else {
        step(run(server, events.drop_last()), events.last())
    }
}

/// Whether each of a run of events can happen when its turn comes.
pub open spec fn all_possible(server: ServerView, events: Seq<EventView>) -> bool
    decreases events.len(),
{
    events.len() > 0 ==> {
        &&& all_possible(server, events.drop_last())
        &&& possible(run(server, events.drop_last()), events.last())
    }
}

/// Whatever happens to a server that was just made, it stays well-formed, and every client's observer
/// stays accounted for.
pub proof fn servers_stay_in_order(
    host: Seq<char>,
    port: u16,
    version_info: VersionInfoView,
    build_info: BuildInfoView,
    events: Seq<EventView>,
)
    requires
        all_possible(new_server(host, port, version_info, build_info), events),
    ensures
        run(new_server(host, port, version_info, build_info), events).wf(),
        accounted(run(new_server(host, port, version_info, build_info), events)),
    decreases events.len(),
{
    let start = new_server(host, port, version_info, build_info);
    if events.len() > 0 {
        servers_stay_in_order(host, port, version_info, build_info, events.drop_last());
        let before = run(start, events.drop_last());
        order_is_kept(before, events.last());
        observers_stay_accounted(before, events.last());
    }
}

/// When one client disconnects, another stays as it was: so does how it samples, and so do its
/// observers on every sensor.
pub proof fn disconnecting_is_isolated(
    server: ServerView,
    gone: SocketAddressView,
    other: SocketAddressView,
)
    requires
        server.wf(),
        gone != other,
    ensures
        is_connected(server_without(server, gone), other) == is_connected(server, other),
        forall|name: Seq<char>|
            #[trigger] current_strategy(server_without(server, gone).clients, other, name)
                == current_strategy(server.clients, other, name),
        forall|i: int|
            0 <= i < server.context.sensors.len() ==> of_client(
                #[trigger] server_without(server, gone).context.sensors[i].observers,
                other,
            ) == of_client(server.context.sensors[i].observers, other),
{
    let after = server_without(server, gone);
    let keys = client_addrs(server.clients);
    let n = client_place(server.clients, gone);
    let m = client_place(server.clients, other);
    lemma_place(keys, gone);
    lemma_place(keys, other);
    lemma_place_contains(keys, other);
    lemma_place_contains(client_addrs(after.clients), other);
    if n < server.clients.len() {
        let left = keys.remove(n);
        assert(client_addrs(after.clients) =~= left);
        let k = if n < m { m - 1 } else { m };
        assert forall|i: int| 0 <= i < k implies (#[trigger] left[i]) != other by {
            let a = if i < n { i } else { i + 1 };
            assert(left[i] == keys[a]);
        }
        lemma_place_is(left, other, k);
    }
    assert forall|i: int| 0 <= i < server.context.sensors.len() implies of_client(
        #[trigger] after.context.sensors[i].observers,
        other,
    ) == of_client(server.context.sensors[i].observers, other) by {
        detaching_is_isolated(server.context.sensors[i].observers, gone, other);
    }
}

/// Among the observers of one client nothing changes when another samples their sensor.
proof fn lemma_observers_with(
    os: Seq<ObserverView>,
    addr: SocketAddressView,
    name: Seq<char>,
    strategy: StrategyView,
    other: SocketAddressView,
)
    requires
        addr != other,
    ensures
        of_client(observers_with(os, addr, name, strategy), other) == of_client(os, other),
{
    reveal(Seq::filter);
    detaching_is_isolated(os, addr, other);
    let kept = without_client(os, addr);
    let fresh = fresh_observer(addr, name, strategy);
    assert(kept.push(fresh).drop_last() =~= kept);
    assert(kept.push(fresh).last() == fresh);
}

/// What one client requests does not change how another samples, nor the other's observers on any
/// sensor.
pub proof fn requests_are_isolated(
    server: ServerView,
    msg: MessageView,
    addr: SocketAddressView,
    params: Seq<Option<ParameterView>>,
    other: SocketAddressView,
)
    requires
        addr != other,
    ensures
        is_connected(server_after(server, msg, addr, params), other) == is_connected(server, other),
        forall|name: Seq<char>|
            #[trigger] current_strategy(
                server_after(server, msg, addr, params).clients,
                other,
                name,
            ) == current_strategy(server.clients, other, name),
        forall|i: int|
            0 <= i < server.context.sensors.len() ==> of_client(
                #[trigger] server_after(server, msg, addr, params).context.sensors[i].observers,
                other,
            ) == of_client(server.context.sensors[i].observers, other),
{
    let after = server_after(server, msg, addr, params);
    let sensors = server.context.sensors;
    if let SamplingRequestView::Assign(name, strategy) = sampling_request(msg, sensors, params) {
        let n = sensor_place(sensors, name);
        lemma_place(sensor_names(sensors), name);
        lemma_observers_with(sensors[n].observers, addr, name, strategy, other);
        lemma_place(client_addrs(server.clients), addr);
        lemma_place(client_addrs(server.clients), other);
        assert(client_addrs(after.clients) =~= client_addrs(server.clients));
    }
}

/// A request that is not answered with success changes nothing.
pub proof fn refused_requests_change_nothing(
    server: ServerView,
    msg: MessageView,
    addr: SocketAddressView,
    params: Seq<Option<ParameterView>>,
    filter: Result<FilterView, Seq<char>>,
)
    requires
        builtin_answer(server, msg, addr, params, filter).reply.arguments[0] != encode_utf8("ok"@),
    ensures
        server_after(server, msg, addr, params) == server,
{
    match request_kind(msg.name) {
        RequestKind::SensorSampling => {
            if let SamplingRequestView::Assign(name, strategy) = sampling_request(
                msg,
                server.context.sensors,
                params,
            ) {
                assert(strategy_reply(msg, name, strategy).reply.arguments[0] == encode_utf8(
                    "ok"@,
                ));
            }
        },
        RequestKind::LogLevel => {},
        _ => {},
    }
}

/// Whether a message belongs to a request: it has the request's name and identifier.
pub open spec fn belongs_to(m: MessageView, request: MessageView) -> bool {
    m.name == request.name && m.mid == request.mid
}

/// Every message of an answer belongs to the request that it answers. The reply starts with a
/// status, `invalid` if and only if there is no such request. Where there are informs, the reply
/// counts them. What the wire format can carry of a request it can carry of the answer.
pub proof fn answers_belong_to_requests(
    server: ServerView,
    msg: MessageView,
    addr: SocketAddressView,
    params: Seq<Option<ParameterView>>,
    filter: Result<FilterView, Seq<char>>,
)
    ensures
        ({
            let a = builtin_answer(server, msg, addr, params, filter);
            let status = a.reply.arguments[0];
            &&& a.reply.mtype == MessageType::Reply && belongs_to(a.reply, msg)
            &&& forall|i: int|
                0 <= i < a.informs.len() ==> (#[trigger] a.informs[i]).mtype == MessageType::Inform
                    && belongs_to(a.informs[i], msg)
            &&& status == encode_utf8("ok"@) || status == encode_utf8("fail"@) || status
                == encode_utf8("invalid"@)
            &&& status == encode_utf8("invalid"@) <==> request_kind(msg.name)
                == RequestKind::Unknown
            &&& a.informs.len() > 0 ==> a.reply.arguments == seq![
                encode_utf8("ok"@),
                encode_utf8(nat_text(a.informs.len())),
            ]
            &&& well_named(msg) ==> well_named(a.reply) && forall|i: int|
                0 <= i < a.informs.len() ==> well_named(#[trigger] a.informs[i])
        }),
{
    lemma_statuses_differ();
    match filter {
        Ok(f) => {
            lemma_informs_belong(Listing::Description, msg, server.context.sensors, f);
            lemma_informs_belong(Listing::Value, msg, server.context.sensors, f);
        },
        Err(why) => {},
    }
}

/// Invalid is neither of the other statuses.
proof fn lemma_statuses_differ()
    ensures
        encode_utf8("invalid"@) != encode_utf8("ok"@),
        encode_utf8("invalid"@) != encode_utf8("fail"@),
{
    reveal_strlit("invalid");
    reveal_strlit("ok");
    reveal_strlit("fail");
    encode_utf8_decode_utf8("invalid"@);
    encode_utf8_decode_utf8("ok"@);
    encode_utf8_decode_utf8("fail"@);
    assert("invalid"@.len() == 7);
    assert("ok"@.len() == 2);
    assert("fail"@.len() == 4);
}

/// The informs that tell of sensors belong to the request.
proof fn lemma_informs_belong(
    listing: Listing,
    msg: MessageView,
    sensors: Seq<SensorView>,
    filter: FilterView,
)
    ensures
        forall|i: int|
            0 <= i < sensor_informs(listing, msg, sensors, filter).len() ==> (
            #[trigger] sensor_informs(listing, msg, sensors, filter)[i]).mtype
                == MessageType::Inform && belongs_to(
                sensor_informs(listing, msg, sensors, filter)[i],
                msg,
            ),
    decreases sensors.len(),
{
    if sensors.len() > 0 {
        lemma_informs_belong(listing, msg, sensors.drop_last(), filter);
    }
}

/// Without a filter every sensor is listed, once and in order.
pub proof fn unfiltered_listing_is_complete(
    listing: Listing,
    msg: MessageView,
    sensors: Seq<SensorView>,
)
    ensures
        sensor_informs(listing, msg, sensors, FilterView::All) == sensors.map_values(
            |s: SensorView| sensor_inform(listing, msg, s),
        ),
    decreases sensors.len(),
{
    if sensors.len() > 0 {
        unfiltered_listing_is_complete(listing, msg, sensors.drop_last());
        assert(sensor_informs(listing, msg, sensors, FilterView::All) =~= sensors.map_values(
            |s: SensorView| sensor_inform(listing, msg, s),
        ));
    } else {
        assert(sensor_informs(listing, msg, sensors, FilterView::All) =~= sensors.map_values(
            |s: SensorView| sensor_inform(listing, msg, s),
        ));
    }
}

/// A client that sets how it samples a sensor and then asks for it is told what it set.
pub proof fn query_tells_what_was_set(
    server: ServerView,
    set_msg: MessageView,
    params: Seq<Option<ParameterView>>,
    query: MessageView,
    query_params: Seq<Option<ParameterView>>,
    addr: SocketAddressView,
    name: Seq<char>,
    strategy: StrategyView,
)
    requires
        server.wf(),
        is_connected(server, addr),
        sampling_request(set_msg, server.context.sensors, params) == SamplingRequestView::Assign(
            name,
            strategy,
        ),
        query.arg_text(0) == Some(name),
        query.arg_text(1) is None,
    ensures
        sampling_answer(
            server_after_sampling(server, set_msg, addr, params),
            query,
            addr,
            query_params,
        ) == strategy_reply(query, name, strategy),
{
    let after = server_after_sampling(server, set_msg, addr, params);
    let sensors = server.context.sensors;
    lemma_place(sensor_names(sensors), name);
    assert(sensor_names(after.context.sensors) =~= sensor_names(sensors));
    lemma_connected(server, addr);
    let c = client_place(server.clients, addr);
    assert(client_addrs(after.clients) =~= client_addrs(server.clients));
    let entries = server.clients[c].sampling;
    let keys = sampled_names(entries);
    let e = entry_place(entries, name);
    let later = entries_after(entries, name, strategy);
    let later_keys = sampled_names(later);
    assert(after.clients[c].sampling == later);
    lemma_place(keys, name);
    assert(distinct(keys));
    if strategy == StrategyView::NoSampling {
        if e < entries.len() {
            lemma_distinct_remove(keys, e);
            assert(later_keys =~= keys.remove(e));
        } else {
            lemma_place_contains(keys, name);
        }
        lemma_place_contains(later_keys, name);
        lemma_place(later_keys, name);
    } else if e < entries.len() {
        assert(later_keys =~= keys);
    } else {
        assert(later_keys =~= keys.push(name));
        assert forall|i: int| 0 <= i < keys.len() implies (#[trigger] later_keys[i]) != name by {
            assert(later_keys[i] == keys[i]);
        }
        lemma_place_is(later_keys, name, keys.len() as int);
    }
}

/// A request that a client wrote is the request that the server reads.
pub proof fn written_request_is_read(m: MessageView)
    requires
        well_named(m),
        m.mtype == MessageType::Request,
        wire_line(m).len() <= MAX_MSG_SIZE,
    ensures
        incoming(wire(m)) == IncomingView::Request(m),
{
    written_message_is_received(m);
}

/// The wire format can carry what the server sends on its own account: the greeting, the farewell and
/// what it tells of updates.
pub proof fn server_informs_are_well_named(
    context: ContextView,
    o: SamplingObserverView,
    reading: SensorReadingView,
)
    ensures
        forall|i: int|
            0 <= i < context.greeting().len() ==> well_named(#[trigger] context.greeting()[i]),
        well_named(farewell()),
        well_named(o.status_inform(reading)),
{
    reveal_strlit("version-connect");
    reveal_strlit("disconnect");
    reveal_strlit("sensor-status");
    assert(is_name("version-connect"@));
    assert(is_name("disconnect"@));
    assert(is_name("sensor-status"@));
}

/// After an update of a sensor, `?sensor-value` tells of that update: its time, status and value.
pub proof fn readers_see_the_latest_update(
    server: ServerView,
    name: Seq<char>,
    reading: SensorReadingView,
    now: u128,
    moved: Seq<bool>,
    msg: MessageView,
)
    requires
        sensor_names(server.context.sensors).contains(name),
    ensures
        sensor_answer(
            Listing::Value,
            msg,
            step(server, EventView::Update(name, reading, now, moved)).context.sensors,
            Ok(FilterView::Exact(name)),
        ) == RequestResultView::listed(
            msg,
            seq![
                msg.informed(
                    seq![
                        encode_utf8(reading.timestamp.fixed),
                        encode_utf8("1"@),
                        encode_utf8(name),
                        encode_utf8(reading.status.name()),
                        reading.value,
                    ],
                ),
            ],
        ),
{
    let sensors = server.context.sensors;
    let after = step(server, EventView::Update(name, reading, now, moved)).context.sensors;
    let n = sensor_place(sensors, name);
    let keys = sensor_names(sensors);
    lemma_place(keys, name);
    lemma_place_contains(keys, name);
    assert(keys[n] == sensors[n].name);
    assert(sensor_names(after) =~= keys);
    assert(after[n] == sensors[n].updated(reading, now, moved));
}

/// A sensor that was added is found by its name, as it was added; other sensors are found as before.
pub proof fn added_sensors_are_found(server: ServerView, s: SensorView, other: Seq<char>)
    ensures
        ({
            let before = server.context.sensors;
            let after = server_with_sensor(server, s).context.sensors;
            &&& sensor_place(after, s.name) < after.len()
            &&& after[sensor_place(after, s.name)] == s
            &&& other != s.name ==> {
                &&& sensor_place(before, other) < before.len() <==> sensor_place(after, other)
                    < after.len()
                &&& sensor_place(before, other) < before.len()
                    ==> after[sensor_place(after, other)] == before[sensor_place(before, other)]
            }
        }),
{
    let before = server.context.sensors;
    let after = server_with_sensor(server, s).context.sensors;
    let keys = sensor_names(before);
    let later = sensor_names(after);
    let n = sensor_place(before, s.name);
    let m = sensor_place(before, other);
    lemma_place(keys, s.name);
    lemma_place(keys, other);
    if n < before.len() {
        assert(later =~= keys);
    } else {
        assert(later =~= keys.push(s.name));
        assert forall|i: int| 0 <= i < n implies (#[trigger] later[i]) != s.name by {
            assert(later[i] == keys[i]);
        }
        lemma_place_is(later, s.name, n);
        if other != s.name {
            let k = if m < before.len() { m } else { m + 1 };
            assert forall|i: int| 0 <= i < k implies (#[trigger] later[i]) != other by {
                if i < keys.len() {
                    assert(later[i] == keys[i]);
                }
            }
            lemma_place_is(later, other, k);
        }
    }
}

/// A client that connects is connected and samples nothing; how other clients sample stays as it was.
pub proof fn connecting_starts_afresh(
    server: ServerView,
    addr: SocketAddressView,
    other: SocketAddressView,
    name: Seq<char>,
)
    ensures
        ({
            let after = server_with_client(server, addr);
            &&& is_connected(after, addr)
            &&& current_strategy(after.clients, addr, name) == StrategyView::NoSampling
            &&& other != addr ==> is_connected(after, other) == is_connected(server, other)
            &&& other != addr ==> current_strategy(after.clients, other, name)
                == current_strategy(server.clients, other, name)
        }),
{
    let after = server_with_client(server, addr);
    let keys = client_addrs(server.clients);
    let later = client_addrs(after.clients);
    let n = client_place(server.clients, addr);
    let m = client_place(server.clients, other);
    lemma_place(keys, addr);
    lemma_place(keys, other);
    lemma_place_contains(keys, other);
    if n < server.clients.len() {
        assert(later =~= keys);
        assert(later[n] == addr);
    } else {
        assert(later =~= keys.push(addr));
        assert(later[n] == addr);
        assert forall|i: int| 0 <= i < n implies (#[trigger] later[i]) != addr by {
            assert(later[i] == keys[i]);
        }
        lemma_place_is(later, addr, n);
        if other != addr {
            let k = if m < server.clients.len() { m } else { m + 1 };
            assert forall|i: int| 0 <= i < k implies (#[trigger] later[i]) != other by {
                if i < keys.len() {
                    assert(later[i] == keys[i]);
                }
            }
            lemma_place_is(later, other, k);
        }
    }
    lemma_place_contains(later, other);
}

/// A handler that was registered is the one that is called, and stays so whatever happens.
pub proof fn registered_handlers_stay(server: ServerView, name: Seq<char>, event: EventView)
    ensures
        server_with_handler(server, name).context.handlers.contains(name),
        server.context.handlers.contains(name) ==> step(
            server,
            event,
        ).context.handlers.contains(name),
{
    let handlers = server.context.handlers;
    if !handlers.contains(name) {
        assert(handlers.push(name)[handlers.len() as int] == name);
    } else if let EventView::Register(other) = event {
        let k = choose|k: int| 0 <= k < handlers.len() && handlers[k] == name;
        if !handlers.contains(other) {
            assert(handlers.push(other)[k] == name);
        }
    }
}

/// A log level that was set is the one that is told.
pub proof fn log_level_query_tells_what_was_set(
    set_msg: MessageView,
    query: MessageView,
    level: Seq<char>,
    before: Seq<char>,
)
    requires
        set_msg.arg_text(0) == Some(level),
        is_log_level(level),
        query.arg_text(0) is None,
    ensures
        log_level_answer(query, log_level_after(set_msg, before)) == RequestResultView::ok_with(
            query,
            level,
        ),
{
}

} // verus!
