//! What a device server is and how it answers, as mathematics sees it.

use vstd::prelude::*;
use vstd::utf8::encode_utf8;
use vstd::utf8::valid_utf8;
use crate::address::SocketAddressView;
use crate::decimal::nat_text;
use crate::filter::FilterView;
use crate::line::received;
use crate::line::ReceivedView;
use crate::message::MessageErrorView;
use crate::message::MessageType;
use crate::message::MessageView;
use crate::protocol::ProtocolFlagsView;
use crate::sampling::read_strategy;
use crate::sampling::ParameterView;
use crate::sampling::SamplingObserverView;
use crate::sampling::SamplingStateView;
use crate::sampling::StrategyView;
use crate::sensor::type_params;
use crate::sensor::without_client;
use crate::sensor::ObserverView;
use crate::sensor::SensorView;
use crate::text::text_words;
use crate::wire::wire;

verus! {

/// The place of the first `key` in a list of keys; the length where there is none.
pub open spec fn place<K>(keys: Seq<K>, key: K) -> int
    decreases keys.len(),
{
    if keys.len() == 0 || keys[0] == key {
        0
    } else {
        1 + place(keys.skip(1), key)
    }
}

/// A key's place lies within the list, and is the first that holds the key.
pub proof fn lemma_place<K>(keys: Seq<K>, key: K)
    ensures
        0 <= place(keys, key) <= keys.len(),
        place(keys, key) < keys.len() ==> keys[place(keys, key)] == key,
        forall|i: int| 0 <= i < place(keys, key) ==> (#[trigger] keys[i]) != key,
    decreases keys.len(),
{
    if keys.len() > 0 && keys[0] != key {
        lemma_place(keys.skip(1), key);
        assert forall|i: int| 0 <= i < place(keys, key) implies (#[trigger] keys[i]) != key by {
            if i > 0 {
                assert(keys.skip(1)[i - 1] == keys[i]);
            }
        }
    }
}

/// Only one place is the first that holds a key.
pub proof fn lemma_place_is<K>(keys: Seq<K>, key: K, n: int)
    requires
        0 <= n <= keys.len(),
        forall|i: int| 0 <= i < n ==> (#[trigger] keys[i]) != key,
        n < keys.len() ==> keys[n] == key,
    ensures
        place(keys, key) == n,
{
    lemma_place(keys, key);
    let p = place(keys, key);
    if p < n {
        assert(keys[p] != key);
    }
    if n < p {
        assert(keys[n] != key);
    }
}

/// The device's name and version.
#[verifier::ext_equal]
pub struct VersionInfoView {
    pub name: Seq<char>,
    pub major: u32,
    pub minor: u32,
}

/// The device's build.
#[verifier::ext_equal]
pub struct BuildInfoView {
    pub name: Seq<char>,
    pub major: u32,
    pub minor: u32,
    pub state: Seq<char>,
}

/// What request handlers see of a server.
#[verifier::ext_equal]
pub struct ContextView {
    pub sensors: Seq<SensorView>,
    pub protocol: ProtocolFlagsView,
    pub version_info: VersionInfoView,
    pub build_info: BuildInfoView,
    pub handlers: Seq<Seq<char>>,
    pub log_level: Seq<char>,
}

/// A sensor that a client samples, and how.
#[verifier::ext_equal]
pub struct SamplingEntryView {
    pub name: Seq<char>,
    pub strategy: StrategyView,
}

/// A connected client.
#[verifier::ext_equal]
pub struct ClientView {
    pub addr: SocketAddressView,
    pub sampling: Seq<SamplingEntryView>,
}

/// A device server.
#[verifier::ext_equal]
pub struct ServerView {
    pub bind_addr: Seq<char>,
    pub port: u16,
    pub context: ContextView,
    pub clients: Seq<ClientView>,
}

/// The answer to a request.
#[verifier::ext_equal]
pub struct RequestResultView {
    pub informs: Seq<MessageView>,
    pub reply: MessageView,
}

/// The names of sensors.
pub open spec fn sensor_names(sensors: Seq<SensorView>) -> Seq<Seq<char>> {
    sensors.map_values(|s: SensorView| s.name)
}

/// The addresses of clients.
pub open spec fn client_addrs(clients: Seq<ClientView>) -> Seq<SocketAddressView> {
    clients.map_values(|c: ClientView| c.addr)
}

/// The names of the sensors that a client samples.
pub open spec fn sampled_names(entries: Seq<SamplingEntryView>) -> Seq<Seq<char>> {
    entries.map_values(|e: SamplingEntryView| e.name)
}

/// The place of a sensor; the number of sensors where there is no such sensor.
pub open spec fn sensor_place(sensors: Seq<SensorView>, name: Seq<char>) -> int {
    place(sensor_names(sensors), name)
}

/// The place of a client; the number of clients where there is no such client.
pub open spec fn client_place(clients: Seq<ClientView>, addr: SocketAddressView) -> int {
    place(client_addrs(clients), addr)
}

/// The place of a sensor among those that a client samples.
pub open spec fn entry_place(entries: Seq<SamplingEntryView>, name: Seq<char>) -> int {
    place(sampled_names(entries), name)
}

/// The bytes of a list of texts.
pub open spec fn texts_bytes(texts: Seq<Seq<char>>) -> Seq<Seq<u8>> {
    texts.map_values(|t: Seq<char>| encode_utf8(t))
}

/// The frames of messages.
pub open spec fn messages_wire(ms: Seq<MessageView>) -> Seq<Seq<u8>> {
    ms.map_values(|m: MessageView| wire(m))
}

impl RequestResultView {
    /// A reply alone.
    pub open spec fn alone(reply: MessageView) -> RequestResultView {
        RequestResultView { informs: seq![], reply }
    }

    /// Success, with nothing to tell.
    pub open spec fn ok(msg: MessageView) -> RequestResultView {
        RequestResultView::alone(msg.replied(seq![encode_utf8("ok"@)]))
    }

    /// Success, with one text to tell.
    pub open spec fn ok_with(msg: MessageView, text: Seq<char>) -> RequestResultView {
        RequestResultView::alone(msg.replied(seq![encode_utf8("ok"@), encode_utf8(text)]))
    }

    /// Failure, and why.
    pub open spec fn fail(msg: MessageView, why: Seq<char>) -> RequestResultView {
        RequestResultView::alone(msg.replied(seq![encode_utf8("fail"@), encode_utf8(why)]))
    }

    /// A request that the server does not know.
    pub open spec fn invalid(msg: MessageView) -> RequestResultView {
        RequestResultView::alone(
            msg.replied(seq![encode_utf8("invalid"@), encode_utf8("unknown request"@)]),
        )
    }

    /// Informs, and a reply that counts them.
    pub open spec fn listed(msg: MessageView, informs: Seq<MessageView>) -> RequestResultView {
        RequestResultView {
            informs,
            reply: msg.replied(
                seq![encode_utf8("ok"@), encode_utf8(nat_text(informs.len()))],
            ),
        }
    }

    /// The frames that are sent to the client: the informs, then the reply.
    pub open spec fn frames(self) -> Seq<Seq<u8>> {
        messages_wire(self.informs.push(self.reply))
    }
}

/// A request and what it does.
#[verifier::ext_equal]
pub struct HelpView {
    pub name: Seq<char>,
    pub text: Seq<char>,
}

/// The requests that every server answers.
pub open spec fn builtin_help() -> Seq<HelpView> {
    seq![
        HelpView { name: "help"@, text: "List available requests."@ },
        HelpView { name: "watchdog"@, text: "Ping the server."@ },
        HelpView { name: "version-list"@, text: "List server version information."@ },
        HelpView { name: "sensor-list"@, text: "List available sensors."@ },
        HelpView { name: "sensor-value"@, text: "Get sensor value."@ },
        HelpView { name: "sensor-sampling"@, text: "Set sensor sampling strategy."@ },
        HelpView { name: "client-list"@, text: "List connected clients."@ },
        HelpView { name: "halt"@, text: "Shut down the server."@ },
        HelpView { name: "log-level"@, text: "Get or set log level."@ },
    ]
}

/// The requests that a server has handlers of its own for.
pub open spec fn custom_help(handlers: Seq<Seq<char>>) -> Seq<HelpView> {
    handlers.map_values(|n: Seq<char>| HelpView { name: n, text: "Custom request handler."@ })
}

/// All requests that a server answers.
pub open spec fn all_help(handlers: Seq<Seq<char>>) -> Seq<HelpView> {
    builtin_help() + custom_help(handlers)
}

/// The names of requests.
pub open spec fn help_names(hs: Seq<HelpView>) -> Seq<Seq<char>> {
    hs.map_values(|h: HelpView| h.name)
}

/// The inform that tells of a request.
pub open spec fn help_inform(msg: MessageView, h: HelpView) -> MessageView {
    msg.informed(seq![encode_utf8(h.name), encode_utf8(h.text)])
}

/// The informs that tell of requests.
pub open spec fn help_informs(msg: MessageView, hs: Seq<HelpView>) -> Seq<MessageView> {
    hs.map_values(|h: HelpView| help_inform(msg, h))
}

/// The answer to `?help`: all requests, or the one that is asked for.
pub open spec fn help_answer(msg: MessageView, handlers: Seq<Seq<char>>) -> RequestResultView {
    let all = all_help(handlers);
    match msg.arg_text(0) {
        None => RequestResultView::listed(msg, help_informs(msg, all)),
        Some(name) => {
            let n = place(help_names(all), name);
            if n < all.len() {
                RequestResultView::listed(msg, seq![help_inform(msg, all[n])])
            } else {
                RequestResultView::fail(msg, "Unknown request."@)
            }
        },
    }
}

impl ContextView {
    /// The device's name and version.
    pub open spec fn version_text(self) -> Seq<char> {
        self.version_info.name + seq!['-'] + nat_text(self.version_info.major as nat) + seq!['.']
            + nat_text(self.version_info.minor as nat)
    }

    /// The device's build.
    pub open spec fn build_text(self) -> Seq<char> {
        self.build_info.name + seq!['-'] + nat_text(self.build_info.major as nat) + seq!['.']
            + nat_text(self.build_info.minor as nat) + seq!['-'] + self.build_info.state
    }

    /// The informs that a client is greeted with.
    pub open spec fn greeting(self) -> Seq<MessageView> {
        let name = "version-connect"@;
        seq![
            MessageView::plain(
                MessageType::Inform,
                name,
                seq![encode_utf8("katcp-protocol"@), encode_utf8(self.protocol.shown())],
            ),
            MessageView::plain(
                MessageType::Inform,
                name,
                seq![encode_utf8("katcp-library"@), encode_utf8(library_text())],
            ),
            MessageView::plain(
                MessageType::Inform,
                name,
                seq![
                    encode_utf8("katcp-device"@),
                    encode_utf8(self.version_text()),
                    encode_utf8(self.build_text()),
                ],
            ),
        ]
    }

    /// The informs that answer `?version-list`.
    pub open spec fn version_informs(self, msg: MessageView) -> Seq<MessageView> {
        seq![
            msg.informed(
                seq![encode_utf8("katcp-protocol"@), encode_utf8(self.protocol.shown())],
            ),
            msg.informed(
                seq![
                    encode_utf8("katcp-library"@),
                    encode_utf8(library_text()),
                    encode_utf8(self.build_text()),
                ],
            ),
            msg.informed(
                seq![
                    encode_utf8("katcp-device"@),
                    encode_utf8(self.version_text()),
                    encode_utf8(self.build_text()),
                ],
            ),
        ]
    }
}

/// The library's name and version.
pub open spec fn library_text() -> Seq<char> {
    "katcp-rust-0.1.0"@
}

/// What is told of a sensor.
#[derive(Clone, Copy, PartialEq, Eq, Structural)]
pub enum Listing {
    /// What the sensor is.
    Description,
    /// What it reads.
    Value,
}

/// The inform that tells of a sensor.
pub open spec fn sensor_inform(listing: Listing, msg: MessageView, s: SensorView) -> MessageView {
    match listing {
        Listing::Description => msg.informed(
            seq![
                encode_utf8(s.name),
                encode_utf8(s.description),
                encode_utf8(s.units),
                encode_utf8(s.sensor_type.name()),
            ] + texts_bytes(text_words(type_params(s.katcp_type))),
        ),
        Listing::Value => msg.informed(
            seq![
                encode_utf8(s.reading.timestamp.fixed),
                encode_utf8("1"@),
                encode_utf8(s.name),
                encode_utf8(s.reading.status.name()),
                s.reading.value,
            ],
        ),
    }
}

/// The informs that tell of the sensors that a filter lets through, in order.
pub open spec fn sensor_informs(
    listing: Listing,
    msg: MessageView,
    sensors: Seq<SensorView>,
    filter: FilterView,
) -> Seq<MessageView>
    decreases sensors.len(),
{
    if sensors.len() == 0 {
        seq![]
    } else {
        let before = sensor_informs(listing, msg, sensors.drop_last(), filter);
        if filter.accepts(sensors.last().name) {
            before.push(sensor_inform(listing, msg, sensors.last()))
        } else {
            before
        }
    }
}

/// The answer to `?sensor-list` and `?sensor-value`, given the filter that the request's argument
/// stands for.
pub open spec fn sensor_answer(
    listing: Listing,
    msg: MessageView,
    sensors: Seq<SensorView>,
    filter: Result<FilterView, Seq<char>>,
) -> RequestResultView {
    match filter {
        Err(why) => RequestResultView::fail(msg, why),
        Ok(FilterView::Exact(name)) => {
            let n = sensor_place(sensors, name);
            if n < sensors.len() {
                RequestResultView::listed(msg, seq![sensor_inform(listing, msg, sensors[n])])
            } else {
                RequestResultView::fail(msg, "Unknown sensor name."@)
            }
        },
        Ok(f) => RequestResultView::listed(msg, sensor_informs(listing, msg, sensors, f)),
    }
}

/// The informs that tell of the clients.
pub open spec fn client_informs(msg: MessageView, clients: Seq<ClientView>) -> Seq<MessageView> {
    clients.map_values(|c: ClientView| msg.informed(seq![encode_utf8(c.addr.text)]))
}

/// Whether a text is a log level.
pub open spec fn is_log_level(level: Seq<char>) -> bool {
    ||| level == "all"@
    ||| level == "trace"@
    ||| level == "debug"@
    ||| level == "info"@
    ||| level == "warn"@
    ||| level == "error"@
    ||| level == "fatal"@
    ||| level == "off"@
}

/// The log level after `?log-level`.
pub open spec fn log_level_after(msg: MessageView, level: Seq<char>) -> Seq<char> {
    match msg.arg_text(0) {
        Some(new) => if is_log_level(new) {
            new
        } else {
            level
        },
        None => level,
    }
}

/// The answer to `?log-level`.
pub open spec fn log_level_answer(msg: MessageView, level: Seq<char>) -> RequestResultView {
    match msg.arg_text(0) {
        Some(new) => if is_log_level(new) {
            RequestResultView::ok_with(msg, new)
        } else {
            RequestResultView::fail(msg, "Invalid log level."@)
        },
        None => RequestResultView::ok_with(msg, level),
    }
}

/// The strategy that a client samples a sensor with.
pub open spec fn current_strategy(
    clients: Seq<ClientView>,
    addr: SocketAddressView,
    name: Seq<char>,
) -> StrategyView {
    let c = client_place(clients, addr);
    if c < clients.len() {
        let e = entry_place(clients[c].sampling, name);
        if e < clients[c].sampling.len() {
            clients[c].sampling[e].strategy
        } else {
            StrategyView::NoSampling
        }
    } else {
        StrategyView::NoSampling
    }
}

/// The reply that tells how a client samples a sensor.
pub open spec fn strategy_reply(
    msg: MessageView,
    name: Seq<char>,
    strategy: StrategyView,
) -> RequestResultView {
    RequestResultView::alone(
        msg.replied(
            seq![encode_utf8("ok"@), encode_utf8(name), encode_utf8(strategy.name())]
                + texts_bytes(text_words(strategy.params())),
        ),
    )
}

/// The entries after a client set how it samples a sensor.
pub open spec fn entries_after(
    entries: Seq<SamplingEntryView>,
    name: Seq<char>,
    strategy: StrategyView,
) -> Seq<SamplingEntryView> {
    let e = entry_place(entries, name);
    let entry = SamplingEntryView { name, strategy };
    if strategy == StrategyView::NoSampling {
        if e < entries.len() {
            entries.remove(e)
        } else {
            entries
        }
    } else if e < entries.len() {
        entries.update(e, entry)
    } else {
        entries.push(entry)
    }
}

/// The clients after one of them set how it samples a sensor.
pub open spec fn clients_after(
    clients: Seq<ClientView>,
    addr: SocketAddressView,
    name: Seq<char>,
    strategy: StrategyView,
) -> Seq<ClientView> {
    let c = client_place(clients, addr);
    if c < clients.len() {
        clients.update(
            c,
            ClientView {
                sampling: entries_after(clients[c].sampling, name, strategy),
                ..clients[c]
            },
        )
    } else {
        clients
    }
}

/// An observer that has sent nothing yet.
pub open spec fn fresh_observer(
    addr: SocketAddressView,
    name: Seq<char>,
    strategy: StrategyView,
) -> ObserverView {
    ObserverView::Sampling(
        SamplingObserverView {
            sensor_name: name,
            strategy,
            client_addr: addr,
            state: SamplingStateView { last_sent: None, last_value: None },
        },
    )
}

/// The observers after a client set how it samples their sensor.
pub open spec fn observers_with(
    os: Seq<ObserverView>,
    addr: SocketAddressView,
    name: Seq<char>,
    strategy: StrategyView,
) -> Seq<ObserverView> {
    let kept = without_client(os, addr);
    if strategy == StrategyView::NoSampling {
        kept
    } else {
        kept.push(fresh_observer(addr, name, strategy))
    }
}

/// What a `?sensor-sampling` request asks for.
pub enum SamplingRequestView {
    /// It cannot be done, for this reason.
    Refused(Seq<char>),
    /// It asks how this sensor is sampled.
    Query(Seq<char>),
    /// It sets how this sensor is sampled.
    Assign(Seq<char>, StrategyView),
}

/// What a `?sensor-sampling` request asks for.
pub open spec fn sampling_request(
    msg: MessageView,
    sensors: Seq<SensorView>,
    params: Seq<Option<ParameterView>>,
) -> SamplingRequestView {
    match msg.arg_text(0) {
        None => SamplingRequestView::Refused("sensor name required"@),
        Some(name) => if sensor_place(sensors, name) >= sensors.len() {
            SamplingRequestView::Refused("Unknown sensor name."@)
        } else {
            match msg.arg_text(1) {
                None => SamplingRequestView::Query(name),
                Some(strategy) => match read_strategy(strategy, params) {
                    None => SamplingRequestView::Refused("invalid sampling strategy"@),
                    Some(s) => SamplingRequestView::Assign(name, s),
                },
            }
        },
    }
}

/// The answer to `?sensor-sampling`.
pub open spec fn sampling_answer(
    server: ServerView,
    msg: MessageView,
    addr: SocketAddressView,
    params: Seq<Option<ParameterView>>,
) -> RequestResultView {
    match sampling_request(msg, server.context.sensors, params) {
        SamplingRequestView::Refused(why) => RequestResultView::fail(msg, why),
        SamplingRequestView::Query(name) => strategy_reply(
            msg,
            name,
            current_strategy(server.clients, addr, name),
        ),
        SamplingRequestView::Assign(name, strategy) => strategy_reply(msg, name, strategy),
    }
}

/// The sensors after a client set how it samples one of them.
pub open spec fn sensors_after(
    sensors: Seq<SensorView>,
    addr: SocketAddressView,
    name: Seq<char>,
    strategy: StrategyView,
) -> Seq<SensorView> {
    let n = sensor_place(sensors, name);
    sensors.update(
        n,
        SensorView {
            observers: observers_with(sensors[n].observers, addr, name, strategy),
            ..sensors[n]
        },
    )
}

/// The server after `?sensor-sampling`.
pub open spec fn server_after_sampling(
    server: ServerView,
    msg: MessageView,
    addr: SocketAddressView,
    params: Seq<Option<ParameterView>>,
) -> ServerView {
    match sampling_request(msg, server.context.sensors, params) {
        SamplingRequestView::Assign(name, strategy) => ServerView {
            context: ContextView {
                sensors: sensors_after(server.context.sensors, addr, name, strategy),
                ..server.context
            },
            clients: clients_after(server.clients, addr, name, strategy),
            ..server
        },
        _ => server,
    }
}

/// The texts of a request's sampling parameters: its arguments from the third on, as far as they
/// are valid UTF-8.
pub open spec fn param_texts(args: Seq<Seq<u8>>) -> Seq<Seq<char>>
    decreases args.len(),
{
    if args.len() <= 2 {
        seq![]
    } else if valid_utf8(args.last()) {
        param_texts(args.drop_last()).push(vstd::utf8::decode_utf8(args.last()))
    } else {
        param_texts(args.drop_last())
    }
}

/// The requests that every server answers.
#[derive(Clone, Copy, PartialEq, Eq, Structural)]
pub enum RequestKind {
    Help,
    Watchdog,
    VersionList,
    SensorList,
    SensorValue,
    SensorSampling,
    ClientList,
    Halt,
    LogLevel,
    /// No such request.
    Unknown,
}

/// The request of a name.
pub open spec fn request_kind(name: Seq<char>) -> RequestKind {
    if name == "help"@ {
        RequestKind::Help
    } else if name == "watchdog"@ {
        RequestKind::Watchdog
    } else if name == "version-list"@ {
        RequestKind::VersionList
    } else if name == "sensor-list"@ {
        RequestKind::SensorList
    } else if name == "sensor-value"@ {
        RequestKind::SensorValue
    } else if name == "sensor-sampling"@ {
        RequestKind::SensorSampling
    } else if name == "client-list"@ {
        RequestKind::ClientList
    } else if name == "halt"@ {
        RequestKind::Halt
    } else if name == "log-level"@ {
        RequestKind::LogLevel
    } else {
        RequestKind::Unknown
    }
}

/// The answer to a request that has no handler of its own, given its sampling parameters, read as
/// numbers, and the filter that its first argument stands for.
pub open spec fn builtin_answer(
    server: ServerView,
    msg: MessageView,
    addr: SocketAddressView,
    params: Seq<Option<ParameterView>>,
    filter: Result<FilterView, Seq<char>>,
) -> RequestResultView {
    match request_kind(msg.name) {
        RequestKind::Help => help_answer(msg, server.context.handlers),
        RequestKind::Watchdog => RequestResultView::ok(msg),
        RequestKind::VersionList => RequestResultView::listed(
            msg,
            server.context.version_informs(msg),
        ),
        RequestKind::SensorList => sensor_answer(
            Listing::Description,
            msg,
            server.context.sensors,
            filter,
        ),
        RequestKind::SensorValue => sensor_answer(
            Listing::Value,
            msg,
            server.context.sensors,
            filter,
        ),
        RequestKind::SensorSampling => sampling_answer(server, msg, addr, params),
        RequestKind::ClientList => RequestResultView::listed(
            msg,
            client_informs(msg, server.clients),
        ),
        RequestKind::Halt => RequestResultView::ok(msg),
        RequestKind::LogLevel => log_level_answer(msg, server.context.log_level),
        RequestKind::Unknown => RequestResultView::invalid(msg),
    }
}

/// The server after a request that has no handler of its own.
pub open spec fn server_after(
    server: ServerView,
    msg: MessageView,
    addr: SocketAddressView,
    params: Seq<Option<ParameterView>>,
) -> ServerView {
    match request_kind(msg.name) {
        RequestKind::SensorSampling => server_after_sampling(server, msg, addr, params),
        RequestKind::LogLevel => ServerView {
            context: ContextView {
                log_level: log_level_after(msg, server.context.log_level),
                ..server.context
            },
            ..server
        },
        _ => server,
    }
}

/// The sensors after one is added: one of the same name gives way.
pub open spec fn sensors_with(sensors: Seq<SensorView>, s: SensorView) -> Seq<SensorView> {
    let n = sensor_place(sensors, s.name);
    if n < sensors.len() {
        sensors.update(n, s)
    } else {
        sensors.push(s)
    }
}

/// The clients after one connects: it samples nothing yet.
pub open spec fn clients_with(clients: Seq<ClientView>, addr: SocketAddressView) -> Seq<ClientView> {
    let n = client_place(clients, addr);
    let c = ClientView { addr, sampling: seq![] };
    if n < clients.len() {
        clients.update(n, c)
    } else {
        clients.push(c)
    }
}

/// The server after a sensor is added.
pub open spec fn server_with_sensor(server: ServerView, s: SensorView) -> ServerView {
    ServerView {
        context: ContextView {
            sensors: sensors_with(server.context.sensors, s),
            ..server.context
        },
        ..server
    }
}

/// The server after a handler is registered.
pub open spec fn server_with_handler(server: ServerView, name: Seq<char>) -> ServerView {
    ServerView {
        context: ContextView {
            handlers: handlers_with(server.context.handlers, name),
            ..server.context
        },
        ..server
    }
}

/// The server after a client connects.
pub open spec fn server_with_client(server: ServerView, addr: SocketAddressView) -> ServerView {
    ServerView { clients: clients_with(server.clients, addr), ..server }
}

/// The sensors after a client was detached from those that it samples.
pub open spec fn sensors_detached(
    sensors: Seq<SensorView>,
    addr: SocketAddressView,
    entries: Seq<SamplingEntryView>,
) -> Seq<SensorView> {
    sensors.map_values(
        |s: SensorView|
            if sampled_names(entries).contains(s.name) {
                SensorView { observers: without_client(s.observers, addr), ..s }
            } else {
                s
            },
    )
}

/// The server after a client disconnects.
pub open spec fn server_without(server: ServerView, addr: SocketAddressView) -> ServerView {
    let n = client_place(server.clients, addr);
    if n < server.clients.len() {
        ServerView {
            context: ContextView {
                sensors: sensors_detached(
                    server.context.sensors,
                    addr,
                    server.clients[n].sampling,
                ),
                ..server.context
            },
            clients: server.clients.remove(n),
            ..server
        }
    } else {
        server
    }
}

/// A server that was just made: it has no sensors, no handlers and no clients.
pub open spec fn new_server(
    host: Seq<char>,
    port: u16,
    version_info: VersionInfoView,
    build_info: BuildInfoView,
) -> ServerView {
    ServerView {
        bind_addr: if host.len() == 0 {
            "0.0.0.0"@
        } else {
            host
        },
        port,
        context: ContextView {
            sensors: seq![],
            protocol: ProtocolFlagsView::default_v5(),
            version_info,
            build_info,
            handlers: seq![],
            log_level: "warn"@,
        },
        clients: seq![],
    }
}

/// The inform that tells clients that the server goes away.
pub open spec fn farewell() -> MessageView {
    MessageView::plain(
        MessageType::Inform,
        "disconnect"@,
        seq![encode_utf8("server shutting down"@)],
    )
}

/// The names of handlers after one is registered.
pub open spec fn handlers_with(handlers: Seq<Seq<char>>, name: Seq<char>) -> Seq<Seq<char>> {
    if handlers.contains(name) {
        handlers
    } else {
        handlers.push(name)
    }
}

/// What a line from a client is.
#[verifier::ext_equal]
pub enum IncomingView {
    /// Nothing to do: an empty line, or a message that is no request.
    Nothing,
    /// No message.
    Malformed(MessageErrorView),
    /// A request.
    Request(MessageView),
}

/// What a line from a client is.
pub open spec fn incoming(line: Seq<u8>) -> IncomingView {
    match received(line) {
        ReceivedView::Nothing => IncomingView::Nothing,
        ReceivedView::Malformed(e) => IncomingView::Malformed(e),
        ReceivedView::Message(m) => if m.mtype == MessageType::Request {
            IncomingView::Request(m)
        } else {
            IncomingView::Nothing
        },
    }
}

/// Whether no two keys of a list are the same.
pub open spec fn distinct<K>(keys: Seq<K>) -> bool {
    forall|i: int, j: int| 0 <= i < j < keys.len() ==> #[trigger] keys[i] != #[trigger] keys[j]
}

impl ServerView {
    /// Whether the server holds each sensor, each client, each handler and each of a client's
    /// samplings once, and a log level that there is.
    pub open spec fn wf(self) -> bool {
        &&& distinct(sensor_names(self.context.sensors))
        &&& distinct(client_addrs(self.clients))
        &&& distinct(self.context.handlers)
        &&& is_log_level(self.context.log_level)
        &&& forall|i: int|
            0 <= i < self.clients.len() ==> distinct(
                sampled_names(#[trigger] self.clients[i].sampling),
            )
    }
}

} // verus!
