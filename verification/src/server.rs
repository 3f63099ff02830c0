//! The device server: its sensors, its clients, and its answers to their requests.

use vstd::prelude::*;
use vstd::string::StringExecFns;
use vstd::utf8::encode_utf8;
use crate::address::address_text;
use crate::address::SocketAddress;
use crate::decimal::nat_text;
use crate::decimal::push_u64;
use crate::decimal::u64_text;
use crate::filter::filter_view;
use crate::filter::read_filter;
use crate::filter::SensorFilter;
use crate::float::Float64;
use crate::line::read_received;
use crate::line::Received;
use crate::message::args_view;
use crate::message::Message;
use crate::message::MessageError;
use crate::message::MessageType;
use crate::message::MessageView;
use crate::protocol::ProtocolFlags;
use crate::sampling::parameters_view;
use crate::sampling::Parameter;
use crate::sampling::SamplingObserver;
use crate::sampling::SamplingStrategy;
use crate::sensor::Observer;
use crate::sensor::all_notices;
use crate::sensor::notices_view;
use crate::sensor::Moment;
use crate::sensor::Notice;
use crate::sensor::NoticeView;
use crate::sensor::Sensor;
use crate::sensor::SensorStatus;
use crate::sensor::SensorView;
use crate::server_laws::order_is_kept;
use crate::server_laws::sensors_attached;
use crate::server_laws::sensors_released;
use crate::server_laws::step;
use crate::server_laws::EventView;
use crate::server_model::all_help;
use crate::server_model::builtin_answer;
use crate::server_model::builtin_help;
use crate::server_model::client_addrs;
use crate::server_model::client_informs;
use crate::server_model::client_place;
use crate::server_model::clients_after;
use crate::server_model::current_strategy;
use crate::server_model::custom_help;
use crate::server_model::entries_after;
use crate::server_model::entry_place;
use crate::server_model::farewell;
use crate::server_model::help_answer;
use crate::server_model::help_inform;
use crate::server_model::help_informs;
use crate::server_model::help_names;
use crate::server_model::incoming;
use crate::server_model::is_log_level;
use crate::server_model::lemma_place;
use crate::server_model::lemma_place_is;
use crate::server_model::log_level_after;
use crate::server_model::log_level_answer;
use crate::server_model::messages_wire;
use crate::server_model::new_server;
use crate::server_model::param_texts;
use crate::server_model::request_kind;
use crate::server_model::sampled_names;
use crate::server_model::sampling_answer;
use crate::server_model::sensor_answer;
use crate::server_model::sensor_inform;
use crate::server_model::sensor_informs;
use crate::server_model::sensor_names;
use crate::server_model::sensor_place;
use crate::server_model::sensors_after;
use crate::server_model::sensors_detached;
use crate::server_model::server_after;
use crate::server_model::server_after_sampling;
use crate::server_model::server_with_client;
use crate::server_model::server_with_handler;
use crate::server_model::server_with_sensor;
use crate::server_model::server_without;
use crate::server_model::strategy_reply;
use crate::server_model::texts_bytes;
use crate::server_model::BuildInfoView;
use crate::server_model::ClientView;
use crate::server_model::ContextView;
use crate::server_model::HelpView;
use crate::server_model::IncomingView;
use crate::server_model::Listing;
use crate::server_model::RequestKind;
use crate::server_model::RequestResultView;
use crate::server_model::SamplingEntryView;
use crate::server_model::ServerView;
use crate::server_model::VersionInfoView;
use crate::text::find_text;
use crate::text::push_char;
use crate::text::split_words;
use crate::text::str_eq;
use crate::text::text_words;
use crate::text::texts_view;
use crate::types::opt_float;
use crate::wire::wire;

verus! {

/// Result of handling a request.
pub struct RequestResult {
    pub informs: Vec<Message>,
    pub reply: Message,
}

/// The messages that a list holds.
pub open spec fn messages_view(ms: Seq<Message>) -> Seq<MessageView> {
    ms.map_values(|m: Message| m@)
}

impl View for RequestResult {
    type V = RequestResultView;

    open spec fn view(&self) -> RequestResultView {
        RequestResultView { informs: messages_view(self.informs@), reply: self.reply@ }
    }
}

impl RequestResult {
    /// The frames that are sent to the client: the informs, then the reply.
    pub fn to_frames(&self) -> (frames: Vec<Vec<u8>>)
        ensures
            args_view(frames@) == self@.frames(),
    {
        let mut frames = frames_of(&self.informs);
        let ghost before = frames@;
        frames.push(self.reply.to_bytes());
        assert(args_view(before).len() == messages_wire(messages_view(self.informs@)).len());
        assert forall|k: int| 0 <= k < before.len() implies (#[trigger] frames@[k])@ == wire(
            self.informs@[k]@,
        ) by {
            assert(args_view(before)[k] == messages_wire(messages_view(self.informs@))[k]);
            assert(args_view(before)[k] == frames@[k]@);
        }
        assert(args_view(frames@) =~= self@.frames());
        frames
    }

    /// A reply alone.
    fn alone(reply: Message) -> (r: RequestResult)
        ensures
            r@ == RequestResultView::alone(reply@),
    {
        let informs: Vec<Message> = Vec::new();
        assert(messages_view(informs@) =~= seq![]);
        RequestResult { informs, reply }
    }

    /// Success, with nothing to tell.
    fn ok(msg: &Message) -> (r: RequestResult)
        ensures
            r@ == RequestResultView::ok(msg@),
    {
        let mut args: Vec<Vec<u8>> = Vec::new();
        args.push("ok".as_bytes_vec());
        assert(args_view(args@) =~= seq![encode_utf8("ok"@)]);
        RequestResult::alone(Message::reply_to_request(msg, args))
    }

    /// A reply of two texts.
    fn pair(msg: &Message, status: &str, text: &str) -> (r: RequestResult)
        ensures
            r@ == RequestResultView::alone(
                msg@.replied(seq![encode_utf8(status@), encode_utf8(text@)]),
            ),
    {
        let mut args: Vec<Vec<u8>> = Vec::new();
        args.push(status.as_bytes_vec());
        args.push(text.as_bytes_vec());
        assert(args_view(args@) =~= seq![encode_utf8(status@), encode_utf8(text@)]);
        RequestResult::alone(Message::reply_to_request(msg, args))
    }

    /// Failure, and why.
    fn fail(msg: &Message, why: &str) -> (r: RequestResult)
        ensures
            r@ == RequestResultView::fail(msg@, why@),
    {
        RequestResult::pair(msg, "fail", why)
    }

    /// Informs, and a reply that counts them.
    fn listed(msg: &Message, informs: Vec<Message>) -> (r: RequestResult)
        ensures
            r@ == RequestResultView::listed(msg@, messages_view(informs@)),
    {
        let count = u64_text(informs.len() as u64);
        let mut args: Vec<Vec<u8>> = Vec::new();
        args.push("ok".as_bytes_vec());
        args.push(count.as_str().as_bytes_vec());
        assert(args_view(args@) =~= seq![encode_utf8("ok"@), encode_utf8(nat_text(informs@.len()))]);
        RequestResult { informs, reply: Message::reply_to_request(msg, args) }
    }

    /// One inform, and a reply that counts it.
    fn listed_one(msg: &Message, inform: Message) -> (r: RequestResult)
        ensures
            r@ == RequestResultView::listed(msg@, seq![inform@]),
    {
        let mut informs: Vec<Message> = Vec::new();
        informs.push(inform);
        assert(messages_view(informs@) =~= seq![inform@]);
        RequestResult::listed(msg, informs)
    }
}

/// What request handlers see of a server.
pub struct ServerContext {
    /// The sensors, in the order in which they were added.
    pub sensors: Vec<Sensor>,
    pub protocol: ProtocolFlags,
    /// The device's name, major and minor version.
    pub version_info: (String, u32, u32),
    /// The build's name, major and minor version, and state.
    pub build_info: (String, u32, u32, String),
    /// The names of the requests that have handlers of their own.
    pub handlers: Vec<String>,
    pub log_level: String,
}

/// The sensors that a list holds.
pub open spec fn sensors_view(ss: Seq<Sensor>) -> Seq<SensorView> {
    ss.map_values(|s: Sensor| s@)
}

impl View for ServerContext {
    type V = ContextView;

    open spec fn view(&self) -> ContextView {
        ContextView {
            sensors: sensors_view(self.sensors@),
            protocol: self.protocol@,
            version_info: VersionInfoView {
                name: self.version_info.0@,
                major: self.version_info.1,
                minor: self.version_info.2,
            },
            build_info: BuildInfoView {
                name: self.build_info.0@,
                major: self.build_info.1,
                minor: self.build_info.2,
                state: self.build_info.3@,
            },
            handlers: texts_view(self.handlers@),
            log_level: self.log_level@,
        }
    }
}

/// A sensor that a client samples, and how.
pub struct SamplingEntry {
    pub name: String,
    pub strategy: SamplingStrategy,
}

impl View for SamplingEntry {
    type V = SamplingEntryView;

    open spec fn view(&self) -> SamplingEntryView {
        SamplingEntryView { name: self.name@, strategy: self.strategy@ }
    }
}

/// The entries that a list holds.
pub open spec fn entries_view(es: Seq<SamplingEntry>) -> Seq<SamplingEntryView> {
    es.map_values(|e: SamplingEntry| e@)
}

/// Per-client state.
pub struct ClientState {
    pub addr: SocketAddress,
    pub sampling: Vec<SamplingEntry>,
}

impl View for ClientState {
    type V = ClientView;

    open spec fn view(&self) -> ClientView {
        ClientView { addr: self.addr@, sampling: entries_view(self.sampling@) }
    }
}

/// The clients that a list holds.
pub open spec fn clients_view(cs: Seq<ClientState>) -> Seq<ClientView> {
    cs.map_values(|c: ClientState| c@)
}

/// A device server.
pub struct DeviceServer {
    pub bind_addr: String,
    pub port: u16,
    pub context: ServerContext,
    pub clients: Vec<ClientState>,
}

impl View for DeviceServer {
    type V = ServerView;

    open spec fn view(&self) -> ServerView {
        ServerView {
            bind_addr: self.bind_addr@,
            port: self.port,
            context: self.context@,
            clients: clients_view(self.clients@),
        }
    }
}

/// Finds a sensor by its name.
pub fn find_sensor(sensors: &Vec<Sensor>, name: &str) -> (n: usize)
    ensures
        n == sensor_place(sensors_view(sensors@), name@),
        n <= sensors@.len(),
{
    let ghost keys = sensor_names(sensors_view(sensors@));
    let mut i: usize = 0;
    while i < sensors.len() && !str_eq(sensors[i].name.as_str(), name)
        invariant
            i <= sensors@.len(),
            keys == sensor_names(sensors_view(sensors@)),
            forall|k: int| 0 <= k < i ==> (#[trigger] keys[k]) != name@,
        decreases sensors@.len() - i,
    {
        assert(keys[i as int] == sensors@[i as int].name@);
        i = i + 1;
    }
    proof {
        lemma_place_is(keys, name@, i as int);
    }
    i
}

/// Finds a client by its address.
fn find_client(clients: &Vec<ClientState>, addr: &SocketAddress) -> (n: usize)
    ensures
        n == client_place(clients_view(clients@), addr@),
        n <= clients@.len(),
{
    let ghost keys = client_addrs(clients_view(clients@));
    let mut i: usize = 0;
    while i < clients.len() && !clients[i].addr.same(addr)
        invariant
            i <= clients@.len(),
            keys == client_addrs(clients_view(clients@)),
            forall|k: int| 0 <= k < i ==> (#[trigger] keys[k]) != addr@,
        decreases clients@.len() - i,
    {
        assert(keys[i as int] == clients@[i as int].addr@);
        i = i + 1;
    }
    proof {
        lemma_place_is(keys, addr@, i as int);
    }
    i
}

/// Finds a sensor among those that a client samples.
fn find_entry(entries: &Vec<SamplingEntry>, name: &str) -> (n: usize)
    ensures
        n == entry_place(entries_view(entries@), name@),
        n <= entries@.len(),
{
    let ghost keys = sampled_names(entries_view(entries@));
    let mut i: usize = 0;
    while i < entries.len() && !str_eq(entries[i].name.as_str(), name)
        invariant
            i <= entries@.len(),
            keys == sampled_names(entries_view(entries@)),
            forall|k: int| 0 <= k < i ==> (#[trigger] keys[k]) != name@,
        decreases entries@.len() - i,
    {
        assert(keys[i as int] == entries@[i as int].name@);
        i = i + 1;
    }
    proof {
        lemma_place_is(keys, name@, i as int);
    }
    i
}

/// Appends the words of a text to a list of arguments.
fn push_words(args: &mut Vec<Vec<u8>>, text: &str)
    ensures
        args_view(final(args)@) == args_view(old(args)@) + texts_bytes(text_words(text@)),
{
    let list = split_words(text);
    let ghost ws = texts_view(list@);
    let ghost before = args_view(args@);
    let mut i: usize = 0;
    assert(args_view(args@) =~= before + texts_bytes(ws.take(0)));
    while i < list.len()
        invariant
            i <= list@.len(),
            ws == texts_view(list@),
            args_view(args@) == before + texts_bytes(ws.take(i as int)),
        decreases list@.len() - i,
    {
        let ghost done = args_view(args@);
        args.push(list[i].as_str().as_bytes_vec());
        assert(args_view(args@) =~= done.push(encode_utf8(ws[i as int])));
        assert(texts_bytes(ws.take(i + 1)) =~= texts_bytes(ws.take(i as int)).push(
            encode_utf8(ws[i as int]),
        ));
        assert(args_view(args@) =~= before + texts_bytes(ws.take(i + 1)));
        i = i + 1;
    }
    assert(ws.take(i as int) =~= ws);
}

/// A request and what it does.
struct Help {
    name: String,
    text: &'static str,
}

impl View for Help {
    type V = HelpView;

    closed spec fn view(&self) -> HelpView {
        HelpView { name: self.name@, text: self.text@ }
    }
}

/// The requests that a list holds.
spec fn helps_view(hs: Seq<Help>) -> Seq<HelpView> {
    hs.map_values(|h: Help| h@)
}

/// All requests that a server answers.
fn all_requests(handlers: &Vec<String>) -> (hs: Vec<Help>)
    ensures
        helps_view(hs@) == all_help(texts_view(handlers@)),
{
    let mut hs: Vec<Help> = Vec::new();
    hs.push(Help { name: "help".to_owned(), text: "List available requests." });
    hs.push(Help { name: "watchdog".to_owned(), text: "Ping the server." });
    hs.push(Help { name: "version-list".to_owned(), text: "List server version information." });
    hs.push(Help { name: "sensor-list".to_owned(), text: "List available sensors." });
    hs.push(Help { name: "sensor-value".to_owned(), text: "Get sensor value." });
    hs.push(Help { name: "sensor-sampling".to_owned(), text: "Set sensor sampling strategy." });
    hs.push(Help { name: "client-list".to_owned(), text: "List connected clients." });
    hs.push(Help { name: "halt".to_owned(), text: "Shut down the server." });
    hs.push(Help { name: "log-level".to_owned(), text: "Get or set log level." });
    assert(helps_view(hs@) =~= builtin_help());
    let ghost names = texts_view(handlers@);
    let mut i: usize = 0;
    assert(helps_view(hs@) =~= builtin_help() + custom_help(names.take(0)));
    while i < handlers.len()
        invariant
            i <= handlers@.len(),
            names == texts_view(handlers@),
            helps_view(hs@) == builtin_help() + custom_help(names.take(i as int)),
        decreases handlers@.len() - i,
    {
        let ghost done = helps_view(hs@);
        let h = Help { name: handlers[i].clone(), text: "Custom request handler." };
        hs.push(h);
        assert(helps_view(hs@) =~= done.push(h@));
        assert(custom_help(names.take(i + 1)) =~= custom_help(names.take(i as int)).push(h@));
        assert(helps_view(hs@) =~= builtin_help() + custom_help(names.take(i + 1)));
        i = i + 1;
    }
    assert(names.take(i as int) =~= names);
    hs
}

/// The inform that tells of a request.
fn build_help_inform(msg: &Message, h: &Help) -> (m: Message)
    ensures
        m@ == help_inform(msg@, h@),
{
    let mut args: Vec<Vec<u8>> = Vec::new();
    args.push(h.name.as_str().as_bytes_vec());
    args.push(h.text.as_bytes_vec());
    assert(args_view(args@) =~= seq![encode_utf8(h@.name), encode_utf8(h@.text)]);
    Message::reply_inform(msg, args)
}

/// Handle a `?watchdog` request, responding with an `!ok`.
pub fn handle_watchdog(msg: &Message) -> (r: RequestResult)
    ensures
        r@ == RequestResultView::ok(msg@),
{
    RequestResult::ok(msg)
}

/// Handle a `?halt` request.
pub fn handle_halt(msg: &Message) -> (r: RequestResult)
    ensures
        r@ == RequestResultView::ok(msg@),
{
    RequestResult::ok(msg)
}

/// Handle a `?help` request, returning available commands and their descriptions.
pub fn handle_help(msg: &Message, context: &ServerContext) -> (r: RequestResult)
    ensures
        r@ == help_answer(msg@, context@.handlers),
{
    let all = all_requests(&context.handlers);
    let ghost hs = helps_view(all@);
    match msg.arg_str(0) {
        Some(name) => {
            let ghost keys = help_names(hs);
            let mut i: usize = 0;
            while i < all.len() && !str_eq(all[i].name.as_str(), name)
                invariant
                    i <= all@.len(),
                    hs == helps_view(all@),
                    keys == help_names(hs),
                    forall|k: int| 0 <= k < i ==> (#[trigger] keys[k]) != name@,
                decreases all@.len() - i,
            {
                assert(keys[i as int] == all@[i as int].name@);
                i = i + 1;
            }
            proof {
                if i < all@.len() {
                    assert(keys[i as int] == all@[i as int].name@);
                }
                lemma_place_is(keys, name@, i as int);
            }
            if i < all.len() {
                assert(hs[i as int] == all@[i as int]@);
                RequestResult::listed_one(msg, build_help_inform(msg, &all[i]))
            } else {
                RequestResult::fail(msg, "Unknown request.")
            }
        },
        None => {
            let mut informs: Vec<Message> = Vec::new();
            let mut i: usize = 0;
            while i < all.len()
                invariant
                    i <= all@.len(),
                    hs == helps_view(all@),
                    informs@.len() == i,
                    forall|k: int|
                        0 <= k < i ==> (#[trigger] informs@[k])@ == help_inform(msg@, hs[k]),
                decreases all@.len() - i,
            {
                informs.push(build_help_inform(msg, &all[i]));
                i = i + 1;
            }
            assert(messages_view(informs@) =~= help_informs(msg@, hs));
            RequestResult::listed(msg, informs)
        },
    }
}

/// Appends a dash and the two numbers of a version.
fn push_version(text: &mut String, major: u32, minor: u32)
    ensures
        final(text)@ == old(text)@ + seq!['-'] + nat_text(major as nat) + seq!['.'] + nat_text(
            minor as nat,
        ),
{
    push_char(text, '-');
    push_u64(text, major as u64);
    push_char(text, '.');
    push_u64(text, minor as u64);
    assert(text@ =~= old(text)@ + seq!['-'] + nat_text(major as nat) + seq!['.'] + nat_text(
        minor as nat,
    ));
}

impl ServerContext {
    /// The device's name and version.
    fn version_str(&self) -> (text: String)
        ensures
            text@ == self@.version_text(),
    {
        let mut text = self.version_info.0.clone();
        push_version(&mut text, self.version_info.1, self.version_info.2);
        text
    }

    /// The device's build.
    fn build_str(&self) -> (text: String)
        ensures
            text@ == self@.build_text(),
    {
        let mut text = self.build_info.0.clone();
        push_version(&mut text, self.build_info.1, self.build_info.2);
        push_char(&mut text, '-');
        text.append(self.build_info.3.as_str());
        assert(text@ =~= self@.build_text());
        text
    }
}

/// Build the standard version-connect inform messages sent upon connection.
pub fn build_version_informs(context: &ServerContext) -> (informs: Vec<Message>)
    ensures
        messages_view(informs@) == context@.greeting(),
{
    let mut protocol: Vec<Vec<u8>> = Vec::new();
    protocol.push("katcp-protocol".as_bytes_vec());
    protocol.push(context.protocol.to_string().as_str().as_bytes_vec());
    let mut library: Vec<Vec<u8>> = Vec::new();
    library.push("katcp-library".as_bytes_vec());
    library.push("katcp-rust-0.1.0".as_bytes_vec());
    let mut device: Vec<Vec<u8>> = Vec::new();
    device.push("katcp-device".as_bytes_vec());
    device.push(context.version_str().as_str().as_bytes_vec());
    device.push(context.build_str().as_str().as_bytes_vec());
    let ghost g = context@.greeting();
    assert(args_view(protocol@) =~= g[0].arguments);
    assert(args_view(library@) =~= g[1].arguments);
    assert(args_view(device@) =~= g[2].arguments);
    let mut informs: Vec<Message> = Vec::new();
    informs.push(Message::inform("version-connect", protocol));
    informs.push(Message::inform("version-connect", library));
    informs.push(Message::inform("version-connect", device));
    assert(messages_view(informs@) =~= g);
    informs
}

/// Handle a `?version-list` request, returning version info for protocol, library, and device.
pub fn handle_version_list(msg: &Message, context: &ServerContext) -> (r: RequestResult)
    ensures
        r@ == RequestResultView::listed(msg@, context@.version_informs(msg@)),
{
    let mut protocol: Vec<Vec<u8>> = Vec::new();
    protocol.push("katcp-protocol".as_bytes_vec());
    protocol.push(context.protocol.to_string().as_str().as_bytes_vec());
    let mut library: Vec<Vec<u8>> = Vec::new();
    library.push("katcp-library".as_bytes_vec());
    library.push("katcp-rust-0.1.0".as_bytes_vec());
    library.push(context.build_str().as_str().as_bytes_vec());
    let mut device: Vec<Vec<u8>> = Vec::new();
    device.push("katcp-device".as_bytes_vec());
    device.push(context.version_str().as_str().as_bytes_vec());
    device.push(context.build_str().as_str().as_bytes_vec());
    let ghost g = context@.version_informs(msg@);
    assert(args_view(protocol@) =~= g[0].arguments);
    assert(args_view(library@) =~= g[1].arguments);
    assert(args_view(device@) =~= g[2].arguments);
    let mut informs: Vec<Message> = Vec::new();
    informs.push(Message::reply_inform(msg, protocol));
    informs.push(Message::reply_inform(msg, library));
    informs.push(Message::reply_inform(msg, device));
    assert(messages_view(informs@) =~= g);
    RequestResult::listed(msg, informs)
}

/// Build a `#sensor-list` inform for a given sensor.
pub fn build_sensor_list_inform(msg: &Message, sensor: &Sensor) -> (m: Message)
    ensures
        m@ == sensor_inform(Listing::Description, msg@, sensor@),
{
    let mut args: Vec<Vec<u8>> = Vec::new();
    args.push(sensor.name.as_str().as_bytes_vec());
    args.push(sensor.description.as_str().as_bytes_vec());
    args.push(sensor.units.as_str().as_bytes_vec());
    args.push(sensor.sensor_type.as_str().as_bytes_vec());
    let ghost s = sensor@;
    assert(args_view(args@) =~= seq![
        encode_utf8(s.name),
        encode_utf8(s.description),
        encode_utf8(s.units),
        encode_utf8(s.sensor_type.name()),
    ]);
    push_words(&mut args, sensor.params_str().as_str());
    Message::reply_inform(msg, args)
}

/// Build a `#sensor-value` inform for a given sensor.
pub fn build_sensor_value_inform(msg: &Message, sensor: &Sensor) -> (m: Message)
    ensures
        m@ == sensor_inform(Listing::Value, msg@, sensor@),
{
    let (ts, status, value) = sensor.read_formatted();
    let mut args: Vec<Vec<u8>> = Vec::new();
    args.push(ts);
    args.push("1".as_bytes_vec());
    args.push(sensor.name.as_str().as_bytes_vec());
    args.push(status);
    args.push(value);
    assert(args_view(args@) =~= sensor_inform(Listing::Value, msg@, sensor@).arguments);
    Message::reply_inform(msg, args)
}

/// The inform that tells of a sensor.
fn build_sensor_inform(listing: Listing, msg: &Message, sensor: &Sensor) -> (m: Message)
    ensures
        m@ == sensor_inform(listing, msg@, sensor@),
{
    match listing {
        Listing::Description => build_sensor_list_inform(msg, sensor),
        Listing::Value => build_sensor_value_inform(msg, sensor),
    }
}

/// Answers a `?sensor-list` or a `?sensor-value` request, given the filter that the request's
/// argument stands for.
pub fn list_sensors(
    listing: Listing,
    msg: &Message,
    context: &ServerContext,
    filter: Result<SensorFilter, String>,
) -> (r: RequestResult)
    ensures
        r@ == sensor_answer(listing, msg@, context@.sensors, filter_view(filter)),
{
    let filter = match filter {
        Ok(f) => f,
        Err(why) => {
            return RequestResult::fail(msg, why.as_str());
        },
    };
    if let SensorFilter::Exact(name) = &filter {
        let n = find_sensor(&context.sensors, name.as_str());
        if n < context.sensors.len() {
            return RequestResult::listed_one(
                msg,
                build_sensor_inform(listing, msg, &context.sensors[n]),
            );
        } else {
            return RequestResult::fail(msg, "Unknown sensor name.");
        }
    }
    let ghost ss = context@.sensors;
    let mut informs: Vec<Message> = Vec::new();
    let mut i: usize = 0;
    assert(messages_view(informs@) =~= sensor_informs(listing, msg@, ss.take(0), filter@));
    while i < context.sensors.len()
        invariant
            i <= context.sensors@.len(),
            ss == sensors_view(context.sensors@),
            messages_view(informs@) == sensor_informs(listing, msg@, ss.take(i as int), filter@),
        decreases context.sensors@.len() - i,
    {
        let sensor = &context.sensors[i];
        let ghost done = messages_view(informs@);
        assert(ss.take(i + 1).drop_last() =~= ss.take(i as int));
        assert(ss.take(i + 1).last() == sensor@);
        if filter.matches(sensor.name.as_str()) {
            let inform = build_sensor_inform(listing, msg, sensor);
            informs.push(inform);
            assert(messages_view(informs@) =~= done.push(inform@));
        }
        i = i + 1;
    }
    assert(ss.take(i as int) =~= ss);
    RequestResult::listed(msg, informs)
}

/// Handle a `?sensor-list` request.
pub fn handle_sensor_list(msg: &Message, context: &ServerContext) -> (r: RequestResult)
    ensures
        exists|accepted: bool|
            r@ == sensor_answer(
                Listing::Description,
                msg@,
                context@.sensors,
                #[trigger] read_filter(msg@.arg_text(0), accepted),
            ),
{
    list_sensors(Listing::Description, msg, context, SensorFilter::parse(msg.arg_str(0)))
}

/// Handle a `?sensor-value` request.
pub fn handle_sensor_value(msg: &Message, context: &ServerContext) -> (r: RequestResult)
    ensures
        exists|accepted: bool|
            r@ == sensor_answer(
                Listing::Value,
                msg@,
                context@.sensors,
                #[trigger] read_filter(msg@.arg_text(0), accepted),
            ),
{
    list_sensors(Listing::Value, msg, context, SensorFilter::parse(msg.arg_str(0)))
}

/// Handle a `?client-list` request.
pub fn handle_client_list(msg: &Message, clients: &Vec<ClientState>) -> (r: RequestResult)
    ensures
        r@ == RequestResultView::listed(msg@, client_informs(msg@, clients_view(clients@))),
{
    let ghost cs = clients_view(clients@);
    let mut informs: Vec<Message> = Vec::new();
    let mut i: usize = 0;
    while i < clients.len()
        invariant
            i <= clients@.len(),
            cs == clients_view(clients@),
            informs@.len() == i,
            forall|k: int|
                0 <= k < i ==> (#[trigger] informs@[k])@ == client_informs(msg@, cs)[k],
        decreases clients@.len() - i,
    {
        let mut args: Vec<Vec<u8>> = Vec::new();
        args.push(clients[i].addr.text.as_str().as_bytes_vec());
        assert(args_view(args@) =~= seq![encode_utf8(cs[i as int].addr.text)]);
        informs.push(Message::reply_inform(msg, args));
        i = i + 1;
    }
    assert(messages_view(informs@) =~= client_informs(msg@, cs));
    RequestResult::listed(msg, informs)
}

/// Whether a text is a log level.
fn valid_log_level(level: &str) -> (r: bool)
    ensures
        r == is_log_level(level@),
{
    str_eq(level, "all") || str_eq(level, "trace") || str_eq(level, "debug") || str_eq(
        level,
        "info",
    ) || str_eq(level, "warn") || str_eq(level, "error") || str_eq(level, "fatal") || str_eq(
        level,
        "off",
    )
}

/// Handle a `?log-level` request.
pub fn handle_log_level(msg: &Message, context: &mut ServerContext) -> (r: RequestResult)
    ensures
        r@ == log_level_answer(msg@, old(context)@.log_level),
        final(context)@ == (ContextView {
            log_level: log_level_after(msg@, old(context)@.log_level),
            ..old(context)@
        }),
{
    match msg.arg_str(0) {
        None => RequestResult::pair(msg, "ok", context.log_level.as_str()),
        Some(level) => if valid_log_level(level) {
            context.log_level = level.to_owned();
            RequestResult::pair(msg, "ok", level)
        } else {
            RequestResult::fail(msg, "Invalid log level.")
        },
    }
}

/// The reply that tells how a client samples a sensor.
fn build_strategy_reply(msg: &Message, name: &str, strategy: &SamplingStrategy) -> (r: RequestResult)
    ensures
        r@ == strategy_reply(msg@, name@, strategy@),
{
    let mut args: Vec<Vec<u8>> = Vec::new();
    args.push("ok".as_bytes_vec());
    args.push(name.as_bytes_vec());
    args.push(strategy.as_str().as_bytes_vec());
    assert(args_view(args@) =~= seq![
        encode_utf8("ok"@),
        encode_utf8(name@),
        encode_utf8(strategy@.name()),
    ]);
    push_words(&mut args, strategy.params_str().as_str());
    RequestResult::alone(Message::reply_to_request(msg, args))
}

/// The texts of the sampling parameters of a `?sensor-sampling` request: its arguments from the
/// third on, as far as they are valid UTF-8.
pub fn sampling_params(msg: &Message) -> (texts: Vec<String>)
    ensures
        texts_view(texts@) == param_texts(msg@.arguments),
{
    let ghost args = msg@.arguments;
    let mut texts: Vec<String> = Vec::new();
    assert(texts_view(texts@) =~= seq![]);
    if msg.arguments.len() <= 2 {
        return texts;
    }
    let mut i: usize = 2;
    while i < msg.arguments.len()
        invariant
            2 <= i <= msg.arguments@.len(),
            args == msg@.arguments,
            texts_view(texts@) == param_texts(args.take(i as int)),
        decreases msg.arguments@.len() - i,
    {
        let ghost done = texts_view(texts@);
        assert(args.take(i + 1).drop_last() =~= args.take(i as int));
        assert(args.take(i + 1).last() == msg.arguments@[i as int]@);
        if let Some(t) = msg.arg_str(i) {
            texts.push(t.to_owned());
            assert(texts_view(texts@) =~= done.push(t@));
        }
        i = i + 1;
    }
    assert(args.take(i as int) =~= args);
    texts
}

impl ClientState {
    /// Notes how the client samples a sensor.
    fn set_sampling(&mut self, name: &str, strategy: &SamplingStrategy)
        ensures
            final(self)@ == (ClientView {
                sampling: entries_after(old(self)@.sampling, name@, strategy@),
                ..old(self)@
            }),
    {
        let ghost before = self@.sampling;
        let e = find_entry(&self.sampling, name);
        if strategy.is_none() {
            if e < self.sampling.len() {
                self.sampling.remove(e);
                assert(self@.sampling =~= before.remove(e as int));
            }
        } else {
            let entry = SamplingEntry { name: name.to_owned(), strategy: strategy.clone() };
            if e < self.sampling.len() {
                self.sampling.set(e, entry);
                assert(self@.sampling =~= before.update(e as int, entry@));
            } else {
                self.sampling.push(entry);
                assert(self@.sampling =~= before.push(entry@));
            }
        }
    }
}

/// What a line from a client is.
pub enum Incoming {
    /// Nothing to do: an empty line, or a message that is no request.
    Nothing,
    /// No message.
    Malformed(MessageError),
    /// A request.
    Request(Message),
}

impl View for Incoming {
    type V = IncomingView;

    open spec fn view(&self) -> IncomingView {
        match self {
            Incoming::Nothing => IncomingView::Nothing,
            Incoming::Malformed(e) => IncomingView::Malformed(e@),
            Incoming::Request(m) => IncomingView::Request(m@),
        }
    }
}

/// Reads a line that a client sent.
pub fn read_incoming(line: &str) -> (r: Incoming)
    ensures
        r@ == incoming(encode_utf8(line@)),
{
    match read_received(line) {
        Received::Nothing => Incoming::Nothing,
        Received::Malformed(e) => Incoming::Malformed(e),
        Received::Message(m) => match m.mtype {
            MessageType::Request => Incoming::Request(m),
            _ => Incoming::Nothing,
        },
    }
}

/// The frames of messages, in order.
fn frames_of(ms: &Vec<Message>) -> (frames: Vec<Vec<u8>>)
    ensures
        args_view(frames@) == messages_wire(messages_view(ms@)),
{
    let mut frames: Vec<Vec<u8>> = Vec::new();
    let mut i: usize = 0;
    while i < ms.len()
        invariant
            i <= ms@.len(),
            frames@.len() == i,
            forall|k: int| 0 <= k < i ==> (#[trigger] frames@[k])@ == wire(ms@[k]@),
        decreases ms@.len() - i,
    {
        frames.push(ms[i].to_bytes());
        i = i + 1;
    }
    assert(args_view(frames@) =~= messages_wire(messages_view(ms@)));
    frames
}

/// Detaches a client from the sensors that it samples.
fn detach_all(sensors: &mut Vec<Sensor>, addr: &SocketAddress, entries: &Vec<SamplingEntry>)
    ensures
        sensors_view(final(sensors)@) == sensors_detached(
            sensors_view(old(sensors)@),
            addr@,
            entries_view(entries@),
        ),
{
    let ghost before = sensors_view(sensors@);
    let ghost names = sampled_names(entries_view(entries@));
    let ghost goal = sensors_detached(before, addr@, entries_view(entries@));
    let mut i: usize = 0;
    while i < sensors.len()
        invariant
            i <= sensors@.len(),
            sensors@.len() == before.len(),
            names == sampled_names(entries_view(entries@)),
            goal == sensors_detached(before, addr@, entries_view(entries@)),
            forall|k: int| 0 <= k < i ==> (#[trigger] sensors@[k])@ == goal[k],
            forall|k: int| i <= k < before.len() ==> (#[trigger] sensors@[k])@ == before[k],
        decreases sensors@.len() - i,
    {
        let ghost name = sensors@[i as int].name@;
        let e = find_entry(entries, sensors[i].name.as_str());
        proof {
            lemma_place(names, name);
            if e < entries@.len() {
                assert(names[e as int] == name);
            }
        }
        if e < entries.len() {
            sensors[i].detach_client(addr);
        }
        i = i + 1;
    }
    assert(sensors_view(sensors@) =~= goal);
}

/// A text is empty if and only if its bytes are.
proof fn lemma_empty_text(s: Seq<char>)
    ensures
        encode_utf8(s).len() == 0 <==> s.len() == 0,
{
    if s.len() > 0 {
        assert(encode_utf8(s).len() > 0);
    }
}

/// The request of a name.
fn kind_of(name: &str) -> (kind: RequestKind)
    ensures
        kind == request_kind(name@),
{
    if str_eq(name, "help") {
        RequestKind::Help
    } else if str_eq(name, "watchdog") {
        RequestKind::Watchdog
    } else if str_eq(name, "version-list") {
        RequestKind::VersionList
    } else if str_eq(name, "sensor-list") {
        RequestKind::SensorList
    } else if str_eq(name, "sensor-value") {
        RequestKind::SensorValue
    } else if str_eq(name, "sensor-sampling") {
        RequestKind::SensorSampling
    } else if str_eq(name, "client-list") {
        RequestKind::ClientList
    } else if str_eq(name, "halt") {
        RequestKind::Halt
    } else if str_eq(name, "log-level") {
        RequestKind::LogLevel
    } else {
        RequestKind::Unknown
    }
}

/// What is to be done with a request.
pub enum Answer {
    /// The request has a handler of its own: call it.
    Custom,
    /// The request was handled.
    Done(RequestResult),
}

impl DeviceServer {
    /// Create a new device server. An empty `host` stands for all addresses of the machine. Port 0
    /// asks the system for a free port. `version_info` is the device's name, major and minor
    /// version; `build_info` the build's name, major and minor version, and state.
    pub fn new(
        host: &str,
        port: u16,
        version_info: (&str, u32, u32),
        build_info: (&str, u32, u32, &str),
    ) -> (server: DeviceServer)
        ensures
            server@ == new_server(
                host@,
                port,
                VersionInfoView {
                    name: version_info.0@,
                    major: version_info.1,
                    minor: version_info.2,
                },
                BuildInfoView {
                    name: build_info.0@,
                    major: build_info.1,
                    minor: build_info.2,
                    state: build_info.3@,
                },
            ),
            server@.wf(),
    {
        let sensors: Vec<Sensor> = Vec::new();
        let handlers: Vec<String> = Vec::new();
        let clients: Vec<ClientState> = Vec::new();
        assert(sensors_view(sensors@) =~= seq![]);
        assert(texts_view(handlers@) =~= seq![]);
        assert(clients_view(clients@) =~= seq![]);
        DeviceServer {
            bind_addr: if host.as_bytes().len() == 0 {
                proof {
                    lemma_empty_text(host@);
                }
                "0.0.0.0".to_owned()
            } else {
                proof {
                    lemma_empty_text(host@);
                }
                host.to_owned()
            },
            port,
            context: ServerContext {
                sensors,
                protocol: ProtocolFlags::default_v5(),
                version_info: (version_info.0.to_owned(), version_info.1, version_info.2),
                build_info: (
                    build_info.0.to_owned(),
                    build_info.1,
                    build_info.2,
                    build_info.3.to_owned(),
                ),
                handlers,
                log_level: "warn".to_owned(),
            },
            clients,
        }
    }

    /// What request handlers see of the server.
    pub fn context(&self) -> (context: &ServerContext)
        ensures
            *context == self.context,
    {
        &self.context
    }

    /// The address to bind the listening socket to.
    pub fn bind_target(&self) -> (text: String)
        ensures
            text@ == self@.bind_addr + seq![':'] + nat_text(self@.port as nat),
    {
        address_text(self.bind_addr.as_str(), self.port)
    }

    /// Add a sensor to the server. One of the same name gives way.
    pub fn add_sensor(&mut self, sensor: Sensor)
        ensures
            final(self)@ == server_with_sensor(old(self)@, sensor@),
            old(self)@.wf() ==> final(self)@.wf(),
    {
        proof {
            if old(self)@.wf() {
                order_is_kept(old(self)@, EventView::AddSensor(sensor@));
            }
        }
        let ghost before = self@.context.sensors;
        let n = find_sensor(&self.context.sensors, sensor.name.as_str());
        if n < self.context.sensors.len() {
            self.context.sensors.set(n, sensor);
            assert(self@.context.sensors =~= before.update(n as int, sensor@));
        } else {
            self.context.sensors.push(sensor);
            assert(self@.context.sensors =~= before.push(sensor@));
        }
    }

    /// Register a custom request handler: from now on requests of this name, without the leading
    /// question mark, are left to it.
    pub fn register_request_handler(&mut self, name: &str)
        ensures
            final(self)@ == server_with_handler(old(self)@, name@),
            old(self)@.wf() ==> final(self)@.wf(),
    {
        proof {
            if old(self)@.wf() {
                order_is_kept(old(self)@, EventView::Register(name@));
            }
        }
        if find_text(&self.context.handlers, name).is_none() {
            self.context.handlers.push(name.to_owned());
            assert(self@.context.handlers =~= old(self)@.context.handlers.push(name@));
        }
    }

    /// Registers a client that has connected, and returns the frames that greet it.
    pub fn connect_client(&mut self, addr: SocketAddress) -> (frames: Vec<Vec<u8>>)
        ensures
            final(self)@ == server_with_client(old(self)@, addr@),
            args_view(frames@) == messages_wire(old(self)@.context.greeting()),
            old(self)@.wf() ==> final(self)@.wf(),
    {
        proof {
            if old(self)@.wf() {
                order_is_kept(old(self)@, EventView::Connect(addr@));
            }
        }
        let ghost before = self@.clients;
        let n = find_client(&self.clients, &addr);
        let sampling: Vec<SamplingEntry> = Vec::new();
        assert(entries_view(sampling@) =~= seq![]);
        let c = ClientState { addr, sampling };
        if n < self.clients.len() {
            self.clients.set(n, c);
            assert(self@.clients =~= before.update(n as int, c@));
        } else {
            self.clients.push(c);
            assert(self@.clients =~= before.push(c@));
        }
        frames_of(&build_version_informs(&self.context))
    }

    /// Removes a client that has disconnected, and its observers, leaving other clients' intact.
    pub fn disconnect_client(&mut self, addr: &SocketAddress)
        ensures
            final(self)@ == server_without(old(self)@, addr@),
            old(self)@.wf() ==> final(self)@.wf(),
    {
        proof {
            if old(self)@.wf() {
                order_is_kept(old(self)@, EventView::Disconnect(addr@));
            }
        }
        let ghost before = self@;
        let n = find_client(&self.clients, addr);
        if n < self.clients.len() {
            let client = self.clients.remove(n);
            assert(self@.clients =~= before.clients.remove(n as int));
            assert(client@ == before.clients[n as int]);
            detach_all(&mut self.context.sensors, addr, &client.sampling);
        }
    }

    /// Updates the sensor of a name: sets its value with a given status and optional timestamp; without
    /// one, the time of day is used. What comes back is to be done, in order; nothing comes back where
    /// there is no such sensor.
    pub fn update_sensor(
        &mut self,
        name: &str,
        value: Vec<u8>,
        status: SensorStatus,
        timestamp: Option<Float64>,
        moment: &Moment,
    ) -> (notices: Option<Vec<Notice>>)
        requires
            ({
                let sensors = old(self)@.context.sensors;
                let n = sensor_place(sensors, name@);
                n < sensors.len() ==> sensors[n].fits() && moment.moved@.len()
                    == sensors[n].observers.len()
            }),
        ensures
            ({
                let sensors = old(self)@.context.sensors;
                let n = sensor_place(sensors, name@);
                let reading = SensorView::new_reading(
                    value@,
                    status,
                    opt_float(timestamp),
                    moment.wall@,
                );
                &&& final(self)@ == step(
                    old(self)@,
                    EventView::Update(name@, reading, moment.now, moment.moved@),
                )
                &&& match notices {
                    Some(ns) => n < sensors.len() && notices_view(ns@) == all_notices(
                        sensors[n].observers,
                        reading,
                        moment.now,
                        moment.moved@,
                    ),
                    None => n >= sensors.len(),
                }
            }),
            old(self)@.wf() ==> final(self)@.wf(),
    {
        let ghost reading = SensorView::new_reading(
            value@,
            status,
            opt_float(timestamp),
            moment.wall@,
        );
        proof {
            if old(self)@.wf() {
                order_is_kept(
                    old(self)@,
                    EventView::Update(name@, reading, moment.now, moment.moved@),
                );
            }
        }
        let ghost before = self@.context.sensors;
        let n = find_sensor(&self.context.sensors, name);
        if n < self.context.sensors.len() {
            assert(before[n as int] == self.context.sensors@[n as int]@);
            let notices = self.context.sensors[n].set_value(value, status, timestamp, moment);
            assert(self@.context.sensors =~= before.update(
                n as int,
                before[n as int].updated(reading, moment.now, moment.moved@),
            ));
            Some(notices)
        } else {
            None
        }
    }

    /// Attaches an observer to the sensor of a name. Returns whether there is such a sensor.
    pub fn attach(&mut self, name: &str, observer: Observer) -> (found: bool)
        ensures
            found == (sensor_place(old(self)@.context.sensors, name@)
                < old(self)@.context.sensors.len()),
            final(self)@ == step(old(self)@, EventView::Attach(name@, observer@)),
            old(self)@.wf() ==> final(self)@.wf(),
    {
        proof {
            if old(self)@.wf() {
                order_is_kept(old(self)@, EventView::Attach(name@, observer@));
            }
        }
        let ghost before = self@.context.sensors;
        let n = find_sensor(&self.context.sensors, name);
        if n < self.context.sensors.len() {
            assert(before[n as int] == self.context.sensors@[n as int]@);
            self.context.sensors[n].attach(observer);
            assert(self@.context.sensors =~= sensors_attached(before, name@, observer@));
            true
        } else {
            false
        }
    }

    /// Detaches all observers of a client from the sensor of a name. Returns whether there is such a
    /// sensor.
    pub fn detach_client(&mut self, name: &str, addr: &SocketAddress) -> (found: bool)
        ensures
            found == (sensor_place(old(self)@.context.sensors, name@)
                < old(self)@.context.sensors.len()),
            final(self)@ == step(old(self)@, EventView::Detach(name@, addr@)),
            old(self)@.wf() ==> final(self)@.wf(),
    {
        proof {
            if old(self)@.wf() {
                order_is_kept(old(self)@, EventView::Detach(name@, addr@));
            }
        }
        let ghost before = self@.context.sensors;
        let n = find_sensor(&self.context.sensors, name);
        if n < self.context.sensors.len() {
            assert(before[n as int] == self.context.sensors@[n as int]@);
            self.context.sensors[n].detach_client(addr);
            assert(self@.context.sensors =~= sensors_released(before, name@, addr@));
            true
        } else {
            false
        }
    }

    /// What tells every client that the server goes away.
    pub fn shutdown_notices(&self) -> (notices: Vec<Notice>)
        ensures
            notices_view(notices@) == self@.clients.map_values(
                |c: ClientView| NoticeView::Deliver { client: c.addr, bytes: wire(farewell()) },
            ),
    {
        let mut notices: Vec<Notice> = Vec::new();
        let mut args: Vec<Vec<u8>> = Vec::new();
        args.push("server shutting down".as_bytes_vec());
        assert(args_view(args@) =~= seq![encode_utf8("server shutting down"@)]);
        let disconnect = Message::inform("disconnect", args);
        let mut i: usize = 0;
        while i < self.clients.len()
            invariant
                i <= self.clients@.len(),
                disconnect@ == farewell(),
                notices@.len() == i,
                forall|k: int|
                    0 <= k < i ==> (#[trigger] notices@[k])@ == (NoticeView::Deliver {
                        client: self.clients@[k].addr@,
                        bytes: wire(farewell()),
                    }),
            decreases self.clients@.len() - i,
        {
            notices.push(
                Notice::Deliver {
                    client: self.clients[i].addr.clone(),
                    bytes: disconnect.to_bytes(),
                },
            );
            i = i + 1;
        }
        assert(notices_view(notices@) =~= self@.clients.map_values(
            |c: ClientView| NoticeView::Deliver { client: c.addr, bytes: wire(farewell()) },
        ));
        notices
    }

    /// The strategy that a client samples a sensor with.
    fn strategy_of(&self, addr: &SocketAddress, name: &str) -> (s: SamplingStrategy)
        ensures
            s@ == current_strategy(self@.clients, addr@, name@),
    {
        let c = find_client(&self.clients, addr);
        if c < self.clients.len() {
            assert(self@.clients[c as int] == self.clients@[c as int]@);
            let e = find_entry(&self.clients[c].sampling, name);
            if e < self.clients[c].sampling.len() {
                let ghost entries = self.clients@[c as int].sampling@;
                assert(self@.clients[c as int].sampling[e as int] == entries[e as int]@);
                return self.clients[c].sampling[e].strategy.clone();
            }
        }
        SamplingStrategy::NoSampling
    }

    /// Lets a client sample the sensor of a name, which is the `n`th.
    fn set_strategy(
        &mut self,
        n: usize,
        addr: &SocketAddress,
        name: &str,
        strategy: &SamplingStrategy,
    )
        requires
            n == sensor_place(old(self)@.context.sensors, name@),
            n < old(self)@.context.sensors.len(),
        ensures
            final(self)@ == (ServerView {
                context: ContextView {
                    sensors: sensors_after(old(self)@.context.sensors, addr@, name@, strategy@),
                    ..old(self)@.context
                },
                clients: clients_after(old(self)@.clients, addr@, name@, strategy@),
                ..old(self)@
            }),
    {
        let ghost before = self@;
        let ghost s0 = before.context.sensors[n as int];
        assert(s0 == self.context.sensors@[n as int]@);
        self.context.sensors[n].detach_client(addr);
        if !strategy.is_none() {
            let observer = SamplingObserver::new(name.to_owned(), strategy.clone(), addr.clone());
            self.context.sensors[n].attach(Observer::Sampling(observer));
        }
        assert(self@.context.sensors =~= sensors_after(
            before.context.sensors,
            addr@,
            name@,
            strategy@,
        ));
        let c = find_client(&self.clients, addr);
        if c < self.clients.len() {
            assert(self@.clients[c as int] == self.clients@[c as int]@);
            self.clients[c].set_sampling(name, strategy);
            assert(self@.clients =~= clients_after(before.clients, addr@, name@, strategy@));
        }
    }

    /// Handle a `?sensor-sampling` request of a client. `params` are the request's sampling
    /// parameters, read as numbers.
    pub fn handle_sensor_sampling(
        &mut self,
        msg: &Message,
        addr: &SocketAddress,
        params: &[Option<Parameter>],
    ) -> (r: RequestResult)
        ensures
            r@ == sampling_answer(old(self)@, msg@, addr@, parameters_view(params@)),
            final(self)@ == server_after_sampling(
                old(self)@,
                msg@,
                addr@,
                parameters_view(params@),
            ),
    {
        let name = match msg.arg_str(0) {
            Some(name) => name,
            None => {
                return RequestResult::fail(msg, "sensor name required");
            },
        };
        let n = find_sensor(&self.context.sensors, name);
        if n >= self.context.sensors.len() {
            return RequestResult::fail(msg, "Unknown sensor name.");
        }
        let strategy_name = match msg.arg_str(1) {
            Some(s) => s,
            None => {
                return build_strategy_reply(msg, name, &self.strategy_of(addr, name));
            },
        };
        match SamplingStrategy::parse(strategy_name, params) {
            None => RequestResult::fail(msg, "invalid sampling strategy"),
            Some(strategy) => {
                self.set_strategy(n, addr, name, &strategy);
                build_strategy_reply(msg, name, &strategy)
            },
        }
    }

    /// Answers a request that has no handler of its own.
    #[verifier::spinoff_prover]
    fn handle_builtin(
        &mut self,
        msg: &Message,
        addr: &SocketAddress,
        params: &[Option<Parameter>],
    ) -> (r: RequestResult)
        ensures
            final(self)@ == server_after(old(self)@, msg@, addr@, parameters_view(params@)),
            exists|accepted: bool|
                r@ == builtin_answer(
                    old(self)@,
                    msg@,
                    addr@,
                    parameters_view(params@),
                    #[trigger] read_filter(msg@.arg_text(0), accepted),
                ),
    {
        // Where the answer rests on no pattern, either filter stands for the argument.
        let ghost either = read_filter(msg@.arg_text(0), true);
        match kind_of(msg.name.as_str()) {
            RequestKind::Help => handle_help(msg, &self.context),
            RequestKind::Watchdog => handle_watchdog(msg),
            RequestKind::VersionList => handle_version_list(msg, &self.context),
            RequestKind::SensorList => handle_sensor_list(msg, &self.context),
            RequestKind::SensorValue => handle_sensor_value(msg, &self.context),
            RequestKind::SensorSampling => self.handle_sensor_sampling(msg, addr, params),
            RequestKind::ClientList => handle_client_list(msg, &self.clients),
            RequestKind::Halt => handle_halt(msg),
            RequestKind::LogLevel => handle_log_level(msg, &mut self.context),
            RequestKind::Unknown => RequestResult::pair(msg, "invalid", "unknown request"),
        }
    }

    /// Route an incoming request message to the appropriate handler. `params` are the sampling
    /// parameters of the request, read as numbers.
    pub fn handle_request(
        &mut self,
        msg: &Message,
        addr: &SocketAddress,
        params: &[Option<Parameter>],
    ) -> (a: Answer)
        ensures
            match a {
                Answer::Custom => {
                    &&& old(self)@.context.handlers.contains(msg@.name)
                    &&& final(self)@ == old(self)@
                },
                Answer::Done(r) => {
                    &&& !old(self)@.context.handlers.contains(msg@.name)
                    &&& final(self)@ == server_after(
                        old(self)@,
                        msg@,
                        addr@,
                        parameters_view(params@),
                    )
                    &&& exists|accepted: bool|
                        r@ == builtin_answer(
                            old(self)@,
                            msg@,
                            addr@,
                            parameters_view(params@),
                            #[trigger] read_filter(msg@.arg_text(0), accepted),
                        )
                },
            },
            old(self)@.wf() ==> final(self)@.wf(),
    {
        proof {
            if old(self)@.wf() {
                order_is_kept(old(self)@, EventView::Request(msg@, addr@, parameters_view(params@)));
            }
        }
        if find_text(&self.context.handlers, msg.name.as_str()).is_some() {
            return Answer::Custom;
        }
        let r = self.handle_builtin(msg, addr, params);
        Answer::Done(r)
    }
}

} // verus!
