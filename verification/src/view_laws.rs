//! What the views show: each shows all that its value holds, and a list's view shows its items, all of
//! them and in order.

use vstd::prelude::*;
use vstd::utf8::encode_utf8;
use crate::address::SocketAddress;
use crate::client::actions_view;
use crate::client::opt_protocol;
use crate::client::opt_update;
use crate::client::pending_view;
use crate::client::Action;
use crate::client::ClientError;
use crate::client::ClientErrorView;
use crate::client::DeviceClient;
use crate::client::PendingRequest;
use crate::client::SensorUpdate;
use crate::client_model::ActionView;
use crate::filter::filter_view;
use crate::filter::regex_pattern;
use crate::filter::FilterView;
use crate::filter::SensorFilter;
use crate::float::Float64;
use crate::line::Received;
use crate::line::ReceivedView;
use crate::message::args_view;
use crate::message::opt_text;
use crate::message::parsed_views;
use crate::message::str_args;
use crate::message::Message;
use crate::message::MessageError;
use crate::message::MessageErrorView;
use crate::message::MessageView;
use crate::protocol::ProtocolFlags;
use crate::sampling::opt_bytes;
use crate::sampling::parameters_view;
use crate::sampling::Interval;
use crate::sampling::Parameter;
use crate::sampling::SamplingStrategy;
use crate::sampling::StrategyView;
use crate::sensor::notices_view;
use crate::sensor::observers_view;
use crate::sensor::Notice;
use crate::sensor::NoticeView;
use crate::sensor::Observer;
use crate::sensor::ObserverView;
use crate::sensor::Sensor;
use crate::sensor::SensorReading;
use crate::server::clients_view;
use crate::server::entries_view;
use crate::server::messages_view;
use crate::server::sensors_view;
use crate::server::ClientState;
use crate::server::DeviceServer;
use crate::server::Incoming;
use crate::server::RequestResult;
use crate::server::SamplingEntry;
use crate::server::ServerContext;
use crate::server_model::IncomingView;
use crate::text::opt_str;
use crate::text::texts_view;
use crate::types::opt_address;
use crate::types::opt_float;
use crate::types::KatcpType;
use crate::types::KatcpTypeView;
use crate::types::KatcpValue;
use crate::types::KatcpValueView;
use crate::types::TypeError;
use crate::types::TypeErrorView;

verus! {

/// What is seen of a list of texts, of byte strings and of string slices.
pub proof fn texts_are_seen(texts: Seq<String>, args: Seq<Vec<u8>>, strs: Seq<&str>, i: int)
    ensures
        texts_view(texts).len() == texts.len(),
        args_view(args).len() == args.len(),
        str_args(strs).len() == strs.len(),
        0 <= i < texts.len() ==> texts_view(texts)[i] == texts[i]@,
        0 <= i < args.len() ==> args_view(args)[i] == args[i]@,
        0 <= i < strs.len() ==> str_args(strs)[i] == encode_utf8(strs[i]@),
{
}

/// What is seen of what may be missing.
pub proof fn what_may_be_missing_is_seen(
    s: String,
    t: &str,
    f: Float64,
    a: SocketAddress,
    b: Vec<u8>,
    u: SensorUpdate,
    p: ProtocolFlags,
)
    ensures
        opt_text(Some(s)) == Some(s@) && opt_text(None) is None,
        opt_str(Some(t)) == Some(t@) && opt_str(None) is None,
        opt_float(Some(f)) == Some(f@) && opt_float(None) is None,
        opt_address(Some(a)) == Some(a@) && opt_address(None) is None,
        opt_bytes(Some(b)) == Some(b@) && opt_bytes(None) is None,
        opt_update(Some(u)) == Some(u@) && opt_update(None) is None,
        opt_protocol(Some(p)) == Some(p@) && opt_protocol(None) is None,
{
}

/// What is seen of numbers, addresses and lengths of time.
pub proof fn plain_values_are_seen(f: Float64, a: SocketAddress, i: Interval, p: Parameter)
    ensures
        f@.bits == f.bits && f@.display == f.display@ && f@.scientific == f.scientific@ && f@.fixed
            == f.fixed@,
        a@.ip == a.ip@ && a@.port == a.port && a@.flow == a.flow && a@.scope == a.scope && a@.text
            == a.text@,
        i@.secs == i.secs && i@.nanos == i.nanos && i@.text == i.text@,
        p@.number == p.number@ && p@.interval == p.interval@,
{
}

/// What is seen of a message and of lists of messages.
pub proof fn messages_are_seen(
    m: Message,
    ms: Seq<Message>,
    rs: Seq<Result<Message, MessageError>>,
    i: int,
)
    ensures
        m@.mtype == m.mtype,
        m@.name == m.name@,
        m@.mid == opt_text(m.mid),
        m@.arguments == args_view(m.arguments@),
        messages_view(ms).len() == ms.len(),
        0 <= i < ms.len() ==> messages_view(ms)[i] == ms[i]@,
        parsed_views(rs).len() == rs.len(),
        0 <= i < rs.len() ==> match rs[i] {
            Ok(x) => parsed_views(rs)[i] == Ok::<MessageView, MessageErrorView>(x@),
            Err(e) => parsed_views(rs)[i] == Err::<MessageView, MessageErrorView>(e@),
        },
{
}

/// What is seen of errors.
pub proof fn errors_are_seen(e: MessageError, t: TypeError, c: ClientError)
    ensures
        e@ == (match e {
            MessageError::Empty => MessageErrorView::Empty,
            MessageError::InvalidType(x) => MessageErrorView::InvalidType(x),
            MessageError::InvalidName(x) => MessageErrorView::InvalidName(x@),
            MessageError::InvalidMid(x) => MessageErrorView::InvalidMid(x@),
            MessageError::TooLarge(x) => MessageErrorView::TooLarge(x as nat),
            MessageError::InvalidEscape(x) => MessageErrorView::InvalidEscape(x),
        }),
        t@ == (match t {
            TypeError::InvalidInt(x) => TypeErrorView::InvalidInt(x@),
            TypeError::InvalidFloat(x) => TypeErrorView::InvalidFloat(x@),
            TypeError::InvalidBool(x) => TypeErrorView::InvalidBool(x@),
            TypeError::InvalidTimestamp(x) => TypeErrorView::InvalidTimestamp(x@),
            TypeError::InvalidAddress(x) => TypeErrorView::InvalidAddress(x@),
            TypeError::InvalidDiscrete(x, y) => TypeErrorView::InvalidDiscrete(
                x@,
                texts_view(y@),
            ),
            TypeError::OutOfRange(x, y, z) => TypeErrorView::OutOfRange(x@, y@, z@),
        }),
        c@ == (match c {
            ClientError::NotConnected => ClientErrorView::NotConnected,
            ClientError::Timeout => ClientErrorView::Timeout,
            ClientError::ChannelClosed => ClientErrorView::ChannelClosed,
            ClientError::Io(x) => ClientErrorView::Io(x@),
        }),
{
}

/// What is seen of types and values.
pub proof fn types_and_values_are_seen(t: KatcpType, v: KatcpValue)
    ensures
        t@ == (match t {
            KatcpType::Int { min, max } => KatcpTypeView::Int { min, max },
            KatcpType::Float { min, max } => KatcpTypeView::Float {
                min: opt_float(min),
                max: opt_float(max),
            },
            KatcpType::Bool => KatcpTypeView::Bool,
            KatcpType::Str => KatcpTypeView::Str,
            KatcpType::Discrete { values } => KatcpTypeView::Discrete { values: texts_view(values@) },
            KatcpType::Timestamp => KatcpTypeView::Timestamp,
            KatcpType::Address => KatcpTypeView::Address,
            KatcpType::Lru => KatcpTypeView::Lru,
        }),
        v@ == (match v {
            KatcpValue::Int(x) => KatcpValueView::Int(x),
            KatcpValue::Float(x) => KatcpValueView::Float(x@),
            KatcpValue::Bool(x) => KatcpValueView::Bool(x),
            KatcpValue::Str(x) => KatcpValueView::Str(x@),
            KatcpValue::Bytes(x) => KatcpValueView::Bytes(x@),
            KatcpValue::Timestamp(x) => KatcpValueView::Timestamp(x@),
            KatcpValue::Address(x) => KatcpValueView::Address(x@),
            KatcpValue::Lru(x) => KatcpValueView::Lru(x),
        }),
{
}

/// What is seen of strategies and their parameters.
pub proof fn strategies_are_seen(s: SamplingStrategy, ps: Seq<Option<Parameter>>, i: int)
    ensures
        s@ == (match s {
            SamplingStrategy::NoSampling => StrategyView::NoSampling,
            SamplingStrategy::Auto => StrategyView::Auto,
            SamplingStrategy::Period(p) => StrategyView::Period(p@),
            SamplingStrategy::Event => StrategyView::Event,
            SamplingStrategy::Differential(d) => StrategyView::Differential(d@),
            SamplingStrategy::EventRate(lo, hi) => StrategyView::EventRate(lo@, hi@),
            SamplingStrategy::DifferentialRate(d, lo, hi) => StrategyView::DifferentialRate(
                d@,
                lo@,
                hi@,
            ),
        }),
        parameters_view(ps).len() == ps.len(),
        0 <= i < ps.len() ==> match ps[i] {
            Some(p) => parameters_view(ps)[i] == Some(p@),
            None => parameters_view(ps)[i] is None,
        },
{
}

/// What is seen of sensors, their readings, their observers and what is to be done for these.
pub proof fn sensors_are_seen(
    s: Sensor,
    r: SensorReading,
    os: Seq<Observer>,
    ns: Seq<Notice>,
    i: int,
)
    ensures
        s@.name == s.name@ && s@.description == s.description@ && s@.units == s.units@,
        s@.sensor_type == s.sensor_type && s@.katcp_type == s.katcp_type@,
        s@.reading == s.reading@ && s@.observers == observers_view(s.observers@),
        r@.timestamp == r.timestamp@ && r@.status == r.status && r@.value == r.value@,
        observers_view(os).len() == os.len(),
        0 <= i < os.len() ==> observers_view(os)[i] == (match os[i] {
            Observer::Sampling(x) => ObserverView::Sampling(x@),
            Observer::External { handle, client } => ObserverView::External {
                handle,
                client: opt_address(client),
            },
        }),
        notices_view(ns).len() == ns.len(),
        0 <= i < ns.len() ==> notices_view(ns)[i] == (match ns[i] {
            Notice::Deliver { client, bytes } => NoticeView::Deliver {
                client: client@,
                bytes: bytes@,
            },
            Notice::Call { handle } => NoticeView::Call { handle },
        }),
{
}

/// What is seen of filters and of lines that came in.
pub proof fn what_comes_in_is_seen(
    f: Result<SensorFilter, String>,
    r: Received,
    i: Incoming,
)
    ensures
        filter_view(f) == (match f {
            Ok(SensorFilter::All) => Ok(FilterView::All),
            Ok(SensorFilter::Exact(name)) => Ok(FilterView::Exact(name@)),
            Ok(SensorFilter::Pattern(re)) => Ok(FilterView::Pattern(regex_pattern(re))),
            Err(why) => Err(why@),
        }),
        r@ == (match r {
            Received::Nothing => ReceivedView::Nothing,
            Received::Malformed(e) => ReceivedView::Malformed(e@),
            Received::Message(m) => ReceivedView::Message(m@),
        }),
        i@ == (match i {
            Incoming::Nothing => IncomingView::Nothing,
            Incoming::Malformed(e) => IncomingView::Malformed(e@),
            Incoming::Request(m) => IncomingView::Request(m@),
        }),
{
}

/// What is seen of a server, its context, its clients and its answers.
pub proof fn servers_are_seen(
    server: DeviceServer,
    c: ServerContext,
    clients: Seq<ClientState>,
    entries: Seq<SamplingEntry>,
    sensors: Seq<Sensor>,
    r: RequestResult,
    i: int,
)
    ensures
        server@.bind_addr == server.bind_addr@ && server@.port == server.port,
        server@.context == server.context@ && server@.clients == clients_view(server.clients@),
        c@.sensors == sensors_view(c.sensors@) && c@.protocol == c.protocol@,
        c@.version_info.name == c.version_info.0@ && c@.version_info.major == c.version_info.1
            && c@.version_info.minor == c.version_info.2,
        c@.build_info.name == c.build_info.0@ && c@.build_info.major == c.build_info.1
            && c@.build_info.minor == c.build_info.2 && c@.build_info.state == c.build_info.3@,
        c@.handlers == texts_view(c.handlers@) && c@.log_level == c.log_level@,
        clients_view(clients).len() == clients.len(),
        0 <= i < clients.len() ==> clients_view(clients)[i].addr == clients[i].addr@
            && clients_view(clients)[i].sampling == entries_view(clients[i].sampling@),
        entries_view(entries).len() == entries.len(),
        0 <= i < entries.len() ==> entries_view(entries)[i].name == entries[i].name@
            && entries_view(entries)[i].strategy == entries[i].strategy@,
        sensors_view(sensors).len() == sensors.len(),
        0 <= i < sensors.len() ==> sensors_view(sensors)[i] == sensors[i]@,
        r@.informs == messages_view(r.informs@) && r@.reply == r.reply@,
{
}

/// What is seen of a client, its waiting requests, the updates it is told of and its actions.
pub proof fn clients_are_seen(
    c: DeviceClient,
    pending: Seq<PendingRequest>,
    u: SensorUpdate,
    actions: Seq<Action>,
    p: ProtocolFlags,
    i: int,
)
    ensures
        c@.host == c.host@ && c@.port == c.port,
        c@.pending == pending_view(c.pending@) && c@.next_mid == c.next_mid,
        c@.protocol == opt_protocol(c.protocol),
        c@.inform_callbacks == texts_view(c.inform_callbacks@),
        c@.sensor_callbacks == texts_view(c.sensor_callbacks@),
        c@.connection == c.connection && c@.writable == c.writable && c@.connected == c.connected,
        c@.unsolicited == messages_view(c.unsolicited@),
        pending_view(pending).len() == pending.len(),
        0 <= i < pending.len() ==> pending_view(pending)[i].mid == pending[i].mid@ && pending_view(
            pending,
        )[i].name == pending[i].name@ && pending_view(pending)[i].connection
            == pending[i].connection && pending_view(pending)[i].informs == messages_view(
            pending[i].informs@,
        ),
        u@.timestamp == u.timestamp@ && u@.name == u.name@ && u@.status == u.status && u@.value
            == u.value@,
        actions_view(actions).len() == actions.len(),
        0 <= i < actions.len() ==> actions_view(actions)[i] == (match actions[i] {
            Action::CallSensor(x) => ActionView::CallSensor(x@),
            Action::CallInform(m) => ActionView::CallInform(m@),
            Action::Complete { mid, reply, informs } => ActionView::Complete {
                mid: mid@,
                reply: reply@,
                informs: messages_view(informs@),
            },
            Action::Unexpected(m) => ActionView::Unexpected(m@),
        }),
        p@.major == p.major && p@.minor == p.minor && p@.flags == p.flags@,
{
}

} // verus!
