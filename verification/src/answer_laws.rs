//! What holds of the answers of a device server and of what its requests do, stated by what the
//! client asked and what it is told.

use vstd::prelude::*;
use vstd::utf8::encode_utf8;
use vstd::utf8::decode_utf8;
use vstd::utf8::encode_utf8_decode_utf8;
use vstd::utf8::encode_utf8_valid_utf8;
use vstd::utf8::valid_utf8;
use crate::address::SocketAddressView;
use crate::decimal::nat_text;
use crate::filter::read_filter;
use crate::filter::regex_fault;
use crate::filter::regex_matches;
use crate::filter::FilterView;
use crate::message::MessageType;
use crate::message::MessageView;
use crate::protocol::ProtocolFlag;
use crate::sampling::read_strategy;
use crate::sampling::ParameterView;
use crate::sampling::SamplingObserverView;
use crate::sampling::SamplingStateView;
use crate::sampling::StrategyView;
use crate::sampling_laws::is_sent;
use crate::sensor::all_notices;
use crate::sensor::deliveries;
use crate::sensor::without_client;
use crate::sensor::NoticeView;
use crate::sensor::ObserverView;
use crate::sensor::SensorReadingView;
use crate::sensor::SensorView;
use crate::sensor_laws::a_sampler_is_followed_through_a_run;
use crate::sensor_laws::discrete_parameters_are_the_values;
use crate::sensor_laws::owner;
use crate::sensor_laws::seen_by;
use crate::sensor_laws::sensor_run;
use crate::server_laws::is_connected;
use crate::server_laws::lemma_without_client;
use crate::server_laws::step;
use crate::server_laws::EventView;
use crate::server_model::all_help;
use crate::server_model::builtin_answer;
use crate::server_model::builtin_help;
use crate::server_model::client_addrs;
use crate::server_model::client_place;
use crate::server_model::current_strategy;
use crate::server_model::custom_help;
use crate::server_model::distinct;
use crate::server_model::entries_after;
use crate::server_model::entry_place;
use crate::server_model::help_answer;
use crate::server_model::help_names;
use crate::server_model::is_log_level;
use crate::server_model::lemma_place;
use crate::server_model::lemma_place_is;
use crate::server_model::new_server;
use crate::server_model::param_texts;
use crate::server_model::place;
use crate::server_model::request_kind;
use crate::server_model::sampled_names;
use crate::server_model::sampling_request;
use crate::server_model::sensor_answer;
use crate::server_model::sensor_inform;
use crate::server_model::sensor_informs;
use crate::server_model::sensor_names;
use crate::server_model::sensor_place;
use crate::server_model::BuildInfoView;
use crate::server_model::ContextView;
use crate::server_model::Listing;
use crate::server_model::RequestResultView;
use crate::server_model::SamplingEntryView;
use crate::server_model::SamplingRequestView;
use crate::server_model::ServerView;
use crate::server_model::VersionInfoView;
use crate::text::text_words;
use crate::text_laws::is_solid;
use crate::types::KatcpTypeView;
use crate::wire::wire;

verus! {

/// The nine requests that every server answers are known by their names, and no other name is one of
/// them.
pub proof fn requests_are_known_by_name(name: Seq<char>)
    ensures
        request_kind(name) is Help <==> name == "help"@,
        request_kind(name) is Watchdog <==> name == "watchdog"@,
        request_kind(name) is VersionList <==> name == "version-list"@,
        request_kind(name) is SensorList <==> name == "sensor-list"@,
        request_kind(name) is SensorValue <==> name == "sensor-value"@,
        request_kind(name) is SensorSampling <==> name == "sensor-sampling"@,
        request_kind(name) is ClientList <==> name == "client-list"@,
        request_kind(name) is Halt <==> name == "halt"@,
        request_kind(name) is LogLevel <==> name == "log-level"@,
{
    reveal_strlit("help");
    reveal_strlit("watchdog");
    reveal_strlit("version-list");
    reveal_strlit("sensor-list");
    reveal_strlit("sensor-value");
    reveal_strlit("sensor-sampling");
    reveal_strlit("client-list");
    reveal_strlit("halt");
    reveal_strlit("log-level");
    assert("help"@.len() == 4);
    assert("help"@[1] != "halt"@[1]);
    assert("watchdog"@.len() == 8);
    assert("version-list"@.len() == 12);
    assert("sensor-list"@.len() == 11);
    assert("sensor-value"@.len() == 12);
    assert("version-list"@[0] != "sensor-value"@[0]);
    assert("sensor-sampling"@.len() == 15);
    assert("client-list"@.len() == 11);
    assert("sensor-list"@[0] != "client-list"@[0]);
    assert("halt"@.len() == 4);
    assert("log-level"@.len() == 9);
}

/// Help tells of a request if and only if the server answers it: by a handler of its own or as one of
/// the nine. Without a name it tells of each of them.
pub proof fn help_tells_of_what_is_answered(handlers: Seq<Seq<char>>, name: Seq<char>)
    ensures
        help_names(all_help(handlers)).contains(name) <==> handlers.contains(name) || !(request_kind(
            name,
        ) is Unknown),
        all_help(handlers).len() == 9 + handlers.len(),
{
    requests_are_known_by_name(name);
    let all = help_names(all_help(handlers));
    let nine = builtin_help();
    assert forall|i: int| 0 <= i < handlers.len() implies all[9 + i] == handlers[i] by {
        assert(all_help(handlers)[9 + i] == custom_help(handlers)[i]);
    }
    assert forall|i: int| 0 <= i < 9 implies all[i] == nine[i].name by {
        assert(all_help(handlers)[i] == nine[i]);
    }
    if handlers.contains(name) {
        let i = choose|i: int| 0 <= i < handlers.len() && handlers[i] == name;
        assert(all[9 + i] == name);
    }
    if name == "help"@ {
        assert(all[0] == name);
    } else if name == "watchdog"@ {
        assert(all[1] == name);
    } else if name == "version-list"@ {
        assert(all[2] == name);
    } else if name == "sensor-list"@ {
        assert(all[3] == name);
    } else if name == "sensor-value"@ {
        assert(all[4] == name);
    } else if name == "sensor-sampling"@ {
        assert(all[5] == name);
    } else if name == "client-list"@ {
        assert(all[6] == name);
    } else if name == "halt"@ {
        assert(all[7] == name);
    } else if name == "log-level"@ {
        assert(all[8] == name);
    }
    if all.contains(name) {
        let k = choose|k: int| 0 <= k < all.len() && all[k] == name;
        if k >= 9 {
            assert(handlers[k - 9] == name);
        } else {
            assert(nine[k].name == name);
            assert(k == 0 || k == 1 || k == 2 || k == 3 || k == 4 || k == 5 || k == 6 || k == 7 || k
                == 8);
        }
    }
}

/// Asked for a request, help tells its name and what it does in one inform, if the server answers it;
/// else it fails. Asked for none, it tells the names of all, each in an inform of its own.
pub proof fn help_answers_name_the_requests(
    msg: MessageView,
    handlers: Seq<Seq<char>>,
)
    ensures
        ({
            let a = help_answer(msg, handlers);
            let names = help_names(all_help(handlers));
            match msg.arg_text(0) {
                Some(name) => if names.contains(name) {
                    &&& a.informs.len() == 1
                    &&& a.informs[0].arguments.len() == 2
                    &&& a.informs[0].arguments[0] == encode_utf8(name)
                    &&& a.reply.arguments == seq![encode_utf8("ok"@), encode_utf8(nat_text(1))]
                } else {
                    &&& a.informs.len() == 0
                    &&& a.reply.arguments[0] == encode_utf8("fail"@)
                },
                None => {
                    &&& a.informs.len() == names.len()
                    &&& forall|i: int|
                        0 <= i < names.len() ==> (#[trigger] a.informs[i]).arguments.len() == 2
                            && a.informs[i].arguments[0] == encode_utf8(names[i])
                    &&& a.reply.arguments == seq![
                        encode_utf8("ok"@),
                        encode_utf8(nat_text(names.len())),
                    ]
                },
            }
        }),
{
    let names = help_names(all_help(handlers));
    if let Some(name) = msg.arg_text(0) {
        lemma_place(names, name);
        if names.contains(name) {
            let k = choose|k: int| 0 <= k < names.len() && names[k] == name;
            assert(place(names, name) <= k);
        }
    }
}

/// `?watchdog` and `?halt` are answered with success and nothing else, and change nothing.
pub proof fn watchdog_and_halt_are_acknowledged(
    server: ServerView,
    msg: MessageView,
    addr: SocketAddressView,
    params: Seq<Option<ParameterView>>,
    filter: Result<FilterView, Seq<char>>,
)
    requires
        msg.name == "watchdog"@ || msg.name == "halt"@,
    ensures
        ({
            let a = builtin_answer(server, msg, addr, params, filter);
            &&& a.informs.len() == 0
            &&& a.reply == (MessageView {
                mtype: MessageType::Reply,
                name: msg.name,
                mid: msg.mid,
                arguments: seq![encode_utf8("ok"@)],
            })
            &&& step(server, EventView::Request(msg, addr, params)) == server
        }),
{
    requests_are_known_by_name(msg.name);
}

/// What a server sends for an answer are its informs, in order, and its reply behind them.
pub proof fn replies_come_last(a: RequestResultView)
    ensures
        a.frames().len() == a.informs.len() + 1,
        forall|i: int|
            0 <= i < a.informs.len() ==> (#[trigger] a.frames()[i]) == wire(a.informs[i]),
        a.frames().last() == wire(a.reply),
{
}

/// `?client-list` tells of every client, in order, by its address.
pub proof fn client_list_tells_every_address(
    server: ServerView,
    msg: MessageView,
    addr: SocketAddressView,
    params: Seq<Option<ParameterView>>,
    filter: Result<FilterView, Seq<char>>,
)
    requires
        msg.name == "client-list"@,
    ensures
        ({
            let a = builtin_answer(server, msg, addr, params, filter);
            &&& a.informs.len() == server.clients.len()
            &&& forall|i: int|
                0 <= i < server.clients.len() ==> (#[trigger] a.informs[i]).arguments == seq![
                    encode_utf8(server.clients[i].addr.text),
                ]
        }),
{
    requests_are_known_by_name(msg.name);
}

/// There are eight log levels.
pub proof fn log_levels_are_the_eight(level: Seq<char>)
    ensures
        is_log_level(level) <==> seq![
            "all"@,
            "trace"@,
            "debug"@,
            "info"@,
            "warn"@,
            "error"@,
            "fatal"@,
            "off"@,
        ].contains(level),
{
    let levels = seq![
        "all"@,
        "trace"@,
        "debug"@,
        "info"@,
        "warn"@,
        "error"@,
        "fatal"@,
        "off"@,
    ];
    assert(levels[0] == "all"@ && levels[1] == "trace"@ && levels[2] == "debug"@ && levels[3]
        == "info"@ && levels[4] == "warn"@ && levels[5] == "error"@ && levels[6] == "fatal"@
        && levels[7] == "off"@);
    if levels.contains(level) {
        let k = choose|k: int| 0 <= k < levels.len() && levels[k] == level;
        assert(k == 0 || k == 1 || k == 2 || k == 3 || k == 4 || k == 5 || k == 6 || k == 7);
    }
}

/// `?log-level` with a level sets it and tells it; with another text it fails and sets nothing; without
/// one it tells the level.
pub proof fn log_levels_are_set_and_told(
    server: ServerView,
    msg: MessageView,
    addr: SocketAddressView,
    params: Seq<Option<ParameterView>>,
    filter: Result<FilterView, Seq<char>>,
)
    requires
        msg.name == "log-level"@,
        !server.context.handlers.contains(msg.name),
    ensures
        ({
            let a = builtin_answer(server, msg, addr, params, filter);
            let after = step(server, EventView::Request(msg, addr, params));
            &&& a.informs.len() == 0
            &&& match msg.arg_text(0) {
                Some(level) => if is_log_level(level) {
                    &&& a.reply.arguments == seq![encode_utf8("ok"@), encode_utf8(level)]
                    &&& after.context.log_level == level
                } else {
                    &&& a.reply.arguments[0] == encode_utf8("fail"@)
                    &&& after == server
                },
                None => {
                    &&& a.reply.arguments == seq![
                        encode_utf8("ok"@),
                        encode_utf8(server.context.log_level),
                    ]
                    &&& after == server
                },
            }
        }),
{
    requests_are_known_by_name(msg.name);
}

/// What `?version-list` tells of protocol, library and device starts with what a client is greeted
/// with, and tells of the build moreover.
pub proof fn version_list_repeats_the_greeting(context: ContextView, msg: MessageView)
    ensures
        ({
            let greeting = context.greeting();
            let informs = context.version_informs(msg);
            &&& greeting.len() == 3
            &&& informs.len() == 3
            &&& forall|i: int|
                0 <= i < 3 ==> (#[trigger] greeting[i]).arguments.len()
                    <= informs[i].arguments.len() && informs[i].arguments.take(
                    greeting[i].arguments.len() as int,
                ) == greeting[i].arguments
            &&& greeting[0].arguments == seq![
                encode_utf8("katcp-protocol"@),
                encode_utf8(context.protocol.shown()),
            ]
            &&& greeting[2].arguments[0] == encode_utf8("katcp-device"@)
            &&& informs[1].arguments.last() == informs[2].arguments.last()
        }),
{
    let greeting = context.greeting();
    let informs = context.version_informs(msg);
    assert forall|i: int| 0 <= i < 3 implies (#[trigger] greeting[i]).arguments.len()
        <= informs[i].arguments.len() && informs[i].arguments.take(
        greeting[i].arguments.len() as int,
    ) == greeting[i].arguments by {
        assert(i == 0 || i == 1 || i == 2);
        assert(informs[i].arguments.take(greeting[i].arguments.len() as int)
            =~= greeting[i].arguments);
    }
}

/// A version is told as the name, a dash and the two numbers with a dot between them; a build is told
/// so too, with a dash and its state behind it.
pub proof fn versions_are_told_part_by_part(context: ContextView)
    ensures
        ({
            let v = context.version_info;
            let b = context.build_info;
            let device = context.greeting()[2].arguments;
            let version_tail = seq!['-'] + nat_text(v.major as nat) + seq!['.'] + nat_text(
                v.minor as nat,
            );
            let build_tail = seq!['-'] + nat_text(b.major as nat) + seq!['.'] + nat_text(
                b.minor as nat,
            ) + seq!['-'] + b.state;
            &&& device.len() == 3
            &&& device[1] == encode_utf8(v.name + version_tail)
            &&& device[2] == encode_utf8(b.name + build_tail)
        }),
{
    let v = context.version_info;
    let b = context.build_info;
    let version_tail = seq!['-'] + nat_text(v.major as nat) + seq!['.'] + nat_text(v.minor as nat);
    let build_tail = seq!['-'] + nat_text(b.major as nat) + seq!['.'] + nat_text(b.minor as nat)
        + seq!['-'] + b.state;
    assert(context.version_text() =~= v.name + version_tail);
    assert(context.build_text() =~= b.name + build_tail);
}

/// What `?sensor-list` tells of a sensor: its name, its description, its units and its type, and behind
/// them the words of its parameters, each in an argument of its own.
pub proof fn sensors_are_described_by_their_parts(msg: MessageView, s: SensorView)
    ensures
        ({
            let args = sensor_inform(Listing::Description, msg, s).arguments;
            let parameters = text_words(crate::sensor::type_params(s.katcp_type));
            &&& args.len() == 4 + parameters.len()
            &&& args[0] == encode_utf8(s.name)
            &&& args[1] == encode_utf8(s.description)
            &&& args[2] == encode_utf8(s.units)
            &&& args[3] == encode_utf8(s.sensor_type.name())
            &&& forall|i: int|
                0 <= i < parameters.len() ==> #[trigger] args[4 + i] == encode_utf8(parameters[i])
        }),
{
}

/// What `?sensor-list` tells of a discrete sensor, none of whose values is empty or holds white space,
/// ends with its values, all of them and in order.
pub proof fn discrete_sensors_list_their_values(
    msg: MessageView,
    s: SensorView,
    values: Seq<Seq<char>>,
)
    requires
        s.katcp_type == (KatcpTypeView::Discrete { values }),
        forall|i: int|
            0 <= i < values.len() ==> (#[trigger] values[i]).len() > 0 && is_solid(values[i]),
    ensures
        ({
            let args = sensor_inform(Listing::Description, msg, s).arguments;
            &&& args.len() == 4 + values.len()
            &&& forall|i: int|
                0 <= i < values.len() ==> #[trigger] args[4 + i] == encode_utf8(values[i])
        }),
{
    discrete_parameters_are_the_values(values);
    sensors_are_described_by_their_parts(msg, s);
}

/// What `?sensor-value` tells of a sensor: the time of its reading, how many sensors the inform tells
/// of, its name, and the status and the value of its reading.
pub proof fn sensors_are_read_by_their_parts(msg: MessageView, s: SensorView)
    ensures
        ({
            let args = sensor_inform(Listing::Value, msg, s).arguments;
            &&& args.len() == 5
            &&& args[0] == encode_utf8(s.reading.timestamp.fixed)
            &&& args[1] == encode_utf8("1"@)
            &&& args[2] == encode_utf8(s.name)
            &&& args[3] == encode_utf8(s.reading.status.name())
            &&& args[4] == s.reading.value
        }),
{
}

/// Whether a filter lets a sensor's name through: no filter lets every name through, a name itself
/// alone, and a pattern each name that holds a match of it.
pub open spec fn is_let_through(filter: FilterView, name: Seq<char>) -> bool {
    match filter {
        FilterView::All => true,
        FilterView::Exact(n) => n == name,
        FilterView::Pattern(pattern) => regex_matches(pattern, name),
    }
}

/// Sensors are listed one by one, in order: each that the filter lets through, once, and no other.
pub proof fn sensors_are_listed_one_by_one(
    listing: Listing,
    msg: MessageView,
    a: Seq<SensorView>,
    b: Seq<SensorView>,
    s: SensorView,
    filter: FilterView,
)
    ensures
        sensor_informs(listing, msg, a + b, filter) == sensor_informs(listing, msg, a, filter)
            + sensor_informs(listing, msg, b, filter),
        sensor_informs(listing, msg, seq![s], filter) == (if is_let_through(filter, s.name) {
            seq![sensor_inform(listing, msg, s)]
        } else {
            Seq::<MessageView>::empty()
        }),
        sensor_informs(listing, msg, Seq::<SensorView>::empty(), filter) == Seq::<
            MessageView,
        >::empty(),
    decreases b.len(),
{
    let none = Seq::<SensorView>::empty();
    assert(seq![s].drop_last() =~= none);
    assert(sensor_informs(listing, msg, none, filter) =~= seq![]);
    assert(sensor_informs(listing, msg, seq![s], filter) =~= (if is_let_through(filter, s.name) {
        seq![sensor_inform(listing, msg, s)]
    } else {
        Seq::<MessageView>::empty()
    }));
    if b.len() == 0 {
        assert(a + b =~= a);
        assert(b =~= none);
        assert(sensor_informs(listing, msg, a, filter) + Seq::<MessageView>::empty()
            =~= sensor_informs(listing, msg, a, filter));
    } else {
        sensors_are_listed_one_by_one(listing, msg, a, b.drop_last(), s, filter);
        assert((a + b).drop_last() =~= a + b.drop_last());
        assert((a + b).last() == b.last());
        assert(sensor_informs(listing, msg, a + b, filter) =~= sensor_informs(
            listing,
            msg,
            a,
            filter,
        ) + sensor_informs(listing, msg, b, filter));
    }
}

/// Asked for a sensor by name, the server tells of that sensor alone, or fails where there is none.
/// Asked for all or by a pattern, it succeeds and tells of those that are let through. Where the
/// pattern is malformed, it fails and says why.
pub proof fn sensors_are_asked_for_by_name(
    listing: Listing,
    msg: MessageView,
    sensors: Seq<SensorView>,
    i: int,
    name: Seq<char>,
    pattern: Seq<char>,
    why: Seq<char>,
)
    requires
        distinct(sensor_names(sensors)),
    ensures
        0 <= i < sensors.len() ==> sensor_answer(
            listing,
            msg,
            sensors,
            Ok(FilterView::Exact(sensors[i].name)),
        ) == RequestResultView::listed(msg, seq![sensor_inform(listing, msg, sensors[i])]),
        !sensor_names(sensors).contains(name) ==> ({
            let a = sensor_answer(listing, msg, sensors, Ok(FilterView::Exact(name)));
            a.informs.len() == 0 && a.reply.arguments[0] == encode_utf8("fail"@)
        }),
        ({
            let a = sensor_answer(listing, msg, sensors, Ok(FilterView::Pattern(pattern)));
            let informs = sensor_informs(listing, msg, sensors, FilterView::Pattern(pattern));
            a == RequestResultView::listed(msg, informs)
        }),
        ({
            let a = sensor_answer(listing, msg, sensors, Ok(FilterView::All));
            a == RequestResultView::listed(
                msg,
                sensor_informs(listing, msg, sensors, FilterView::All),
            )
        }),
        ({
            let a = sensor_answer(listing, msg, sensors, Err(why));
            a.informs.len() == 0 && a.reply.arguments == seq![
                encode_utf8("fail"@),
                encode_utf8(why),
            ]
        }),
{
    let keys = sensor_names(sensors);
    if 0 <= i < sensors.len() {
        assert(keys[i] == sensors[i].name);
        assert forall|k: int| 0 <= k < i implies (#[trigger] keys[k]) != sensors[i].name by {
            assert(keys[k] != keys[i]);
        }
        lemma_place_is(keys, sensors[i].name, i);
    }
    if !keys.contains(name) {
        lemma_place(keys, name);
    }
}

/// An argument stands for all sensors where it is missing, for a pattern where it is a text between two
/// slashes, and else for the sensor of that name.
pub proof fn filters_are_read(text: Seq<char>, pattern: Seq<char>, accepted: bool)
    ensures
        read_filter(None, accepted) == Ok::<FilterView, Seq<char>>(FilterView::All),
        read_filter(Some(seq!['/'] + pattern + seq!['/']), true) == Ok::<FilterView, Seq<char>>(
            FilterView::Pattern(pattern),
        ),
        read_filter(Some(seq!['/'] + pattern + seq!['/']), false) == Err::<FilterView, Seq<char>>(
            "Invalid regex: "@ + regex_fault(pattern),
        ),
        text.len() < 2 || text[0] != '/' || text.last() != '/' ==> read_filter(Some(text), accepted)
            == Ok::<FilterView, Seq<char>>(FilterView::Exact(text)),
{
    let s = seq!['/'] + pattern + seq!['/'];
    assert(s.subrange(1, s.len() - 1) =~= pattern);
}

/// The sampling parameters of a request are the texts of its arguments from the third on, in order;
/// arguments that are no text are left out, and the first two are never among them.
pub proof fn sampling_parameters_are_the_later_arguments(args: Seq<Seq<u8>>, arg: Seq<u8>)
    ensures
        args.len() <= 2 ==> param_texts(args) == Seq::<Seq<char>>::empty(),
        args.len() >= 2 && valid_utf8(arg) ==> param_texts(args.push(arg)) == param_texts(args).push(
            decode_utf8(arg),
        ),
        args.len() >= 2 && !valid_utf8(arg) ==> param_texts(args.push(arg)) == param_texts(args),
{
    assert(args.push(arg).drop_last() =~= args);
}

/// Texts that stand behind the first two arguments are read as the parameters.
pub proof fn written_parameters_are_read(first: Seq<u8>, second: Seq<u8>, texts: Seq<Seq<char>>)
    ensures
        param_texts(
            seq![first, second] + texts.map_values(|t: Seq<char>| encode_utf8(t)),
        ) == texts,
    decreases texts.len(),
{
    let bytes = texts.map_values(|t: Seq<char>| encode_utf8(t));
    let args = seq![first, second] + bytes;
    if texts.len() == 0 {
        assert(args =~= seq![first, second]);
        assert(param_texts(args) =~= texts);
    } else {
        let rest = texts.drop_last();
        written_parameters_are_read(first, second, rest);
        let before = seq![first, second] + rest.map_values(|t: Seq<char>| encode_utf8(t));
        assert(args =~= before.push(encode_utf8(texts.last())));
        encode_utf8_valid_utf8(texts.last());
        encode_utf8_decode_utf8(texts.last());
        sampling_parameters_are_the_later_arguments(before, encode_utf8(texts.last()));
        assert(rest.push(texts.last()) =~= texts);
    }
}

/// Whether a `?sensor-sampling` request sets how a sensor is sampled: its first argument is the name of
/// a sensor, and its second is that of a strategy, which its parameters make.
pub open spec fn assigns(
    server: ServerView,
    msg: MessageView,
    params: Seq<Option<ParameterView>>,
    name: Seq<char>,
    strategy: StrategyView,
) -> bool {
    &&& msg.name == "sensor-sampling"@
    &&& !server.context.handlers.contains(msg.name)
    &&& msg.arg_text(0) == Some(name)
    &&& sensor_names(server.context.sensors).contains(name)
    &&& msg.arg_text(1) is Some
    &&& read_strategy(msg.arg_text(1)->0, params) == Some(strategy)
}

/// Such a request is read as what it asks for.
proof fn lemma_assigns(
    server: ServerView,
    msg: MessageView,
    params: Seq<Option<ParameterView>>,
    name: Seq<char>,
    strategy: StrategyView,
)
    requires
        assigns(server, msg, params, name, strategy),
    ensures
        request_kind(msg.name) is SensorSampling,
        0 <= sensor_place(server.context.sensors, name) < server.context.sensors.len(),
        server.context.sensors[sensor_place(server.context.sensors, name)].name == name,
        sampling_request(msg, server.context.sensors, params) == SamplingRequestView::Assign(
            name,
            strategy,
        ),
{
    requests_are_known_by_name(msg.name);
    let keys = sensor_names(server.context.sensors);
    lemma_place(keys, name);
    let k = choose|k: int| 0 <= k < keys.len() && keys[k] == name;
    assert(place(keys, name) <= k);
    assert(keys[place(keys, name)] == server.context.sensors[place(keys, name)].name);
}

/// After a client set how it samples a sensor, its only observer on that sensor is the last one, which
/// samples by the strategy that was asked for and has sent nothing yet; with `none` it has no observer
/// there. All other observers of the sensor stay, in order; nothing else of the sensor changes, and
/// nothing of any other sensor.
pub proof fn the_strategy_asked_for_is_observed(
    server: ServerView,
    msg: MessageView,
    addr: SocketAddressView,
    params: Seq<Option<ParameterView>>,
    name: Seq<char>,
    strategy: StrategyView,
)
    requires
        assigns(server, msg, params, name, strategy),
    ensures
        ({
            let before = server.context.sensors;
            let after = step(server, EventView::Request(msg, addr, params)).context.sensors;
            let n = sensor_place(before, name);
            let os = after[n].observers;
            &&& after.len() == before.len()
            &&& forall|i: int| 0 <= i < before.len() && i != n ==> (#[trigger] after[i]) == before[i]
            &&& after[n] == (SensorView { observers: os, ..before[n] })
            &&& strategy is NoSampling ==> {
                &&& os == without_client(before[n].observers, addr)
                &&& forall|j: int| 0 <= j < os.len() ==> owner(#[trigger] os[j]) != Some(addr)
            }
            &&& !(strategy is NoSampling) ==> {
                &&& os.len() > 0
                &&& os.drop_last() == without_client(before[n].observers, addr)
                &&& forall|j: int|
                    0 <= j < os.len() - 1 ==> owner(#[trigger] os[j]) != Some(addr)
                &&& os.last() matches ObserverView::Sampling(x) && x.strategy == strategy
                    && x.sensor_name == name && x.client_addr == addr && x.state.last_sent is None
                    && x.state.last_value is None
            }
        }),
{
    lemma_assigns(server, msg, params, name, strategy);
    let before = server.context.sensors;
    let after = step(server, EventView::Request(msg, addr, params)).context.sensors;
    let n = sensor_place(before, name);
    let os = after[n].observers;
    let kept = without_client(before[n].observers, addr);
    lemma_without_client(before[n].observers, addr);
    assert forall|j: int| 0 <= j < kept.len() implies owner(#[trigger] kept[j]) != Some(addr) by {
        assert(kept[j].client() != Some(addr));
    }
    if strategy is NoSampling {
        assert(os == kept);
    } else {
        assert(os.drop_last() =~= kept);
        assert forall|j: int| 0 <= j < os.len() - 1 implies owner(#[trigger] os[j]) != Some(
            addr,
        ) by {
            assert(os[j] == kept[j]);
        }
    }
}

/// After a client set how it samples a sensor, of every run of updates of the sensor it is sent exactly
/// those that the strategy it asked for sends to an observer that has sent nothing yet.
pub proof fn updates_follow_the_strategy_asked_for(
    server: ServerView,
    msg: MessageView,
    addr: SocketAddressView,
    params: Seq<Option<ParameterView>>,
    name: Seq<char>,
    strategy: StrategyView,
    updates: Seq<(SensorReadingView, u128, Seq<bool>)>,
    j: int,
)
    requires
        assigns(server, msg, params, name, strategy),
        !(strategy is NoSampling),
        0 <= j < updates.len(),
        updates[j].2.len() == step(
            server,
            EventView::Request(msg, addr, params),
        ).context.sensors[sensor_place(server.context.sensors, name)].observers.len(),
    ensures
        ({
            let after = step(server, EventView::Request(msg, addr, params)).context.sensors;
            let s = after[sensor_place(server.context.sensors, name)];
            let x = SamplingObserverView {
                sensor_name: name,
                strategy,
                client_addr: addr,
                state: SamplingStateView { last_sent: None, last_value: None },
            };
            let sent = deliveries(
                all_notices(
                    sensor_run(s, updates.take(j)).observers,
                    updates[j].0,
                    updates[j].1,
                    updates[j].2,
                ),
                addr,
            );
            sent == (if is_sent(x, seen_by(updates, s.observers.len() - 1), j) {
                seq![
                    NoticeView::Deliver {
                        client: addr,
                        bytes: wire(x.status_inform(updates[j].0)),
                    },
                ]
            } else {
                Seq::<NoticeView>::empty()
            })
        }),
{
    the_strategy_asked_for_is_observed(server, msg, addr, params, name, strategy);
    let after = step(server, EventView::Request(msg, addr, params)).context.sensors;
    let s = after[sensor_place(server.context.sensors, name)];
    let x = SamplingObserverView {
        sensor_name: name,
        strategy,
        client_addr: addr,
        state: SamplingStateView { last_sent: None, last_value: None },
    };
    let p = s.observers.len() - 1;
    assert(s.observers[p] == ObserverView::Sampling(x)) by {
        let last = s.observers.last();
        assert(last->Sampling_0 == x);
    }
    a_sampler_is_followed_through_a_run(s, updates, p, x, j);
}

/// The answer to a request that sets how a sensor is sampled tells the sensor, the name of the strategy
/// and the words of its parameters.
pub proof fn the_strategy_asked_for_is_told(
    server: ServerView,
    msg: MessageView,
    addr: SocketAddressView,
    params: Seq<Option<ParameterView>>,
    filter: Result<FilterView, Seq<char>>,
    name: Seq<char>,
    strategy: StrategyView,
)
    requires
        assigns(server, msg, params, name, strategy),
    ensures
        ({
            let a = builtin_answer(server, msg, addr, params, filter);
            let args = a.reply.arguments;
            let shown = text_words(strategy.params());
            &&& a.informs.len() == 0
            &&& args.len() == 3 + shown.len()
            &&& args[0] == encode_utf8("ok"@)
            &&& args[1] == encode_utf8(name)
            &&& args[2] == encode_utf8(msg.arg_text(1)->0)
            &&& forall|i: int|
                0 <= i < shown.len() ==> #[trigger] args[3 + i] == encode_utf8(shown[i])
        }),
{
    lemma_assigns(server, msg, params, name, strategy);
    crate::sampling::strategy_is_read_by_its_name(msg.arg_text(1)->0, params, strategy);
}

/// A `?sensor-sampling` request that names no sensor, or one that there is not, or a strategy that
/// cannot be read, fails; one that names a sensor and no strategy tells how the client samples it and
/// changes nothing.
pub proof fn other_sampling_requests(
    server: ServerView,
    msg: MessageView,
    addr: SocketAddressView,
    params: Seq<Option<ParameterView>>,
    filter: Result<FilterView, Seq<char>>,
)
    requires
        msg.name == "sensor-sampling"@,
        !server.context.handlers.contains(msg.name),
    ensures
        ({
            let a = builtin_answer(server, msg, addr, params, filter);
            let after = step(server, EventView::Request(msg, addr, params));
            let known = msg.arg_text(0) matches Some(name) && sensor_names(
                server.context.sensors,
            ).contains(name);
            &&& !known ==> a.reply.arguments[0] == encode_utf8("fail"@) && after == server
            &&& known && msg.arg_text(1) is None ==> {
                let current = current_strategy(server.clients, addr, msg.arg_text(0)->0);
                &&& after == server
                &&& a.reply.arguments.len() >= 3
                &&& a.reply.arguments[0] == encode_utf8("ok"@)
                &&& a.reply.arguments[1] == encode_utf8(msg.arg_text(0)->0)
                &&& a.reply.arguments[2] == encode_utf8(current.name())
            }
            &&& known && msg.arg_text(1) is Some && read_strategy(msg.arg_text(1)->0, params) is None
                ==> a.reply.arguments[0] == encode_utf8("fail"@) && after == server
        }),
{
    requests_are_known_by_name(msg.name);
    let keys = sensor_names(server.context.sensors);
    if let Some(name) = msg.arg_text(0) {
        lemma_place(keys, name);
        if keys.contains(name) {
            let k = choose|k: int| 0 <= k < keys.len() && keys[k] == name;
            assert(place(keys, name) <= k);
        }
    }
}

/// How a client samples other sensors stays as it was when it sets how it samples one.
pub proof fn other_sensors_are_sampled_as_before(
    server: ServerView,
    msg: MessageView,
    addr: SocketAddressView,
    params: Seq<Option<ParameterView>>,
    name: Seq<char>,
    strategy: StrategyView,
    other: Seq<char>,
)
    requires
        server.wf(),
        is_connected(server, addr),
        assigns(server, msg, params, name, strategy),
        other != name,
    ensures
        ({
            let after = step(server, EventView::Request(msg, addr, params));
            &&& current_strategy(after.clients, addr, other) == current_strategy(
                server.clients,
                addr,
                other,
            )
            &&& current_strategy(after.clients, addr, name) == strategy
        }),
{
    lemma_assigns(server, msg, params, name, strategy);
    let after = step(server, EventView::Request(msg, addr, params));
    let keys = client_addrs(server.clients);
    let c = client_place(server.clients, addr);
    lemma_place(keys, addr);
    let k = choose|k: int| 0 <= k < keys.len() && keys[k] == addr;
    assert(c <= k);
    assert(client_addrs(after.clients) =~= keys);
    let entries = server.clients[c].sampling;
    let later = entries_after(entries, name, strategy);
    assert(after.clients[c].sampling == later);
    assert(distinct(sampled_names(entries)));
    lemma_entry(entries, name, strategy, other);
}

/// Where a sensor is among a client's samplings after the client set how it samples one.
proof fn lemma_entry(
    entries: Seq<SamplingEntryView>,
    name: Seq<char>,
    strategy: StrategyView,
    other: Seq<char>,
)
    requires
        distinct(sampled_names(entries)),
        other != name,
    ensures
        ({
            let later = entries_after(entries, name, strategy);
            let e = entry_place(entries, other);
            let f = entry_place(later, other);
            let g = entry_place(later, name);
            &&& e < entries.len() <==> f < later.len()
            &&& e < entries.len() ==> later[f].strategy == entries[e].strategy
            &&& strategy is NoSampling ==> g >= later.len()
            &&& !(strategy is NoSampling) ==> g < later.len() && later[g].strategy == strategy
        }),
{
    let keys = sampled_names(entries);
    let later = entries_after(entries, name, strategy);
    let late = sampled_names(later);
    let e = entry_place(entries, other);
    let n = entry_place(entries, name);
    lemma_place(keys, other);
    lemma_place(keys, name);
    if strategy is NoSampling && n < entries.len() {
        assert(late =~= keys.remove(n));
        let f = if n < e { e - 1 } else { e };
        assert forall|i: int| 0 <= i < f implies (#[trigger] late[i]) != other by {
            let a = if i < n { i } else { i + 1 };
            assert(late[i] == keys[a]);
        }
        if e < entries.len() {
            assert(late[f] == keys[e]);
        }
        lemma_place_is(late, other, f);
        assert forall|i: int| 0 <= i < late.len() implies (#[trigger] late[i]) != name by {
            let a = if i < n { i } else { i + 1 };
            assert(late[i] == keys[a]);
            if a < n {
                assert(keys[a] != keys[n]);
            } else {
                assert(keys[n] != keys[a]);
            }
        }
        lemma_place_is(late, name, late.len() as int);
    } else if strategy is NoSampling {
        assert(late == keys);
    } else if n < entries.len() {
        assert(late =~= keys);
    } else {
        assert(late =~= keys.push(name));
        assert forall|i: int| 0 <= i < keys.len() implies (#[trigger] late[i]) != name by {
            assert(late[i] == keys[i]);
        }
        lemma_place_is(late, name, keys.len() as int);
        let f = if e < entries.len() { e } else { e + 1 };
        assert forall|i: int| 0 <= i < f implies (#[trigger] late[i]) != other by {
            if i < keys.len() {
                assert(late[i] == keys[i]);
            }
        }
        lemma_place_is(late, other, f);
    }
}

/// Each event changes what it is about and nothing else: the address, the port, the protocol, the
/// version and the build never change; handlers change when one is registered, and are only added;
/// the log level when a request sets it; readings when a sensor is updated or added; clients when
/// they come and go and set how they sample.
pub proof fn events_change_what_they_are_about(server: ServerView, event: EventView)
    ensures
        ({
            let after = step(server, event);
            let a = after.context.sensors;
            let b = server.context.sensors;
            &&& after.bind_addr == server.bind_addr
            &&& after.port == server.port
            &&& after.context.protocol == server.context.protocol
            &&& after.context.version_info == server.context.version_info
            &&& after.context.build_info == server.context.build_info
            &&& !(event is Register) ==> after.context.handlers == server.context.handlers
            &&& !(event is Request) ==> after.context.log_level == server.context.log_level
            &&& (event matches EventView::Request(msg, addr, params) && msg.name != "log-level"@)
                ==> after.context.log_level == server.context.log_level
            &&& (event matches EventView::Request(msg, addr, params) && msg.name
                != "sensor-sampling"@) ==> a == b && after.clients == server.clients
            &&& !(event is Update) && !(event is AddSensor) ==> a.len() == b.len() && forall|i: int|
                0 <= i < b.len() ==> (#[trigger] a[i]) == (SensorView {
                    observers: a[i].observers,
                    ..b[i]
                })
            &&& !(event is Connect) && !(event is Disconnect) && !(event is Request)
                ==> after.clients == server.clients
            &&& event is Register || event is Connect ==> a == b
            &&& event matches EventView::Register(name) ==> after.context.handlers.contains(name)
                && forall|h: Seq<char>|
                #[trigger] after.context.handlers.contains(h) <==> h == name
                    || server.context.handlers.contains(h)
        }),
{
    let after = step(server, event);
    let b = server.context.sensors;
    match event {
        EventView::Request(msg, addr, params) => {
            requests_are_known_by_name(msg.name);
            if let Some(name) = msg.arg_text(0) {
                lemma_place(sensor_names(b), name);
            }
        },
        EventView::Update(name, _, _, _) | EventView::Attach(name, _) | EventView::Detach(
            name,
            _,
        ) => {
            lemma_place(sensor_names(b), name);
        },
        EventView::Register(name) => {
            let handlers = server.context.handlers;
            let later = after.context.handlers;
            if !handlers.contains(name) {
                assert(later =~= handlers.push(name));
                assert(later[handlers.len() as int] == name);
                assert forall|h: Seq<char>| #[trigger] later.contains(h) <==> h == name
                    || handlers.contains(h) by {
                    if later.contains(h) {
                        let k = choose|k: int| 0 <= k < later.len() && later[k] == h;
                        if k < handlers.len() {
                            assert(handlers[k] == h);
                        }
                    }
                    if handlers.contains(h) {
                        let k = choose|k: int| 0 <= k < handlers.len() && handlers[k] == h;
                        assert(later[k] == h);
                    }
                }
            }
        },
        _ => {},
    }
}

/// An update changes the sensor of its name, which then holds the reading, and no other; where there is
/// no such sensor it changes nothing. An observer that is attached comes behind those that there are;
/// a client that is detached has no observer left there.
pub proof fn sensors_are_changed_by_name(
    server: ServerView,
    i: int,
    reading: SensorReadingView,
    now: u128,
    moved: Seq<bool>,
    o: ObserverView,
    addr: SocketAddressView,
)
    requires
        server.wf(),
        0 <= i < server.context.sensors.len(),
    ensures
        ({
            let b = server.context.sensors;
            let name = b[i].name;
            let updated = step(server, EventView::Update(name, reading, now, moved)).context.sensors;
            let attached = step(server, EventView::Attach(name, o)).context.sensors;
            let detached = step(server, EventView::Detach(name, addr)).context.sensors;
            &&& updated.len() == b.len() && attached.len() == b.len() && detached.len() == b.len()
            &&& updated[i].reading == reading
            &&& updated[i].observers.len() == b[i].observers.len()
            &&& attached[i].observers == b[i].observers.push(o)
            &&& detached[i].observers == without_client(b[i].observers, addr)
            &&& forall|k: int|
                0 <= k < b.len() && k != i ==> (#[trigger] updated[k]) == b[k] && attached[k] == b[k]
                    && detached[k] == b[k]
        }),
{
    let b = server.context.sensors;
    let keys = sensor_names(b);
    assert(keys[i] == b[i].name);
    assert forall|k: int| 0 <= k < i implies (#[trigger] keys[k]) != b[i].name by {
        assert(keys[k] != keys[i]);
    }
    lemma_place_is(keys, b[i].name, i);
}

/// When a client disconnects, it loses its observers on the sensors that it samples, and only those: the
/// observers of all others stay, in order, and so does every other sensor.
pub proof fn disconnecting_detaches_what_was_sampled(server: ServerView, c: int, i: int)
    requires
        server.wf(),
        0 <= c < server.clients.len(),
        0 <= i < server.context.sensors.len(),
    ensures
        ({
            let addr = server.clients[c].addr;
            let after = step(server, EventView::Disconnect(addr));
            let b = server.context.sensors[i];
            let a = after.context.sensors[i];
            let sampled = exists|e: int|
                0 <= e < server.clients[c].sampling.len() && (
                #[trigger] server.clients[c].sampling[e]).name == b.name;
            &&& after.clients == server.clients.remove(c)
            &&& after.context.sensors.len() == server.context.sensors.len()
            &&& sampled ==> a.observers == without_client(b.observers, addr)
            &&& !sampled ==> a == b
        }),
{
    let addr = server.clients[c].addr;
    let keys = client_addrs(server.clients);
    assert(keys[c] == addr);
    assert forall|k: int| 0 <= k < c implies (#[trigger] keys[k]) != addr by {
        assert(keys[k] != keys[c]);
    }
    lemma_place_is(keys, addr, c);
    let entries = server.clients[c].sampling;
    let names = sampled_names(entries);
    let name = server.context.sensors[i].name;
    if names.contains(name) {
        let e = choose|e: int| 0 <= e < names.len() && names[e] == name;
        assert(entries[e].name == name);
    }
    if exists|e: int| 0 <= e < entries.len() && (#[trigger] entries[e]).name == name {
        let e = choose|e: int| 0 <= e < entries.len() && (#[trigger] entries[e]).name == name;
        assert(names[e] == name);
    }
}

/// What help says of each request.
pub proof fn help_describes_each_request(handlers: Seq<Seq<char>>, i: int)
    ensures
        ({
            let all = all_help(handlers);
            &&& all[0].text == "List available requests."@ && all[0].name == "help"@
            &&& all[1].text == "Ping the server."@ && all[1].name == "watchdog"@
            &&& all[2].text == "List server version information."@ && all[2].name
                == "version-list"@
            &&& all[3].text == "List available sensors."@ && all[3].name == "sensor-list"@
            &&& all[4].text == "Get sensor value."@ && all[4].name == "sensor-value"@
            &&& all[5].text == "Set sensor sampling strategy."@ && all[5].name
                == "sensor-sampling"@
            &&& all[6].text == "List connected clients."@ && all[6].name == "client-list"@
            &&& all[7].text == "Shut down the server."@ && all[7].name == "halt"@
            &&& all[8].text == "Get or set log level."@ && all[8].name == "log-level"@
            &&& 0 <= i < handlers.len() ==> all[9 + i].text == "Custom request handler."@
                && all[9 + i].name == handlers[i]
        }),
{
    if 0 <= i < handlers.len() {
        assert(all_help(handlers)[9 + i] == custom_help(handlers)[i]);
    }
}

/// Behind the name of a request, help tells what the request does.
pub proof fn help_tells_what_requests_do(msg: MessageView, handlers: Seq<Seq<char>>)
    ensures
        ({
            let all = all_help(handlers);
            let a = help_answer(msg, handlers);
            &&& msg.arg_text(0) is None ==> forall|i: int|
                0 <= i < all.len() ==> (#[trigger] a.informs[i]).arguments[1] == encode_utf8(
                    all[i].text,
                )
            &&& msg.arg_text(0) is Some && a.informs.len() > 0 ==> exists|i: int|
                0 <= i < all.len() && (#[trigger] all[i]).name == msg.arg_text(0)->0
                    && a.informs[0].arguments[1] == encode_utf8(all[i].text)
        }),
{
    let all = all_help(handlers);
    let names = help_names(all);
    if let Some(name) = msg.arg_text(0) {
        lemma_place(names, name);
        let n = place(names, name);
        if n < all.len() {
            assert(names[n] == all[n].name);
        }
    }
}

/// A server that was just made has what was given, listens on all addresses where none was given, warns
/// in its log, and knows no sensor, no handler and no client.
pub proof fn new_servers_hold_what_was_given(
    host: Seq<char>,
    port: u16,
    version_info: VersionInfoView,
    build_info: BuildInfoView,
)
    ensures
        ({
            let s = new_server(host, port, version_info, build_info);
            &&& host.len() > 0 ==> s.bind_addr == host
            &&& host.len() == 0 ==> s.bind_addr == "0.0.0.0"@
            &&& s.port == port
            &&& s.context.version_info == version_info
            &&& s.context.build_info == build_info
            &&& s.context.log_level == "warn"@
            &&& s.context.protocol.major == 5 && s.context.protocol.minor == 0
            &&& forall|f: ProtocolFlag|
                s.context.protocol.flags.contains(f) <==> f == ProtocolFlag::MultiClient || f
                    == ProtocolFlag::MessageIds
            &&& s.context.sensors.len() == 0
            &&& s.context.handlers.len() == 0
            &&& s.clients.len() == 0
        }),
{
}

} // verus!
