//! What holds of the wire format as a whole: reading undoes writing, lines do not run into each
//! other, and a stream may be cut anywhere.

use vstd::prelude::*;
use vstd::utf8::encode_utf8;
use vstd::utf8::encode_utf8_decode_utf8;
use vstd::utf8::encode_utf8_valid_utf8;
use vstd::utf8::is_ascii_chars;
use vstd::utf8::is_ascii_chars_encode_utf8;
use crate::decimal::all_digits;
use crate::decimal::is_digit;
use crate::message::MessageErrorView;
use crate::message::MessageType;
use crate::message::MessageView;
use crate::wire::before;
use crate::wire::escape;
use crate::wire::escape_byte;
use crate::wire::escape_code;
use crate::wire::is_blank;
use crate::wire::is_name;
use crate::wire::is_name_char;
use crate::wire::lemma_position;
use crate::wire::lemma_position_is;
use crate::wire::position;
use crate::wire::read_args;
use crate::wire::read_line;
use crate::wire::read_mid;
use crate::wire::read_name;
use crate::wire::read_stream_line;
use crate::wire::stops;
use crate::wire::stream_messages;
use crate::wire::stream_remainder;
use crate::wire::strip_return;
use crate::wire::unescape;
use crate::wire::unescape_code;
use crate::wire::wire;
use crate::wire::wire_arg;
use crate::wire::wire_args;
use crate::wire::wire_line;
use crate::wire::wire_mid;
use crate::wire::words;
use crate::wire::Stop;
use crate::wire::BACKSLASH;
use crate::wire::CLOSE;
use crate::wire::MAX_MSG_SIZE;
use crate::wire::NEWLINE;
use crate::wire::OPEN;
use crate::wire::RETURN;
use crate::wire::SPACE;

verus! {

/// Whether a message has a name and an identifier that the wire format can carry.
pub open spec fn well_named(m: MessageView) -> bool {
    &&& is_name(m.name)
    &&& m.mid matches Some(mid) ==> all_digits(mid)
}

/// Whether a byte can stand in a written argument.
pub open spec fn is_argument_byte(b: u8) -> bool {
    !is_blank(b) && b != NEWLINE && b != RETURN
}

/// The words that arguments are written as.
pub open spec fn wire_words(args: Seq<Seq<u8>>) -> Seq<Seq<u8>> {
    args.map_values(|a: Seq<u8>| wire_arg(a))
}

/// The bytes that messages are written as, one behind the other.
pub open spec fn wire_all(ms: Seq<MessageView>) -> Seq<u8>
    decreases ms.len(),
{
    if ms.len() == 0 {
        seq![]
    } else {
        wire(ms[0]) + wire_all(ms.skip(1))
    }
}

/// Reading an escaped argument gives the argument back, whatever its bytes are.
pub proof fn unescape_undoes_escape(data: Seq<u8>)
    ensures
        unescape(escape(data)) == Ok::<Seq<u8>, char>(data),
    decreases data.len(),
{
    if data.len() > 0 {
        let b = data[0];
        let tail = escape(data.skip(1));
        let whole = escape(data);
        unescape_undoes_escape(data.skip(1));
        match escape_code(b) {
            Some(code) => {
                assert(whole[0] == BACKSLASH && whole[1] == code);
                assert(whole.skip(2) =~= tail);
                assert(unescape_code(code) == Some(seq![b]));
            },
            None => {
                assert(whole[0] == b);
                assert(whole.skip(1) =~= tail);
            },
        }
        assert(unescape(whole) == before(seq![b], unescape(tail)));
        assert(seq![b] + data.skip(1) =~= data);
    } else {
        assert(data =~= seq![]);
    }
}

/// An escaped argument holds no blank, no newline and no carriage return.
proof fn lemma_escape_bytes(data: Seq<u8>)
    ensures
        forall|i: int| 0 <= i < escape(data).len() ==> is_argument_byte(#[trigger] escape(data)[i]),
        data.len() > 0 ==> escape(data).len() > 0,
    decreases data.len(),
{
    if data.len() > 0 {
        lemma_escape_bytes(data.skip(1));
        let tail = escape(data.skip(1));
        let head = escape_byte(data[0]);
        assert forall|i: int| 0 <= i < escape(data).len() implies is_argument_byte(
            #[trigger] escape(data)[i],
        ) by {
            if i >= head.len() {
                assert(escape(data)[i] == tail[i - head.len()]);
            }
        }
    }
}

/// A written argument is a word that reads as the argument.
proof fn lemma_wire_arg(arg: Seq<u8>)
    ensures
        wire_arg(arg).len() > 0,
        forall|i: int|
            0 <= i < wire_arg(arg).len() ==> is_argument_byte(#[trigger] wire_arg(arg)[i]),
        unescape(wire_arg(arg)) == Ok::<Seq<u8>, char>(arg),
{
    if arg.len() == 0 {
        let w = wire_arg(arg);
        assert(w.skip(2) =~= Seq::<u8>::empty());
        assert(unescape(w.skip(2)) == Ok::<Seq<u8>, char>(seq![]));
        assert(Seq::<u8>::empty() + Seq::<u8>::empty() =~= arg);
    } else {
        lemma_escape_bytes(arg);
        unescape_undoes_escape(arg);
    }
}

/// The words of written arguments are the written arguments.
proof fn lemma_words_of_wire_args(args: Seq<Seq<u8>>)
    ensures
        words(wire_args(args)) == wire_words(args),
    decreases args.len(),
{
    if args.len() == 0 {
        assert(wire_words(args) =~= seq![]);
    } else {
        let w = wire_arg(args[0]);
        let tail = wire_args(args.skip(1));
        let s = wire_args(args);
        lemma_wire_arg(args[0]);
        lemma_words_of_wire_args(args.skip(1));
        let t = s.skip(1);
        assert(t =~= w + tail);
        assert(t[0] == w[0]);
        assert forall|i: int| 0 <= i < w.len() implies !stops(Stop::Blank, #[trigger] t[i]) by {
            assert(t[i] == w[i]);
        }
        if tail.len() > 0 {
            assert(tail[0] == SPACE);
            assert(t[w.len() as int] == SPACE);
        }
        lemma_position_is(t, Stop::Blank, w.len() as int);
        assert(t.take(w.len() as int) =~= w);
        assert(t.skip(w.len() as int) =~= tail);
        assert(words(s) == words(t));
        assert(wire_words(args) =~= seq![w] + wire_words(args.skip(1)));
    }
}

/// Written arguments read as the arguments.
proof fn lemma_read_wire_words(args: Seq<Seq<u8>>)
    ensures
        read_args(wire_words(args)) == Ok::<Seq<Seq<u8>>, char>(args),
    decreases args.len(),
{
    let ws = wire_words(args);
    if args.len() == 0 {
        assert(args =~= seq![]);
    } else {
        lemma_wire_arg(args[0]);
        lemma_read_wire_words(args.skip(1));
        assert(ws.skip(1) =~= wire_words(args.skip(1)));
        assert(seq![args[0]] + args.skip(1) =~= args);
    }
}

/// The bytes of an ASCII text are its characters.
proof fn lemma_ascii(s: Seq<char>)
    requires
        forall|i: int| 0 <= i < s.len() ==> is_name_char(#[trigger] s[i]),
    ensures
        encode_utf8(s).len() == s.len(),
        forall|i: int| 0 <= i < s.len() ==> #[trigger] encode_utf8(s)[i] == s[i] as u8,
{
    assert(is_ascii_chars(s)) by {
        assert forall|i: int| 0 <= i < s.len() implies '\0' <= #[trigger] s[i] <= '\u{7f}' by {
            assert(is_name_char(s[i]));
        }
    }
    is_ascii_chars_encode_utf8(s);
}

/// A written name reads as the name, and the scan for its end finds it.
pub proof fn lemma_name(name: Seq<char>, tail: Seq<u8>)
    requires
        is_name(name),
        tail.len() > 0 ==> stops(Stop::Name, tail[0]),
    ensures
        read_name(encode_utf8(name)) == Ok::<Seq<char>, MessageErrorView>(name),
        position(encode_utf8(name) + tail, Stop::Name) == encode_utf8(name).len(),
{
    let bytes = encode_utf8(name);
    lemma_ascii(name);
    encode_utf8_valid_utf8(name);
    encode_utf8_decode_utf8(name);
    let s = bytes + tail;
    assert forall|i: int| 0 <= i < bytes.len() implies !stops(Stop::Name, #[trigger] s[i]) by {
        assert(is_name_char(name[i]));
        assert(s[i] == bytes[i]);
    }
    lemma_position_is(s, Stop::Name, bytes.len() as int);
}

/// A written identifier reads as the identifier.
pub proof fn lemma_mid(mid: Option<Seq<char>>, tail: Seq<u8>)
    requires
        mid matches Some(m) ==> all_digits(m),
        tail.len() > 0 ==> tail[0] != OPEN,
    ensures
        read_mid(wire_mid(mid) + tail) == Ok::<(Option<Seq<char>>, Seq<u8>), MessageErrorView>(
            (mid, tail),
        ),
{
    let s = wire_mid(mid) + tail;
    match mid {
        None => {
            assert(s =~= tail);
        },
        Some(m) => {
            let bytes = encode_utf8(m);
            assert forall|i: int| 0 <= i < m.len() implies is_name_char(#[trigger] m[i]) by {
                assert(is_digit(m[i]));
            }
            lemma_ascii(m);
            encode_utf8_valid_utf8(m);
            encode_utf8_decode_utf8(m);
            let inner = s.skip(1);
            let n = bytes.len() as int;
            assert(s[0] == OPEN);
            assert(inner =~= bytes + (seq![CLOSE] + tail));
            assert forall|i: int| 0 <= i < n implies !stops(Stop::Bracket, #[trigger] inner[i]) by {
                assert(is_digit(m[i]));
                assert(inner[i] == bytes[i]);
            }
            assert(inner[n] == CLOSE);
            lemma_position_is(inner, Stop::Bracket, n);
            assert(inner.take(n) =~= bytes);
            assert(inner.skip(n + 1) =~= tail);
        },
    }
}

/// Reading the line that a message is written as gives the message back, whatever bytes its
/// arguments hold: its name, its identifier and every argument.
pub proof fn parse_undoes_to_bytes(m: MessageView)
    requires
        well_named(m),
        wire_line(m).len() <= MAX_MSG_SIZE,
    ensures
        read_line(wire_line(m)) == Ok::<MessageView, MessageErrorView>(m),
{
    let line = wire_line(m);
    let args = wire_args(m.arguments);
    let after_name = wire_mid(m.mid) + args;
    let rest = line.skip(1);
    let name = encode_utf8(m.name);
    assert(args.len() > 0 ==> args[0] == SPACE);
    assert(after_name.len() > 0 ==> stops(Stop::Name, after_name[0])) by {
        match m.mid {
            None => {
                assert(after_name =~= args);
            },
            Some(mid) => {
                assert(after_name[0] == OPEN);
            },
        }
    }
    assert(rest =~= name + after_name);
    lemma_name(m.name, after_name);
    let n = position(rest, Stop::Name);
    assert(rest.take(n) =~= name);
    assert(rest.skip(n) =~= after_name);
    lemma_mid(m.mid, args);
    lemma_words_of_wire_args(m.arguments);
    lemma_read_wire_words(m.arguments);
    assert(line[0] == m.mtype.prefix_byte());
    assert(MessageType::of_char(line[0] as char) == Some(m.mtype));
}

/// Whatever line a message was read from, the message has a name and an identifier that it can be
/// written with again.
pub proof fn parsed_messages_are_well_named(line: Seq<u8>, m: MessageView)
    requires
        read_line(line) == Ok::<MessageView, MessageErrorView>(m),
    ensures
        well_named(m),
{
}

/// The bytes of written arguments hold no newline and no carriage return.
proof fn lemma_wire_args_bytes(args: Seq<Seq<u8>>)
    ensures
        forall|i: int|
            0 <= i < wire_args(args).len() ==> (#[trigger] wire_args(args)[i]) != NEWLINE
                && wire_args(args)[i] != RETURN,
    decreases args.len(),
{
    if args.len() > 0 {
        lemma_wire_arg(args[0]);
        lemma_wire_args_bytes(args.skip(1));
        let head = seq![SPACE] + wire_arg(args[0]);
        let tail = wire_args(args.skip(1));
        let s = wire_args(args);
        assert forall|i: int| 0 <= i < s.len() implies (#[trigger] s[i]) != NEWLINE && s[i]
            != RETURN by {
            if i >= head.len() {
                assert(s[i] == tail[i - head.len()]);
            } else if i > 0 {
                assert(s[i] == wire_arg(args[0])[i - 1]);
                assert(is_argument_byte(wire_arg(args[0])[i - 1]));
            }
        }
    }
}

/// The line that a message is written as holds no newline and no carriage return: the newline
/// behind it is the only one, and ends the message.
pub proof fn message_is_one_line(m: MessageView)
    requires
        well_named(m),
    ensures
        forall|i: int|
            0 <= i < wire_line(m).len() ==> (#[trigger] wire_line(m)[i]) != NEWLINE
                && wire_line(m)[i] != RETURN,
        position(wire(m), Stop::Newline) == wire_line(m).len(),
{
    let line = wire_line(m);
    let name = encode_utf8(m.name);
    let mid = wire_mid(m.mid);
    let args = wire_args(m.arguments);
    lemma_ascii(m.name);
    lemma_wire_args_bytes(m.arguments);
    if let Some(digits) = m.mid {
        assert forall|i: int| 0 <= i < digits.len() implies is_name_char(#[trigger] digits[i]) by {
            assert(is_digit(digits[i]));
        }
        lemma_ascii(digits);
    }
    assert forall|i: int| 0 <= i < line.len() implies (#[trigger] line[i]) != NEWLINE && line[i]
        != RETURN by {
        if i == 0 {
        } else if i < 1 + name.len() {
            assert(line[i] == name[i - 1]);
            assert(is_name_char(m.name[i - 1]));
        } else if i < 1 + name.len() + mid.len() {
            let k = i - 1 - name.len();
            assert(line[i] == mid[k]);
            let digits = m.mid->0;
            if 0 < k < mid.len() - 1 {
                assert(mid[k] == encode_utf8(digits)[k - 1]);
                assert(is_digit(digits[k - 1]));
            }
        } else {
            assert(line[i] == args[i - 1 - name.len() - mid.len()]);
        }
    }
    let s = wire(m);
    assert forall|i: int| 0 <= i < line.len() implies !stops(Stop::Newline, #[trigger] s[i]) by {
        assert(s[i] == line[i]);
    }
    lemma_position_is(s, Stop::Newline, line.len() as int);
}

/// A message at the front of a stream is the first that is read, whole and alone, and the rest of
/// the stream reads as it would without it.
pub proof fn stream_reads_front_message(m: MessageView, rest: Seq<u8>)
    requires
        well_named(m),
        wire_line(m).len() <= MAX_MSG_SIZE,
    ensures
        stream_messages(wire(m) + rest) == seq![Ok::<MessageView, MessageErrorView>(m)]
            + stream_messages(rest),
        stream_remainder(wire(m) + rest) == stream_remainder(rest),
{
    let data = wire(m) + rest;
    let line = wire_line(m);
    let n = line.len() as int;
    message_is_one_line(m);
    assert forall|i: int| 0 <= i < n implies !stops(Stop::Newline, #[trigger] data[i]) by {
        assert(data[i] == line[i]);
    }
    assert(data[n] == NEWLINE);
    lemma_position_is(data, Stop::Newline, n);
    assert(data.take(n) =~= line);
    assert(data.skip(n + 1) =~= rest);
    assert(line.last() == line[n - 1]);
    assert(strip_return(line) == line);
    parse_undoes_to_bytes(m);
}

/// A stream of written messages reads as those messages, in order.
pub proof fn stream_reads_messages(ms: Seq<MessageView>, rest: Seq<u8>)
    requires
        forall|i: int|
            0 <= i < ms.len() ==> well_named(#[trigger] ms[i]) && wire_line(ms[i]).len()
                <= MAX_MSG_SIZE,
    ensures
        stream_messages(wire_all(ms) + rest) == ms.map_values(
            |m: MessageView| Ok::<MessageView, MessageErrorView>(m),
        ) + stream_messages(rest),
        stream_remainder(wire_all(ms) + rest) == stream_remainder(rest),
    decreases ms.len(),
{
    let oks = ms.map_values(|m: MessageView| Ok::<MessageView, MessageErrorView>(m));
    if ms.len() == 0 {
        assert(wire_all(ms) + rest =~= rest);
        assert(oks + stream_messages(rest) =~= stream_messages(rest));
    } else {
        let tail = ms.skip(1);
        assert forall|i: int| 0 <= i < tail.len() implies well_named(#[trigger] tail[i])
            && wire_line(tail[i]).len() <= MAX_MSG_SIZE by {
            assert(tail[i] == ms[i + 1]);
        }
        stream_reads_messages(tail, rest);
        assert(well_named(ms[0]));
        stream_reads_front_message(ms[0], wire_all(tail) + rest);
        assert(wire_all(ms) + rest =~= wire(ms[0]) + (wire_all(tail) + rest));
        let tail_oks = tail.map_values(|m: MessageView| Ok::<MessageView, MessageErrorView>(m));
        assert(oks =~= seq![Ok::<MessageView, MessageErrorView>(ms[0])] + tail_oks);
        assert(oks + stream_messages(rest) =~= seq![Ok::<MessageView, MessageErrorView>(ms[0])] + (
        tail_oks + stream_messages(rest)));
    }
}

/// A stream may be cut anywhere: the messages of the first piece, and those of what it left
/// together with the second piece, are the messages of the whole.
pub proof fn stream_may_be_cut(a: Seq<u8>, b: Seq<u8>)
    ensures
        stream_messages(a + b) == stream_messages(a) + stream_messages(stream_remainder(a) + b),
        stream_remainder(a + b) == stream_remainder(stream_remainder(a) + b),
    decreases a.len(),
{
    let n = position(a, Stop::Newline);
    lemma_position(a, Stop::Newline);
    if n < a.len() {
        let s = a + b;
        assert forall|i: int| 0 <= i < n implies !stops(Stop::Newline, #[trigger] s[i]) by {
            assert(s[i] == a[i]);
        }
        assert(s[n] == a[n]);
        lemma_position_is(s, Stop::Newline, n);
        assert(s.take(n) =~= a.take(n));
        assert(s.skip(n + 1) =~= a.skip(n + 1) + b);
        stream_may_be_cut(a.skip(n + 1), b);
        let line = read_stream_line(a.take(n));
        let rest = stream_messages(stream_remainder(a) + b);
        assert(line + (stream_messages(a.skip(n + 1)) + rest) =~= (line + stream_messages(
            a.skip(n + 1),
        )) + rest);
    } else {
        assert(Seq::<Result<MessageView, MessageErrorView>>::empty() + stream_messages(a + b)
            =~= stream_messages(a + b));
    }
}

} // verus!
