//! What holds of lines, byte by byte: how messages are written, what each part of a line is read as,
//! and what is refused.

use vstd::prelude::*;
use vstd::utf8::decode_utf8;
use vstd::utf8::decode_utf8_encode_utf8;
use vstd::utf8::encode_utf8;
use vstd::utf8::encode_utf8_decode_utf8;
use vstd::utf8::encode_utf8_valid_utf8;
use vstd::utf8::is_ascii_chars;
use vstd::utf8::is_ascii_chars_encode_utf8;
use vstd::utf8::valid_utf8;
use crate::decimal::all_digits;
use crate::decimal::is_digit;
use crate::line::received;
use crate::line::trimmed;
use crate::line::ReceivedView;
use crate::message::MessageErrorView;
use crate::message::MessageType;
use crate::message::MessageView;
use crate::server_model::incoming;
use crate::server_model::IncomingView;
use crate::wire::args_before;
use crate::wire::before;
use crate::wire::escape;
use crate::wire::is_blank;
use crate::wire::is_name;
use crate::wire::is_name_char;
use crate::wire::lemma_position;
use crate::wire::lemma_position_is;
use crate::wire::position;
use crate::wire::read_args;
use crate::wire::read_line;
use crate::wire::read_mid;
use crate::wire::stops;
use crate::wire::stream_messages;
use crate::wire::stream_remainder;
use crate::wire::unescape;
use crate::wire::wire;
use crate::wire::wire_args;
use crate::wire::wire_line;
use crate::wire::wire_mid;
use crate::wire::words;
use crate::wire::Stop;
use crate::wire_laws::lemma_mid;
use crate::wire_laws::lemma_name;
use crate::wire_laws::well_named;

verus! {

/// The byte that stands behind a backslash for a byte that cannot stand in an argument: a backslash for
/// itself, `_` for a space, `0`, `n`, `r`, `e` and `t` for the zero byte, newline, carriage return,
/// escape and tab.
pub open spec fn code_of(b: u8) -> Option<u8> {
    if b == 0x5c {
        Some(0x5c)
    } else if b == 0x20 {
        Some(0x5f)
    } else if b == 0x00 {
        Some(0x30)
    } else if b == 0x0a {
        Some(0x6e)
    } else if b == 0x0d {
        Some(0x72)
    } else if b == 0x1b {
        Some(0x65)
    } else if b == 0x09 {
        Some(0x74)
    } else {
        None
    }
}

/// An argument is escaped byte by byte: each byte that cannot stand in one becomes a backslash and its
/// code, and every other byte stays.
pub proof fn arguments_are_escaped_byte_by_byte(a: Seq<u8>, c: Seq<u8>, b: u8)
    ensures
        escape(Seq::<u8>::empty()) == Seq::<u8>::empty(),
        escape(seq![b]) == (match code_of(b) {
            Some(code) => seq![0x5cu8, code],
            None => seq![b],
        }),
        escape(a + c) == escape(a) + escape(c),
    decreases a.len(),
{
    let none = Seq::<u8>::empty();
    assert(escape(none) =~= seq![]);
    assert(seq![b].skip(1) =~= none);
    assert(escape(seq![b]) =~= (match code_of(b) {
        Some(code) => seq![0x5cu8, code],
        None => seq![b],
    }));
    if a.len() == 0 {
        assert(a + c =~= c);
        assert(escape(a) + escape(c) =~= escape(c));
    } else {
        arguments_are_escaped_byte_by_byte(a.skip(1), c, b);
        assert((a + c).skip(1) =~= a.skip(1) + c);
        assert((a + c)[0] == a[0]);
        assert(escape(a + c) =~= escape(a) + escape(c));
    }
}

/// Arguments are written one behind the other, each behind a space: in its escaped form, or, where it
/// is empty, as a backslash and an at sign.
pub proof fn arguments_are_written_one_by_one(a: Seq<Seq<u8>>, c: Seq<Seq<u8>>, arg: Seq<u8>)
    ensures
        wire_args(Seq::<Seq<u8>>::empty()) == Seq::<u8>::empty(),
        wire_args(seq![arg]) == (if arg.len() == 0 {
            seq![0x20u8, 0x5c, 0x40]
        } else {
            seq![0x20u8] + escape(arg)
        }),
        wire_args(a + c) == wire_args(a) + wire_args(c),
    decreases a.len(),
{
    let none = Seq::<Seq<u8>>::empty();
    assert(wire_args(none) =~= seq![]);
    assert(seq![arg].skip(1) =~= none);
    assert(wire_args(seq![arg]) =~= (if arg.len() == 0 {
        seq![0x20u8, 0x5c, 0x40]
    } else {
        seq![0x20u8] + escape(arg)
    }));
    if a.len() == 0 {
        assert(a + c =~= c);
        assert(wire_args(a) + wire_args(c) =~= wire_args(c));
    } else {
        arguments_are_written_one_by_one(a.skip(1), c, arg);
        assert((a + c).skip(1) =~= a.skip(1) + c);
        assert((a + c)[0] == a[0]);
        assert(wire_args(a + c) =~= wire_args(a) + wire_args(c));
    }
}

/// The byte that a message of a type starts with: `?`, `!` or `#`.
pub open spec fn mark_of(t: MessageType) -> u8 {
    match t {
        MessageType::Request => 0x3f,
        MessageType::Reply => 0x21,
        MessageType::Inform => 0x23,
    }
}

/// A message is written as the mark of its type, its name, its identifier in brackets, if it has one,
/// its arguments, and a newline.
pub proof fn messages_are_written_part_by_part(m: MessageView)
    ensures
        wire(m) == seq![mark_of(m.mtype)] + encode_utf8(m.name) + (match m.mid {
            Some(mid) => seq![0x5bu8] + encode_utf8(mid) + seq![0x5du8],
            None => Seq::empty(),
        }) + wire_args(m.arguments) + seq![0x0au8],
{
    assert(m.mtype.prefix_byte() == mark_of(m.mtype));
    assert(wire(m) =~= seq![mark_of(m.mtype)] + encode_utf8(m.name) + wire_mid(m.mid) + wire_args(
        m.arguments,
    ) + seq![0x0au8]);
}

/// Each of the three marks stands for its type, and no other character for any.
pub proof fn marks_stand_for_types(c: char, t: MessageType)
    ensures
        MessageType::of_char(c) == (if c == '?' {
            Some(MessageType::Request)
        } else if c == '!' {
            Some(MessageType::Reply)
        } else if c == '#' {
            Some(MessageType::Inform)
        } else {
            None
        }),
        MessageType::of_char(t.prefix_char()) == Some(t),
{
}

/// An argument is read byte by byte: a byte that is no backslash is read as itself, a backslash with a
/// code behind it as the byte of the code, and one with an at sign behind it as nothing. A backslash
/// with anything else behind it is refused by what stands there, one with nothing behind it by a
/// space.
pub proof fn arguments_are_read_byte_by_byte(b: u8, code: u8, rest: Seq<u8>)
    ensures
        unescape(Seq::<u8>::empty()) == Ok::<Seq<u8>, char>(Seq::empty()),
        b != 0x5c ==> unescape(seq![b] + rest) == before(seq![b], unescape(rest)),
        code_of(b) == Some(code) ==> unescape(seq![0x5cu8, code] + rest) == before(
            seq![b],
            unescape(rest),
        ),
        unescape(seq![0x5cu8, 0x40u8] + rest) == unescape(rest),
        code != 0x40 && (forall|x: u8| code_of(x) != Some(code)) ==> unescape(
            seq![0x5cu8, code] + rest,
        ) == Err::<Seq<u8>, char>(code as char),
        unescape(seq![0x5cu8]) == Err::<Seq<u8>, char>(' '),
{
    let plain = seq![b] + rest;
    let coded = seq![0x5cu8, code] + rest;
    let empty = seq![0x5cu8, 0x40u8] + rest;
    assert(plain.skip(1) =~= rest);
    assert(coded.skip(2) =~= rest);
    assert(empty.skip(2) =~= rest);
    assert(coded[0] == 0x5c && coded[1] == code);
    assert(empty[0] == 0x5c && empty[1] == 0x40);
    if unescape(rest) is Ok {
        assert(Seq::<u8>::empty() + unescape(rest)->Ok_0 =~= unescape(rest)->Ok_0);
    }
    if code != 0x40 && (forall|x: u8| code_of(x) != Some(code)) {
        assert(code_of(0x5c) != Some(code));
        assert(code_of(0x20) != Some(code));
        assert(code_of(0x00) != Some(code));
        assert(code_of(0x0a) != Some(code));
        assert(code_of(0x0d) != Some(code));
        assert(code_of(0x1b) != Some(code));
        assert(code_of(0x09) != Some(code));
    }
}

/// Whether bytes hold neither a space nor a tab.
pub open spec fn is_unbroken(s: Seq<u8>) -> bool {
    forall|i: int| 0 <= i < s.len() ==> (#[trigger] s[i]) != 0x20 && s[i] != 0x09
}

/// Bytes without a space and a tab are one word, unless there are none.
pub proof fn unbroken_bytes_are_one_word(s: Seq<u8>)
    requires
        is_unbroken(s),
    ensures
        s.len() == 0 ==> words(s) == Seq::<Seq<u8>>::empty(),
        s.len() > 0 ==> words(s) == seq![s],
{
    if s.len() > 0 {
        lemma_position_is(s, Stop::Blank, s.len() as int);
        assert(s.take(s.len() as int) =~= s);
        assert(s.skip(s.len() as int) =~= Seq::<u8>::empty());
        assert(words(Seq::<u8>::empty()) =~= seq![]);
        assert(s[0] != 0x20 && s[0] != 0x09);
        assert(words(s) =~= seq![s]);
    }
}

/// A space, and a tab, part words: the words are those before it and those behind it.
pub proof fn blanks_part_words(a: Seq<u8>, blank: u8, b: Seq<u8>)
    requires
        blank == 0x20 || blank == 0x09,
    ensures
        words(a + seq![blank] + b) == words(a) + words(b),
    decreases a.len(),
{
    let s = a + seq![blank] + b;
    if a.len() == 0 {
        assert(s[0] == blank);
        assert(s.skip(1) =~= b);
        assert(words(a) + words(b) =~= words(b));
    } else if is_blank(a[0]) {
        assert(s[0] == a[0]);
        assert(s.skip(1) =~= a.skip(1) + seq![blank] + b);
        blanks_part_words(a.skip(1), blank, b);
    } else {
        let n = position(a, Stop::Blank);
        lemma_position(a, Stop::Blank);
        assert(n > 0) by {
            assert(position(a, Stop::Blank) == 1 + position(a.skip(1), Stop::Blank));
            lemma_position(a.skip(1), Stop::Blank);
        }
        assert forall|i: int| 0 <= i < n implies !stops(Stop::Blank, #[trigger] s[i]) by {
            assert(s[i] == a[i]);
        }
        assert(s[n] == (if n < a.len() { a[n] } else { blank }));
        lemma_position_is(s, Stop::Blank, n);
        assert(s[0] == a[0]);
        assert(s.take(n) =~= a.take(n));
        assert(s.skip(n) =~= a.skip(n) + seq![blank] + b);
        blanks_part_words(a.skip(n), blank, b);
        let first = seq![a.take(n)];
        assert(first + (words(a.skip(n)) + words(b)) =~= (first + words(a.skip(n))) + words(b));
    }
}

/// Words are read one by one, each as an argument; the first that cannot be read decides the error.
pub proof fn words_are_read_one_by_one(w: Seq<u8>, rest: Seq<Seq<u8>>)
    ensures
        read_args(Seq::<Seq<u8>>::empty()) == Ok::<Seq<Seq<u8>>, char>(Seq::empty()),
        read_args(seq![w] + rest) == (match unescape(w) {
            Ok(arg) => args_before(seq![arg], read_args(rest)),
            Err(c) => Err(c),
        }),
{
    assert((seq![w] + rest).skip(1) =~= rest);
    assert((seq![w] + rest)[0] == w);
}

/// Behind a written message without arguments, whatever starts with a space or a tab is read as its
/// arguments: its words, one by one, however many blanks stand between them.
pub proof fn arguments_follow_the_head(m: MessageView, tail: Seq<u8>)
    requires
        well_named(m),
        m.arguments.len() == 0,
        tail.len() > 0,
        tail[0] == 0x20 || tail[0] == 0x09,
        wire_line(m).len() + tail.len() <= 2097152,
    ensures
        read_line(wire_line(m) + tail) == (match read_args(words(tail)) {
            Ok(arguments) => Ok(MessageView { arguments, ..m }),
            Err(c) => Err(MessageErrorView::InvalidEscape(c)),
        }),
{
    let head = wire_line(m);
    let line = head + tail;
    let rest = line.skip(1);
    let name = encode_utf8(m.name);
    let after = wire_mid(m.mid) + tail;
    assert(m.arguments =~= seq![]);
    assert(wire_args(m.arguments) =~= Seq::<u8>::empty());
    assert(rest =~= name + after);
    assert(line[0] == m.mtype.prefix_byte());
    lemma_name(m.name, after);
    assert(rest.take(name.len() as int) =~= name);
    assert(rest.skip(name.len() as int) =~= after);
    lemma_mid(m.mid, tail);
    assert(MessageType::of_char(line[0] as char) == Some(m.mtype));
}

/// Whether bytes make a name: a letter, and behind it letters, digits and dashes.
pub open spec fn is_name_bytes(s: Seq<u8>) -> bool {
    &&& s.len() > 0
    &&& 0x61 <= s[0] <= 0x7a || 0x41 <= s[0] <= 0x5a
    &&& forall|i: int|
        0 <= i < s.len() ==> 0x61 <= (#[trigger] s[i]) <= 0x7a || 0x41 <= s[i] <= 0x5a || 0x30
            <= s[i] <= 0x39 || s[i] == 0x2d
}

/// Bytes of this kind are the text of these characters.
proof fn lemma_ascii_bytes(s: Seq<u8>)
    requires
        forall|i: int| 0 <= i < s.len() ==> (#[trigger] s[i]) < 0x80,
    ensures
        valid_utf8(s),
        decode_utf8(s).len() == s.len(),
        forall|i: int| 0 <= i < s.len() ==> (#[trigger] decode_utf8(s)[i]) == s[i] as char,
{
    let chars = s.map_values(|b: u8| b as char);
    assert(is_ascii_chars(chars)) by {
        assert forall|i: int| 0 <= i < chars.len() implies '\0' <= #[trigger] chars[i]
            <= '\u{7f}' by {
            assert(s[i] < 0x80);
        }
    }
    is_ascii_chars_encode_utf8(chars);
    let bytes = encode_utf8(chars);
    assert(bytes =~= s) by {
        assert forall|i: int| 0 <= i < s.len() implies bytes[i] == s[i] by {
            assert(bytes[i] == chars[i] as u8);
            assert(s[i] < 0x80);
        }
    }
    encode_utf8_valid_utf8(chars);
    encode_utf8_decode_utf8(chars);
}

/// A text whose characters are all below the 128th has these as its bytes.
proof fn lemma_ascii_text(s: Seq<u8>)
    requires
        valid_utf8(s),
        forall|i: int|
            0 <= i < decode_utf8(s).len() ==> '\0' <= (#[trigger] decode_utf8(s)[i]) <= '\u{7f}',
    ensures
        s.len() == decode_utf8(s).len(),
        forall|i: int| 0 <= i < s.len() ==> (#[trigger] s[i]) == decode_utf8(s)[i] as u8,
{
    let chars = decode_utf8(s);
    decode_utf8_encode_utf8(s);
    assert(is_ascii_chars(chars)) by {
        assert forall|i: int| 0 <= i < chars.len() implies '\0' <= #[trigger] chars[i]
            <= '\u{7f}' by {
            assert('\0' <= decode_utf8(s)[i] <= '\u{7f}');
        }
    }
    is_ascii_chars_encode_utf8(chars);
}

/// Bytes make a name if and only if they are the text of one.
proof fn lemma_name_bytes(s: Seq<u8>)
    ensures
        is_name_bytes(s) <==> valid_utf8(s) && is_name(decode_utf8(s)),
{
    if is_name_bytes(s) {
        assert forall|i: int| 0 <= i < s.len() implies (#[trigger] s[i]) < 0x80 by {}
        lemma_ascii_bytes(s);
        let name = decode_utf8(s);
        assert forall|i: int| 0 <= i < name.len() implies is_name_char(#[trigger] name[i]) by {
            assert(name[i] == s[i] as char);
        }
        assert(name[0] == s[0] as char);
    }
    if valid_utf8(s) && is_name(decode_utf8(s)) {
        let name = decode_utf8(s);
        assert forall|i: int| 0 <= i < name.len() implies '\0' <= (#[trigger] name[i]) <= '\u{7f}' by {
            assert(is_name_char(name[i]));
        }
        lemma_ascii_text(s);
        assert forall|i: int| 0 <= i < s.len() implies 0x61 <= (#[trigger] s[i]) <= 0x7a || 0x41
            <= s[i] <= 0x5a || 0x30 <= s[i] <= 0x39 || s[i] == 0x2d by {
            assert(is_name_char(name[i]));
            assert(s[i] == name[i] as u8);
        }
        assert(s[0] == name[0] as u8);
    }
}

/// A line of a mark and bytes that hold no blank and no bracket is a message, without an identifier and
/// without arguments, if and only if the bytes make a name.
pub proof fn names_are_letters_digits_and_dashes(t: MessageType, name: Seq<u8>)
    requires
        name.len() < 2097152,
        is_unbroken(name),
        forall|i: int| 0 <= i < name.len() ==> (#[trigger] name[i]) != 0x5b,
    ensures
        read_line(seq![mark_of(t)] + name) is Ok <==> is_name_bytes(name),
        is_name_bytes(name) ==> read_line(seq![mark_of(t)] + name) == Ok::<
            MessageView,
            MessageErrorView,
        >(
            MessageView {
                mtype: t,
                name: decode_utf8(name),
                mid: None,
                arguments: Seq::empty(),
            },
        ),
        !is_name_bytes(name) ==> read_line(seq![mark_of(t)] + name)->Err_0 is InvalidName,
        !is_name_bytes(name) && valid_utf8(name) ==> read_line(seq![mark_of(t)] + name)->Err_0
            == MessageErrorView::InvalidName(decode_utf8(name)),
{
    let line = seq![mark_of(t)] + name;
    let rest = line.skip(1);
    assert(rest =~= name);
    assert(line[0] == mark_of(t));
    assert(MessageType::of_char(line[0] as char) == Some(t));
    assert forall|i: int| 0 <= i < name.len() implies !stops(Stop::Name, #[trigger] name[i]) by {}
    lemma_position_is(rest, Stop::Name, name.len() as int);
    assert(rest.take(name.len() as int) =~= name);
    assert(rest.skip(name.len() as int) =~= Seq::<u8>::empty());
    assert(words(Seq::<u8>::empty()) =~= Seq::<Seq<u8>>::empty());
    lemma_name_bytes(name);
}

/// An identifier in brackets is read if and only if it is made of digits, and whatever stands behind the
/// brackets is left to be read as arguments. An opening bracket that is never closed is refused.
pub proof fn identifiers_are_digits_in_brackets(id: Seq<u8>, tail: Seq<u8>)
    requires
        forall|i: int| 0 <= i < id.len() ==> (#[trigger] id[i]) != 0x5d,
    ensures
        ({
            let digits = forall|i: int| 0 <= i < id.len() ==> 0x30 <= (#[trigger] id[i]) <= 0x39;
            let read = read_mid(seq![0x5bu8] + id + seq![0x5du8] + tail);
            &&& read is Ok <==> digits
            &&& digits ==> read == Ok::<(Option<Seq<char>>, Seq<u8>), MessageErrorView>(
                (Some(decode_utf8(id)), tail),
            )
            &&& !digits ==> read->Err_0 is InvalidMid
            &&& !digits && valid_utf8(id) ==> read->Err_0 == MessageErrorView::InvalidMid(
                decode_utf8(id),
            )
        }),
        read_mid(seq![0x5bu8] + id) is Err,
        tail.len() == 0 || tail[0] != 0x5b ==> read_mid(tail) == Ok::<
            (Option<Seq<char>>, Seq<u8>),
            MessageErrorView,
        >((None, tail)),
{
    let s = seq![0x5bu8] + id + seq![0x5du8] + tail;
    let inner = s.skip(1);
    let n = id.len() as int;
    assert(inner =~= id + seq![0x5du8] + tail);
    assert forall|i: int| 0 <= i < n implies !stops(Stop::Bracket, #[trigger] inner[i]) by {
        assert(inner[i] == id[i]);
    }
    lemma_position_is(inner, Stop::Bracket, n);
    assert(inner.take(n) =~= id);
    assert(inner.skip(n + 1) =~= tail);
    let open = seq![0x5bu8] + id;
    assert(open.skip(1) =~= id);
    assert forall|i: int| 0 <= i < n implies !stops(Stop::Bracket, #[trigger] id[i]) by {}
    lemma_position_is(id, Stop::Bracket, n);
    if forall|i: int| 0 <= i < id.len() ==> 0x30 <= (#[trigger] id[i]) <= 0x39 {
        assert forall|i: int| 0 <= i < id.len() implies (#[trigger] id[i]) < 0x80 by {}
        lemma_ascii_bytes(id);
        assert forall|i: int| 0 <= i < id.len() implies is_digit(#[trigger] decode_utf8(id)[i]) by {
            assert(decode_utf8(id)[i] == id[i] as char);
        }
    }
    if valid_utf8(id) && all_digits(decode_utf8(id)) {
        let text = decode_utf8(id);
        assert forall|i: int| 0 <= i < text.len() implies '\0' <= (#[trigger] text[i]) <= '\u{7f}' by {
            assert(is_digit(text[i]));
        }
        lemma_ascii_text(id);
        assert forall|i: int| 0 <= i < id.len() implies 0x30 <= (#[trigger] id[i]) <= 0x39 by {
            assert(is_digit(text[i]));
            assert(id[i] == text[i] as u8);
        }
    }
}

/// An empty line is no message, nor is one of more than two mebibytes, nor one that starts with no mark.
pub proof fn lines_that_are_refused(line: Seq<u8>)
    ensures
        line.len() == 0 ==> read_line(line) == Err::<MessageView, MessageErrorView>(
            MessageErrorView::Empty,
        ),
        line.len() > 2097152 ==> read_line(line) == Err::<MessageView, MessageErrorView>(
            MessageErrorView::TooLarge(line.len()),
        ),
        0 < line.len() <= 2097152 && line[0] != 0x3f && line[0] != 0x21 && line[0] != 0x23
            ==> read_line(line) == Err::<MessageView, MessageErrorView>(
            MessageErrorView::InvalidType(line[0] as char),
        ),
{
    if line.len() > 0 {
        let c = line[0] as char;
        assert(c == '?' <==> line[0] == 0x3f);
        assert(c == '!' <==> line[0] == 0x21);
        assert(c == '#' <==> line[0] == 0x23);
    }
}

/// A stream is read line by line: each line, with the carriage return that may end it taken away, is a
/// message or an error, and an empty one is passed over. What stands behind the last newline is left.
pub proof fn streams_are_read_line_by_line(line: Seq<u8>, rest: Seq<u8>)
    requires
        forall|i: int| 0 <= i < line.len() ==> (#[trigger] line[i]) != 0x0a,
    ensures
        ({
            let data = line + seq![0x0au8] + rest;
            let bare = if line.len() > 0 && line.last() == 0x0d {
                line.drop_last()
            } else {
                line
            };
            let first = if bare.len() == 0 {
                Seq::empty()
            } else {
                seq![read_line(bare)]
            };
            &&& stream_messages(data) == first + stream_messages(rest)
            &&& stream_remainder(data) == stream_remainder(rest)
        }),
        stream_messages(line) == Seq::<Result<MessageView, MessageErrorView>>::empty(),
        stream_remainder(line) == line,
{
    let data = line + seq![0x0au8] + rest;
    let n = line.len() as int;
    assert forall|i: int| 0 <= i < n implies !stops(Stop::Newline, #[trigger] data[i]) by {
        assert(data[i] == line[i]);
    }
    lemma_position_is(data, Stop::Newline, n);
    assert(data.take(n) =~= line);
    assert(data.skip(n + 1) =~= rest);
    assert forall|i: int| 0 <= i < n implies !stops(Stop::Newline, #[trigger] line[i]) by {}
    lemma_position_is(line, Stop::Newline, n);
    assert(stream_messages(line) =~= Seq::empty());
}

/// A line that comes in is read without the newlines that end it, and without the carriage returns
/// before them. What is left is a message or an error, or nothing where nothing is left.
pub proof fn line_ends_are_taken_away(line: Seq<u8>)
    ensures
        received(line.push(0x0a)) == received(line),
        line.len() == 0 || line.last() != 0x0a ==> received(line.push(0x0d)) == received(line),
        line.len() == 0 ==> received(line) == ReceivedView::Nothing,
        line.len() > 0 && line.last() != 0x0a && line.last() != 0x0d ==> received(line) == (
        match read_line(line) {
            Ok(m) => ReceivedView::Message(m),
            Err(e) => ReceivedView::Malformed(e),
        }),
{
    assert(line.push(0x0a).drop_last() =~= line);
    assert(line.push(0x0d).drop_last() =~= line);
    assert(trimmed(line.push(0x0d), 0x0a) == line.push(0x0d));
}

/// Of what a server receives only requests are requests; it passes over other messages and empty
/// lines, and of what is no message it learns why.
pub proof fn servers_read_requests(line: Seq<u8>)
    ensures
        match received(line) {
            ReceivedView::Nothing => incoming(line) == IncomingView::Nothing,
            ReceivedView::Malformed(e) => incoming(line) == IncomingView::Malformed(e),
            ReceivedView::Message(m) => match m.mtype {
                MessageType::Request => incoming(line) == IncomingView::Request(m),
                MessageType::Reply => incoming(line) == IncomingView::Nothing,
                MessageType::Inform => incoming(line) == IncomingView::Nothing,
            },
        },
{
}

/// An argument that is a text is read as that text; one that is none, or is not there, as none. A reply
/// says that all is well if and only if its first argument is the text `ok`.
pub proof fn arguments_are_read_as_texts(m: MessageView, i: int, text: Seq<char>)
    ensures
        m.arg_text(i) == Some(text) <==> 0 <= i < m.arguments.len() && m.arguments[i] == encode_utf8(
            text,
        ),
        m.says_ok() <==> m.arguments.len() > 0 && m.arguments[0] == encode_utf8("ok"@),
{
    encode_utf8_valid_utf8(text);
    encode_utf8_decode_utf8(text);
    encode_utf8_valid_utf8("ok"@);
    encode_utf8_decode_utf8("ok"@);
    if 0 <= i < m.arguments.len() && valid_utf8(m.arguments[i]) {
        decode_utf8_encode_utf8(m.arguments[i]);
    }
    if m.arguments.len() > 0 && valid_utf8(m.arguments[0]) {
        decode_utf8_encode_utf8(m.arguments[0]);
    }
}

/// A message is shown as the line that it is written as, without the newline, where that is a text.
pub proof fn messages_are_shown_as_written(m: MessageView)
    ensures
        valid_utf8(wire_line(m)) ==> encode_utf8(m.shown()).push(0x0a) == wire(m),
        !valid_utf8(wire_line(m)) ==> m.shown() == "<binary>"@,
{
    if valid_utf8(wire_line(m)) {
        decode_utf8_encode_utf8(wire_line(m));
    }
}

/// The reply to a request, and an inform for it, have its name, its identifier and the arguments given.
/// A message that belongs to no request has what was given and no identifier.
pub proof fn answers_keep_name_and_identifier(m: MessageView, arguments: Seq<Seq<u8>>)
    ensures
        MessageView::plain(m.mtype, m.name, arguments) == (MessageView {
            mtype: m.mtype,
            name: m.name,
            mid: None,
            arguments,
        }),
        m.replied(arguments) == (MessageView {
            mtype: MessageType::Reply,
            name: m.name,
            mid: m.mid,
            arguments,
        }),
        m.informed(arguments) == (MessageView {
            mtype: MessageType::Inform,
            name: m.name,
            mid: m.mid,
            arguments,
        }),
{
}

} // verus!
