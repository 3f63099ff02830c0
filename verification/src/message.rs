//! Messages: their parts, how they are built, and how they are written and read.

use vstd::prelude::*;
use vstd::slice::slice_subrange;
use vstd::slice::slice_to_vec;
use vstd::utf8::decode_utf8;
use vstd::utf8::encode_utf8;
use vstd::utf8::valid_utf8;
use crate::decimal::all_digits;
use crate::decimal::is_digit;
use crate::text::chars_of;
use crate::text::str_eq;
use crate::text::utf8_text;
use crate::text::utf8_text_lossy;
use crate::wire::args_before;
use crate::wire::escape_arg_into;
use crate::wire::find;
use crate::wire::is_name;
use crate::wire::is_name_char;
use crate::wire::lemma_position;
use crate::wire::position;
use crate::wire::read_args;
use crate::wire::read_line;
use crate::wire::read_mid;
use crate::wire::read_name;
use crate::wire::read_stream_line;
use crate::wire::stream_messages;
use crate::wire::stream_remainder;
use crate::wire::strip_return;
use crate::wire::unescape_arg;
use crate::wire::wire;
use crate::wire::wire_arg;
use crate::wire::wire_args;
use crate::wire::wire_line;
use crate::wire::wire_mid;
use crate::wire::words;
use crate::wire::Stop;
use crate::wire::AT;
use crate::wire::BACKSLASH;
use crate::wire::CLOSE;
pub use crate::wire::MAX_MSG_SIZE;
use crate::wire::NEWLINE;
use crate::wire::OPEN;
use crate::wire::RETURN;
use crate::wire::SPACE;
use crate::wire::TAB;

verus! {

/// Why a line is not a message.
#[derive(Debug)]
pub enum MessageError {
    /// The line is empty.
    Empty,
    /// The first character names no message type.
    InvalidType(char),
    /// The name is not a letter followed by letters, digits and dashes.
    InvalidName(String),
    /// The identifier is not a run of digits in brackets.
    InvalidMid(String),
    /// The line is longer than a message may be: it has this many bytes.
    TooLarge(usize),
    /// A backslash stands before a character that it cannot stand before.
    InvalidEscape(char),
}

/// A message error as mathematics sees it.
#[verifier::ext_equal]
pub enum MessageErrorView {
    Empty,
    InvalidType(char),
    InvalidName(Seq<char>),
    InvalidMid(Seq<char>),
    TooLarge(nat),
    InvalidEscape(char),
}

impl View for MessageError {
    type V = MessageErrorView;

    open spec fn view(&self) -> MessageErrorView {
        match self {
            MessageError::Empty => MessageErrorView::Empty,
            MessageError::InvalidType(c) => MessageErrorView::InvalidType(*c),
            MessageError::InvalidName(s) => MessageErrorView::InvalidName(s@),
            MessageError::InvalidMid(s) => MessageErrorView::InvalidMid(s@),
            MessageError::TooLarge(n) => MessageErrorView::TooLarge(*n as nat),
            MessageError::InvalidEscape(c) => MessageErrorView::InvalidEscape(*c),
        }
    }
}

/// Message types.
#[derive(Debug, Clone, Copy, PartialEq, Eq, Hash, Structural)]
pub enum MessageType {
    Request,
    Reply,
    Inform,
}

impl MessageType {
    /// The character that a message of this type begins with.
    pub open spec fn prefix_char(self) -> char {
        match self {
            MessageType::Request => '?',
            MessageType::Reply => '!',
            MessageType::Inform => '#',
        }
    }

    /// The byte that a message of this type begins with.
    pub open spec fn prefix_byte(self) -> u8 {
        self.prefix_char() as u8
    }

    /// The type of the messages that begin with `c`.
    pub open spec fn of_char(c: char) -> Option<MessageType> {
        if c == '?' {
            Some(MessageType::Request)
        } else if c == '!' {
            Some(MessageType::Reply)
        } else if c == '#' {
            Some(MessageType::Inform)
        } else {
            None
        }
    }

    /// Get the prefix character for this message type ('?', '!', or '#').
    pub fn prefix(&self) -> (c: char)
        ensures
            c == self.prefix_char(),
    {
        match self {
            MessageType::Request => '?',
            MessageType::Reply => '!',
            MessageType::Inform => '#',
        }
    }

    /// Parse a `MessageType` from its prefix character.
    pub fn from_char(c: char) -> (r: Result<MessageType, MessageError>)
        ensures
            match r {
                Ok(t) => MessageType::of_char(c) == Some(t),
                Err(e) => MessageType::of_char(c) is None && e@ == MessageErrorView::InvalidType(c),
            },
    {
        match c {
            '?' => Ok(MessageType::Request),
            '!' => Ok(MessageType::Reply),
            '#' => Ok(MessageType::Inform),
            _ => Err(MessageError::InvalidType(c)),
        }
    }
}

/// A message as mathematics sees it.
#[verifier::ext_equal]
pub struct MessageView {
    pub mtype: MessageType,
    pub name: Seq<char>,
    pub mid: Option<Seq<char>>,
    pub arguments: Seq<Seq<u8>>,
}

/// A single message.
#[derive(Debug, PartialEq, Eq)]
pub struct Message {
    pub mtype: MessageType,
    pub name: String,
    pub mid: Option<String>,
    pub arguments: Vec<Vec<u8>>,
}

/// The text that an optional string holds.
pub open spec fn opt_text(s: Option<String>) -> Option<Seq<char>> {
    match s {
        Some(t) => Some(t@),
        None => None,
    }
}

/// The bytes that a list of arguments holds.
pub open spec fn args_view(args: Seq<Vec<u8>>) -> Seq<Seq<u8>> {
    args.map_values(|a: Vec<u8>| a@)
}

impl View for Message {
    type V = MessageView;

    open spec fn view(&self) -> MessageView {
        MessageView {
            mtype: self.mtype,
            name: self.name@,
            mid: opt_text(self.mid),
            arguments: args_view(self.arguments@),
        }
    }
}


impl MessageView {
    /// The text of the argument at `index`, where there is one and it is valid UTF-8.
    pub open spec fn arg_text(self, index: int) -> Option<Seq<char>> {
        if 0 <= index < self.arguments.len() && valid_utf8(self.arguments[index]) {
            Some(decode_utf8(self.arguments[index]))
        } else {
            None
        }
    }

    /// A message without an identifier.
    pub open spec fn plain(
        mtype: MessageType,
        name: Seq<char>,
        arguments: Seq<Seq<u8>>,
    ) -> MessageView {
        MessageView { mtype, name, mid: None, arguments }
    }

    /// The reply to this request: its name and its identifier, with these arguments.
    pub open spec fn replied(self, arguments: Seq<Seq<u8>>) -> MessageView {
        MessageView { mtype: MessageType::Reply, arguments, ..self }
    }

    /// The inform that answers this request: its name and its identifier, with these arguments.
    pub open spec fn informed(self, arguments: Seq<Seq<u8>>) -> MessageView {
        MessageView { mtype: MessageType::Inform, arguments, ..self }
    }

    /// Whether the first argument reads "ok".
    pub open spec fn says_ok(self) -> bool {
        self.arg_text(0) == Some("ok"@)
    }

    /// The message as a person reads it.
    pub open spec fn shown(self) -> Seq<char> {
        if valid_utf8(wire_line(self)) {
            decode_utf8(wire_line(self))
        } else {
            "<binary>"@
        }
    }
}

/// The bytes of a list of strings.
pub open spec fn str_args(args: Seq<&str>) -> Seq<Seq<u8>> {
    args.map_values(|s: &str| encode_utf8(s@))
}

/// Copies bytes.
pub fn copy_bytes(bytes: &Vec<u8>) -> (copy: Vec<u8>)
    ensures
        copy@ == bytes@,
{
    slice_to_vec(bytes.as_slice())
}

/// The bytes of a list of strings.
pub fn bytes_of_strs(args: &[&str]) -> (bytes: Vec<Vec<u8>>)
    ensures
        args_view(bytes@) == str_args(args@),
{
    let mut bytes: Vec<Vec<u8>> = Vec::new();
    let mut i: usize = 0;
    while i < args.len()
        invariant
            i <= args@.len(),
            bytes@.len() == i,
            forall|k: int| 0 <= k < i ==> (#[trigger] bytes@[k])@ == encode_utf8(args@[k]@),
        decreases args@.len() - i,
    {
        bytes.push(args[i].as_bytes_vec());
        i = i + 1;
    }
    assert(args_view(bytes@) =~= str_args(args@));
    bytes
}

impl Clone for Message {
    fn clone(&self) -> (copy: Message)
        ensures
            copy@ == self@,
    {
        let mut arguments: Vec<Vec<u8>> = Vec::new();
        let mut i: usize = 0;
        while i < self.arguments.len()
            invariant
                i <= self.arguments@.len(),
                arguments@.len() == i,
                forall|k: int|
                    0 <= k < i ==> (#[trigger] arguments@[k])@ == self.arguments@[k]@,
            decreases self.arguments@.len() - i,
        {
            arguments.push(copy_bytes(&self.arguments[i]));
            i = i + 1;
        }
        assert(args_view(arguments@) =~= args_view(self.arguments@));
        Message {
            mtype: self.mtype,
            name: self.name.clone(),
            mid: self.mid.clone(),
            arguments,
        }
    }
}

impl Message {
    /// Create a new request message.
    pub fn request(name: &str, args: Vec<Vec<u8>>) -> (m: Message)
        ensures
            m@ == MessageView::plain(MessageType::Request, name@, args_view(args@)),
    {
        Message { mtype: MessageType::Request, name: name.to_owned(), mid: None, arguments: args }
    }

    /// Create a new reply message.
    pub fn reply(name: &str, args: Vec<Vec<u8>>) -> (m: Message)
        ensures
            m@ == MessageView::plain(MessageType::Reply, name@, args_view(args@)),
    {
        Message { mtype: MessageType::Reply, name: name.to_owned(), mid: None, arguments: args }
    }

    /// Create a new inform message.
    pub fn inform(name: &str, args: Vec<Vec<u8>>) -> (m: Message)
        ensures
            m@ == MessageView::plain(MessageType::Inform, name@, args_view(args@)),
    {
        Message { mtype: MessageType::Inform, name: name.to_owned(), mid: None, arguments: args }
    }

    /// Create a reply to a given request, preserving the message ID.
    pub fn reply_to_request(req: &Message, args: Vec<Vec<u8>>) -> (m: Message)
        ensures
            m@ == req@.replied(args_view(args@)),
    {
        Message {
            mtype: MessageType::Reply,
            name: req.name.clone(),
            mid: req.mid.clone(),
            arguments: args,
        }
    }

    /// Create an inform in response to a given request, preserving the message ID.
    pub fn reply_inform(req: &Message, args: Vec<Vec<u8>>) -> (m: Message)
        ensures
            m@ == req@.informed(args_view(args@)),
    {
        Message {
            mtype: MessageType::Inform,
            name: req.name.clone(),
            mid: req.mid.clone(),
            arguments: args,
        }
    }

    /// Set the message ID.
    pub fn with_mid(self, mid: &str) -> (m: Message)
        ensures
            m@ == (MessageView { mid: Some(mid@), ..self@ }),
    {
        Message {
            mtype: self.mtype,
            name: self.name,
            mid: Some(mid.to_owned()),
            arguments: self.arguments,
        }
    }

    /// Convenience: create a request with string arguments.
    pub fn request_with_str_args(name: &str, args: &[&str]) -> (m: Message)
        ensures
            m@ == MessageView::plain(MessageType::Request, name@, str_args(args@)),
    {
        Message::request(name, bytes_of_strs(args))
    }

    /// Convenience: create a reply with string arguments.
    pub fn reply_with_str_args(name: &str, args: &[&str]) -> (m: Message)
        ensures
            m@ == MessageView::plain(MessageType::Reply, name@, str_args(args@)),
    {
        Message::reply(name, bytes_of_strs(args))
    }

    /// Convenience: create an inform with string arguments.
    pub fn inform_with_str_args(name: &str, args: &[&str]) -> (m: Message)
        ensures
            m@ == MessageView::plain(MessageType::Inform, name@, str_args(args@)),
    {
        Message::inform(name, bytes_of_strs(args))
    }

    /// Get the first argument as a UTF-8 string (typically the status for replies).
    pub fn reply_status(&self) -> (status: Option<&str>)
        ensures
            match status {
                Some(s) => self@.arg_text(0) == Some(s@),
                None => self@.arg_text(0) is None,
            },
    {
        self.arg_str(0)
    }

    /// Check if this is an "ok" reply.
    pub fn is_ok(&self) -> (ok: bool)
        ensures
            ok == self@.says_ok(),
    {
        match self.reply_status() {
            Some(status) => str_eq(status, "ok"),
            None => false,
        }
    }

    /// Get an argument as a UTF-8 string.
    pub fn arg_str(&self, index: usize) -> (text: Option<&str>)
        ensures
            match text {
                Some(s) => self@.arg_text(index as int) == Some(s@),
                None => self@.arg_text(index as int) is None,
            },
    {
        if index < self.arguments.len() {
            assert(self@.arguments[index as int] == self.arguments@[index as int]@);
            utf8_text(self.arguments[index].as_slice())
        } else {
            None
        }
    }

    /// Serialize the message to its wire format bytes.
    pub fn to_bytes(&self) -> (bytes: Vec<u8>)
        ensures
            bytes@ == wire(self@),
    {
        let mut buf: Vec<u8> = Vec::new();
        buf.push(self.mtype.prefix() as u8);
        buf.extend_from_slice(self.name.as_str().as_bytes());
        if let Some(mid) = &self.mid {
            buf.push(OPEN);
            buf.extend_from_slice(mid.as_str().as_bytes());
            buf.push(CLOSE);
        }
        let ghost head = buf@;
        assert(head =~= seq![self.mtype.prefix_byte()] + encode_utf8(self.name@) + wire_mid(
            opt_text(self.mid),
        ));
        let ghost all = self@.arguments;
        let mut i: usize = 0;
        assert(all.skip(0) =~= all);
        while i < self.arguments.len()
            invariant
                i <= self.arguments@.len(),
                all == args_view(self.arguments@),
                buf@ + wire_args(all.skip(i as int)) =~= head + wire_args(all),
            decreases self.arguments@.len() - i,
        {
            let ghost done = buf@;
            let arg = &self.arguments[i];
            assert(all.skip(i as int)[0] == arg@);
            assert(all.skip(i as int).skip(1) =~= all.skip(i + 1));
            buf.push(SPACE);
            if arg.len() == 0 {
                buf.push(BACKSLASH);
                buf.push(AT);
            } else {
                escape_arg_into(&mut buf, arg.as_slice());
            }
            assert(buf@ =~= done + (seq![SPACE] + wire_arg(arg@)));
            assert(buf@ + wire_args(all.skip(i + 1)) =~= done + wire_args(all.skip(i as int)));
            i = i + 1;
        }
        assert(all.skip(i as int) =~= Seq::<Seq<u8>>::empty());
        assert(buf@ =~= head + wire_args(all));
        buf.push(NEWLINE);
        assert(buf@ =~= wire(self@));
        buf
    }

    /// The message as a person reads it: its line, or a marker where that is not valid UTF-8.
    pub fn to_string(&self) -> (text: String)
        ensures
            text@ == self@.shown(),
    {
        let bytes = self.to_bytes();
        let line = slice_subrange(bytes.as_slice(), 0, bytes.len() - 1);
        assert(line@ =~= wire_line(self@));
        match utf8_text(line) {
            Some(text) => text.to_owned(),
            None => "<binary>".to_owned(),
        }
    }
}

/// Parses raw bytes into messages.
pub struct MessageParser;

/// The view of what a line reads as.
pub open spec fn parsed_view(r: Result<Message, MessageError>) -> Result<
    MessageView,
    MessageErrorView,
> {
    match r {
        Ok(m) => Ok(m@),
        Err(e) => Err(e@),
    }
}

/// The view of what the lines of a stream read as.
pub open spec fn parsed_views(rs: Seq<Result<Message, MessageError>>) -> Seq<
    Result<MessageView, MessageErrorView>,
> {
    rs.map_values(|r: Result<Message, MessageError>| parsed_view(r))
}

/// Whether a message may have this name.
fn valid_name(name: &str) -> (ok: bool)
    ensures
        ok == is_name(name@),
{
    let chars = chars_of(name);
    if chars.len() == 0 {
        return false;
    }
    let c = chars[0];
    if !(c >= 'a' && c <= 'z' || c >= 'A' && c <= 'Z') {
        return false;
    }
    let mut i: usize = 0;
    while i < chars.len()
        invariant
            i <= chars@.len(),
            chars@ == name@,
            forall|k: int| 0 <= k < i ==> is_name_char(#[trigger] chars@[k]),
        decreases chars@.len() - i,
    {
        let c = chars[i];
        if !(c >= 'a' && c <= 'z' || c >= 'A' && c <= 'Z' || c >= '0' && c <= '9' || c == '-') {
            assert(!is_name_char(chars@[i as int]));
            return false;
        }
        i = i + 1;
    }
    true
}

/// Whether a string holds decimal digits only.
fn only_digits(text: &str) -> (ok: bool)
    ensures
        ok == all_digits(text@),
{
    let chars = chars_of(text);
    let mut i: usize = 0;
    while i < chars.len()
        invariant
            i <= chars@.len(),
            chars@ == text@,
            forall|k: int| 0 <= k < i ==> is_digit(#[trigger] chars@[k]),
        decreases chars@.len() - i,
    {
        let c = chars[i];
        if !(c >= '0' && c <= '9') {
            assert(!is_digit(chars@[i as int]));
            return false;
        }
        i = i + 1;
    }
    true
}

/// Reads a message name.
fn parse_name(bytes: &[u8]) -> (r: Result<String, MessageError>)
    ensures
        match r {
            Ok(name) => read_name(bytes@) == Ok::<Seq<char>, MessageErrorView>(name@),
            Err(e) => read_name(bytes@) == Err::<Seq<char>, MessageErrorView>(e@),
        },
{
    if bytes.len() == 0 {
        let name = String::new();
        assert(name@ =~= seq![]);
        return Err(MessageError::InvalidName(name));
    }
    match utf8_text(bytes) {
        None => Err(MessageError::InvalidName(utf8_text_lossy(bytes))),
        Some(name) => {
            if valid_name(name) {
                Ok(name.to_owned())
            } else {
                Err(MessageError::InvalidName(name.to_owned()))
            }
        },
    }
}

/// Reads an optional message identifier, and how many bytes it takes.
fn parse_mid(rest: &[u8]) -> (r: Result<(Option<String>, usize), MessageError>)
    ensures
        match r {
            Ok((mid, n)) => n <= rest@.len() && read_mid(rest@) == Ok::<
                (Option<Seq<char>>, Seq<u8>),
                MessageErrorView,
            >((opt_text(mid), rest@.skip(n as int))),
            Err(e) => read_mid(rest@) == Err::<(Option<Seq<char>>, Seq<u8>), MessageErrorView>(e@),
        },
{
    if rest.len() == 0 || rest[0] != OPEN {
        assert(rest@.skip(0) =~= rest@);
        return Ok((None, 0));
    }
    let end = find(rest, 1, Stop::Bracket);
    let ghost inner = rest@.skip(1);
    if end >= rest.len() {
        return Err(MessageError::InvalidMid("unclosed bracket".to_owned()));
    }
    let bytes = slice_subrange(rest, 1, end);
    assert(bytes@ =~= inner.take(end - 1));
    assert(inner.skip(end - 1 + 1) =~= rest@.skip(end + 1));
    match utf8_text(bytes) {
        None => Err(MessageError::InvalidMid(utf8_text_lossy(bytes))),
        Some(mid) => {
            if only_digits(mid) {
                Ok((Some(mid.to_owned()), end + 1))
            } else {
                Err(MessageError::InvalidMid(mid.to_owned()))
            }
        },
    }
}

/// Reads the arguments of a message.
fn parse_args(data: &[u8]) -> (r: Result<Vec<Vec<u8>>, MessageError>)
    ensures
        match r {
            Ok(args) => read_args(words(data@)) == Ok::<Seq<Seq<u8>>, char>(args_view(args@)),
            Err(e) => exists|c: char|
                read_args(words(data@)) == Err::<Seq<Seq<u8>>, char>(c)
                    && e@ == MessageErrorView::InvalidEscape(c),
        },
{
    let mut arguments: Vec<Vec<u8>> = Vec::new();
    let mut i: usize = 0;
    let ghost whole = read_args(words(data@));
    assert(data@.skip(0) =~= data@);
    assert(args_view(arguments@) =~= Seq::<Seq<u8>>::empty());
    assert(whole matches Ok(r) ==> Seq::<Seq<u8>>::empty() + r =~= r);
    while i < data.len()
        invariant
            i <= data@.len(),
            whole == read_args(words(data@)),
            args_before(args_view(arguments@), read_args(words(data@.skip(i as int)))) == whole,
        decreases data@.len() - i,
    {
        let ghost rest = data@.skip(i as int);
        if data[i] == SPACE || data[i] == TAB {
            assert(rest.skip(1) =~= data@.skip(i + 1));
            i = i + 1;
            continue;
        }
        let end = find(data, i, Stop::Blank);
        proof {
            lemma_position(rest, Stop::Blank);
            assert(position(rest, Stop::Blank) == 1 + position(rest.skip(1), Stop::Blank));
            lemma_position(rest.skip(1), Stop::Blank);
        }
        let word = slice_subrange(data, i, end);
        assert(word@ =~= rest.take(end - i));
        assert(rest.skip(end - i) =~= data@.skip(end as int));
        assert(words(rest) == seq![word@] + words(data@.skip(end as int)));
        assert(words(rest)[0] == word@);
        assert(words(rest).skip(1) =~= words(data@.skip(end as int)));
        let ghost done = args_view(arguments@);
        match unescape_arg(word) {
            Err(e) => {
                return Err(e);
            },
            Ok(arg) => {
                let ghost tail = read_args(words(data@.skip(end as int)));
                arguments.push(arg);
                assert(args_view(arguments@) =~= done + seq![arg@]);
                assert(read_args(words(rest)) == args_before(seq![arg@], tail));
                assert(tail matches Ok(r) ==> done + (seq![arg@] + r) =~= args_view(arguments@)
                    + r);
            },
        }
        i = end;
    }
    assert(data@.skip(i as int) =~= Seq::<u8>::empty());
    assert(words(data@.skip(i as int)) =~= Seq::<Seq<u8>>::empty());
    assert(args_view(arguments@) + Seq::<Seq<u8>>::empty() =~= args_view(arguments@));
    Ok(arguments)
}

impl MessageParser {
    /// Parse a single line (without trailing newline) into a Message.
    pub fn parse(line: &[u8]) -> (r: Result<Message, MessageError>)
        ensures
            parsed_view(r) == read_line(line@),
    {
        if line.len() == 0 {
            return Err(MessageError::Empty);
        }
        if line.len() > MAX_MSG_SIZE {
            return Err(MessageError::TooLarge(line.len()));
        }
        let mtype = match MessageType::from_char(line[0] as char) {
            Ok(t) => t,
            Err(e) => {
                return Err(e);
            },
        };
        let ghost rest = line@.skip(1);
        let name_end = find(line, 1, Stop::Name);
        let name_bytes = slice_subrange(line, 1, name_end);
        assert(name_bytes@ =~= rest.take(name_end - 1));
        let name = match parse_name(name_bytes) {
            Ok(n) => n,
            Err(e) => {
                return Err(e);
            },
        };
        let tail = slice_subrange(line, name_end, line.len());
        assert(tail@ =~= rest.skip(name_end - 1));
        let (mid, taken) = match parse_mid(tail) {
            Ok(m) => m,
            Err(e) => {
                return Err(e);
            },
        };
        let arg_data = slice_subrange(tail, taken, tail.len());
        assert(arg_data@ =~= tail@.skip(taken as int));
        match parse_args(arg_data) {
            Ok(arguments) => Ok(Message { mtype, name, mid, arguments }),
            Err(e) => Err(e),
        }
    }

    /// Split a byte stream into lines and parse each one.
    /// Returns parsed messages and any remaining incomplete data.
    pub fn parse_stream(data: &[u8]) -> (r: (Vec<Result<Message, MessageError>>, Vec<u8>))
        ensures
            parsed_views(r.0@) == stream_messages(data@),
            r.1@ == stream_remainder(data@),
    {
        let mut messages: Vec<Result<Message, MessageError>> = Vec::new();
        let mut start: usize = 0;
        let ghost whole = stream_messages(data@);
        assert(data@.skip(0) =~= data@);
        assert(parsed_views(messages@) + whole =~= whole);
        loop
            invariant
                start <= data@.len(),
                whole == stream_messages(data@),
                parsed_views(messages@) + stream_messages(data@.skip(start as int)) == whole,
                stream_remainder(data@.skip(start as int)) == stream_remainder(data@),
            ensures
                start <= data@.len(),
                parsed_views(messages@) == whole,
                data@.skip(start as int) == stream_remainder(data@),
            decreases data@.len() - start,
        {
            let end = find(data, start, Stop::Newline);
            let ghost rest = data@.skip(start as int);
            let ghost n = position(rest, Stop::Newline);
            if end >= data.len() {
                assert(parsed_views(messages@) + Seq::empty() =~= parsed_views(messages@));
                break;
            }
            let full = slice_subrange(data, start, end);
            assert(full@ =~= rest.take(n));
            assert(rest.skip(n + 1) =~= data@.skip(end + 1));
            let line = if full.len() > 0 && full[full.len() - 1] == RETURN {
                slice_subrange(full, 0, full.len() - 1)
            } else {
                full
            };
            assert(line@ =~= strip_return(full@));
            let ghost done = parsed_views(messages@);
            if line.len() > 0 {
                messages.push(MessageParser::parse(line));
            }
            assert(parsed_views(messages@) =~= done + read_stream_line(full@));
            assert(done + (read_stream_line(full@) + stream_messages(data@.skip(end + 1)))
                =~= parsed_views(messages@) + stream_messages(data@.skip(end + 1)));
            start = end + 1;
        }
        let remainder = slice_to_vec(slice_subrange(data, start, data.len()));
        assert(remainder@ =~= data@.skip(start as int));
        (messages, remainder)
    }
}

} // verus!
