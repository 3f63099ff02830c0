//! Lines as they come in from a connection.

use vstd::prelude::*;
use vstd::slice::slice_subrange;
use vstd::slice::slice_to_vec;
use vstd::utf8::encode_utf8;
use crate::message::MessageError;
use crate::message::MessageErrorView;
use crate::message::MessageParser;
use crate::message::MessageView;
use crate::wire::read_line;
use crate::wire::wire;
use crate::wire::wire_line;
use crate::wire::MAX_MSG_SIZE;
use crate::wire::NEWLINE;
use crate::wire::RETURN;
use crate::wire_laws::message_is_one_line;
use crate::wire_laws::parse_undoes_to_bytes;
use crate::wire_laws::well_named;

verus! {

/// Bytes without those of one kind that end them.
pub open spec fn trimmed(s: Seq<u8>, b: u8) -> Seq<u8>
    decreases s.len(),
{
    if s.len() > 0 && s.last() == b {
        trimmed(s.drop_last(), b)
    } else {
        s
    }
}

/// What a line holds.
#[verifier::ext_equal]
pub enum ReceivedView {
    Nothing,
    Malformed(MessageErrorView),
    Message(MessageView),
}

/// What a line holds, without the newlines that end it and the carriage returns before them.
pub open spec fn received(line: Seq<u8>) -> ReceivedView {
    let s = trimmed(trimmed(line, NEWLINE), RETURN);
    if s.len() == 0 {
        ReceivedView::Nothing
    } else {
        match read_line(s) {
            Ok(m) => ReceivedView::Message(m),
            Err(e) => ReceivedView::Malformed(e),
        }
    }
}

/// What a line holds.
pub enum Received {
    /// It is empty.
    Nothing,
    /// It is no message.
    Malformed(MessageError),
    /// It is a message.
    Message(crate::message::Message),
}

impl View for Received {
    type V = ReceivedView;

    open spec fn view(&self) -> ReceivedView {
        match self {
            Received::Nothing => ReceivedView::Nothing,
            Received::Malformed(e) => ReceivedView::Malformed(e@),
            Received::Message(m) => ReceivedView::Message(m@),
        }
    }
}

/// The length of the first `n` bytes without those equal to `b` that end them.
fn trimmed_len(s: &[u8], n: usize, b: u8) -> (len: usize)
    requires
        n <= s@.len(),
    ensures
        len <= n,
        s@.take(len as int) == trimmed(s@.take(n as int), b),
{
    let mut len = n;
    while len > 0 && s[len - 1] == b
        invariant
            len <= n <= s@.len(),
            trimmed(s@.take(len as int), b) == trimmed(s@.take(n as int), b),
        decreases len,
    {
        assert(s@.take(len as int).drop_last() =~= s@.take(len - 1));
        len = len - 1;
    }
    len
}

/// A line without the newlines that end it, and without the carriage returns before them.
fn trim_line(line: &str) -> (bytes: Vec<u8>)
    ensures
        bytes@ == trimmed(trimmed(encode_utf8(line@), NEWLINE), RETURN),
{
    let s = line.as_bytes();
    assert(s@.take(s@.len() as int) =~= s@);
    let n = trimmed_len(s, s.len(), NEWLINE);
    let m = trimmed_len(s, n, RETURN);
    let bytes = slice_to_vec(slice_subrange(s, 0, m));
    assert(bytes@ =~= s@.take(m as int));
    bytes
}

/// Reads a line.
pub fn read_received(line: &str) -> (r: Received)
    ensures
        r@ == received(encode_utf8(line@)),
{
    let bytes = trim_line(line);
    if bytes.len() == 0 {
        return Received::Nothing;
    }
    match MessageParser::parse(bytes.as_slice()) {
        Ok(m) => Received::Message(m),
        Err(e) => Received::Malformed(e),
    }
}

/// A message that was written is the message that is read.
pub proof fn written_message_is_received(m: MessageView)
    requires
        well_named(m),
        wire_line(m).len() <= MAX_MSG_SIZE,
    ensures
        received(wire(m)) == ReceivedView::Message(m),
{
    let line = wire_line(m);
    message_is_one_line(m);
    parse_undoes_to_bytes(m);
    assert(wire(m).drop_last() =~= line);
    assert(line.len() > 0);
    assert(line[line.len() - 1] != NEWLINE);
    assert(trimmed(line, NEWLINE) == line);
    assert(trimmed(line, RETURN) == line);
}

} // verus!
