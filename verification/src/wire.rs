//! The wire format: what bytes a message is written as, and what message a line of bytes reads as.

use vstd::prelude::*;
use vstd::utf8::decode_utf8;
use vstd::utf8::encode_utf8;
use vstd::utf8::valid_utf8;
use crate::decimal::all_digits;
use crate::decimal::is_digit;
use crate::message::MessageError;
use crate::message::MessageErrorView;
use crate::message::MessageType;
use crate::message::MessageView;
use crate::text::lossy_text;

verus! {

/// Maximum message size (2 MB).
pub const MAX_MSG_SIZE: usize = 2097152;

pub const NUL: u8 = 0x00;

pub const TAB: u8 = 0x09;

pub const NEWLINE: u8 = 0x0a;

pub const RETURN: u8 = 0x0d;

pub const ESC: u8 = 0x1b;

pub const SPACE: u8 = 0x20;

pub const AT: u8 = 0x40;

pub const OPEN: u8 = 0x5b;

pub const BACKSLASH: u8 = 0x5c;

pub const CLOSE: u8 = 0x5d;

pub const UNDERSCORE: u8 = 0x5f;

pub const LETTER_E: u8 = 0x65;

pub const LETTER_N: u8 = 0x6e;

pub const LETTER_R: u8 = 0x72;

pub const LETTER_T: u8 = 0x74;

pub const DIGIT_ZERO: u8 = 0x30;

/// The letter that stands behind a backslash for a byte that cannot be written as itself.
pub open spec fn escape_code(b: u8) -> Option<u8> {
    if b == BACKSLASH {
        Some(BACKSLASH)
    } else if b == SPACE {
        Some(UNDERSCORE)
    } else if b == NUL {
        Some(DIGIT_ZERO)
    } else if b == NEWLINE {
        Some(LETTER_N)
    } else if b == RETURN {
        Some(LETTER_R)
    } else if b == ESC {
        Some(LETTER_E)
    } else if b == TAB {
        Some(LETTER_T)
    } else {
        None
    }
}

/// What one byte of an argument is written as.
pub open spec fn escape_byte(b: u8) -> Seq<u8> {
    match escape_code(b) {
        Some(code) => seq![BACKSLASH, code],
        None => seq![b],
    }
}

/// What the bytes of an argument are written as.
pub open spec fn escape(data: Seq<u8>) -> Seq<u8>
    decreases data.len(),
{
    if data.len() == 0 {
        seq![]
    } else {
        escape_byte(data[0]) + escape(data.skip(1))
    }
}

/// What an argument is written as: an empty one has a marker of its own.
pub open spec fn wire_arg(arg: Seq<u8>) -> Seq<u8> {
    if arg.len() == 0 {
        seq![BACKSLASH, AT]
    } else {
        escape(arg)
    }
}

/// What a list of arguments is written as, a space before each.
pub open spec fn wire_args(args: Seq<Seq<u8>>) -> Seq<u8>
    decreases args.len(),
{
    if args.len() == 0 {
        seq![]
    } else {
        seq![SPACE] + wire_arg(args[0]) + wire_args(args.skip(1))
    }
}

/// What a message identifier is written as.
pub open spec fn wire_mid(mid: Option<Seq<char>>) -> Seq<u8> {
    match mid {
        Some(m) => seq![OPEN] + encode_utf8(m) + seq![CLOSE],
        None => seq![],
    }
}

/// The line that a message is written as, without the newline that ends it.
pub open spec fn wire_line(m: MessageView) -> Seq<u8> {
    seq![m.mtype.prefix_byte()] + encode_utf8(m.name) + wire_mid(m.mid) + wire_args(m.arguments)
}

/// The bytes that a message is written as.
pub open spec fn wire(m: MessageView) -> Seq<u8> {
    wire_line(m).push(NEWLINE)
}

/// What a scan of bytes stops at.
#[derive(Clone, Copy, PartialEq, Eq, Structural)]
pub enum Stop {
    /// The end of a message name: a blank or an opening bracket.
    Name,
    /// A closing bracket.
    Bracket,
    /// A blank: a space or a tab.
    Blank,
    /// The end of a line.
    Newline,
}

/// Whether a byte separates arguments.
pub open spec fn is_blank(b: u8) -> bool {
    b == SPACE || b == TAB
}

/// Whether a scan stops at a byte.
pub open spec fn stops(stop: Stop, b: u8) -> bool {
    match stop {
        Stop::Name => is_blank(b) || b == OPEN,
        Stop::Bracket => b == CLOSE,
        Stop::Blank => is_blank(b),
        Stop::Newline => b == NEWLINE,
    }
}

/// The place of the first byte that a scan stops at; the length where there is none.
pub open spec fn position(s: Seq<u8>, stop: Stop) -> int
    decreases s.len(),
{
    if s.len() == 0 || stops(stop, s[0]) {
        0
    } else {
        1 + position(s.skip(1), stop)
    }
}

/// The bytes that the letter behind a backslash stands for.
pub open spec fn unescape_code(code: u8) -> Option<Seq<u8>> {
    if code == BACKSLASH {
        Some(seq![BACKSLASH])
    } else if code == UNDERSCORE {
        Some(seq![SPACE])
    } else if code == DIGIT_ZERO {
        Some(seq![NUL])
    } else if code == LETTER_N {
        Some(seq![NEWLINE])
    } else if code == LETTER_R {
        Some(seq![RETURN])
    } else if code == LETTER_E {
        Some(seq![ESC])
    } else if code == LETTER_T {
        Some(seq![TAB])
    } else if code == AT {
        Some(seq![])
    } else {
        None
    }
}

/// Bytes put before the bytes that were read, if they could be read.
pub open spec fn before(done: Seq<u8>, rest: Result<Seq<u8>, char>) -> Result<Seq<u8>, char> {
    match rest {
        Ok(r) => Ok(done + r),
        Err(c) => Err(c),
    }
}

/// The argument that escaped bytes stand for. The error is the character behind the backslash, a
/// space where nothing stands behind it.
pub open spec fn unescape(s: Seq<u8>) -> Result<Seq<u8>, char>
    decreases s.len(),
{
    if s.len() == 0 {
        Ok(seq![])
    } else if s[0] != BACKSLASH {
        before(seq![s[0]], unescape(s.skip(1)))
    } else if s.len() == 1 {
        Err(' ')
    } else {
        match unescape_code(s[1]) {
            Some(bytes) => before(bytes, unescape(s.skip(2))),
            None => Err(s[1] as char),
        }
    }
}

/// The words of `s`: its longest runs of bytes that are not blanks.
pub open spec fn words(s: Seq<u8>) -> Seq<Seq<u8>>
    decreases s.len(),
{
    if s.len() == 0 {
        seq![]
    } else if is_blank(s[0]) {
        words(s.skip(1))
    } else {
        let n = position(s, Stop::Blank);
        if 0 < n <= s.len() {
            seq![s.take(n)] + words(s.skip(n))
        } else {
            seq![]
        }
    }
}

/// Arguments put before the arguments that were read, if they could be read.
pub open spec fn args_before(
    done: Seq<Seq<u8>>,
    rest: Result<Seq<Seq<u8>>, char>,
) -> Result<Seq<Seq<u8>>, char> {
    match rest {
        Ok(r) => Ok(done + r),
        Err(c) => Err(c),
    }
}

/// The arguments that escaped words stand for.
pub open spec fn read_args(ws: Seq<Seq<u8>>) -> Result<Seq<Seq<u8>>, char>
    decreases ws.len(),
{
    if ws.len() == 0 {
        Ok(seq![])
    } else {
        match unescape(ws[0]) {
            Ok(arg) => args_before(seq![arg], read_args(ws.skip(1))),
            Err(c) => Err(c),
        }
    }
}

/// Whether a character is an ASCII letter.
pub open spec fn is_letter(c: char) -> bool {
    ||| 'a' as int <= c as int <= 'z' as int
    ||| 'A' as int <= c as int <= 'Z' as int
}

/// Whether a character may stand in a message name.
pub open spec fn is_name_char(c: char) -> bool {
    is_letter(c) || is_digit(c) || c == '-'
}

/// Whether a message may have this name: a letter, then letters, digits and dashes.
pub open spec fn is_name(name: Seq<char>) -> bool {
    &&& name.len() > 0
    &&& is_letter(name[0])
    &&& forall|i: int| 0 <= i < name.len() ==> is_name_char(#[trigger] name[i])
}

/// The name that the bytes before the first blank or bracket stand for.
pub open spec fn read_name(bytes: Seq<u8>) -> Result<Seq<char>, MessageErrorView> {
    if bytes.len() == 0 {
        Err(MessageErrorView::InvalidName(seq![]))
    } else if !valid_utf8(bytes) {
        Err(MessageErrorView::InvalidName(lossy_text(bytes)))
    } else if !is_name(decode_utf8(bytes)) {
        Err(MessageErrorView::InvalidName(decode_utf8(bytes)))
    } else {
        Ok(decode_utf8(bytes))
    }
}

/// The message identifier that stands behind the name, if one does, and the bytes behind it.
pub open spec fn read_mid(rest: Seq<u8>) -> Result<
    (Option<Seq<char>>, Seq<u8>),
    MessageErrorView,
> {
    if rest.len() == 0 || rest[0] != OPEN {
        Ok((None, rest))
    } else {
        let inner = rest.skip(1);
        let n = position(inner, Stop::Bracket);
        let bytes = inner.take(n);
        if n >= inner.len() {
            Err(MessageErrorView::InvalidMid("unclosed bracket"@))
        } else if !valid_utf8(bytes) {
            Err(MessageErrorView::InvalidMid(lossy_text(bytes)))
        } else if !all_digits(decode_utf8(bytes)) {
            Err(MessageErrorView::InvalidMid(decode_utf8(bytes)))
        } else {
            Ok((Some(decode_utf8(bytes)), inner.skip(n + 1)))
        }
    }
}

/// The message that a line stands for, without the newline that ends it.
pub open spec fn read_line(line: Seq<u8>) -> Result<MessageView, MessageErrorView> {
    if line.len() == 0 {
        Err(MessageErrorView::Empty)
    } else if line.len() > MAX_MSG_SIZE {
        Err(MessageErrorView::TooLarge(line.len()))
    } else {
        let rest = line.skip(1);
        let n = position(rest, Stop::Name);
        match MessageType::of_char(line[0] as char) {
            None => Err(MessageErrorView::InvalidType(line[0] as char)),
            Some(mtype) => match read_name(rest.take(n)) {
                Err(e) => Err(e),
                Ok(name) => match read_mid(rest.skip(n)) {
                    Err(e) => Err(e),
                    Ok((mid, tail)) => match read_args(words(tail)) {
                        Err(c) => Err(MessageErrorView::InvalidEscape(c)),
                        Ok(arguments) => Ok(MessageView { mtype, name, mid, arguments }),
                    },
                },
            },
        }
    }
}

/// A line without the carriage return that may end it.
pub open spec fn strip_return(line: Seq<u8>) -> Seq<u8> {
    if line.len() > 0 && line.last() == RETURN {
        line.drop_last()
    } else {
        line
    }
}

/// What one line of a stream adds to the messages read: nothing where it is empty.
pub open spec fn read_stream_line(line: Seq<u8>) -> Seq<Result<MessageView, MessageErrorView>> {
    if strip_return(line).len() == 0 {
        seq![]
    } else {
        seq![read_line(strip_return(line))]
    }
}

/// The messages that the complete lines of a stream stand for, in order.
pub open spec fn stream_messages(data: Seq<u8>) -> Seq<Result<MessageView, MessageErrorView>>
    decreases data.len(),
{
    let n = position(data, Stop::Newline);
    if 0 <= n < data.len() {
        read_stream_line(data.take(n)) + stream_messages(data.skip(n + 1))
    } else {
        seq![]
    }
}

/// The bytes of a stream behind its last complete line.
pub open spec fn stream_remainder(data: Seq<u8>) -> Seq<u8>
    decreases data.len(),
{
    let n = position(data, Stop::Newline);
    if 0 <= n < data.len() {
        stream_remainder(data.skip(n + 1))
    } else {
        data
    }
}

/// A scan stops within its bytes, at the first byte that stops it.
pub proof fn lemma_position(s: Seq<u8>, stop: Stop)
    ensures
        0 <= position(s, stop) <= s.len(),
        forall|i: int| 0 <= i < position(s, stop) ==> !stops(stop, #[trigger] s[i]),
        position(s, stop) < s.len() ==> stops(stop, s[position(s, stop)]),
    decreases s.len(),
{
    if s.len() > 0 && !stops(stop, s[0]) {
        lemma_position(s.skip(1), stop);
        assert forall|i: int| 0 <= i < position(s, stop) implies !stops(stop, #[trigger] s[i]) by {
            if i > 0 {
                assert(s.skip(1)[i - 1] == s[i]);
            }
        }
    }
}

/// Only one place is the first that stops a scan.
pub proof fn lemma_position_is(s: Seq<u8>, stop: Stop, n: int)
    requires
        0 <= n <= s.len(),
        forall|i: int| 0 <= i < n ==> !stops(stop, #[trigger] s[i]),
        n < s.len() ==> stops(stop, s[n]),
    ensures
        position(s, stop) == n,
{
    lemma_position(s, stop);
    let p = position(s, stop);
    if p < n {
        assert(!stops(stop, s[p]));
    }
    if n < p {
        assert(!stops(stop, s[n]));
    }
}

/// Whether a scan stops at a byte.
fn is_stop(stop: Stop, b: u8) -> (r: bool)
    ensures
        r == stops(stop, b),
{
    match stop {
        Stop::Name => b == SPACE || b == TAB || b == OPEN,
        Stop::Bracket => b == CLOSE,
        Stop::Blank => b == SPACE || b == TAB,
        Stop::Newline => b == NEWLINE,
    }
}

/// Finds the first byte from `from` on that a scan stops at.
pub fn find(data: &[u8], from: usize, stop: Stop) -> (n: usize)
    requires
        from <= data@.len(),
    ensures
        from <= n <= data@.len(),
        n - from == position(data@.skip(from as int), stop),
{
    let mut i: usize = from;
    let ghost s = data@.skip(from as int);
    while i < data.len()
        invariant
            from <= i <= data@.len(),
            s == data@.skip(from as int),
            forall|k: int| 0 <= k < i - from ==> !stops(stop, #[trigger] s[k]),
        decreases data@.len() - i,
    {
        assert(s[i - from] == data@[i as int]);
        if is_stop(stop, data[i]) {
            proof {
                lemma_position_is(s, stop, i - from);
            }
            return i;
        }
        i = i + 1;
    }
    proof {
        lemma_position_is(s, stop, i - from);
    }
    i
}

/// Appends an argument's bytes in their escaped form.
pub fn escape_arg_into(buf: &mut Vec<u8>, data: &[u8])
    ensures
        final(buf)@ == old(buf)@ + escape(data@),
{
    let mut i: usize = 0;
    assert(data@.skip(0) =~= data@);
    assert(buf@ + escape(data@.skip(0)) =~= old(buf)@ + escape(data@));
    while i < data.len()
        invariant
            i <= data@.len(),
            buf@ + escape(data@.skip(i as int)) == old(buf)@ + escape(data@),
        decreases data@.len() - i,
    {
        let b = data[i];
        let ghost done = buf@;
        let code: u8 = if b == BACKSLASH {
            BACKSLASH
        } else if b == SPACE {
            UNDERSCORE
        } else if b == NUL {
            DIGIT_ZERO
        } else if b == NEWLINE {
            LETTER_N
        } else if b == RETURN {
            LETTER_R
        } else if b == ESC {
            LETTER_E
        } else if b == TAB {
            LETTER_T
        } else {
            NUL
        };
        if code == NUL {
            buf.push(b);
        } else {
            buf.push(BACKSLASH);
            buf.push(code);
        }
        assert(buf@ =~= done + escape_byte(b));
        assert(data@.skip(i as int).skip(1) =~= data@.skip(i + 1));
        assert(escape(data@.skip(i as int)) == escape_byte(b) + escape(data@.skip(i + 1)));
        assert(buf@ + escape(data@.skip(i + 1)) =~= done + escape(data@.skip(i as int)));
        i = i + 1;
    }
    assert(data@.skip(i as int) =~= Seq::<u8>::empty());
    assert(buf@ =~= old(buf)@ + escape(data@));
}

/// Reads an argument from its escaped form.
pub fn unescape_arg(data: &[u8]) -> (arg: Result<Vec<u8>, MessageError>)
    ensures
        match arg {
            Ok(bytes) => unescape(data@) == Ok::<Seq<u8>, char>(bytes@),
            Err(e) => exists|c: char|
                unescape(data@) == Err::<Seq<u8>, char>(c) && e@ == MessageErrorView::InvalidEscape(c),
        },
{
    let mut result: Vec<u8> = Vec::new();
    let mut i: usize = 0;
    assert(data@.skip(0) =~= data@);
    assert(unescape(data@) matches Ok(r) ==> Seq::<u8>::empty() + r =~= r);
    while i < data.len()
        invariant
            i <= data@.len(),
            before(result@, unescape(data@.skip(i as int))) == unescape(data@),
        decreases data@.len() - i,
    {
        let ghost done = result@;
        let ghost rest = data@.skip(i as int);
        if data[i] == BACKSLASH {
            i = i + 1;
            if i >= data.len() {
                assert(unescape(data@) == Err::<Seq<u8>, char>(' '));
                return Err(MessageError::InvalidEscape(' '));
            }
            let code = data[i];
            assert(rest[1] == code);
            if code == BACKSLASH {
                result.push(BACKSLASH);
            } else if code == UNDERSCORE {
                result.push(SPACE);
            } else if code == DIGIT_ZERO {
                result.push(NUL);
            } else if code == LETTER_N {
                result.push(NEWLINE);
            } else if code == LETTER_R {
                result.push(RETURN);
            } else if code == LETTER_E {
                result.push(ESC);
            } else if code == LETTER_T {
                result.push(TAB);
            } else if code != AT {
                assert(unescape(data@) == Err::<Seq<u8>, char>(code as char));
                return Err(MessageError::InvalidEscape(code as char));
            }
            assert(result@ =~= done + unescape_code(code)->0);
            assert(rest.skip(2) =~= data@.skip(i + 1));
        } else {
            result.push(data[i]);
            assert(result@ =~= done + seq![rest[0]]);
            assert(rest.skip(1) =~= data@.skip(i + 1));
        }
        i = i + 1;
        proof {
            let tail = unescape(data@.skip(i as int));
            let step = if rest[0] == BACKSLASH {
                unescape_code(rest[1])->0
            } else {
                seq![rest[0]]
            };
            assert(unescape(rest) == before(step, tail));
            if tail is Ok {
                assert(done + (step + tail->Ok_0) =~= result@ + tail->Ok_0);
            }
        }
    }
    assert(data@.skip(i as int) =~= Seq::<u8>::empty());
    assert(result@ + Seq::<u8>::empty() =~= result@);
    Ok(result)
}

} // verus!
