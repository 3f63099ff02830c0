//! Protocol versions and the optional features that a version string announces.

use vstd::prelude::*;
use crate::decimal::all_digits;
use crate::decimal::is_digit;
use crate::decimal::lemma_nat_text;
use crate::decimal::nat_text;
use crate::decimal::parse_u32;
use crate::decimal::push_u64;
use crate::decimal::read_unsigned;
use crate::decimal::read_unsigned_undoes_nat_text;
use crate::text::char_position;
use crate::text::chars_of;
use crate::text::find_char;
use crate::text::lemma_char_position_is;
use crate::text::push_char;
use crate::text::string_of;

verus! {

/// Optional features of protocol version 5 and later.
#[derive(Debug, Clone, Copy, PartialEq, Eq, Hash, Structural)]
pub enum ProtocolFlag {
    /// Server supports multiple simultaneous clients.
    MultiClient,
    /// Server supports message identifiers.
    MessageIds,
    /// Server provides request timeout hints.
    RequestTimeoutHints,
    /// Server supports bulk sensor sampling.
    BulkSetSensorSampling,
}

impl ProtocolFlag {
    /// The character that stands for the flag.
    pub open spec fn letter(self) -> char {
        match self {
            ProtocolFlag::MultiClient => 'M',
            ProtocolFlag::MessageIds => 'I',
            ProtocolFlag::RequestTimeoutHints => 'T',
            ProtocolFlag::BulkSetSensorSampling => 'B',
        }
    }

    /// Get the character representation of the protocol flag.
    pub fn to_char(&self) -> (c: char)
        ensures
            c == self.letter(),
    {
        match self {
            ProtocolFlag::MultiClient => 'M',
            ProtocolFlag::MessageIds => 'I',
            ProtocolFlag::RequestTimeoutHints => 'T',
            ProtocolFlag::BulkSetSensorSampling => 'B',
        }
    }

    /// Parse a protocol flag from its character representation.
    pub fn from_char(c: char) -> (flag: Option<ProtocolFlag>)
        ensures
            match flag {
                Some(f) => f.letter() == c,
                None => forall|f: ProtocolFlag| (#[trigger] f.letter()) != c,
            },
    {
        match c {
            'M' => Some(ProtocolFlag::MultiClient),
            'I' => Some(ProtocolFlag::MessageIds),
            'T' => Some(ProtocolFlag::RequestTimeoutHints),
            'B' => Some(ProtocolFlag::BulkSetSensorSampling),
            _ => None,
        }
    }
}

/// A set of protocol flags.
#[derive(Debug, Clone, Copy, PartialEq, Eq, Hash, Structural)]
pub struct FlagSet {
    multi_client: bool,
    message_ids: bool,
    request_timeout_hints: bool,
    bulk_set_sensor_sampling: bool,
}

impl View for FlagSet {
    type V = Set<ProtocolFlag>;

    closed spec fn view(&self) -> Set<ProtocolFlag> {
        Set::new(|f: ProtocolFlag| self.holds(f))
    }
}

impl FlagSet {
    /// Whether the set holds a flag.
    closed spec fn holds(self, flag: ProtocolFlag) -> bool {
        match flag {
            ProtocolFlag::MultiClient => self.multi_client,
            ProtocolFlag::MessageIds => self.message_ids,
            ProtocolFlag::RequestTimeoutHints => self.request_timeout_hints,
            ProtocolFlag::BulkSetSensorSampling => self.bulk_set_sensor_sampling,
        }
    }

    /// The set without flags.
    pub fn new() -> (s: FlagSet)
        ensures
            s@ == Set::<ProtocolFlag>::empty(),
    {
        let s = FlagSet {
            multi_client: false,
            message_ids: false,
            request_timeout_hints: false,
            bulk_set_sensor_sampling: false,
        };
        assert(s@ =~= Set::<ProtocolFlag>::empty());
        s
    }

    /// Adds a flag.
    pub fn insert(&mut self, flag: ProtocolFlag)
        ensures
            final(self)@ == old(self)@.insert(flag),
    {
        match flag {
            ProtocolFlag::MultiClient => {
                self.multi_client = true;
            },
            ProtocolFlag::MessageIds => {
                self.message_ids = true;
            },
            ProtocolFlag::RequestTimeoutHints => {
                self.request_timeout_hints = true;
            },
            ProtocolFlag::BulkSetSensorSampling => {
                self.bulk_set_sensor_sampling = true;
            },
        }
        assert(self@ =~= old(self)@.insert(flag));
    }

    /// Whether the set holds a flag.
    pub fn contains(&self, flag: ProtocolFlag) -> (r: bool)
        ensures
            r == self@.contains(flag),
    {
        match flag {
            ProtocolFlag::MultiClient => self.multi_client,
            ProtocolFlag::MessageIds => self.message_ids,
            ProtocolFlag::RequestTimeoutHints => self.request_timeout_hints,
            ProtocolFlag::BulkSetSensorSampling => self.bulk_set_sensor_sampling,
        }
    }

    /// Whether the set holds no flag.
    pub fn is_empty(&self) -> (r: bool)
        ensures
            r == (self@ == Set::<ProtocolFlag>::empty()),
    {
        let r = !self.multi_client && !self.message_ids && !self.request_timeout_hints
            && !self.bulk_set_sensor_sampling;
        proof {
            if r {
                assert(self@ =~= Set::<ProtocolFlag>::empty());
            } else if self.multi_client {
                assert(self@.contains(ProtocolFlag::MultiClient));
            } else if self.message_ids {
                assert(self@.contains(ProtocolFlag::MessageIds));
            } else if self.request_timeout_hints {
                assert(self@.contains(ProtocolFlag::RequestTimeoutHints));
            } else {
                assert(self@.contains(ProtocolFlag::BulkSetSensorSampling));
            }
        }
        r
    }
}

/// A protocol version as mathematics sees it.
#[verifier::ext_equal]
pub struct ProtocolFlagsView {
    pub major: u32,
    pub minor: u32,
    pub flags: Set<ProtocolFlag>,
}

/// Protocol version and flags.
#[derive(Debug, Clone, Copy)]
pub struct ProtocolFlags {
    pub major: u32,
    pub minor: u32,
    pub flags: FlagSet,
}

impl View for ProtocolFlags {
    type V = ProtocolFlagsView;

    open spec fn view(&self) -> ProtocolFlagsView {
        ProtocolFlagsView { major: self.major, minor: self.minor, flags: self.flags@ }
    }
}

/// The part of a version string before the first dash.
pub open spec fn version_part(version: Seq<char>) -> Seq<char> {
    version.take(char_position(version, '-'))
}

/// The part of a version string behind the first dash; nothing where there is no dash.
pub open spec fn flags_part(version: Seq<char>) -> Seq<char> {
    let n = char_position(version, '-');
    if n < version.len() {
        version.skip(n + 1)
    } else {
        seq![]
    }
}

/// The text before the first dot.
pub open spec fn major_text(part: Seq<char>) -> Seq<char> {
    part.take(char_position(part, '.'))
}

/// The text between the first dot and the second; zero where there is no dot.
pub open spec fn minor_text(part: Seq<char>) -> Seq<char> {
    let n = char_position(part, '.');
    if n < part.len() {
        let rest = part.skip(n + 1);
        rest.take(char_position(rest, '.'))
    } else {
        "0"@
    }
}

/// The flags whose letters stand in a text. Other letters stand for nothing.
pub open spec fn flags_in(text: Seq<char>) -> Set<ProtocolFlag> {
    Set::new(|f: ProtocolFlag| text.contains(f.letter()))
}

/// The version that a version string stands for.
pub open spec fn read_version(version: Seq<char>) -> Option<ProtocolFlagsView> {
    let part = version_part(version);
    match (
        read_unsigned(major_text(part), u32::MAX as nat),
        read_unsigned(minor_text(part), u32::MAX as nat),
    ) {
        (Some(major), Some(minor)) => Some(
            ProtocolFlagsView {
                major: major as u32,
                minor: minor as u32,
                flags: flags_in(flags_part(version)),
            },
        ),
        _ => None,
    }
}

/// The letter of a flag, where a set holds it.
pub open spec fn letter_if(flags: Set<ProtocolFlag>, flag: ProtocolFlag) -> Seq<char> {
    if flags.contains(flag) {
        seq![flag.letter()]
    } else {
        seq![]
    }
}

/// The letters of a set of flags, in alphabetical order.
pub open spec fn letters(flags: Set<ProtocolFlag>) -> Seq<char> {
    letter_if(flags, ProtocolFlag::BulkSetSensorSampling) + letter_if(
        flags,
        ProtocolFlag::MessageIds,
    ) + letter_if(flags, ProtocolFlag::MultiClient) + letter_if(
        flags,
        ProtocolFlag::RequestTimeoutHints,
    )
}

impl ProtocolFlagsView {
    /// Version 5 with multi-client and message IDs.
    pub open spec fn default_v5() -> ProtocolFlagsView {
        ProtocolFlagsView {
            major: 5,
            minor: 0,
            flags: set![ProtocolFlag::MultiClient, ProtocolFlag::MessageIds],
        }
    }

    /// The version string: the numbers, and the flags behind a dash where there are any.
    pub open spec fn shown(self) -> Seq<char> {
        let numbers = nat_text(self.major as nat) + seq!['.'] + nat_text(self.minor as nat);
        if self.flags == Set::<ProtocolFlag>::empty() {
            numbers
        } else {
            numbers + seq!['-'] + letters(self.flags)
        }
    }
}

/// Appends the letter of a flag, where a set holds it.
fn push_letter_if(text: &mut String, flags: &FlagSet, flag: ProtocolFlag)
    ensures
        final(text)@ == old(text)@ + letter_if(flags@, flag),
{
    if flags.contains(flag) {
        push_char(text, flag.to_char());
    }
    assert(text@ =~= old(text)@ + letter_if(flags@, flag));
}

impl ProtocolFlags {
    /// Create a new `ProtocolFlags` instance with the specified major and minor versions and flags.
    pub fn new(major: u32, minor: u32, flags: FlagSet) -> (p: ProtocolFlags)
        ensures
            p@ == (ProtocolFlagsView { major, minor, flags: flags@ }),
    {
        ProtocolFlags { major, minor, flags }
    }

    /// Default protocol version 5 with multi-client and message IDs.
    pub fn default_v5() -> (p: ProtocolFlags)
        ensures
            p@ == ProtocolFlagsView::default_v5(),
    {
        let mut flags = FlagSet::new();
        flags.insert(ProtocolFlag::MultiClient);
        flags.insert(ProtocolFlag::MessageIds);
        ProtocolFlags { major: 5, minor: 0, flags }
    }

    /// Minimal protocol version 5 with no optional flags.
    pub fn minimal_v5() -> (p: ProtocolFlags)
        ensures
            p@ == (ProtocolFlagsView { major: 5, minor: 0, flags: Set::empty() }),
    {
        ProtocolFlags { major: 5, minor: 0, flags: FlagSet::new() }
    }

    /// Check if the specified protocol flag is supported.
    pub fn supports(&self, flag: ProtocolFlag) -> (r: bool)
        ensures
            r == self@.flags.contains(flag),
    {
        self.flags.contains(flag)
    }

    /// Check if the MessageIds flag is supported.
    pub fn has_message_ids(&self) -> (r: bool)
        ensures
            r == self@.flags.contains(ProtocolFlag::MessageIds),
    {
        self.supports(ProtocolFlag::MessageIds)
    }

    /// Check if the MultiClient flag is supported.
    pub fn has_multi_client(&self) -> (r: bool)
        ensures
            r == self@.flags.contains(ProtocolFlag::MultiClient),
    {
        self.supports(ProtocolFlag::MultiClient)
    }

    /// Parse a version string like "5.0-MI" into ProtocolFlags.
    pub fn parse(version: &str) -> (p: Option<ProtocolFlags>)
        ensures
            match p {
                Some(v) => read_version(version@) == Some(v@),
                None => read_version(version@) is None,
            },
    {
        let chars = chars_of(version);
        let len = chars.len();
        assert(chars@.subrange(0, len as int) =~= version@);
        let dash = find_char(&chars, 0, len, '-');
        let ghost part = version_part(version@);
        assert(chars@.subrange(0, dash as int) =~= part);
        let dot = find_char(&chars, 0, dash, '.');
        assert(chars@.subrange(0, dot as int) =~= major_text(part));
        let major = match parse_u32(string_of(&chars, 0, dot).as_str()) {
            Some(n) => n,
            None => {
                return None;
            },
        };
        let minor_str = if dot < dash {
            let second = find_char(&chars, dot + 1, dash, '.');
            assert(part.skip(dot + 1) =~= chars@.subrange(dot + 1, dash as int));
            assert(chars@.subrange(dot + 1, second as int) =~= minor_text(part));
            string_of(&chars, dot + 1, second)
        } else {
            "0".to_owned()
        };
        let minor = match parse_u32(minor_str.as_str()) {
            Some(n) => n,
            None => {
                return None;
            },
        };
        let mut flags = FlagSet::new();
        let ghost text = flags_part(version@);
        let first: usize = if dash < len {
            dash + 1
        } else {
            len
        };
        let mut i: usize = first;
        assert(text =~= version@.skip(first as int));
        assert(flags@ =~= flags_in(text.take(0)));
        while i < len
            invariant
                first <= i <= len,
                len == chars@.len(),
                chars@ == version@,
                text == version@.skip(first as int),
                flags@ =~= flags_in(text.take(i - first)),
            decreases len - i,
        {
            let c = chars[i];
            let ghost k = i - first;
            let ghost seen = text.take(k);
            assert(text.take(k + 1) =~= seen.push(c));
            let ghost before = flags@;
            assert forall|f: ProtocolFlag|
                flags_in(text.take(k + 1)).contains(f) == (before.contains(f) || (#[trigger]
                f.letter()) == c) by {
                if seen.contains(f.letter()) {
                    let j = choose|j: int| 0 <= j < seen.len() && seen[j] == f.letter();
                    assert(seen.push(c)[j] == f.letter());
                }
                if f.letter() == c {
                    assert(seen.push(c)[k] == f.letter());
                }
                if seen.push(c).contains(f.letter()) && f.letter() != c {
                    let j = choose|j: int|
                        0 <= j < seen.push(c).len() && seen.push(c)[j] == f.letter();
                    assert(seen[j] == f.letter());
                }
            }
            if let Some(flag) = ProtocolFlag::from_char(c) {
                flags.insert(flag);
                assert(flags@ =~= flags_in(text.take(k + 1)));
            } else {
                assert(flags@ =~= flags_in(text.take(k + 1)));
            }
            i = i + 1;
        }
        assert(text.take(i - first) =~= text);
        Some(ProtocolFlags { major, minor, flags })
    }

    /// The version string: "5.0-IM" for version 5.0 with message identifiers and multiple clients.
    pub fn to_string(&self) -> (text: String)
        ensures
            text@ == self@.shown(),
    {
        let mut text = String::new();
        push_u64(&mut text, self.major as u64);
        push_char(&mut text, '.');
        push_u64(&mut text, self.minor as u64);
        let ghost numbers = text@;
        assert(numbers =~= nat_text(self.major as nat) + seq!['.'] + nat_text(self.minor as nat));
        if !self.flags.is_empty() {
            push_char(&mut text, '-');
            push_letter_if(&mut text, &self.flags, ProtocolFlag::BulkSetSensorSampling);
            push_letter_if(&mut text, &self.flags, ProtocolFlag::MessageIds);
            push_letter_if(&mut text, &self.flags, ProtocolFlag::MultiClient);
            push_letter_if(&mut text, &self.flags, ProtocolFlag::RequestTimeoutHints);
            assert(text@ =~= numbers + seq!['-'] + letters(self.flags@));
        }
        text
    }
}

/// Digits hold neither a dash nor a dot.
proof fn lemma_digits_are_no_marks(s: Seq<char>)
    requires
        all_digits(s),
    ensures
        forall|i: int| 0 <= i < s.len() ==> (#[trigger] s[i]) != '-' && s[i] != '.',
{
    assert forall|i: int| 0 <= i < s.len() implies (#[trigger] s[i]) != '-' && s[i] != '.' by {
        assert(is_digit(s[i]));
    }
}

/// The letters of a set of flags stand for that set.
pub proof fn lemma_flags_in_letters(flags: Set<ProtocolFlag>)
    ensures
        flags_in(letters(flags)) == flags,
{
    let text = letters(flags);
    let b = letter_if(flags, ProtocolFlag::BulkSetSensorSampling);
    let i = letter_if(flags, ProtocolFlag::MessageIds);
    let m = letter_if(flags, ProtocolFlag::MultiClient);
    let t = letter_if(flags, ProtocolFlag::RequestTimeoutHints);
    assert forall|f: ProtocolFlag| flags_in(text).contains(f) == flags.contains(f) by {
        if flags.contains(f) {
            let at = match f {
                ProtocolFlag::BulkSetSensorSampling => 0int,
                ProtocolFlag::MessageIds => b.len() as int,
                ProtocolFlag::MultiClient => (b.len() + i.len()) as int,
                ProtocolFlag::RequestTimeoutHints => (b.len() + i.len() + m.len()) as int,
            };
            assert(text[at] == f.letter());
        }
        if text.contains(f.letter()) {
            let at = choose|at: int| 0 <= at < text.len() && text[at] == f.letter();
            if at < b.len() {
                assert(text[at] == b[at]);
            } else if at < b.len() + i.len() {
                assert(text[at] == i[at - b.len()]);
            } else if at < b.len() + i.len() + m.len() {
                assert(text[at] == m[at - b.len() - i.len()]);
            } else {
                assert(text[at] == t[at - b.len() - i.len() - m.len()]);
            }
        }
    }
    assert(flags_in(text) =~= flags);
}

/// Reading a version string gives the version back, whatever its numbers and flags.
pub proof fn parse_undoes_to_string(p: ProtocolFlagsView)
    ensures
        read_version(p.shown()) == Some(p),
{
    let major = nat_text(p.major as nat);
    let minor = nat_text(p.minor as nat);
    let numbers = major + seq!['.'] + minor;
    let version = p.shown();
    lemma_nat_text(p.major as nat);
    lemma_nat_text(p.minor as nat);
    lemma_digits_are_no_marks(major);
    lemma_digits_are_no_marks(minor);
    let n = numbers.len() as int;
    assert forall|i: int| 0 <= i < n implies (#[trigger] version[i]) != '-' by {
        assert(version[i] == numbers[i]);
        if i < major.len() {
            assert(numbers[i] == major[i]);
        } else if i > major.len() {
            assert(numbers[i] == minor[i - major.len() - 1]);
        }
    }
    lemma_char_position_is(version, '-', n);
    assert(version_part(version) =~= numbers);
    let d = major.len() as int;
    assert forall|i: int| 0 <= i < d implies (#[trigger] numbers[i]) != '.' by {
        assert(numbers[i] == major[i]);
    }
    assert(numbers[d] == '.');
    lemma_char_position_is(numbers, '.', d);
    assert(major_text(numbers) =~= major);
    let rest = numbers.skip(d + 1);
    assert(rest =~= minor);
    lemma_char_position_is(rest, '.', minor.len() as int);
    assert(minor_text(numbers) =~= minor);
    read_unsigned_undoes_nat_text(p.major as nat, u32::MAX as nat);
    read_unsigned_undoes_nat_text(p.minor as nat, u32::MAX as nat);
    if p.flags == Set::<ProtocolFlag>::empty() {
        assert(flags_in(flags_part(version)) =~= p.flags);
    } else {
        assert(flags_part(version) =~= letters(p.flags));
        lemma_flags_in_letters(p.flags);
    }
}

} // verus!
