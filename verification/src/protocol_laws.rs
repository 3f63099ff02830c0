//! What holds of version strings: what they are read as, part by part, and how they are written.

use vstd::prelude::*;
use crate::decimal::nat_text;
use crate::decimal::read_unsigned;
use crate::protocol::flags_in;
use crate::protocol::flags_part;
use crate::protocol::letters;
use crate::protocol::minor_text;
use crate::protocol::read_version;
use crate::protocol::version_part;
use crate::protocol::ProtocolFlag;
use crate::protocol::ProtocolFlagsView;
use crate::text::lemma_char_position_is;

verus! {

/// The letter of each flag.
pub open spec fn flag_letter(f: ProtocolFlag) -> char {
    match f {
        ProtocolFlag::MultiClient => 'M',
        ProtocolFlag::MessageIds => 'I',
        ProtocolFlag::RequestTimeoutHints => 'T',
        ProtocolFlag::BulkSetSensorSampling => 'B',
    }
}

/// Whether a text holds neither a dot nor a dash.
pub open spec fn is_unmarked(s: Seq<char>) -> bool {
    forall|i: int| 0 <= i < s.len() ==> (#[trigger] s[i]) != '.' && s[i] != '-'
}

/// Whether a version is the one of these numbers whose flags are those that have their letters in a
/// text.
pub open spec fn is_version(
    v: Option<ProtocolFlagsView>,
    major: Option<nat>,
    minor: Option<nat>,
    text: Seq<char>,
) -> bool {
    &&& v is Some <==> major is Some && minor is Some
    &&& v matches Some(p) ==> {
        &&& p.major == major->0
        &&& p.minor == minor->0
        &&& forall|f: ProtocolFlag| p.flags.contains(f) <==> text.contains(#[trigger] flag_letter(f))
    }
}

/// A version string without a dash is read as one whose flags are none.
proof fn lemma_numbers(numbers: Seq<char>, tail: Seq<char>)
    requires
        forall|i: int| 0 <= i < numbers.len() ==> (#[trigger] numbers[i]) != '-',
        tail.len() > 0 ==> tail[0] == '-',
    ensures
        version_part(numbers + tail) == numbers,
        flags_part(numbers + tail) == (if tail.len() > 0 {
            tail.skip(1)
        } else {
            seq![]
        }),
{
    let s = numbers + tail;
    let n = numbers.len() as int;
    assert forall|i: int| 0 <= i < n implies (#[trigger] s[i]) != '-' by {
        assert(s[i] == numbers[i]);
    }
    lemma_char_position_is(s, '-', n);
    assert(s.take(n) =~= numbers);
    if tail.len() > 0 {
        assert(s.skip(n + 1) =~= tail.skip(1));
    }
}

/// The flags that have their letters in a text.
proof fn lemma_flags(text: Seq<char>)
    ensures
        forall|f: ProtocolFlag|
            flags_in(text).contains(f) <==> text.contains(#[trigger] flag_letter(f)),
{
    assert forall|f: ProtocolFlag|
        flags_in(text).contains(f) <==> text.contains(#[trigger] flag_letter(f)) by {
        assert(f.letter() == flag_letter(f));
    }
}

/// A version string of two numbers, a dot between them, and letters behind a dash, is read as these
/// numbers with the flags of these letters; other letters stand for nothing. Whatever stands behind a
/// second dot is ignored.
pub proof fn versions_are_read_part_by_part(
    major: Seq<char>,
    minor: Seq<char>,
    further: Seq<char>,
    text: Seq<char>,
)
    requires
        is_unmarked(major),
        is_unmarked(minor),
        forall|i: int| 0 <= i < further.len() ==> (#[trigger] further[i]) != '-',
    ensures
        ({
            let a = read_unsigned(major, 0xffff_ffff);
            let b = read_unsigned(minor, 0xffff_ffff);
            let two = major + seq!['.'] + minor;
            let more = two + seq!['.'] + further;
            &&& is_version(read_version(two + seq!['-'] + text), a, b, text)
            &&& is_version(read_version(two), a, b, seq![])
            &&& is_version(read_version(more + seq!['-'] + text), a, b, text)
            &&& is_version(read_version(major + seq!['-'] + text), a, Some(0nat), text)
            &&& is_version(read_version(major), a, Some(0nat), seq![])
        }),
{
    let two = major + seq!['.'] + minor;
    let more = two + seq!['.'] + further;
    let tail = seq!['-'] + text;
    let none = Seq::<char>::empty();
    let d = major.len() as int;
    assert forall|i: int| 0 <= i < two.len() implies (#[trigger] two[i]) != '-' by {
        if i < d {
            assert(two[i] == major[i]);
        } else if i > d {
            assert(two[i] == minor[i - d - 1]);
        }
    }
    assert forall|i: int| 0 <= i < more.len() implies (#[trigger] more[i]) != '-' by {
        if i < two.len() {
            assert(more[i] == two[i]);
        } else if i > two.len() {
            assert(more[i] == further[i - two.len() - 1]);
        }
    }
    assert(forall|i: int| 0 <= i < major.len() ==> (#[trigger] major[i]) != '-');
    lemma_numbers(two, tail);
    lemma_numbers(two, none);
    lemma_numbers(more, tail);
    lemma_numbers(major, tail);
    lemma_numbers(major, none);
    assert(two + tail =~= two + seq!['-'] + text);
    assert(more + tail =~= more + seq!['-'] + text);
    assert(major + tail =~= major + seq!['-'] + text);
    assert(two + none =~= two);
    assert(major + none =~= major);
    assert(tail.skip(1) =~= text);
    lemma_flags(text);
    lemma_flags(none);
    // The numbers.
    assert forall|i: int| 0 <= i < d implies (#[trigger] two[i]) != '.' by {
        assert(two[i] == major[i]);
    }
    assert forall|i: int| 0 <= i < d implies (#[trigger] more[i]) != '.' by {
        assert(more[i] == major[i]);
    }
    assert(two[d] == '.' && more[d] == '.');
    lemma_char_position_is(two, '.', d);
    lemma_char_position_is(more, '.', d);
    lemma_char_position_is(major, '.', d);
    assert(two.take(d) =~= major);
    assert(more.take(d) =~= major);
    assert(major.take(d) =~= major);
    assert(two.skip(d + 1) =~= minor);
    lemma_char_position_is(minor, '.', minor.len() as int);
    assert(minor.take(minor.len() as int) =~= minor);
    let rest = more.skip(d + 1);
    let m = minor.len() as int;
    assert(rest =~= minor + seq!['.'] + further);
    assert forall|i: int| 0 <= i < m implies (#[trigger] rest[i]) != '.' by {
        assert(rest[i] == minor[i]);
    }
    lemma_char_position_is(rest, '.', m);
    assert(rest.take(m) =~= minor);
    assert(read_unsigned("0"@, u32::MAX as nat) == Some(0nat)) by {
        reveal_strlit("0");
        let zero = "0"@;
        assert(zero =~= nat_text(0));
        crate::decimal::read_unsigned_undoes_nat_text(0, u32::MAX as nat);
    }
    assert(version_part(major + tail) == major);
    assert(minor_text(major) == "0"@);
}

/// A version is written as its two numbers with a dot between them; where it has flags, a dash and
/// their letters follow, in alphabetical order and each once.
pub proof fn versions_are_written_in_order(p: ProtocolFlagsView)
    ensures
        ({
            let numbers = nat_text(p.major as nat) + seq!['.'] + nat_text(p.minor as nat);
            let n = numbers.len() as int;
            let tail = p.shown().skip(n);
            let text = tail.skip(1);
            &&& n <= p.shown().len()
            &&& p.shown().take(n) == numbers
            &&& tail.len() > 0 <==> exists|f: ProtocolFlag| p.flags.contains(f)
            &&& tail.len() > 0 ==> {
                &&& tail[0] == '-'
                &&& forall|f: ProtocolFlag|
                    p.flags.contains(f) <==> text.contains(#[trigger] flag_letter(f))
                &&& forall|i: int, j: int| 0 <= i < j < text.len() ==> text[i] < text[j]
            }
        }),
{
    let numbers = nat_text(p.major as nat) + seq!['.'] + nat_text(p.minor as nat);
    let n = numbers.len() as int;
    assert(p.shown().take(n) =~= numbers);
    if p.flags == Set::<ProtocolFlag>::empty() {
        assert(p.shown().skip(n) =~= Seq::<char>::empty());
    } else {
        let text = letters(p.flags);
        assert(p.shown().skip(n) =~= seq!['-'] + text);
        assert((seq!['-'] + text).skip(1) =~= text);
        crate::protocol::lemma_flags_in_letters(p.flags);
        lemma_flags(text);
        assert(exists|f: ProtocolFlag| p.flags.contains(f)) by {
            if forall|f: ProtocolFlag| !p.flags.contains(f) {
                assert(p.flags =~= Set::<ProtocolFlag>::empty());
            }
        }
        lemma_letters_ascend(p.flags);
    }
}

/// The letters of flags stand in alphabetical order.
proof fn lemma_letters_ascend(flags: Set<ProtocolFlag>)
    ensures
        forall|i: int, j: int| 0 <= i < j < letters(flags).len() ==> letters(flags)[i] < letters(
            flags,
        )[j],
{
    let b = flags.contains(ProtocolFlag::BulkSetSensorSampling);
    let i = flags.contains(ProtocolFlag::MessageIds);
    let m = flags.contains(ProtocolFlag::MultiClient);
    let t = flags.contains(ProtocolFlag::RequestTimeoutHints);
    let one = if b { seq!['B'] } else { Seq::empty() };
    let two = if i { one.push('I') } else { one };
    let three = if m { two.push('M') } else { two };
    let four = if t { three.push('T') } else { three };
    assert(letters(flags) =~= four);
}

} // verus!
