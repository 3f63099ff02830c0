//! Strings, characters and bytes: the small operations that the rest of the library builds on.

use vstd::prelude::*;
use vstd::utf8::decode_utf8;
use vstd::utf8::valid_utf8;

verus! {

/// The text that a lossy reading of `bytes` as UTF-8 gives: what
/// `String::from_utf8_lossy` returns.
pub uninterp spec fn lossy_text(bytes: Seq<u8>) -> Seq<char>;

/// Calls `std::str::from_utf8`: the text that `bytes` encode, where they are valid UTF-8, and
/// `None` where they are not.
#[verifier::external_body]
pub(crate) fn utf8_text(bytes: &[u8]) -> (text: Option<&str>)
    ensures
        text is Some <==> valid_utf8(bytes@),
        text matches Some(t) ==> t@ == decode_utf8(bytes@),
{
    std::str::from_utf8(bytes).ok()
}

/// Calls `String::from_utf8_lossy` and takes the owned text.
#[verifier::external_body]
pub(crate) fn utf8_text_lossy(bytes: &[u8]) -> (text: String)
    ensures
        text@ == lossy_text(bytes@),
{
    String::from_utf8_lossy(bytes).into_owned()
}

/// Calls `String::push`: appends one character.
#[verifier::external_body]
pub(crate) fn push_char(text: &mut String, c: char)
    ensures
        final(text)@ == old(text)@.push(c),
{
    text.push(c)
}

/// The texts that a list of strings holds.
pub open spec fn texts_view(list: Seq<String>) -> Seq<Seq<char>> {
    list.map_values(|s: String| s@)
}

/// The text that an optional string slice holds.
pub open spec fn opt_str(s: Option<&str>) -> Option<Seq<char>> {
    match s {
        Some(t) => Some(t@),
        None => None,
    }
}

/// Compares two byte slices.
pub fn bytes_eq(a: &[u8], b: &[u8]) -> (equal: bool)
    ensures
        equal == (a@ == b@),
{
    if a.len() != b.len() {
        return false;
    }
    let mut i: usize = 0;
    while i < a.len()
        invariant
            a@.len() == b@.len(),
            i <= a@.len(),
            forall|k: int| 0 <= k < i ==> a@[k] == b@[k],
        decreases a@.len() - i,
    {
        if a[i] != b[i] {
            return false;
        }
        i = i + 1;
    }
    assert(a@ =~= b@);
    true
}

/// Compares two strings.
pub fn str_eq(a: &str, b: &str) -> (equal: bool)
    ensures
        equal == (a@ == b@),
{
    let equal = bytes_eq(a.as_bytes(), b.as_bytes());
    proof {
        vstd::utf8::encode_utf8_decode_utf8(a@);
        vstd::utf8::encode_utf8_decode_utf8(b@);
    }
    equal
}

/// The characters of a string.
pub fn chars_of(s: &str) -> (chars: Vec<char>)
    ensures
        chars@ == s@,
{
    let mut chars: Vec<char> = Vec::new();
    for c in it: s.chars()
        invariant
            chars@ == it.seq().take(it.index()),
            it.seq() == s@,
    {
        chars.push(c);
    }
    chars
}

/// The string that a run of characters makes.
pub fn string_of(chars: &Vec<char>, from: usize, to: usize) -> (s: String)
    requires
        from <= to <= chars@.len(),
    ensures
        s@ == chars@.subrange(from as int, to as int),
{
    let mut s = String::new();
    let mut i: usize = from;
    while i < to
        invariant
            from <= i <= to <= chars@.len(),
            s@ == chars@.subrange(from as int, i as int),
        decreases to - i,
    {
        push_char(&mut s, chars[i]);
        i = i + 1;
    }
    s
}

/// Finds a text in a list.
pub fn find_text(list: &Vec<String>, text: &str) -> (at: Option<usize>)
    ensures
        match at {
            Some(i) => {
                &&& i < list@.len()
                &&& list@[i as int]@ == text@
                &&& forall|k: int| 0 <= k < i ==> (#[trigger] list@[k])@ != text@
            },
            None => forall|k: int| 0 <= k < list@.len() ==> (#[trigger] list@[k])@ != text@,
        },
        at is Some <==> texts_view(list@).contains(text@),
{
    let mut i: usize = 0;
    while i < list.len()
        invariant
            i <= list@.len(),
            forall|k: int| 0 <= k < i ==> (#[trigger] list@[k])@ != text@,
        decreases list@.len() - i,
    {
        if str_eq(list[i].as_str(), text) {
            assert(texts_view(list@)[i as int] == text@);
            return Some(i);
        }
        i = i + 1;
    }
    assert(!texts_view(list@).contains(text@)) by {
        assert forall|k: int| 0 <= k < list@.len() implies texts_view(list@)[k] != text@ by {
            assert(list@[k]@ != text@);
        }
    }
    None
}

/// Copies a list of strings.
pub fn copy_texts(list: &Vec<String>) -> (copy: Vec<String>)
    ensures
        texts_view(copy@) == texts_view(list@),
{
    let mut copy: Vec<String> = Vec::new();
    let mut i: usize = 0;
    while i < list.len()
        invariant
            i <= list@.len(),
            copy@.len() == i,
            forall|k: int| 0 <= k < i ==> (#[trigger] copy@[k])@ == list@[k]@,
        decreases list@.len() - i,
    {
        copy.push(list[i].clone());
        i = i + 1;
    }
    assert(texts_view(copy@) =~= texts_view(list@));
    copy
}

/// The text that bytes encode; no text where they are not valid UTF-8.
pub open spec fn text_or_empty(bytes: Seq<u8>) -> Seq<char> {
    if valid_utf8(bytes) {
        decode_utf8(bytes)
    } else {
        seq![]
    }
}

/// The text that a value's bytes encode; no text where they are not valid UTF-8.
pub fn value_text(bytes: &[u8]) -> (text: String)
    ensures
        text@ == text_or_empty(bytes@),
{
    match utf8_text(bytes) {
        Some(text) => text.to_owned(),
        None => {
            let text = String::new();
            assert(text@ =~= seq![]);
            text
        },
    }
}

/// The place of the first `c` in `s`; the length where there is none.
pub open spec fn char_position(s: Seq<char>, c: char) -> int
    decreases s.len(),
{
    if s.len() == 0 || s[0] == c {
        0
    } else {
        1 + char_position(s.skip(1), c)
    }
}

/// Only one place is the first that holds a character.
pub proof fn lemma_char_position_is(s: Seq<char>, c: char, n: int)
    requires
        0 <= n <= s.len(),
        forall|i: int| 0 <= i < n ==> (#[trigger] s[i]) != c,
        n < s.len() ==> s[n] == c,
    ensures
        char_position(s, c) == n,
    decreases s.len(),
{
    if n > 0 {
        let t = s.skip(1);
        assert forall|i: int| 0 <= i < n - 1 implies (#[trigger] t[i]) != c by {
            assert(t[i] == s[i + 1]);
        }
        assert(s[0] != c);
        lemma_char_position_is(t, c, n - 1);
    }
}

/// Finds the first `c` in `chars` from `from` on and before `to`.
pub fn find_char(chars: &Vec<char>, from: usize, to: usize, c: char) -> (n: usize)
    requires
        from <= to <= chars@.len(),
    ensures
        from <= n <= to,
        n - from == char_position(chars@.subrange(from as int, to as int), c),
        n < to ==> chars@[n as int] == c,
{
    let ghost s = chars@.subrange(from as int, to as int);
    let mut i: usize = from;
    while i < to && chars[i] != c
        invariant
            from <= i <= to <= chars@.len(),
            s == chars@.subrange(from as int, to as int),
            forall|k: int| 0 <= k < i - from ==> (#[trigger] s[k]) != c,
        decreases to - i,
    {
        assert(s[i - from] == chars@[i as int]);
        i = i + 1;
    }
    proof {
        lemma_char_position_is(s, c, i - from);
    }
    i
}

/// Whether a character is white space: those that Unicode gives the property `White_Space`.
pub open spec fn is_white_space(c: char) -> bool {
    ||| 0x09 <= c as int <= 0x0d
    ||| c as int == 0x20
    ||| c as int == 0x85
    ||| c as int == 0xa0
    ||| c as int == 0x1680
    ||| 0x2000 <= c as int <= 0x200a
    ||| c as int == 0x2028
    ||| c as int == 0x2029
    ||| c as int == 0x202f
    ||| c as int == 0x205f
    ||| c as int == 0x3000
}

/// How many characters stand before the first white space.
pub open spec fn word_length(s: Seq<char>) -> int
    decreases s.len(),
{
    if s.len() == 0 || is_white_space(s[0]) {
        0
    } else {
        1 + word_length(s.skip(1))
    }
}

/// The words of a text: its longest runs of characters that are not white space.
pub open spec fn text_words(s: Seq<char>) -> Seq<Seq<char>>
    decreases s.len(),
{
    if s.len() == 0 {
        seq![]
    } else if is_white_space(s[0]) {
        text_words(s.skip(1))
    } else {
        let n = word_length(s);
        if 0 < n <= s.len() {
            seq![s.take(n)] + text_words(s.skip(n))
        } else {
            seq![]
        }
    }
}

/// Only one place is the end of the first word.
pub proof fn lemma_word_length_is(s: Seq<char>, n: int)
    requires
        0 <= n <= s.len(),
        forall|i: int| 0 <= i < n ==> !is_white_space(#[trigger] s[i]),
        n < s.len() ==> is_white_space(s[n]),
    ensures
        word_length(s) == n,
    decreases s.len(),
{
    if n > 0 {
        let t = s.skip(1);
        assert forall|i: int| 0 <= i < n - 1 implies !is_white_space(#[trigger] t[i]) by {
            assert(t[i] == s[i + 1]);
        }
        assert(!is_white_space(s[0]));
        lemma_word_length_is(t, n - 1);
    }
}

/// Whether a character is white space.
fn white_space(c: char) -> (r: bool)
    ensures
        r == is_white_space(c),
{
    let n: u32 = c as u32;
    (0x09 <= n && n <= 0x0d) || n == 0x20 || n == 0x85 || n == 0xa0 || n == 0x1680 || (0x2000 <= n
        && n <= 0x200a) || n == 0x2028 || n == 0x2029 || n == 0x202f || n == 0x205f || n == 0x3000
}

/// Splits a text into its words.
pub fn split_words(text: &str) -> (list: Vec<String>)
    ensures
        texts_view(list@) == text_words(text@),
{
    let chars = chars_of(text);
    let mut list: Vec<String> = Vec::new();
    let ghost all = text_words(text@);
    let mut i: usize = 0;
    assert(chars@.skip(0) =~= chars@);
    assert(texts_view(list@) + all =~= all);
    while i < chars.len()
        invariant
            i <= chars@.len(),
            texts_view(list@) + text_words(chars@.skip(i as int)) == all,
        decreases chars@.len() - i,
    {
        let ghost rest = chars@.skip(i as int);
        if white_space(chars[i]) {
            assert(rest.skip(1) =~= chars@.skip(i + 1));
            i = i + 1;
        } else {
            let start = i;
            i = i + 1;
            while i < chars.len() && !white_space(chars[i])
                invariant
                    start < i <= chars@.len(),
                    rest == chars@.skip(start as int),
                    forall|k: int| 0 <= k < i - start ==> !is_white_space(#[trigger] rest[k]),
                decreases chars@.len() - i,
            {
                assert(rest[i - start] == chars@[i as int]);
                i = i + 1;
            }
            let ghost n = i - start;
            proof {
                if i < chars@.len() {
                    assert(rest[n] == chars@[i as int]);
                }
                lemma_word_length_is(rest, n);
            }
            let ghost done = texts_view(list@);
            let word = string_of(&chars, start, i);
            assert(word@ =~= rest.take(n));
            assert(rest.skip(n) =~= chars@.skip(i as int));
            assert(!is_white_space(rest[0]));
            list.push(word);
            assert(texts_view(list@) =~= done + seq![rest.take(n)]);
            assert(done + (seq![rest.take(n)] + text_words(chars@.skip(i as int))) =~= texts_view(
                list@,
            ) + text_words(chars@.skip(i as int)));
        }
    }
    assert(chars@.skip(i as int) =~= Seq::<char>::empty());
    assert(texts_view(list@) + Seq::<Seq<char>>::empty() =~= texts_view(list@));
    list
}

} // verus!
