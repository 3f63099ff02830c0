//! What holds of words and decimal numbers in texts.

use vstd::prelude::*;
use crate::decimal::all_digits;
use crate::decimal::digits_value;
use crate::decimal::int_text;
use crate::decimal::lemma_nat_text;
use crate::decimal::nat_text;
use crate::decimal::read_i64;
use crate::decimal::read_unsigned;
use crate::text::is_white_space;
use crate::text::lemma_word_length_is;
use crate::text::text_words;
use crate::text::word_length;

verus! {

/// Whether a text holds no white space.
pub open spec fn is_solid(s: Seq<char>) -> bool {
    forall|i: int| 0 <= i < s.len() ==> !is_white_space(#[trigger] s[i])
}

/// The white space characters of Unicode: tab to carriage return, space, next line, no-break space,
/// ogham space, the spaces from en quad to hair space, the separators of lines and paragraphs, and the
/// narrow, the mathematical and the ideographic space.
pub proof fn white_space_is_that_of_unicode(c: char)
    ensures
        is_white_space(c) <==> ('\t' <= c <= '\r' || c == ' ' || c == '\u{85}' || c == '\u{a0}' || c
            == '\u{1680}' || '\u{2000}' <= c <= '\u{200a}' || c == '\u{2028}' || c == '\u{2029}' || c
            == '\u{202f}' || c == '\u{205f}' || c == '\u{3000}'),
{
}

/// The first word ends within the text, at white space or at the text's end.
proof fn lemma_word_length(s: Seq<char>)
    ensures
        0 <= word_length(s) <= s.len(),
        forall|i: int| 0 <= i < word_length(s) ==> !is_white_space(#[trigger] s[i]),
        word_length(s) < s.len() ==> is_white_space(s[word_length(s)]),
    decreases s.len(),
{
    if s.len() > 0 && !is_white_space(s[0]) {
        let t = s.skip(1);
        lemma_word_length(t);
        assert forall|i: int| 0 <= i < word_length(s) implies !is_white_space(#[trigger] s[i]) by {
            if i > 0 {
                assert(t[i - 1] == s[i]);
            }
        }
    }
}

/// An empty text has no words, and a text without white space is one word.
pub proof fn solid_text_is_one_word(s: Seq<char>)
    requires
        is_solid(s),
    ensures
        s.len() == 0 ==> text_words(s) == Seq::<Seq<char>>::empty(),
        s.len() > 0 ==> text_words(s) == seq![s],
{
    if s.len() > 0 {
        lemma_word_length_is(s, s.len() as int);
        assert(s.take(s.len() as int) =~= s);
        assert(s.skip(s.len() as int) =~= Seq::<char>::empty());
        assert(!is_white_space(s[0]));
        assert(text_words(Seq::<char>::empty()) =~= seq![]);
        assert(text_words(s) =~= seq![s]);
    }
}

/// White space parts the words of a text: the words of a text are those before it and those behind it.
pub proof fn white_space_parts_words(a: Seq<char>, c: char, b: Seq<char>)
    requires
        is_white_space(c),
    ensures
        text_words(a + seq![c] + b) == text_words(a) + text_words(b),
    decreases a.len(),
{
    let s = a + seq![c] + b;
    if a.len() == 0 {
        assert(s[0] == c);
        assert(s.skip(1) =~= b);
        assert(text_words(a) + text_words(b) =~= text_words(b));
    } else if is_white_space(a[0]) {
        assert(s[0] == a[0]);
        assert(s.skip(1) =~= a.skip(1) + seq![c] + b);
        white_space_parts_words(a.skip(1), c, b);
    } else {
        let n = word_length(a);
        lemma_word_length(a);
        assert(n > 0) by {
            assert(word_length(a) == 1 + word_length(a.skip(1)));
            lemma_word_length(a.skip(1));
        }
        assert forall|i: int| 0 <= i < n implies !is_white_space(#[trigger] s[i]) by {
            assert(s[i] == a[i]);
        }
        assert(s[n] == (if n < a.len() { a[n] } else { c }));
        lemma_word_length_is(s, n);
        assert(s[0] == a[0]);
        assert(s.take(n) =~= a.take(n));
        assert(s.skip(n) =~= a.skip(n) + seq![c] + b);
        white_space_parts_words(a.skip(n), c, b);
        let first = seq![a.take(n)];
        assert(first + (text_words(a.skip(n)) + text_words(b)) =~= (first + text_words(a.skip(n)))
            + text_words(b));
    }
}

/// Whether a text is a run of decimal digits, with at least one.
pub open spec fn is_decimal(s: Seq<char>) -> bool {
    &&& s.len() > 0
    &&& forall|i: int| 0 <= i < s.len() ==> '0' <= (#[trigger] s[i]) <= '9'
}

/// A digit behind a run of digits makes ten times the number and the digit.
pub proof fn digits_have_their_place_value(s: Seq<char>, c: char)
    requires
        '0' <= c <= '9',
    ensures
        digits_value(Seq::<char>::empty()) == 0,
        digits_value(s.push(c)) == 10 * digits_value(s) + (c as int - 48),
{
    assert(s.push(c).drop_last() =~= s);
}

/// An unsigned number is read from digits, with or without a plus before them, if and only if it does
/// not exceed the limit; nothing else reads as one.
pub proof fn unsigned_numbers_are_read_from_digits(s: Seq<char>, max: nat)
    ensures
        is_decimal(s) ==> read_unsigned(s, max) == (if digits_value(s) <= max {
            Some(digits_value(s))
        } else {
            None
        }),
        is_decimal(s) ==> read_unsigned(seq!['+'] + s, max) == read_unsigned(s, max),
        read_unsigned(s, max) is Some ==> is_decimal(s) || (s.len() > 0 && s[0] == '+' && is_decimal(
            s.skip(1),
        )),
{
    if is_decimal(s) {
        assert('0' <= s[0] <= '9');
        assert(all_digits(s)) by {
            assert forall|i: int| 0 <= i < s.len() implies crate::decimal::is_digit(
                #[trigger] s[i],
            ) by {
                assert('0' <= s[i] <= '9');
            }
        }
        assert((seq!['+'] + s).skip(1) =~= s);
    }
    if read_unsigned(s, max) is Some {
        let t = if s[0] == '+' { s.skip(1) } else { s };
        assert forall|i: int| 0 <= i < t.len() implies '0' <= (#[trigger] t[i]) <= '9' by {
            assert(crate::decimal::is_digit(t[i]));
        }
    }
}

/// A 64-bit integer is read from digits, with or without a sign before them, if and only if it fits;
/// nothing else reads as one.
pub proof fn integers_are_read_from_digits(s: Seq<char>)
    ensures
        is_decimal(s) ==> read_i64(s) == (if digits_value(s) <= 0x7fff_ffff_ffff_ffff {
            Some(digits_value(s) as int)
        } else {
            None
        }),
        is_decimal(s) ==> read_i64(seq!['+'] + s) == read_i64(s),
        is_decimal(s) ==> read_i64(seq!['-'] + s) == (if digits_value(s) <= 0x8000_0000_0000_0000 {
            Some(-(digits_value(s) as int))
        } else {
            None
        }),
        read_i64(s) is Some ==> is_decimal(s) || (s.len() > 0 && (s[0] == '+' || s[0] == '-')
            && is_decimal(s.skip(1))),
{
    unsigned_numbers_are_read_from_digits(s, 0x7fff_ffff_ffff_ffff);
    unsigned_numbers_are_read_from_digits(s, 0x8000_0000_0000_0000);
    if is_decimal(s) {
        assert('0' <= s[0] <= '9');
        assert((seq!['-'] + s).skip(1) =~= s);
        assert((seq!['+'] + s)[0] == '+');
    }
    if s.len() > 0 && s[0] == '-' {
        let t = s.skip(1);
        if read_i64(s) is Some {
            assert forall|i: int| 0 <= i < t.len() implies '0' <= (#[trigger] t[i]) <= '9' by {
                assert(crate::decimal::is_digit(t[i]));
            }
        }
    }
}

/// A number is written in digits that stand for it, without a zero before them unless it is zero; an
/// integer below zero has a minus before those of its size.
pub proof fn numbers_are_written_in_digits(n: nat)
    ensures
        is_decimal(nat_text(n)),
        digits_value(nat_text(n)) == n,
        n > 0 ==> nat_text(n)[0] != '0',
        int_text(n as int) == nat_text(n),
        n > 0 ==> int_text(-(n as int)) == seq!['-'] + nat_text(n),
    decreases n,
{
    lemma_nat_text(n);
    let s = nat_text(n);
    assert forall|i: int| 0 <= i < s.len() implies '0' <= (#[trigger] s[i]) <= '9' by {
        assert(crate::decimal::is_digit(s[i]));
    }
    if n >= 10 {
        numbers_are_written_in_digits(n / 10);
        lemma_nat_text(n / 10);
        assert(s[0] == nat_text(n / 10)[0]);
    }
}

/// The text of an integer is not empty and holds no white space.
pub proof fn lemma_int_text_is_solid(v: int)
    ensures
        int_text(v).len() > 0,
        is_solid(int_text(v)),
{
    let n = if v < 0 { (-v) as nat } else { v as nat };
    lemma_nat_text(n);
    let s = int_text(v);
    assert forall|i: int| 0 <= i < s.len() implies !is_white_space(#[trigger] s[i]) by {
        if v < 0 {
            if i > 0 {
                assert(s[i] == nat_text(n)[i - 1]);
                assert(crate::decimal::is_digit(nat_text(n)[i - 1]));
            }
        } else {
            assert(crate::decimal::is_digit(nat_text(n)[i]));
        }
    }
}

} // verus!
