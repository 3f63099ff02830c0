//! Double-precision numbers, carried through the library: their bits and their printed forms.
//!
//! The library orders such numbers and puts their printed forms into messages. It does no
//! arithmetic on them.

use vstd::prelude::*;
use crate::text::push_char;

verus! {

/// A double-precision number as mathematics sees it.
#[verifier::ext_equal]
pub struct Float64View {
    pub bits: u64,
    pub display: Seq<char>,
    pub scientific: Seq<char>,
    pub fixed: Seq<char>,
}

/// A double-precision number.
#[derive(Debug)]
pub struct Float64 {
    /// The bits of the number, as IEEE 754 lays them out.
    pub bits: u64,
    /// The number in its shortest decimal form.
    pub display: String,
    /// The number in scientific form, with seventeen digits behind the point.
    pub scientific: String,
    /// The number with six digits behind the point.
    pub fixed: String,
}

impl View for Float64 {
    type V = Float64View;

    open spec fn view(&self) -> Float64View {
        Float64View {
            bits: self.bits,
            display: self.display@,
            scientific: self.scientific@,
            fixed: self.fixed@,
        }
    }
}

impl Float64View {
    /// The number zero.
    pub open spec fn zero() -> Float64View {
        Float64View {
            bits: 0,
            display: "0"@,
            scientific: "0.00000000000000000e0"@,
            fixed: "0.000000"@,
        }
    }
}

/// The bits without the sign.
pub open spec fn magnitude(bits: u64) -> int {
    if bits >= 0x8000_0000_0000_0000 {
        bits - 0x8000_0000_0000_0000
    } else {
        bits as int
    }
}

/// Whether the bits stand for no number.
pub open spec fn is_nan(bits: u64) -> bool {
    magnitude(bits) > 0x7ff0_0000_0000_0000
}

/// The place of the number among the numbers: the bits without the sign grow with the size of the
/// number, and both zeros have one place.
pub open spec fn rank(bits: u64) -> int {
    if bits >= 0x8000_0000_0000_0000 {
        -magnitude(bits)
    } else {
        magnitude(bits)
    }
}

/// Whether one number is below another. No number is below or above what is no number.
pub open spec fn below(a: u64, b: u64) -> bool {
    !is_nan(a) && !is_nan(b) && rank(a) < rank(b)
}

/// Whether two numbers are equal. What is no number equals nothing.
pub open spec fn same_number(a: u64, b: u64) -> bool {
    !is_nan(a) && !is_nan(b) && rank(a) == rank(b)
}

/// The shortest decimal form of the largest finite number.
pub open spec fn largest_text() -> Seq<char> {
    "17976931348623157"@ + Seq::new(292, |i: int| '0')
}

/// The place of the number among the numbers.
fn rank_of(bits: u64) -> (r: i128)
    ensures
        r == rank(bits),
{
    if bits >= 0x8000_0000_0000_0000 {
        -((bits - 0x8000_0000_0000_0000) as i128)
    } else {
        bits as i128
    }
}

/// Whether the bits stand for no number.
fn not_a_number(bits: u64) -> (r: bool)
    ensures
        r == is_nan(bits),
{
    let m: u64 = if bits >= 0x8000_0000_0000_0000 {
        bits - 0x8000_0000_0000_0000
    } else {
        bits
    };
    m > 0x7ff0_0000_0000_0000
}

impl Float64 {
    /// A number, from its bits and its printed forms.
    pub fn new(bits: u64, display: String, scientific: String, fixed: String) -> (f: Float64)
        ensures
            f@ == (Float64View {
                bits,
                display: display@,
                scientific: scientific@,
                fixed: fixed@,
            }),
    {
        Float64 { bits, display, scientific, fixed }
    }

    /// The number zero.
    pub fn zero() -> (f: Float64)
        ensures
            f@ == Float64View::zero(),
    {
        Float64 {
            bits: 0,
            display: "0".to_owned(),
            scientific: "0.00000000000000000e0".to_owned(),
            fixed: "0.000000".to_owned(),
        }
    }

    /// Whether this number is below another.
    pub fn is_below(&self, other: &Float64) -> (r: bool)
        ensures
            r == below(self.bits, other.bits),
    {
        !not_a_number(self.bits) && !not_a_number(other.bits) && rank_of(self.bits) < rank_of(
            other.bits,
        )
    }
}

impl Clone for Float64 {
    fn clone(&self) -> (copy: Float64)
        ensures
            copy@ == self@,
    {
        Float64 {
            bits: self.bits,
            display: self.display.clone(),
            scientific: self.scientific.clone(),
            fixed: self.fixed.clone(),
        }
    }
}

impl PartialEq for Float64 {
    fn eq(&self, other: &Float64) -> (r: bool) {
        !not_a_number(self.bits) && !not_a_number(other.bits) && rank_of(self.bits) == rank_of(
            other.bits,
        )
    }
}

impl vstd::std_specs::cmp::PartialEqSpecImpl for Float64 {
    open spec fn obeys_eq_spec() -> bool {
        true
    }

    open spec fn eq_spec(&self, other: &Float64) -> bool {
        same_number(self.bits, other.bits)
    }
}

/// The shortest decimal form of the largest finite number.
pub fn largest_display() -> (text: String)
    ensures
        text@ == largest_text(),
{
    let mut text = "17976931348623157".to_owned();
    let ghost head = text@;
    let mut i: usize = 0;
    while i < 292
        invariant
            i <= 292,
            text@ == head + Seq::new(i as nat, |i: int| '0'),
        decreases 292 - i,
    {
        push_char(&mut text, '0');
        i = i + 1;
        assert(text@ =~= head + Seq::new(i as nat, |i: int| '0'));
    }
    text
}

/// The shortest decimal form of the smallest finite number.
pub fn smallest_display() -> (text: String)
    ensures
        text@ == seq!['-'] + largest_text(),
{
    let mut text = String::new();
    push_char(&mut text, '-');
    text.append(largest_display().as_str());
    assert(text@ =~= seq!['-'] + largest_text());
    text
}

} // verus!
