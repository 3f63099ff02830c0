//! Sensor name filters: all sensors, one name, or a regular expression between slashes.

use regex::Regex;
use vstd::prelude::*;
use vstd::string::StringExecFns;
use crate::text::chars_of;
use crate::text::opt_str;
use crate::text::str_eq;
use crate::text::string_of;

verus! {

/// A compiled regular expression of the crate `regex`.
#[verifier::external_type_specification]
#[verifier::external_body]
pub struct ExRegex(Regex);

/// The pattern that a regular expression stands for: of one that `Regex::new` made, the pattern that
/// it was made from.
pub uninterp spec fn regex_pattern(re: Regex) -> Seq<char>;

/// Whether a text holds a match of the regular expression that a pattern stands for: what
/// `Regex::is_match` returns.
pub uninterp spec fn regex_matches(pattern: Seq<char>, text: Seq<char>) -> bool;

/// What the error of `Regex::new` prints for a pattern that it does not accept.
pub uninterp spec fn regex_fault(pattern: Seq<char>) -> Seq<char>;

/// Calls `Regex::new`, and prints its error where there is one. Success gives the regular expression
/// of the pattern. Whether it accepts a pattern is not stated: that rests on the syntax of the
/// pattern, and also on the size of the compiled program, for which there is a limit, and which
/// differs between machines.
#[verifier::external_body]
fn compile(pattern: &str) -> (r: Result<Regex, String>)
    ensures
        match r {
            Ok(re) => regex_pattern(re) == pattern@,
            Err(why) => why@ == regex_fault(pattern@),
        },
{
    match Regex::new(pattern) {
        Ok(re) => Ok(re),
        Err(e) => Err(e.to_string()),
    }
}

/// Calls `Regex::is_match`: whether the text holds a match, which rests on the regular expression and
/// the text alone.
#[verifier::external_body]
fn is_match(re: &Regex, text: &str) -> (r: bool)
    ensures
        r == regex_matches(regex_pattern(*re), text@),
{
    re.is_match(text)
}

/// Sensor name filter: all, exact name, or regex pattern `/pattern/`.
pub enum SensorFilter {
    All,
    Exact(String),
    Pattern(Regex),
}

/// A sensor name filter as mathematics sees it.
#[verifier::ext_equal]
pub enum FilterView {
    All,
    Exact(Seq<char>),
    Pattern(Seq<char>),
}

impl View for SensorFilter {
    type V = FilterView;

    open spec fn view(&self) -> FilterView {
        match self {
            SensorFilter::All => FilterView::All,
            SensorFilter::Exact(s) => FilterView::Exact(s@),
            SensorFilter::Pattern(re) => FilterView::Pattern(regex_pattern(*re)),
        }
    }
}

impl FilterView {
    /// Whether the filter lets a name through.
    pub open spec fn accepts(self, name: Seq<char>) -> bool {
        match self {
            FilterView::All => true,
            FilterView::Exact(n) => name == n,
            FilterView::Pattern(pattern) => regex_matches(pattern, name),
        }
    }
}

/// The view of a filter, or of what is wrong with it.
pub open spec fn filter_view(r: Result<SensorFilter, String>) -> Result<FilterView, Seq<char>> {
    match r {
        Ok(f) => Ok(f@),
        Err(e) => Err(e@),
    }
}

/// Whether a text is a regular expression between slashes.
pub open spec fn is_pattern(s: Seq<char>) -> bool {
    s.len() > 1 && s[0] == '/' && s.last() == '/'
}

/// The filter that a pattern makes, or what is wrong with it, given whether it is accepted.
pub open spec fn pattern_filter(pattern: Seq<char>, accepted: bool) -> Result<
    FilterView,
    Seq<char>,
> {
    if accepted {
        Ok(FilterView::Pattern(pattern))
    } else {
        Err("Invalid regex: "@ + regex_fault(pattern))
    }
}

/// The filter that an argument stands for, given whether a pattern in it is accepted.
pub open spec fn read_filter(arg: Option<Seq<char>>, accepted: bool) -> Result<
    FilterView,
    Seq<char>,
> {
    match arg {
        None => Ok(FilterView::All),
        Some(s) => if is_pattern(s) {
            pattern_filter(s.subrange(1, s.len() - 1), accepted)
        } else {
            Ok(FilterView::Exact(s))
        },
    }
}

impl SensorFilter {
    /// The filter that a compiled pattern makes, or what is wrong with the pattern.
    pub fn of_compiled(r: Result<Regex, String>) -> (f: Result<SensorFilter, String>)
        ensures
            filter_view(f) == (match r {
                Ok(re) => Ok(FilterView::Pattern(regex_pattern(re))),
                Err(why) => Err("Invalid regex: "@ + why@),
            }),
    {
        match r {
            Ok(re) => Ok(SensorFilter::Pattern(re)),
            Err(why) => {
                let mut text = "Invalid regex: ".to_owned();
                text.append(why.as_str());
                Err(text)
            },
        }
    }

    /// Parse a sensor filter string.
    pub fn parse(arg: Option<&str>) -> (f: Result<SensorFilter, String>)
        ensures
            exists|accepted: bool|
                filter_view(f) == #[trigger] read_filter(opt_str(arg), accepted),
            !(arg matches Some(s) && is_pattern(s@)) ==> f is Ok,
    {
        match arg {
            None => {
                let f: Result<SensorFilter, String> = Ok(SensorFilter::All);
                assert(filter_view(f) == read_filter(opt_str(arg), true));
                f
            },
            Some(s) => {
                let chars = chars_of(s);
                let n = chars.len();
                if n > 1 && chars[0] == '/' && chars[n - 1] == '/' {
                    let r = compile(string_of(&chars, 1, n - 1).as_str());
                    let ghost accepted = r is Ok;
                    let f = SensorFilter::of_compiled(r);
                    assert(filter_view(f) == read_filter(opt_str(arg), accepted));
                    f
                } else {
                    let f: Result<SensorFilter, String> = Ok(SensorFilter::Exact(s.to_owned()));
                    assert(filter_view(f) == read_filter(opt_str(arg), true));
                    f
                }
            },
        }
    }

    /// Check if a sensor name matches the filter.
    pub fn matches(&self, name: &str) -> (r: bool)
        ensures
            r == self@.accepts(name@),
    {
        match self {
            SensorFilter::All => true,
            SensorFilter::Exact(n) => str_eq(name, n.as_str()),
            SensorFilter::Pattern(re) => is_match(re, name),
        }
    }
}

} // verus!
