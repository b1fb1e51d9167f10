//! Moments and lengths of time, held as whole seconds and the nanoseconds past
//! them.

use crate::text::chars_of;
use chrono::{DateTime, Utc};
use std::time::Duration;
use vstd::prelude::*;

verus! {

pub const NANOS_PER_SEC: u32 = 1_000_000_000;

/// A length of time. Its view is the number of nanoseconds it lasts.
#[derive(Debug, Clone, Copy, PartialEq, Eq)]
pub struct Span {
    secs: u64,
    nanos: u32,
}

impl View for Span {
    type V = nat;

    closed spec fn view(&self) -> nat {
        self.secs as nat * 1_000_000_000 + self.nanos as nat
    }
}

impl Span {
    #[verifier::type_invariant]
    spec fn in_range(self) -> bool {
        self.nanos < 1_000_000_000
    }

    /// The span of `secs` seconds and `nanos` nanoseconds, unless those are a
    /// second or more.
    pub fn new(secs: u64, nanos: u32) -> (span: Option<Span>)
        ensures
            match span {
                Some(span) => nanos < NANOS_PER_SEC && span@ == secs * NANOS_PER_SEC + nanos,
                None => nanos >= NANOS_PER_SEC,
            },
    {
        if nanos < NANOS_PER_SEC {
            Some(Span { secs, nanos })
        } else {
            None
        }
    }

    /// The span of `secs` seconds and `nanos` nanoseconds.
    pub fn from_parts(secs: u64, nanos: u32) -> (span: Span)
        requires
            nanos < NANOS_PER_SEC,
        ensures
            span@ == secs * NANOS_PER_SEC + nanos,
    {
        Span { secs, nanos }
    }

    pub fn from_secs(secs: u64) -> (span: Span)
        ensures
            span@ == secs * NANOS_PER_SEC,
    {
        Span { secs, nanos: 0 }
    }

    /// The whole seconds of the span.
    pub fn as_secs(&self) -> (secs: u64)
        ensures
            secs == self@ / NANOS_PER_SEC as nat,
    {
        proof {
            use_type_invariant(self);
        }
        self.secs
    }

    /// What the span lasts past its whole seconds.
    pub fn subsec_nanos(&self) -> (nanos: u32)
        ensures
            nanos == self@ % NANOS_PER_SEC as nat,
    {
        proof {
            use_type_invariant(self);
        }
        self.nanos
    }

    /// Whether this span outlasts `other`.
    pub fn longer_than(&self, other: &Span) -> (longer: bool)
        ensures
            longer == (self@ > other@),
    {
        proof {
            use_type_invariant(self);
            use_type_invariant(other);
        }
        self.secs > other.secs || (self.secs == other.secs && self.nanos > other.nanos)
    }
}

/// The first and the last second of the years -262143 to 262142, counted from
/// the start of 1970.
pub const FIRST_SECOND: i64 = -8_334_601_228_800;

pub const LAST_SECOND: i64 = 8_210_266_876_799;

/// Whether `secs` seconds and `nanos` nanoseconds from the start of 1970 name
/// a moment. A leap second is the second before it, with the nanoseconds
/// running on past a thousand million.
pub open spec fn is_moment(secs: int, nanos: int) -> bool {
    &&& FIRST_SECOND <= secs <= LAST_SECOND
    &&& 0 <= nanos < 2_000_000_000
    &&& nanos >= 1_000_000_000 ==> secs % 60 == 59
}

/// A moment in UTC. Its view is the seconds since the start of 1970 and the
/// nanoseconds past them.
#[derive(Debug, Clone, Copy, PartialEq, Eq)]
pub struct Timestamp {
    secs: i64,
    nanos: u32,
}

impl View for Timestamp {
    type V = (int, int);

    closed spec fn view(&self) -> (int, int) {
        (self.secs as int, self.nanos as int)
    }
}

/// The time of day `secs` falls on, in seconds since midnight.
pub open spec fn time_of_day(secs: int) -> int {
    secs % 86_400
}

/// The nanoseconds from `start` to `end`, counting a leap second that `start`
/// or `end` falls into when the other lies across it in time of day.
pub open spec fn nanos_between(start: (int, int), end: (int, int)) -> int {
    let leap: int = if time_of_day(end.0) > time_of_day(start.0) && start.1 >= 1_000_000_000 {
        1
    } else if time_of_day(end.0) < time_of_day(start.0) && end.1 >= 1_000_000_000 {
        -1
    } else {
        0
    };
    (end.0 - start.0 + leap) * 1_000_000_000 + end.1 - start.1
}

/// `end - start` and `TimeDelta::to_std` of chrono, on the moments that
/// `DateTime::from_timestamp` makes of the numbers.
///
/// Claimed: a moment exists for each pair that [`is_moment`] admits; the
/// difference is the one [`nanos_between`] gives; it comes back as seconds and
/// the nanoseconds past them unless it is negative.
#[verifier::external_body]
fn chrono_difference(start_secs: i64, start_nanos: u32, end_secs: i64, end_nanos: u32) -> (span:
    Option<(u64, u32)>)
    requires
        is_moment(start_secs as int, start_nanos as int),
        is_moment(end_secs as int, end_nanos as int),
    ensures
        match span {
            Some((secs, nanos)) => nanos < 1_000_000_000 && secs * 1_000_000_000 + nanos
                == nanos_between(
                (start_secs as int, start_nanos as int),
                (end_secs as int, end_nanos as int),
            ),
            None => nanos_between(
                (start_secs as int, start_nanos as int),
                (end_secs as int, end_nanos as int),
            ) < 0,
        },
{
    let start = DateTime::<Utc>::from_timestamp(start_secs, start_nanos)?;
    let end = DateTime::<Utc>::from_timestamp(end_secs, end_nanos)?;
    match (end - start).to_std() {
        Ok(span) => Some((span.as_secs(), span.subsec_nanos())),
        Err(_) => None,
    }
}

impl Timestamp {
    #[verifier::type_invariant]
    spec fn in_range(self) -> bool {
        is_moment(self.secs as int, self.nanos as int)
    }

    /// The moment `secs` seconds and `nanos` nanoseconds from the start of
    /// 1970, when there is one.
    pub fn new(secs: i64, nanos: u32) -> (moment: Option<Timestamp>)
        ensures
            match moment {
                Some(moment) => is_moment(secs as int, nanos as int) && moment@ == (
                    secs as int,
                    nanos as int,
                ),
                None => !is_moment(secs as int, nanos as int),
            },
    {
        if secs < FIRST_SECOND || secs > LAST_SECOND || nanos >= 2_000_000_000 {
            return None;
        }
        // Counted from the first second, so that no remainder is negative.
        let since_first: u64 = (secs - FIRST_SECOND) as u64;
        assert(secs as int % 60 == since_first as int % 60);
        if nanos >= NANOS_PER_SEC && since_first % 60 != 59 {
            return None;
        }
        Some(Timestamp { secs, nanos })
    }

    pub fn secs(&self) -> (secs: i64)
        ensures
            secs == self@.0,
    {
        self.secs
    }

    pub fn nanos(&self) -> (nanos: u32)
        ensures
            nanos == self@.1,
    {
        self.nanos
    }

    /// How long after `start` this moment comes, or `None` when it comes
    /// before.
    pub fn since(&self, start: &Timestamp) -> (span: Option<Span>)
        ensures
            match span {
                Some(span) => span@ == nanos_between(start@, self@),
                None => nanos_between(start@, self@) < 0,
            },
    {
        proof {
            use_type_invariant(self);
            use_type_invariant(start);
        }
        match chrono_difference(start.secs, start.nanos, self.secs, self.nanos) {
            Some((secs, nanos)) => Some(Span { secs, nanos }),
            None => None,
        }
    }
}

/// How many of the characters of `text` are decimal digits.
pub open spec fn digit_count(text: Seq<char>) -> nat
    decreases text.len(),
{
    if text.len() == 0 {
        0
    } else {
        digit_count(text.drop_last()) + if '0' <= text.last() <= '9' {
            1nat
        } else {
            0nat
        }
    }
}

/// Whether `c` is a letter, as the names of units are written with.
pub open spec fn is_letter(c: char) -> bool {
    'a' <= c <= 'z' || 'A' <= c <= 'Z'
}

/// Whether `text` spells one span of time at most: once its unit has begun no
/// number follows.
pub open spec fn is_one_span(text: Seq<char>) -> bool {
    forall|i: int, j: int|
        0 <= i < j < text.len() ==> !(is_letter(#[trigger] text[i]) && '0' <= (
        #[trigger] text[j]) <= '9')
}

/// What a number comes to in years at most, when this letter begins its unit.
/// The units below a second that begin with an `n` or a `u` are a millionth of
/// a second or less.
pub open spec fn years_at_most(number: nat, unit: char) -> nat {
    if unit == 'n' || unit == 'u' {
        (number + 999_999) / 1_000_000
    } else {
        number
    }
}

/// What the numbers that `text` has spelled out come to in years at most, and
/// the number that it leaves off in. A number ends where a unit or a fraction
/// begins; what else stands between two digits does not part them.
pub open spec fn numbers_spelled(text: Seq<char>) -> (nat, nat)
    decreases text.len(),
{
    if text.len() == 0 {
        (0, 0)
    } else {
        let (sum, last) = numbers_spelled(text.drop_last());
        let c = text.last();
        if '0' <= c <= '9' {
            (sum, last * 10 + (c as nat - '0' as nat) as nat)
        } else if is_letter(c) || c == '.' {
            (sum + years_at_most(last, c), 0)
        } else {
            (sum, last)
        }
    }
}

/// What the numbers in `text` come to in years at most.
pub open spec fn sum_of_numbers(text: Seq<char>) -> nat {
    numbers_spelled(text).0 + numbers_spelled(text).1
}

/// Whether a unit below a second may begin at `at`: one of those that begin
/// with an `n` or a `u`, or with `ms` or `mil`.
pub open spec fn begins_below_a_second(text: Seq<char>, at: int) -> bool {
    let begins = at == 0 || !is_letter(text[at - 1]);
    ||| begins && (text[at] == 'n' || text[at] == 'u')
    ||| text[at] == 'm' && at + 1 < text.len() && (text[at + 1] == 's' || text[at + 1] == 'i' && at
        + 2 < text.len() && text[at + 2] == 'l')
}

/// Whether `text` spells whole seconds: there is no fraction in it, and no unit
/// below a second.
pub open spec fn is_whole_seconds(text: Seq<char>) -> bool {
    forall|at: int|
        0 <= at < text.len() ==> #[trigger] text[at] != '.' && text[at] != '\u{b5}'
            && !begins_below_a_second(text, at)
}

/// A number of years that is fewer than `u64::MAX` seconds.
pub const SAFE_SUM: u64 = 500_000_000_000;

/// Whether the spans that `text` spells can be added up.
///
/// Spans that come to `u64::MAX` seconds and then make up exactly one second
/// more out of parts of one are what humantime panics on rather than refuses.
/// That cannot happen in
///
/// - text with fewer than sixteen digits: such a sum takes twelve for the
///   seconds, as years, and four for the parts of a second;
/// - text that spells one span: no decimal fraction of a unit is exactly one
///   second in parts, and milliseconds or less come to far fewer seconds;
/// - text that spells whole seconds: there are no parts of one;
/// - text whose numbers come to less than [`SAFE_SUM`] years: no unit is longer
///   than a year.
pub open spec fn is_countable(text: Seq<char>) -> bool {
    digit_count(text) < 16 || is_one_span(text) || is_whole_seconds(text) || sum_of_numbers(text)
        < SAFE_SUM
}

/// Whether `text` has fewer than sixteen digits.
fn few_digits(chars: &Vec<char>) -> (yes: bool)
    ensures
        yes == (digit_count(chars@) < 16),
{
    let mut digits: u64 = 0;
    let mut at: usize = 0;
    while at < chars.len()
        invariant
            at <= chars.len(),
            digits == digit_count(chars@.take(at as int)),
            digits <= at,
        decreases chars.len() - at,
    {
        assert(chars@.take(at + 1).drop_last() =~= chars@.take(at as int));
        assert(at < u64::MAX);
        if '0' <= chars[at] && chars[at] <= '9' {
            digits = digits + 1;
        }
        at = at + 1;
    }
    assert(chars@.take(at as int) =~= chars@);
    digits < 16
}

fn letter(c: char) -> (yes: bool)
    ensures
        yes == is_letter(c),
{
    ('a' <= c && c <= 'z') || ('A' <= c && c <= 'Z')
}

/// Whether no number follows a unit.
fn one_span(chars: &Vec<char>) -> (yes: bool)
    ensures
        yes == is_one_span(chars@),
{
    let mut in_unit = false;
    let ghost mut began: int = 0;
    let mut at: usize = 0;
    while at < chars.len()
        invariant
            at <= chars.len(),
            in_unit ==> 0 <= began < at && is_letter(chars@[began]),
            !in_unit ==> forall|i: int| 0 <= i < at ==> !is_letter(#[trigger] chars@[i]),
            is_one_span(chars@.take(at as int)),
        decreases chars.len() - at,
    {
        let c = chars[at];
        if in_unit && '0' <= c && c <= '9' {
            assert(is_letter(chars@[began]) && chars@[at as int] == c);
            return false;
        }
        proof {
            let longer = chars@.take(at + 1);
            assert forall|i: int, j: int| 0 <= i < j < longer.len() implies !(is_letter(
                #[trigger] longer[i],
            ) && '0' <= (#[trigger] longer[j]) <= '9') by {
                assert(longer[i] == chars@[i] && longer[j] == chars@[j]);
                if j < at {
                    assert(chars@.take(at as int)[i] == chars@[i]);
                    assert(chars@.take(at as int)[j] == chars@[j]);
                }
            }
        }
        if !in_unit && letter(c) {
            in_unit = true;
            proof {
                began = at as int;
            }
        }
        at = at + 1;
    }
    assert(chars@.take(at as int) =~= chars@);
    true
}

/// Whether there is no fraction and no unit below a second.
fn whole_seconds(chars: &Vec<char>) -> (yes: bool)
    ensures
        yes == is_whole_seconds(chars@),
{
    let mut at: usize = 0;
    while at < chars.len()
        invariant
            at <= chars.len(),
            forall|i: int|
                0 <= i < at ==> #[trigger] chars@[i] != '.' && chars@[i] != '\u{b5}'
                    && !begins_below_a_second(chars@, i),
        decreases chars.len() - at,
    {
        let c = chars[at];
        let begins = at == 0 || !letter(chars[at - 1]);
        let rest: usize = chars.len() - at;
        if c == '.' || c == '\u{b5}' || (begins && (c == 'n' || c == 'u')) || (c == 'm' && rest > 1
            && (chars[at + 1] == 's' || (chars[at + 1] == 'i' && rest > 2 && chars[at + 2]
            == 'l'))) {
            assert(chars@[at as int] == c);
            return false;
        }
        at = at + 1;
    }
    true
}

/// What is sure to be in the sum at the end: a number still to be ended comes
/// to a millionth of itself at least.
spec fn sure_of(spelled: (nat, nat)) -> nat {
    spelled.0 + spelled.1 / 1_000_000
}

proof fn lemma_numbers_only_grow(text: Seq<char>, upto: int)
    requires
        0 <= upto <= text.len(),
    ensures
        sure_of(numbers_spelled(text.take(upto))) <= sum_of_numbers(text),
        sure_of(numbers_spelled(text.take(upto))) <= sure_of(numbers_spelled(text)),
    decreases text.len() - upto,
{
    if upto == text.len() {
        assert(text.take(upto) =~= text);
    } else {
        lemma_numbers_only_grow(text, upto + 1);
        assert(text.take(upto + 1).drop_last() =~= text.take(upto));
        let (sum, last) = numbers_spelled(text.take(upto));
        assert(last / 1_000_000 <= (last * 10) / 1_000_000);
    }
}

/// Whether the numbers come to less than [`SAFE_SUM`] years.
fn small_numbers(chars: &Vec<char>) -> (yes: bool)
    ensures
        yes == (sum_of_numbers(chars@) < SAFE_SUM),
{
    let mut sum: u64 = 0;
    let mut last: u64 = 0;
    let mut at: usize = 0;
    while at < chars.len()
        invariant
            at <= chars.len(),
            (sum as nat, last as nat) == numbers_spelled(chars@.take(at as int)),
            sum + last / 1_000_000 < SAFE_SUM,
        decreases chars.len() - at,
    {
        proof {
            assert(chars@.take(at + 1).drop_last() =~= chars@.take(at as int));
            lemma_numbers_only_grow(chars@, at + 1);
        }
        let c = chars[at];
        if '0' <= c && c <= '9' {
            last = last * 10 + (c as u64 - '0' as u64);
        } else if c == 'n' || c == 'u' {
            sum = sum + (last + 999_999) / 1_000_000;
            last = 0;
        } else if letter(c) || c == '.' {
            sum = sum + last;
            last = 0;
        }
        if sum + last / 1_000_000 >= SAFE_SUM {
            return false;
        }
        at = at + 1;
    }
    assert(chars@.take(at as int) =~= chars@);
    sum + last < SAFE_SUM
}

/// Whether the spans that `text` spells can be added up.
pub fn countable(text: &str) -> (yes: bool)
    ensures
        yes == is_countable(text@),
{
    let chars = chars_of(text);
    few_digits(&chars) || one_span(&chars) || whole_seconds(&chars) || small_numbers(&chars)
}

/// What `humantime::parse_duration` makes of a text: seconds and nanoseconds,
/// or its error as `Display` writes it.
pub uninterp spec fn humantime_parsed(text: Seq<char>) -> Result<(u64, u32), Seq<char>>;

/// `humantime::parse_duration`, a function of its argument alone.
///
/// Claimed besides: the nanoseconds are less than a second, as
/// `Duration::subsec_nanos` promises.
#[verifier::external_body]
pub(crate) fn humantime_parse(text: &str) -> (parsed: Result<(u64, u32), String>)
    requires
        is_countable(text@),
    ensures
        match parsed {
            Ok(span) => humantime_parsed(text@) == Ok::<(u64, u32), Seq<char>>(span),
            Err(e) => humantime_parsed(text@) == Err::<(u64, u32), Seq<char>>(e@),
        },
        parsed matches Ok(span) ==> span.1 < 1_000_000_000,
{
    match humantime::parse_duration(text) {
        Ok(span) => Ok((span.as_secs(), span.subsec_nanos())),
        Err(e) => Err(e.to_string()),
    }
}

/// How `humantime::format_duration` writes a number of whole seconds.
pub uninterp spec fn humantime_formatted(secs: u64) -> Seq<char>;

/// `humantime::format_duration`, a function of its argument alone.
#[verifier::external_body]
pub(crate) fn humantime_format(secs: u64) -> (text: String)
    ensures
        text@ == humantime_formatted(secs),
{
    humantime::format_duration(Duration::from_secs(secs)).to_string()
}

/// Away from leap seconds the time between two moments is their difference, so
/// it is counted alike in both directions and adds up over a moment between.
pub proof fn law_time_adds_up(a: (int, int), b: (int, int), c: (int, int))
    requires
        a.1 < 1_000_000_000 && b.1 < 1_000_000_000 && c.1 < 1_000_000_000,
    ensures
        nanos_between(a, a) == 0,
        nanos_between(b, a) == -nanos_between(a, b),
        nanos_between(a, b) + nanos_between(b, c) == nanos_between(a, c),
        b.0 == a.0 + 1 && b.1 == a.1 ==> nanos_between(a, b) == 1_000_000_000,
        b.0 == a.0 ==> nanos_between(a, b) == b.1 - a.1,
{
}

} // verus!
