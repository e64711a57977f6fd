//! How long ago an instant was, as a phrase such as `5 minutes ago`.

use crate::timestamp::Timestamp;
use timediff::TimeDiff;
use vstd::prelude::*;

verus! {

/// The error of `humantime`'s duration parser, which `timediff` hands on.
#[verifier::external_type_specification]
#[verifier::external_body]
pub struct ExDurationError(humantime::DurationError);

/// The phrase that `timediff` makes of the duration string `duration` in its
/// default locale.
pub uninterp spec fn timediff_phrase(duration: Seq<char>) -> Seq<char>;

/// Why an instant has no relative time.
#[derive(Clone, Copy, Debug, PartialEq, Eq, Structural)]
pub enum TimeError {
    /// The instant lies after the one it is compared to.
    LaterThanNow,
    /// The phrase maker refused the duration it was given.
    NoPhrase,
}

/// The decimal digit for `digit`.
pub open spec fn digit_char(digit: nat) -> char {
    if digit == 0 {
        '0'
    } else if digit == 1 {
        '1'
    } else if digit == 2 {
        '2'
    } else if digit == 3 {
        '3'
    } else if digit == 4 {
        '4'
    } else if digit == 5 {
        '5'
    } else if digit == 6 {
        '6'
    } else if digit == 7 {
        '7'
    } else if digit == 8 {
        '8'
    } else {
        '9'
    }
}

/// `number` in decimal, without leading zeros.
pub open spec fn decimal(number: nat) -> Seq<char>
    decreases number,
{
    if number < 10 {
        seq![digit_char(number)]
    } else {
        decimal(number / 10).push(digit_char(number % 10))
    }
}

/// The duration string for `seconds` seconds in the past: a minus sign, the
/// number, and the unit `s`.
pub open spec fn seconds_ago(seconds: nat) -> Seq<char> {
    seq!['-'] + decimal(seconds) + seq!['s']
}

/// The whole seconds from the instant `earlier` to the instant `later`, both in
/// nanoseconds.
pub open spec fn whole_seconds_between(earlier: int, later: int) -> nat {
    ((later - earlier) / 1_000_000_000) as nat
}

/// The relative time of an entry modified at `modified`, seen from `now`, both
/// in nanoseconds since the epoch: the phrase for the whole seconds that
/// passed, and an error where the entry was modified after `now`.
pub open spec fn relative_time(now: int, modified: int) -> Result<Seq<char>, TimeError> {
    if modified > now {
        Err(TimeError::LaterThanNow)
    } else {
        Ok(timediff_phrase(seconds_ago(whole_seconds_between(modified, now))))
    }
}

/// The text of one decimal digit.
fn digit_text(digit: u64) -> (text: &'static str)
    requires
        digit < 10,
    ensures
        text@ == seq![digit_char(digit as nat)],
{
    proof {
        reveal_strlit("0");
        reveal_strlit("1");
        reveal_strlit("2");
        reveal_strlit("3");
        reveal_strlit("4");
        reveal_strlit("5");
        reveal_strlit("6");
        reveal_strlit("7");
        reveal_strlit("8");
        reveal_strlit("9");
    }
    let text = if digit == 0 {
        "0"
    } else if digit == 1 {
        "1"
    } else if digit == 2 {
        "2"
    } else if digit == 3 {
        "3"
    } else if digit == 4 {
        "4"
    } else if digit == 5 {
        "5"
    } else if digit == 6 {
        "6"
    } else if digit == 7 {
        "7"
    } else if digit == 8 {
        "8"
    } else {
        "9"
    };
    assert(text@ =~= seq![digit_char(digit as nat)]);
    text
}

/// Writes `number` in decimal.
pub fn decimal_text(number: u64) -> (text: String)
    ensures
        text@ == decimal(number as nat),
    decreases number,
{
    if number < 10 {
        digit_text(number).to_owned()
    } else {
        let mut text = decimal_text(number / 10);
        text.append(digit_text(number % 10));
        text
    }
}

/// Writes the duration string for `seconds` seconds in the past.
pub fn seconds_ago_text(seconds: u64) -> (text: String)
    ensures
        text@ == seconds_ago(seconds as nat),
{
    let mut text = String::new();
    text.append("-");
    text.append(decimal_text(seconds).as_str());
    text.append("s");
    proof {
        reveal_strlit("-");
        reveal_strlit("s");
        assert(text@ =~= seconds_ago(seconds as nat));
    }
    text
}

/// Calls `TimeDiff::to_diff` and `TimeDiff::parse` of `timediff` on a duration
/// string of the form that `seconds_ago` describes. Trusted: such a string is
/// never refused, as the parser takes every number of seconds that fits 64 bits
/// and every duration has a phrase; and the phrase is a function of the string
/// alone, named `timediff_phrase`. Nothing is claimed of what the phrase says.
#[verifier::external_body]
fn timediff_parse(duration: String) -> (parsed: Result<String, humantime::DurationError>)
    requires
        exists|seconds: nat| seconds <= u64::MAX && duration@ == seconds_ago(seconds),
    ensures
        parsed is Ok,
        parsed matches Ok(phrase) ==> phrase@ == timediff_phrase(duration@),
{
    TimeDiff::to_diff(duration).parse()
}

/// Turns the outcome of the phrase maker into a relative time: the phrase, or
/// the error that none could be made.
pub fn relative_time_of(parsed: Result<String, humantime::DurationError>) -> (relative: Result<
    String,
    TimeError,
>)
    ensures
        parsed matches Ok(phrase) ==> relative == Ok::<String, TimeError>(phrase),
        parsed is Err ==> relative == Err::<String, TimeError>(TimeError::NoPhrase),
{
    match parsed {
        Ok(phrase) => Ok(phrase),
        Err(_) => Err(TimeError::NoPhrase),
    }
}

/// Says how long before `now` the instant `t` was. An instant after `now` has no
/// relative time; every other has one.
pub fn get_relative_time(now: &Timestamp, t: &Timestamp) -> (relative: Result<String, TimeError>)
    ensures
        relative is Ok <==> t.spec_nanos() <= now.spec_nanos(),
        relative matches Ok(phrase) ==> relative_time(now.spec_nanos(), t.spec_nanos()) == Ok::<
            Seq<char>,
            TimeError,
        >(phrase@),
        relative matches Err(error) ==> relative_time(now.spec_nanos(), t.spec_nanos()) == Err::<
            Seq<char>,
            TimeError,
        >(error),
{
    match now.seconds_since(t) {
        None => Err(TimeError::LaterThanNow),
        Some(seconds) => {
            let duration = seconds_ago_text(seconds);
            assert(seconds as nat == whole_seconds_between(t.spec_nanos(), now.spec_nanos()));
            relative_time_of(timediff_parse(duration))
        },
    }
}

} // verus!
