//! Calls into other crates. Verus does not read the bodies in this file: each
//! contract says what the called function is documented to do, and is taken on
//! trust.

use vstd::prelude::*;
use chrono::Datelike;
use fuzzy_matcher::FuzzyMatcher;
use crate::completion::skim_score;
use crate::date::{is_clock_date, is_clock_stamp, parsed_date, Date};
use crate::render::{cyan_on, styles, yellow_on};
use crate::text::{distinct, joined, views};

verus! {

/// `Itertools::join` over the strings of `parts`: each entry as it is, with
/// `sep` between each two, and the empty string for no entry.
#[verifier::external_body]
pub(crate) fn join_with(parts: &Vec<String>, sep: &str) -> (r: String)
    ensures
        r@ == joined(views(parts@), sep@),
{
    itertools::Itertools::join(&mut parts.iter(), sep)
}

/// `Itertools::unique` over the strings of `items`: an entry is handed on the
/// first time its value comes, and dropped every later time, so the order of
/// first occurrences stays.
#[verifier::external_body]
pub(crate) fn unique(items: Vec<String>) -> (r: Vec<String>)
    ensures
        views(r@) == distinct(views(items@)),
{
    itertools::Itertools::unique(items.into_iter()).collect()
}

/// `NaiveDateTime::parse_from_str` on `text` with the format `format`, and
/// the year, month and day of what it read. Nothing where it reads no date and
/// time. The contract gives the result its name and claims no more.
#[verifier::external_body]
pub(crate) fn parse_date_with(text: &str, format: &str) -> (r: Option<Date>)
    ensures
        r == parsed_date(text@, format@),
{
    match chrono::NaiveDateTime::parse_from_str(text, format) {
        Ok(t) => Some(Date { year: t.year(), month: t.month(), day: t.day() }),
        Err(_) => None,
    }
}

/// `SkimMatcherV2::fuzzy_match` of a matcher with the default settings and
/// smart case, on the choice `choice` and the pattern `pattern`: the score of
/// the match, or nothing where the pattern does not match. The contract gives
/// the result its name, and says that an empty pattern matches with score 0,
/// which is the first thing the matcher tests.
#[verifier::external_body]
pub(crate) fn fuzzy_score(choice: &str, pattern: &str) -> (r: Option<i64>)
    ensures
        r == skim_score(choice@, pattern@),
        pattern@.len() == 0 ==> r == Some(0i64),
{
    fuzzy_matcher::skim::SkimMatcherV2::default().smart_case().fuzzy_match(choice, pattern)
}

/// `Local::now` and `DateTime::format`: the local time of the call, written
/// by the format `format`. Formatting fails on a format that chrono does not
/// know, so only the two formats that the library uses are let in. The result
/// is another one at every call; the contract claims the shape that chrono
/// documents for the items of the format, whatever the time: `%Y` writes four
/// digits, or a sign and more for a year before 0 or after 9999, `%m`, `%d`,
/// `%H`, `%M` and `%S` two digits each, `%a` three letters, `%F` is
/// `%Y-%m-%d` and `%R` is `%H:%M`.
#[verifier::external_body]
pub(crate) fn local_time_as(format: &str) -> (r: String)
    requires
        format@ == "%Y%m%dT%H%M%S"@ || format@ == "%F %a %R"@,
    ensures
        format@ == "%Y%m%dT%H%M%S"@ ==> is_clock_stamp(r@),
        format@ == "%F %a %R"@ ==> is_clock_date(r@),
{
    chrono::Local::now().format(format).to_string()
}

/// `Colorize::cyan` on `text`, as it is displayed: the text itself where
/// colours are off, else the text between the code for cyan and the code that
/// resets. Which of the two depends on the terminal and the environment. A
/// text that holds the reset code is displayed in another way, of which
/// nothing is claimed.
#[verifier::external_body]
pub(crate) fn paint_cyan(text: &str) -> (r: String)
    ensures
        styles(r@, text@, cyan_on()),
{
    format!("{}", colored::Colorize::cyan(text))
}

/// `Colorize::yellow` on `text`, as it is displayed: as for cyan, with the
/// code for yellow.
#[verifier::external_body]
pub(crate) fn paint_yellow(text: &str) -> (r: String)
    ensures
        styles(r@, text@, yellow_on()),
{
    format!("{}", colored::Colorize::yellow(text))
}

} // verus!
