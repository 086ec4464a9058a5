//! Rendering of descriptions.
use vstd::prelude::*;
use vstd::string::*;

use crate::text::decimal;
use crate::text::decimal_string;

verus! {

/// The HTML that the markdown renderer produces for a text, with every
/// extension of the renderer switched on.
pub uninterp spec fn markdown_html(text: Seq<char>) -> Seq<char>;

/// Parses `text` with `pulldown_cmark::Parser::new_ext` under
/// `Options::all()` and renders the events with
/// `pulldown_cmark::html::push_html`. Trusted: the output depends on the text
/// alone, so it is the named rendering of it.
#[verifier::external_body]
fn push_html(text: &str) -> (html: String)
    ensures
        html@ == markdown_html(text@),
{
    let parser = pulldown_cmark::Parser::new_ext(text, pulldown_cmark::Options::all());
    let mut html = String::new();
    pulldown_cmark::html::push_html(&mut html, parser);
    html
}

/// Renders a markdown text as HTML.
pub fn render_markdown_string(text: &str) -> (html: String)
    ensures
        html@ == markdown_html(text@),
{
    push_html(text)
}

/// A number of units of time ago, in words: the number, the unit, an `s`
/// for more than one, and `ago`.
pub open spec fn ago(count: int, unit: Seq<char>) -> Seq<char> {
    decimal(count) + " "@ + unit + if count > 1 {
        "s"@
    } else {
        ""@
    } + " ago"@
}

/// A time span in words, by the largest unit of which it holds at least
/// one: years of 365 days, months of 30 days, weeks, days, hours, minutes.
/// Less than a minute, and any span into the future, is `just now`.
pub open spec fn time_ago(seconds: int) -> Seq<char> {
    let day = seconds / 86400;
    if seconds < 60 {
        "just now"@
    } else if day / 365 > 0 {
        ago(day / 365, "year"@)
    } else if day / 30 > 0 {
        ago(day / 30, "month"@)
    } else if day / 7 > 0 {
        ago(day / 7, "week"@)
    } else if day > 0 {
        ago(day, "day"@)
    } else if seconds / 3600 > 0 {
        ago(seconds / 3600, "hour"@)
    } else {
        ago(seconds / 60, "minute"@)
    }
}

fn format_count(count: i64, unit: &str) -> (text: String)
    requires
        count > 0,
    ensures
        text@ == ago(count as int, unit@),
{
    let mut text = decimal_string(count as i128);
    text.append(" ");
    text.append(unit);
    if count > 1 {
        text.append("s");
    } else {
        text.append("");
    }
    text.append(" ago");
    text
}

/// Says in words how long ago something was that lies `seconds` whole
/// seconds back.
pub fn format_ago(seconds: i64) -> (text: String)
    ensures
        text@ == time_ago(seconds as int),
{
    if seconds < 60 {
        return String::from_str("just now");
    }
    let day: i64 = seconds / 86400;
    let year: i64 = day / 365;
    let month: i64 = day / 30;
    let week: i64 = day / 7;
    let hour: i64 = seconds / 3600;
    let minute: i64 = seconds / 60;
    if year > 0 {
        format_count(year, "year")
    } else if month > 0 {
        format_count(month, "month")
    } else if week > 0 {
        format_count(week, "week")
    } else if day > 0 {
        format_count(day, "day")
    } else if hour > 0 {
        format_count(hour, "hour")
    } else {
        format_count(minute, "minute")
    }
}

/// Whether a text gives a moment in the format of RFC 3339, as the parser
/// of dates reads it.
pub uninterp spec fn is_rfc3339(text: Seq<char>) -> bool;

/// Parses `moment` with `chrono::DateTime::parse_from_rfc3339`, reads the
/// clock with `chrono::Utc::now`, and takes the whole seconds between the
/// two with `signed_duration_since` and `num_seconds`; `None` where the
/// text is no moment. Trusted: whether the text is a moment depends on the
/// text alone, so it is the named answer. Nothing is promised of the
/// seconds: they depend on the clock. `Utc::now` gives up on a machine
/// whose clock stands before 1970.
#[verifier::external_body]
fn seconds_since(moment: &str) -> (elapsed: Option<i64>)
    ensures
        elapsed is Some == is_rfc3339(moment@),
{
    let then = chrono::DateTime::parse_from_rfc3339(moment).ok()?;
    Some(chrono::Utc::now().signed_duration_since(then).num_seconds())
}

/// What is shown for the time that has passed since a moment, where
/// `elapsed` is the whole seconds since then, or `None` for a text that is
/// no moment.
pub open spec fn shown_age(elapsed: Option<i64>) -> Seq<char> {
    match elapsed {
        Some(seconds) => time_ago(seconds as int),
        None => "unknown"@,
    }
}

/// Words for the time since a moment, for what was measured.
pub fn format_elapsed(elapsed: Option<i64>) -> (text: String)
    ensures
        text@ == shown_age(elapsed),
{
    match elapsed {
        Some(seconds) => format_ago(seconds),
        None => String::from_str("unknown"),
    }
}

/// Says in words how long ago the moment was that `v` gives in the format
/// of RFC 3339; `unknown` where `v` is no such moment. Whatever the clock
/// says, the text for a moment is that for some number of seconds.
pub fn format_datetime(v: &str) -> (text: String)
    ensures
        !is_rfc3339(v@) ==> text@ == shown_age(None),
        is_rfc3339(v@) ==> exists|seconds: i64| text@ == shown_age(Some(seconds)),
{
    let elapsed = seconds_since(v);
    let text = format_elapsed(elapsed);
    proof {
        if let Some(seconds) = elapsed {
            assert(text@ == shown_age(Some(seconds)));
        }
    }
    text
}

} // verus!
