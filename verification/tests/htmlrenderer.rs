use recense::htmlrenderer::format_ago;
use recense::htmlrenderer::format_datetime;
use recense::htmlrenderer::format_elapsed;
use recense::htmlrenderer::render_markdown_string;

const DAY: i64 = 86400;

#[test]
fn markdown_is_rendered_as_html() {
    assert_eq!(render_markdown_string("# Title"), "<h1>Title</h1>\n");
    assert_eq!(render_markdown_string("a *b* **c**"), "<p>a <em>b</em> <strong>c</strong></p>\n");
    assert_eq!(render_markdown_string(""), "");
    assert_eq!(
        render_markdown_string("[x](http://example.com)"),
        "<p><a href=\"http://example.com\">x</a></p>\n"
    );
}

#[test]
fn markdown_extensions_are_switched_on() {
    assert_eq!(render_markdown_string("~~gone~~"), "<p><del>gone</del></p>\n");
    assert!(render_markdown_string("| a |\n|---|\n| b |\n").contains("<table>"));
}

#[test]
fn less_than_a_minute_is_just_now() {
    assert_eq!(format_ago(0), "just now");
    assert_eq!(format_ago(59), "just now");
    assert_eq!(format_ago(-1), "just now");
    assert_eq!(format_ago(-10 * DAY), "just now");
    assert_eq!(format_ago(i64::MIN), "just now");
}

#[test]
fn minutes_and_hours() {
    assert_eq!(format_ago(60), "1 minute ago");
    assert_eq!(format_ago(119), "1 minute ago");
    assert_eq!(format_ago(120), "2 minutes ago");
    assert_eq!(format_ago(3599), "59 minutes ago");
    assert_eq!(format_ago(3600), "1 hour ago");
    assert_eq!(format_ago(7200), "2 hours ago");
    assert_eq!(format_ago(DAY - 1), "23 hours ago");
}

#[test]
fn days_and_weeks() {
    assert_eq!(format_ago(DAY), "1 day ago");
    assert_eq!(format_ago(6 * DAY + 5), "6 days ago");
    assert_eq!(format_ago(7 * DAY), "1 week ago");
    assert_eq!(format_ago(13 * DAY), "1 week ago");
    assert_eq!(format_ago(29 * DAY), "4 weeks ago");
}

#[test]
fn months_and_years() {
    assert_eq!(format_ago(30 * DAY), "1 month ago");
    assert_eq!(format_ago(59 * DAY), "1 month ago");
    assert_eq!(format_ago(60 * DAY), "2 months ago");
    assert_eq!(format_ago(364 * DAY), "12 months ago");
    assert_eq!(format_ago(365 * DAY), "1 year ago");
    assert_eq!(format_ago(730 * DAY), "2 years ago");
    assert_eq!(format_ago(i64::MAX), "292471208677 years ago");
}

#[test]
fn a_text_that_is_no_moment_is_unknown() {
    assert_eq!(format_datetime("yesterday"), "unknown");
    assert_eq!(format_datetime(""), "unknown");
    assert_eq!(format_elapsed(None), "unknown");
    assert_eq!(format_elapsed(Some(3600)), "1 hour ago");
}

#[test]
fn a_moment_long_ago_is_years_ago() {
    let text = format_datetime("2001-02-03T04:05:06Z");
    assert!(text.ends_with(" years ago"));
    assert_eq!(format_datetime("2999-01-01T00:00:00+02:00"), "just now");
}
