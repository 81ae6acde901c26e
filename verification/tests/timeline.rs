use noos::dates::{format_datetime, format_utc, text_of_instant, text_or_empty, Pattern};
use noos::data::{FeedItem, TimelineItem};
use noos::text::{decimal_text, signed_decimal_text};
use noos::timeline::{count_channels, select_renderable};

fn stamped(timestamp: i64, channel_url: &str) -> TimelineItem {
    TimelineItem {
        item: FeedItem { title: None, description: None, link: None, pub_date: None },
        channel_title: String::new(),
        channel_url: channel_url.to_string(),
        timestamp,
    }
}

#[test]
fn selects_newest_first() {
    let entries = vec![stamped(100, "a"), stamped(50, "a"), stamped(200, "a")];
    assert_eq!(select_renderable(&entries, 200), vec![2, 0, 1]);
    assert_eq!(select_renderable(&entries, i64::MAX), vec![2, 0, 1]);
}

#[test]
fn leaves_out_the_future() {
    let entries = vec![stamped(100, "a"), stamped(50, "a"), stamped(200, "a")];
    assert_eq!(select_renderable(&entries, 199), vec![0, 1]);
    assert_eq!(select_renderable(&entries, 100), vec![0, 1]);
    assert_eq!(select_renderable(&entries, 99), vec![1]);
    assert_eq!(select_renderable(&entries, 49), Vec::<usize>::new());
}

#[test]
fn equal_times_keep_the_order_of_the_timeline() {
    let entries = vec![stamped(5, "a"), stamped(5, "b"), stamped(9, "c"), stamped(5, "d"), stamped(9, "e")];
    assert_eq!(select_renderable(&entries, 10), vec![2, 4, 0, 1, 3]);
}

#[test]
fn selects_nothing_from_nothing() {
    assert_eq!(select_renderable(&[], 0), Vec::<usize>::new());
}

#[test]
fn counts_distinct_channel_links() {
    let entries = vec![stamped(1, "a"), stamped(2, "b"), stamped(3, "a"), stamped(4, "c"), stamped(5, "b")];
    assert_eq!(count_channels(&entries, &vec![0, 1, 2, 3, 4]), 3);
    assert_eq!(count_channels(&entries, &vec![0, 2]), 1);
    assert_eq!(count_channels(&entries, &vec![4, 3]), 2);
    assert_eq!(count_channels(&entries, &Vec::new()), 0);
}

#[test]
fn writes_numbers_in_decimal() {
    assert_eq!(decimal_text(0), "0");
    assert_eq!(decimal_text(7), "7");
    assert_eq!(decimal_text(10), "10");
    assert_eq!(decimal_text(1234567890), "1234567890");
    assert_eq!(decimal_text(u64::MAX), "18446744073709551615");
}

#[test]
fn writes_signed_numbers_in_decimal() {
    assert_eq!(signed_decimal_text(0), "0");
    assert_eq!(signed_decimal_text(-1), "-1");
    assert_eq!(signed_decimal_text(1057049557), "1057049557");
    assert_eq!(signed_decimal_text(i64::MAX), "9223372036854775807");
    assert_eq!(signed_decimal_text(i64::MIN), "-9223372036854775808");
}

#[test]
fn missing_text_is_empty() {
    assert_eq!(text_or_empty(Some("2024-01-31".to_string())), "2024-01-31");
    assert_eq!(text_or_empty(Some(String::new())), "");
    assert_eq!(text_or_empty(None), "");
}

#[test]
fn writes_an_instant_in_both_forms() {
    assert_eq!(text_of_instant(Some((1057049557, 0, 7200)), Pattern::Date), "2003-07-01");
    assert_eq!(text_of_instant(Some((1057049557, 0, 7200)), Pattern::Time), "10:52:37");
    assert_eq!(text_of_instant(Some((1057049557, 0, 0)), Pattern::Time), "08:52:37");
    assert_eq!(text_of_instant(Some((-1, 0, -3600)), Pattern::Date), "1969-12-31");
    assert_eq!(text_of_instant(Some((-1, 0, -3600)), Pattern::Time), "22:59:59");
    assert_eq!(Pattern::Date.text(), "%Y-%m-%d");
    assert_eq!(Pattern::Time.text(), "%H:%M:%S");
}

#[test]
fn an_instant_that_cannot_be_written_gives_empty_text() {
    assert_eq!(text_of_instant(None, Pattern::Date), "");
    assert_eq!(text_of_instant(Some((i64::MAX, 0, 0)), Pattern::Date), "");
    assert_eq!(text_of_instant(Some((0, 0, 86_400)), Pattern::Time), "");
    assert_eq!(text_of_instant(Some((0, 2_000_000_000, 0)), Pattern::Time), "");
    assert_eq!(format_utc(i64::MIN, Pattern::Date), "");
}

#[test]
fn writes_times_of_utc_and_dates_of_feeds() {
    assert_eq!(format_utc(0, Pattern::Date), "1970-01-01");
    assert_eq!(format_utc(86_399, Pattern::Time), "23:59:59");
    assert_eq!(format_datetime("Wed, 18 Feb 2015 23:16:09 GMT", Pattern::Date), "2015-02-18");
    assert_eq!(format_datetime("Tue, 1 Jul 2003 10:52:37 +0200", Pattern::Time), "10:52:37");
    assert_eq!(format_datetime("not a date", Pattern::Time), "");
}
