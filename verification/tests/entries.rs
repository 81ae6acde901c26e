use noos::data::{
    add_channel_items, entry_timestamp, DataStoreType, FeedChannel, FeedItem, TimelineItem,
    FALLBACK_AGE,
};

fn bare_item() -> FeedItem {
    FeedItem { title: None, description: None, link: None, pub_date: None }
}

fn channel(items: Vec<FeedItem>) -> FeedChannel {
    FeedChannel {
        title: "Example Feed".to_string(),
        link: "https://example.org/".to_string(),
        description: String::new(),
        categories: Vec::new(),
        items,
    }
}

fn timeline_item(item: FeedItem) -> TimelineItem {
    TimelineItem {
        item,
        channel_title: "Example Feed".to_string(),
        channel_url: "https://example.org/".to_string(),
        timestamp: 0,
    }
}

#[test]
fn absent_fields_have_their_defaults() {
    let item = timeline_item(bare_item());
    assert_eq!(item.title(), "(No title)");
    assert_eq!(item.description(), "(No description)");
    assert_eq!(item.source(), "Example Feed");
    assert_eq!(item.link(), "");
    assert_eq!(item.date(), "");
    assert_eq!(item.time(), "");
}

#[test]
fn empty_fields_stay_empty() {
    let item = timeline_item(FeedItem {
        title: Some(String::new()),
        description: Some(String::new()),
        link: Some(String::new()),
        pub_date: None,
    });
    assert_eq!(item.title(), "");
    assert_eq!(item.description(), "");
    assert_eq!(item.link(), "");
}

#[test]
fn date_and_time_are_read_from_the_publication_date() {
    let item = timeline_item(FeedItem {
        pub_date: Some("Wed, 18 Feb 2015 23:16:09 GMT".to_string()),
        ..bare_item()
    });
    assert_eq!(item.date(), "2015-02-18");
    assert_eq!(item.time(), "23:16:09");
}

#[test]
fn date_and_time_are_shown_at_the_offset_of_the_date() {
    let item = timeline_item(FeedItem {
        pub_date: Some("Tue, 1 Jul 2003 00:30:00 +0200".to_string()),
        ..bare_item()
    });
    assert_eq!(item.date(), "2003-07-01");
    assert_eq!(item.time(), "00:30:00");
}

#[test]
fn unreadable_date_gives_empty_text() {
    let item = timeline_item(FeedItem {
        pub_date: Some("yesterday, around noon".to_string()),
        ..bare_item()
    });
    assert_eq!(item.date(), "");
    assert_eq!(item.time(), "");
}

#[test]
fn store_starts_empty_and_appends_in_order() {
    let mut store = DataStoreType::new();
    assert!(store.timeline.is_empty());
    assert!(DataStoreType::default().timeline.is_empty());
    let mut first = timeline_item(bare_item());
    first.timestamp = 5;
    let mut second = timeline_item(bare_item());
    second.timestamp = 3;
    store.append(first);
    store.append(second);
    let seen: Vec<i64> = store.snapshot_for_render().iter().map(|e| e.timestamp).collect();
    assert_eq!(seen, vec![5, 3]);
}

#[test]
fn channel_items_become_entries() {
    let mut store = DataStoreType::new();
    let mut old = timeline_item(bare_item());
    old.timestamp = 1;
    store.append(old);
    let feed = channel(vec![
        FeedItem {
            title: Some("dated".to_string()),
            pub_date: Some("Tue, 1 Jul 2003 10:52:37 +0200".to_string()),
            ..bare_item()
        },
        FeedItem { title: Some("undated".to_string()), ..bare_item() },
        FeedItem {
            title: Some("unreadable".to_string()),
            pub_date: Some("soon".to_string()),
            ..bare_item()
        },
    ]);
    let missing = add_channel_items(&mut store, &feed, 1_000_000);
    assert_eq!(missing, 2);
    assert_eq!(store.timeline.len(), 4);
    assert_eq!(store.timeline[0].timestamp, 1);
    assert_eq!(store.timeline[1].timestamp, 1057049557);
    assert_eq!(store.timeline[1].title(), "dated");
    assert_eq!(store.timeline[1].channel_title, "Example Feed");
    assert_eq!(store.timeline[1].channel_url, "https://example.org/");
    assert_eq!(store.timeline[2].timestamp, 1_000_000 - 60);
    assert_eq!(store.timeline[2].title(), "undated");
    assert_eq!(store.timeline[3].timestamp, 999_940);
    assert_eq!(store.timeline[3].item.pub_date.as_deref(), Some("soon"));
}

#[test]
fn fallback_time_does_not_wrap() {
    let mut store = DataStoreType::new();
    let feed = channel(vec![bare_item()]);
    assert_eq!(add_channel_items(&mut store, &feed, i64::MIN + 10), 1);
    assert_eq!(store.timeline[0].timestamp, i64::MIN);
    assert_eq!(FALLBACK_AGE, 60);
}

#[test]
fn empty_channel_adds_nothing() {
    let mut store = DataStoreType::new();
    assert_eq!(add_channel_items(&mut store, &channel(Vec::new()), 0), 0);
    assert!(store.timeline.is_empty());
}

#[test]
fn channel_lists_are_read_and_written_beside_the_entries() {
    let urls = noos::data::import_channel_urls("https://a.example/feed\n\nhttps://b.example/rss\n");
    assert_eq!(urls, vec!["https://a.example/feed".to_string(), "https://b.example/rss".to_string()]);
    assert_eq!(noos::data::export_channel_urls(&urls), "https://a.example/feed\nhttps://b.example/rss");
}

#[test]
fn entry_takes_the_time_of_its_publication_or_the_fallback() {
    assert_eq!(entry_timestamp(Some(1057049557), 2_000_000_000), 1057049557);
    assert_eq!(entry_timestamp(Some(-5), 0), -5);
    assert_eq!(entry_timestamp(Some(i64::MAX), 0), i64::MAX);
    assert_eq!(entry_timestamp(None, 2_000_000_000), 1_999_999_940);
    assert_eq!(entry_timestamp(None, 0), -60);
    assert_eq!(entry_timestamp(None, i64::MIN + 60), i64::MIN);
    assert_eq!(entry_timestamp(None, i64::MIN + 59), i64::MIN);
    assert_eq!(entry_timestamp(None, i64::MIN), i64::MIN);
    assert_eq!(entry_timestamp(None, i64::MAX), i64::MAX - 60);
}
