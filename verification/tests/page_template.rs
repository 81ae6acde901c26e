use noos::data::{DataStoreType, FeedItem, TimelineItem};
use noos::html::{
    load_template, load_templates_or_default, ItemTemplate, PageTemplate, Template,
    DEFAULT_ITEM_TEMPLATE, DEFAULT_PAGE_TEMPLATE,
};
use noos::html::PageFormatSpecifier;

const NO_ENTRIES: &[TimelineItem] = &[];

fn entry_at(title: &str, timestamp: i64, channel: &str) -> TimelineItem {
    TimelineItem {
        item: FeedItem {
            title: Some(title.to_string()),
            description: None,
            link: None,
            pub_date: None,
        },
        channel_title: channel.to_string(),
        channel_url: format!("https://{channel}.example/feed"),
        timestamp,
    }
}

#[test]
fn items_are_ordered_newest_first() {
    let page = PageTemplate::parse("${items}");
    let item = ItemTemplate::parse("[${timestamp}]");
    let timeline =
        vec![entry_at("a", 100, "one"), entry_at("b", 50, "one"), entry_at("c", 200, "one")];
    for now in [200, 201, 1_000_000, i64::MAX] {
        assert_eq!(page.render((&timeline[..], &item, now)), "[200][100][50]");
    }
}

#[test]
fn entries_of_equal_time_keep_their_order() {
    let page = PageTemplate::parse("${items}");
    let item = ItemTemplate::parse("(${title})");
    let timeline = vec![
        entry_at("first", 7, "one"),
        entry_at("second", 9, "one"),
        entry_at("third", 7, "one"),
        entry_at("fourth", 9, "one"),
    ];
    assert_eq!(page.render((&timeline[..], &item, 10)), "(second)(fourth)(first)(third)");
}

#[test]
fn future_entries_are_skipped_but_stay_in_the_store() {
    let page = PageTemplate::parse("${item_count}:${items}");
    let item = ItemTemplate::parse("[${title}]");
    let mut store = DataStoreType::new();
    store.append(entry_at("past", 10, "one"));
    store.append(entry_at("future", 31, "one"));
    store.append(entry_at("present", 30, "one"));
    let out = page.render((store.snapshot_for_render(), &item, 30));
    assert_eq!(out, "2:[present][past]");
    assert_eq!(store.timeline.len(), 3);
    assert_eq!(store.timeline[1].timestamp, 31);
    assert_eq!(store.timeline[1].title(), "future");
}

#[test]
fn counts_items_and_distinct_channels() {
    let page = PageTemplate::parse("item_count=${item_count}, channel_count=${channel_count}${items}");
    let item = ItemTemplate::parse("");
    let timeline =
        vec![entry_at("a", 1, "one"), entry_at("b", 2, "two"), entry_at("c", 3, "one")];
    assert_eq!(page.render((&timeline[..], &item, 5)), "item_count=3, channel_count=2");
}

#[test]
fn counts_only_what_is_shown() {
    let page = PageTemplate::parse("${item_count}/${channel_count}${items}");
    let item = ItemTemplate::parse("");
    let timeline =
        vec![entry_at("a", 1, "one"), entry_at("b", 20, "two"), entry_at("c", 3, "one")];
    assert_eq!(page.render((&timeline[..], &item, 5)), "2/1");
    assert_eq!(page.render((&timeline[..], &item, 0)), "0/0");
}

#[test]
fn page_date_time_and_timestamp_are_those_of_the_rendering() {
    let page = PageTemplate::parse("${date} ${time} ${timestamp}|${items}");
    let item = ItemTemplate::parse("${date}${time}${timestamp};");
    let timeline = vec![entry_at("a", 5, "one")];
    assert_eq!(page.render((&timeline[..], &item, 1057049557)), "2003-07-01 08:52:37 1057049557|5;");
    assert_eq!(page.render((&timeline[..], &item, -1)), "1969-12-31 23:59:59 -1|");
}

#[test]
fn page_without_items_is_returned_unchanged() {
    let text = "<p>${item_count} at ${date}, \\${items}</p>";
    let page = PageTemplate::parse(text);
    let item = ItemTemplate::parse("${title}");
    let timeline = vec![entry_at("a", 1, "one")];
    assert!(!page.shows_items());
    assert_eq!(page.render((&timeline[..], &item, 5)), text);
}

#[test]
fn items_are_not_escaped_again() {
    let page = PageTemplate::parse("<ul>${items}</ul>");
    let item = ItemTemplate::parse("<li>${title}</li>");
    let timeline = vec![entry_at("a<b", 1, "one")];
    assert_eq!(page.render((&timeline[..], &item, 5)), "<ul><li>a&lt;b</li></ul>");
}

#[test]
fn items_may_be_shown_more_than_once() {
    let page = PageTemplate::parse("${items}|${items}");
    let item = ItemTemplate::parse("${title}");
    let timeline = vec![entry_at("a", 1, "one"), entry_at("b", 2, "one")];
    assert_eq!(page.render((&timeline[..], &item, 5)), "ba|ba");
}

#[test]
fn rendering_twice_gives_the_same_text() {
    let page = PageTemplate::parse(DEFAULT_PAGE_TEMPLATE);
    let item = ItemTemplate::parse(DEFAULT_ITEM_TEMPLATE);
    let timeline =
        vec![entry_at("a", 100, "one"), entry_at("b", 50, "two"), entry_at("c", 200, "one")];
    let first = page.render((&timeline[..], &item, 150));
    let second = page.render((&timeline[..], &item, 150));
    assert_eq!(first, second);
    assert!(first.contains("2 items from 2 channels, as of 1970-01-01 00:02:30"));
}

#[test]
fn page_sites_are_listed_in_ascending_order() {
    let page = PageTemplate::parse("${timestamp}\\${time}${items}${date}");
    let sites = page.substitutions();
    let seen: Vec<(usize, usize, PageFormatSpecifier)> =
        sites.iter().map(|s| (s.start, s.end, s.specifier)).collect();
    assert_eq!(
        seen,
        vec![
            (0, 12, PageFormatSpecifier::Timestamp),
            (20, 28, PageFormatSpecifier::Items),
            (28, 35, PageFormatSpecifier::Date),
        ]
    );
    let escapes = page.escapes();
    assert_eq!(escapes.len(), 1);
    assert_eq!((escapes[0].start, escapes[0].end), (12, 13));
    assert_eq!(escapes[0].specifier, PageFormatSpecifier::Time);
}

#[test]
fn default_templates_are_the_built_in_ones() {
    let page = PageTemplate::default();
    let item = ItemTemplate::default();
    assert_eq!(page.source_text(), DEFAULT_PAGE_TEMPLATE);
    assert_eq!(item.source_text(), DEFAULT_ITEM_TEMPLATE);
    assert!(page.shows_items());
    assert_eq!(item.substitutions().len(), 6);
}

#[test]
fn load_template_prefers_the_command_line() {
    let item: ItemTemplate = load_template(Some("cli ${title}"), Some("config ${title}"));
    assert_eq!(item.source_text(), "cli ${title}");
    let item: ItemTemplate = load_template(None, Some("config ${title}"));
    assert_eq!(item.source_text(), "config ${title}");
    let item: ItemTemplate = load_template(None, None);
    assert_eq!(item.source_text(), DEFAULT_ITEM_TEMPLATE);
    let page: PageTemplate = load_template(None, None);
    assert_eq!(page.source_text(), DEFAULT_PAGE_TEMPLATE);
}

#[test]
fn load_templates_or_default_compiles_both() {
    let (page, item) = load_templates_or_default(Some("${items}"), Some("unused"), None, None);
    assert_eq!(page.source_text(), "${items}");
    assert_eq!(item.source_text(), DEFAULT_ITEM_TEMPLATE);
    let (page, item) = load_templates_or_default(None, None, None, Some("${title}"));
    assert_eq!(page.source_text(), DEFAULT_PAGE_TEMPLATE);
    assert_eq!(item.source_text(), "${title}");
    let (page, item) = load_templates_or_default(None, Some("p${items}"), Some("i"), Some("j"));
    assert_eq!(page.source_text(), "p${items}");
    assert_eq!(item.source_text(), "i");
}

#[test]
fn predicted_page_length_is_rendered_length() {
    let page = PageTemplate::parse("é\\${date}<${items}>${item_count}/${channel_count} ${items} ${timestamp}");
    let item = ItemTemplate::parse("[${title}\\${title}]");
    let timeline =
        vec![entry_at("a&b", 100, "one"), entry_at("ü", 50, "two"), entry_at("c", 200, "one")];
    let out = page.render((&timeline[..], &item, 150));
    assert_eq!(out, "é${date}<[a&amp;b${title}][ü${title}]>2/2 [a&amp;b${title}][ü${title}] 150");
    assert_eq!(page.predicted_len(&timeline, &item, 150), Some(out.len()));
}

#[test]
fn predicted_length_of_a_page_without_items_is_that_of_its_text() {
    let text = "<p>${item_count} é</p>";
    let page = PageTemplate::parse(text);
    let item = ItemTemplate::parse("${title}");
    assert_eq!(page.predicted_len(NO_ENTRIES, &item, 0), Some(text.len()));
    assert_eq!(page.render((NO_ENTRIES, &item, 0)).len(), text.len());
}

#[test]
fn empty_timeline_gives_an_empty_list_of_items() {
    let page = PageTemplate::parse("<ul>${items}</ul>${item_count},${channel_count}");
    let item = ItemTemplate::parse("<li>${title}</li>");
    assert_eq!(page.render((NO_ENTRIES, &item, 0)), "<ul></ul>0,0");
}

#[test]
fn order_of_appending_does_not_show() {
    let page = PageTemplate::parse("${item_count}/${channel_count}:${items}");
    let item = ItemTemplate::parse("[${title}@${timestamp}]");
    let first =
        vec![entry_at("a", 100, "one"), entry_at("b", 50, "two"), entry_at("c", 200, "one")];
    let second =
        vec![entry_at("c", 200, "one"), entry_at("a", 100, "one"), entry_at("b", 50, "two")];
    let third =
        vec![entry_at("b", 50, "two"), entry_at("c", 200, "one"), entry_at("a", 100, "one")];
    let out = page.render((&first[..], &item, 150));
    assert_eq!(out, "2/2:[a@100][b@50]");
    assert_eq!(page.render((&second[..], &item, 150)), out);
    assert_eq!(page.render((&third[..], &item, 150)), out);
}

#[test]
fn renders_a_long_page() {
    let item = ItemTemplate::parse(&"<li>${title} \\${link} ${timestamp}</li>".repeat(50));
    let page = PageTemplate::parse(&"<ul>${items}</ul>${item_count} ".repeat(20));
    let timeline: Vec<TimelineItem> =
        (0..2000).map(|n| entry_at("t", (n * 7919) % 2003, if n % 3 == 0 { "a" } else { "b" })).collect();
    let out = page.render((&timeline[..], &item, 1500));
    let shown = timeline.iter().filter(|e| e.timestamp <= 1500).count();
    assert!(out.ends_with(&format!("</ul>{shown} ")));
    assert_eq!(page.predicted_len(&timeline, &item, 1500), Some(out.len()));
    assert_eq!(out.matches("${link}").count(), 50 * shown * 20);
}
