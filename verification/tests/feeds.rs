use noos::data::{FeedChannel, FeedItem};
use noos::feeds::{
    add_feed, backup_file_name, keep_links, trimmed_lines_of, import_opml_channel_urls, has_feed, export_channel_urls, outline_of, export_opml,
    import_channel_urls, remove_feed, Outline, OPML_TITLE,
};

fn list(urls: &[&str]) -> Vec<String> {
    urls.iter().map(|u| u.to_string()).collect()
}

fn feed_with(title: &str, link: &str, description: &str, categories: &[&str]) -> FeedChannel {
    FeedChannel {
        title: title.to_string(),
        link: link.to_string(),
        description: description.to_string(),
        categories: list(categories),
        items: vec![FeedItem { title: None, description: None, link: None, pub_date: None }],
    }
}

#[test]
fn reads_one_link_per_line() {
    let content = "https://a.example/feed\nhttps://b.example/rss\n";
    assert_eq!(import_channel_urls(content), list(&["https://a.example/feed", "https://b.example/rss"]));
}

#[test]
fn trims_lines_and_skips_empty_ones() {
    let content = "  https://a.example/feed \r\n\n \t \nhttps://b.example/rss\r\n\r\n   https://c.example";
    assert_eq!(
        import_channel_urls(content),
        list(&["https://a.example/feed", "https://b.example/rss", "https://c.example"])
    );
}

#[test]
fn reads_nothing_from_an_empty_text() {
    assert!(import_channel_urls("").is_empty());
    assert!(import_channel_urls("\n\n\n").is_empty());
    assert!(import_channel_urls("   ").is_empty());
}

#[test]
fn reads_lines_with_characters_of_several_bytes() {
    assert_eq!(
        import_channel_urls("\u{a0}https://é.example/€\u{3000}\nhttps://b.example"),
        list(&["https://é.example/€", "https://b.example"])
    );
}

#[test]
fn joins_links_with_line_feeds() {
    assert_eq!(export_channel_urls(&list(&["a", "b", "c"])), "a\nb\nc");
    assert_eq!(export_channel_urls(&list(&["a"])), "a");
    assert_eq!(export_channel_urls(&Vec::new()), "");
}

#[test]
fn what_is_joined_can_be_read_back() {
    let urls = list(&["https://a.example/feed", "https://b.example/rss"]);
    assert_eq!(import_channel_urls(&export_channel_urls(&urls)), urls);
}

#[test]
fn adds_a_link_once() {
    let mut urls = list(&["a", "b"]);
    assert!(add_feed(&mut urls, "c".to_string()));
    assert_eq!(urls, list(&["a", "b", "c"]));
    assert!(!add_feed(&mut urls, "b".to_string()));
    assert_eq!(urls, list(&["a", "b", "c"]));
    assert!(has_feed(&urls, "c"));
    assert!(!has_feed(&urls, "d"));
}

#[test]
fn removes_a_link_wherever_it_stands() {
    let mut urls = list(&["a", "b", "a", "c", "a"]);
    assert!(remove_feed(&mut urls, "a"));
    assert_eq!(urls, list(&["b", "c"]));
    assert!(!remove_feed(&mut urls, "a"));
    assert_eq!(urls, list(&["b", "c"]));
}

#[test]
fn names_the_backup_file_after_the_day() {
    assert_eq!(backup_file_name("2024-01-31"), "channels_2024-01-31.txt.bak");
}

#[test]
fn makes_the_outline_of_a_feed() {
    let feed = feed_with("Example", "https://example.org/", "All about it", &["news", "tech"]);
    let outline = outline_of(&feed, "Mon, 1 Jan 2024 00:00:00 +0000");
    assert_eq!(outline.text, "Example");
    assert_eq!(outline.title.as_deref(), Some("Example"));
    assert_eq!(outline.description.as_deref(), Some("All about it"));
    assert_eq!(outline.xml_url.as_deref(), Some("https://example.org/"));
    assert_eq!(outline.created.as_deref(), Some("Mon, 1 Jan 2024 00:00:00 +0000"));
    assert_eq!(outline.category.as_deref(), Some("news"));
}

#[test]
fn outline_leaves_out_what_the_feed_lacks() {
    let feed = feed_with("Example", "https://example.org/", "", &[]);
    let outline = outline_of(&feed, "now");
    assert_eq!(outline.description, None);
    assert_eq!(outline.category, None);
}

#[test]
fn makes_one_outline_per_feed() {
    let feeds = vec![feed_with("A", "a", "", &[]), feed_with("B", "b", "x", &["y"])];
    let outlines = export_opml(&feeds, "now");
    assert_eq!(outlines.len(), 2);
    assert_eq!(outlines[0].text, "A");
    assert_eq!(outlines[1].xml_url.as_deref(), Some("b"));
    assert_eq!(OPML_TITLE, "Noos Exported Subscriptions");
}

#[test]
fn reads_the_links_of_outlines_that_have_one() {
    let with = |link: Option<&str>| Outline {
        text: "t".to_string(),
        title: None,
        description: None,
        xml_url: link.map(|l| l.to_string()),
        created: None,
        category: None,
    };
    let outlines = vec![with(Some("a")), with(None), with(Some("b"))];
    assert_eq!(import_opml_channel_urls(&outlines), list(&["a", "b"]));
    assert!(import_opml_channel_urls(&Vec::new()).is_empty());
}

#[test]
fn splits_a_text_into_trimmed_lines() {
    assert_eq!(trimmed_lines_of(" a \r\n\n b\tc \n"), list(&["a", "", "b\tc", ""]));
    assert_eq!(trimmed_lines_of(""), list(&[""]));
    assert_eq!(trimmed_lines_of("one"), list(&["one"]));
    assert_eq!(trimmed_lines_of("\n"), list(&["", ""]));
}

#[test]
fn keeps_the_lines_that_are_not_empty() {
    assert_eq!(keep_links(&list(&["a", "", "b", "", ""])), list(&["a", "b"]));
    assert_eq!(keep_links(&list(&["", ""])), Vec::<String>::new());
    assert_eq!(keep_links(&list(&[" "])), list(&[" "]));
    assert_eq!(keep_links(&Vec::new()), Vec::<String>::new());
}
