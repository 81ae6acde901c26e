use noos::data::{FeedItem, TimelineItem};
use noos::html::{ItemTemplate, Template};
use noos::html::ItemFormatSpecifier;

fn entry(title: Option<&str>, description: Option<&str>, link: Option<&str>) -> TimelineItem {
    TimelineItem {
        item: FeedItem {
            title: title.map(|t| t.to_string()),
            description: description.map(|t| t.to_string()),
            link: link.map(|t| t.to_string()),
            pub_date: Some("Tue, 1 Jul 2003 10:52:37 +0200".to_string()),
        },
        channel_title: "Example Feed".to_string(),
        channel_url: "https://example.org/feed".to_string(),
        timestamp: 1057049557,
    }
}

#[test]
fn renders_every_item_placeholder() {
    let template = ItemTemplate::parse(
        "[${title}|${description}|${source}|${link}|${date}|${time}|${timestamp}|${channel_link}]",
    );
    let item = entry(Some("Hello"), Some("World"), Some("https://example.org/a"));
    assert_eq!(
        template.render(&item),
        "[Hello|World|Example Feed|https:&#x2F;&#x2F;example.org&#x2F;a|2003-07-01|10:52:37|1057049557|https:&#x2F;&#x2F;example.org&#x2F;feed]"
    );
}

#[test]
fn script_in_title_is_escaped() {
    let template = ItemTemplate::parse("<h2>${title}</h2>");
    let item = entry(Some("<script>"), None, None);
    assert_eq!(template.render(&item), "<h2>&lt;script&gt;</h2>");
}

#[test]
fn ampersand_in_field_is_escaped() {
    let template = ItemTemplate::parse("${description}");
    let item = entry(None, Some("salt & pepper"), None);
    assert_eq!(template.render(&item), "salt &amp; pepper");
}

#[test]
fn escaped_placeholder_is_literal() {
    let template = ItemTemplate::parse("\\${title}");
    let item = entry(Some("Hello"), None, None);
    assert_eq!(template.render(&item), "${title}");
    assert!(template.substitutions().is_empty());
    assert_eq!(template.escapes().len(), 1);
}

#[test]
fn adjacent_placeholders_are_both_found() {
    let template = ItemTemplate::parse("${title}${title}");
    let item = entry(Some("ab"), None, None);
    assert_eq!(template.render(&item), "abab");
    let sites = template.substitutions();
    assert_eq!(sites.len(), 2);
    assert_eq!((sites[0].start, sites[0].end), (0, 8));
    assert_eq!((sites[1].start, sites[1].end), (8, 16));
    assert_eq!(sites[1].specifier, ItemFormatSpecifier::Title);
}

#[test]
fn predicted_length_is_rendered_length() {
    let template = ItemTemplate::parse("é\\${link} ${title} — ${description}${nothing}${title}");
    let item = entry(Some("<ü>"), Some(""), None);
    let out = template.render(&item);
    assert_eq!(out, "é${link} &lt;ü&gt; — ${nothing}&lt;ü&gt;");
    assert_eq!(template.predicted_len(&item), Some(out.len()));
}

#[test]
fn lists_live_occurrences_and_keeps_escaped_ones() {
    let text = "${title}|\\${title}|${title}${title}|\\${title}";
    let template = ItemTemplate::parse(text);
    let live: Vec<usize> = template
        .substitutions()
        .iter()
        .filter(|s| s.specifier == ItemFormatSpecifier::Title)
        .map(|s| s.start)
        .collect();
    assert_eq!(live, vec![0, 19, 27]);
    let escaped: Vec<usize> = template.escapes().iter().map(|s| s.end).collect();
    assert_eq!(escaped, vec![10, 37]);
    let item = entry(Some("T"), None, None);
    assert_eq!(template.render(&item), "T|${title}|TT|${title}");
}

#[test]
fn text_without_placeholders_is_unchanged() {
    let item = entry(Some("Hello"), Some("World"), None);
    for text in [
        "",
        "<p>plain & simple</p>",
        "costs $5 {or} more \\ ${ title }",
        "${unknown} ${Title} ${date_extra} $title} ${title",
        "\\${unknown} \\$ \\",
        "naïve — ünïcödé 🦀",
    ] {
        let template = ItemTemplate::parse(text);
        assert!(template.substitutions().is_empty());
        assert!(template.escapes().is_empty());
        assert_eq!(template.render(&item), text);
        assert_eq!(template.predicted_len(&item), Some(text.len()));
    }
}

#[test]
fn only_the_backslash_before_the_dollar_escapes() {
    let item = entry(Some("T"), None, None);
    assert_eq!(ItemTemplate::parse("\\\\${title}").render(&item), "\\${title}");
    assert_eq!(ItemTemplate::parse("\\ ${title}").render(&item), "\\ T");
    assert_eq!(ItemTemplate::parse("${title}\\").render(&item), "T\\");
    assert_eq!(ItemTemplate::parse("\\${title}${title}").render(&item), "${title}T");
}

#[test]
fn page_placeholders_mean_nothing_to_an_item_template() {
    let item = entry(Some("T"), None, None);
    let template = ItemTemplate::parse("${items} ${item_count} \\${channel_count} ${title}");
    assert_eq!(template.render(&item), "${items} ${item_count} \\${channel_count} T");
}

#[test]
fn every_special_character_is_escaped() {
    let template = ItemTemplate::parse("${title}");
    let item = entry(Some("&<>\"'/ ok é"), None, None);
    assert_eq!(template.render(&item), "&amp;&lt;&gt;&quot;&#x27;&#x2F; ok é");
}

#[test]
fn values_are_not_scanned_for_placeholders() {
    let template = ItemTemplate::parse("${title} ${description}");
    let item = entry(Some("${description}"), Some("\\${title}"), None);
    assert_eq!(template.render(&item), "${description} \\${title}");
}

#[test]
fn predicted_length_counts_every_site() {
    let template = ItemTemplate::parse("${title}${title}\\${title}${link}");
    let item = entry(Some("abcdefghijkl"), None, Some("x"));
    // 32 bytes of text, 12 - 8 at each of two sites, 1 - 7 at one, one backslash dropped
    assert_eq!(template.predicted_len(&item), Some(32 + 4 + 4 - 6 - 1));
    assert_eq!(template.render(&item).len(), 33);
    let empty = entry(Some(""), None, None);
    assert_eq!(template.predicted_len(&empty), Some(32 - 8 - 8 - 7 - 1));
    assert_eq!(template.render(&empty), "${title}");
}
