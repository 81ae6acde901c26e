use noos::scanner::find_occurrences;
use noos::specifier::{
    find_escaped_specifiers, find_format_specifiers, FormatSpecifier, ItemFormatSpecifier,
    PageFormatSpecifier,
};

#[test]
fn finds_a_placeholder_at_offset_zero() {
    assert_eq!(find_format_specifiers("${title}", ItemFormatSpecifier::Title), vec![(0, 8)]);
}

#[test]
fn finds_every_occurrence_in_ascending_order() {
    let found = find_format_specifiers("a${link}b${link}${link}", ItemFormatSpecifier::Link);
    assert_eq!(found, vec![(1, 8), (9, 16), (16, 23)]);
}

#[test]
fn zero_occurrences_give_an_empty_list() {
    assert!(find_format_specifiers("<p>no placeholders</p>", ItemFormatSpecifier::Title).is_empty());
    assert!(find_format_specifiers("", ItemFormatSpecifier::Title).is_empty());
    assert!(find_format_specifiers("${", ItemFormatSpecifier::Title).is_empty());
}

#[test]
fn escaped_occurrence_is_left_out() {
    let text = "\\${title} and ${title}";
    assert_eq!(find_format_specifiers(text, ItemFormatSpecifier::Title), vec![(14, 22)]);
    assert_eq!(find_escaped_specifiers(text, ItemFormatSpecifier::Title), vec![(1, 9)]);
}

#[test]
fn counts_live_and_escaped_occurrences() {
    let text = "${date}\\${date}${date} \\${date} ${date}\\${date}";
    assert_eq!(find_format_specifiers(text, ItemFormatSpecifier::Date).len(), 3);
    assert_eq!(find_escaped_specifiers(text, ItemFormatSpecifier::Date).len(), 3);
}

#[test]
fn name_does_not_match_a_longer_name() {
    assert!(find_format_specifiers("${date_extra}", ItemFormatSpecifier::Date).is_empty());
    assert!(find_format_specifiers("${item_count}", PageFormatSpecifier::Items).is_empty());
    assert!(find_format_specifiers("${timestamp}", ItemFormatSpecifier::Time).is_empty());
}

#[test]
fn matching_is_case_sensitive() {
    assert!(find_format_specifiers("${Title} ${TITLE}", ItemFormatSpecifier::Title).is_empty());
}

#[test]
fn offsets_are_byte_offsets() {
    // 'é' takes two bytes and '€' three.
    let found = find_format_specifiers("é€${time}", ItemFormatSpecifier::Time);
    assert_eq!(found, vec![(5, 12)]);
}

#[test]
fn unfinished_placeholder_is_not_found() {
    assert!(find_format_specifiers("${title", ItemFormatSpecifier::Title).is_empty());
    assert!(find_format_specifiers("$title}", ItemFormatSpecifier::Title).is_empty());
    assert!(find_format_specifiers("{title}", ItemFormatSpecifier::Title).is_empty());
}

#[test]
fn scanner_works_on_any_bytes() {
    assert_eq!(find_occurrences(b"x${ab}\\${ab}", b"ab", false), vec![(1, 6)]);
    assert_eq!(find_occurrences(b"x${ab}\\${ab}", b"ab", true), vec![(7, 12)]);
    assert_eq!(find_occurrences(b"${}", b"", false), vec![(0, 3)]);
}

#[test]
fn names_and_places_of_item_placeholders() {
    let names: Vec<&str> = ItemFormatSpecifier::all().iter().map(|k| k.name()).collect();
    assert_eq!(
        names,
        vec![
            "title",
            "description",
            "source",
            "link",
            "date",
            "time",
            "timestamp",
            "channel_link"
        ]
    );
    for (place, kind) in ItemFormatSpecifier::all().iter().enumerate() {
        assert_eq!(kind.index(), place);
    }
}

#[test]
fn names_and_places_of_page_placeholders() {
    let names: Vec<&str> = PageFormatSpecifier::all().iter().map(|k| k.name()).collect();
    assert_eq!(names, vec!["items", "item_count", "channel_count", "date", "time", "timestamp"]);
    for (place, kind) in PageFormatSpecifier::all().iter().enumerate() {
        assert_eq!(kind.index(), place);
    }
}
