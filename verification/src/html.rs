//! Item templates and page templates: HTML with placeholders of the form
//! `${name}`, compiled once and rendered as often as wanted.
//!
//! The template itself is trusted and goes into a rendering as it is written.
//! Every value that is put in is escaped for HTML.

use crate::dates::{date_pattern, format_utc, instant_text_or_empty, time_pattern, Pattern};
use crate::data::TimelineItem;
use crate::escape::{encode_safe, html_escaped};
use crate::render::{
    bytes_of, expand, plain_text_is_unchanged, predict_len, predicted_len,
    predicted_len_is_exact, splice,
};
use crate::scanner::{literal, live_at, occurs_at};
use crate::sites::{compile, is_site, lemma_occurrence_bytes, lists_sites};
use crate::specifier::name_bytes;
use crate::text::{
    decimal, decimal_text, lemma_utf8_concat, lemma_utf8_injective, signed_decimal,
    signed_decimal_text, utf8,
};
use crate::timeline::{
    channel_links, count_channels, distinct_count, distinct_times, entries_at, indices,
    order_of_appending_does_not_show, select_renderable, shown_entries,
};
pub use crate::specifier::{
    find_format_specifiers, FormatSpecifier, ItemFormatSpecifier, PageFormatSpecifier, Substitution,
};
use vstd::prelude::*;
use vstd::string::*;

verus! {

/// The item template that is used where none is given.
pub const DEFAULT_ITEM_TEMPLATE: &'static str =
    "<article>\n  <h2><a href=\"${link}\">${title}</a></h2>\n  <p class=\"meta\">${source} &middot; ${date} ${time}</p>\n  <p>${description}</p>\n</article>\n";

/// The page template that is used where none is given.
pub const DEFAULT_PAGE_TEMPLATE: &'static str =
    "<!DOCTYPE html>\n<html>\n<head>\n  <meta charset=\"utf-8\">\n  <title>noos</title>\n</head>\n<body>\n  <h1>noos</h1>\n  <p class=\"meta\">${item_count} items from ${channel_count} channels, as of ${date} ${time}</p>\n${items}</body>\n</html>\n";

/// A compiled template: a text and the sites of its placeholders, found once
/// when it is parsed.
pub trait Template: Default + Sized {
    /// What a rendering reads besides the template.
    type Deps<'a> where Self: 'a;

    /// The text that the template was compiled from.
    spec fn text(&self) -> Seq<char>;

    /// The lists of the template are those of its text: every live
    /// placeholder and every escaping backslash of the text is listed, once
    /// and in ascending order, and nothing else is.
    spec fn compiled(&self) -> bool;

    /// The text of the template that is used where none is given.
    spec fn default_text() -> Seq<char>;

    /// The template that is used where none is given, as text.
    fn builtin() -> (text: &'static str)
        ensures
            text@ == Self::default_text(),
    ;

    /// Compiles a template text. Any text is a template.
    fn parse(template: &str) -> (compiled: Self)
        ensures
            compiled.text() == template@,
            compiled.compiled(),
    ;

    /// Renders the template.
    fn render<'a>(&self, content: Self::Deps<'a>) -> String;
}

/// A value as it goes into a rendering: escaped for HTML and encoded.
pub open spec fn escaped_bytes(value: Seq<char>) -> Seq<u8> {
    utf8(html_escaped(value))
}

/// What an entry gives for a placeholder of an item template. The date, the
/// time and the timestamp are those of the entry, never of the clock.
pub open spec fn item_value(item: TimelineItem, specifier: ItemFormatSpecifier) -> Seq<char> {
    match specifier {
        ItemFormatSpecifier::Title => item.spec_title(),
        ItemFormatSpecifier::Description => item.spec_description(),
        ItemFormatSpecifier::Source => item.spec_source(),
        ItemFormatSpecifier::Link => item.spec_link(),
        ItemFormatSpecifier::Date => item.spec_date(),
        ItemFormatSpecifier::Time => item.spec_time(),
        ItemFormatSpecifier::Timestamp => signed_decimal(item.timestamp as int),
        ItemFormatSpecifier::ChannelLink => item.channel_url@,
    }
}

/// The escaped values of an entry, one for each placeholder of an item
/// template, each at the place of its placeholder.
pub open spec fn item_values(item: TimelineItem) -> Seq<Seq<u8>> {
    seq![
        escaped_bytes(item_value(item, ItemFormatSpecifier::Title)),
        escaped_bytes(item_value(item, ItemFormatSpecifier::Description)),
        escaped_bytes(item_value(item, ItemFormatSpecifier::Source)),
        escaped_bytes(item_value(item, ItemFormatSpecifier::Link)),
        escaped_bytes(item_value(item, ItemFormatSpecifier::Date)),
        escaped_bytes(item_value(item, ItemFormatSpecifier::Time)),
        escaped_bytes(item_value(item, ItemFormatSpecifier::Timestamp)),
        escaped_bytes(item_value(item, ItemFormatSpecifier::ChannelLink)),
    ]
}

/// The value that stands at the place of a placeholder is the escaped value
/// that the entry gives for that placeholder.
pub proof fn item_values_are_keyed(item: TimelineItem, specifier: ItemFormatSpecifier)
    ensures
        item_values(item).len() == ItemFormatSpecifier::spec_count(),
        item_values(item)[specifier.spec_index()] == escaped_bytes(item_value(item, specifier)),
{
}

/// The escaped values of an entry, one for each placeholder of an item
/// template.
fn escaped_item_values(item: &TimelineItem) -> (values: Vec<String>)
    ensures
        values@.len() == ItemFormatSpecifier::spec_count(),
        bytes_of(values@) == item_values(*item),
{
    let mut values: Vec<String> = Vec::new();
    values.push(encode_safe(item.title().as_str()));
    values.push(encode_safe(item.description().as_str()));
    values.push(encode_safe(item.source().as_str()));
    values.push(encode_safe(item.link().as_str()));
    values.push(encode_safe(item.date().as_str()));
    values.push(encode_safe(item.time().as_str()));
    values.push(encode_safe(signed_decimal_text(item.timestamp).as_str()));
    values.push(encode_safe(item.channel_url.as_str()));
    assert(bytes_of(values@) =~= item_values(*item));
    values
}

/// An item template: it shows one entry of the timeline.
#[derive(Debug)]
pub struct ItemTemplate {
    template: String,
    substitutions: Vec<Substitution<ItemFormatSpecifier>>,
    escapes: Vec<Substitution<ItemFormatSpecifier>>,
}

impl ItemTemplate {
    /// The live placeholders of the text, in ascending order.
    pub closed spec fn sites(&self) -> Seq<Substitution<ItemFormatSpecifier>> {
        self.substitutions@
    }

    /// The backslashes of the text that escape a placeholder, in ascending
    /// order.
    pub closed spec fn escape_sites(&self) -> Seq<Substitution<ItemFormatSpecifier>> {
        self.escapes@
    }

    #[verifier::type_invariant]
    closed spec fn lists_hold(self) -> bool {
        &&& lists_sites(utf8(self.template@), self.substitutions@, false)
        &&& lists_sites(utf8(self.template@), self.escapes@, true)
    }

    /// The rendering of the template for an entry, as bytes.
    pub open spec fn rendering(&self, item: TimelineItem) -> Seq<u8> {
        expand::<ItemFormatSpecifier>(utf8(self.text()), item_values(item), 0)
    }

    /// The length of the rendering for an entry, foretold from the compiled
    /// lists.
    pub open spec fn rendering_len(&self, item: TimelineItem) -> int {
        predicted_len(
            utf8(self.text()).len() as int,
            self.sites(),
            self.escape_sites(),
            item_values(item),
        )
    }

    /// The text that the template was compiled from.
    pub fn source_text(&self) -> (text: &str)
        ensures
            text@ == self.text(),
    {
        self.template.as_str()
    }

    /// The live placeholders of the text, in ascending order.
    pub fn substitutions(&self) -> (sites: &Vec<Substitution<ItemFormatSpecifier>>)
        ensures
            sites@ == self.sites(),
            self.compiled(),
    {
        proof {
            use_type_invariant(self);
        }
        &self.substitutions
    }

    /// The backslashes of the text that escape a placeholder, each as a site
    /// of one byte, in ascending order.
    pub fn escapes(&self) -> (sites: &Vec<Substitution<ItemFormatSpecifier>>)
        ensures
            sites@ == self.escape_sites(),
            self.compiled(),
    {
        proof {
            use_type_invariant(self);
        }
        &self.escapes
    }

    /// The length in bytes that the rendering for an entry will have,
    /// foretold without rendering; `None` where it is more than a `usize`
    /// holds.
    pub fn predicted_len(&self, item: &TimelineItem) -> (len: Option<usize>)
        ensures
            self.compiled(),
            self.rendering_len(*item) == self.rendering(*item).len(),
            (match len {
                Some(n) => n == self.rendering_len(*item),
                None => self.rendering_len(*item) > usize::MAX,
            }),
    {
        proof {
            use_type_invariant(self);
        }
        let values = escaped_item_values(item);
        let len = predict_len(self.template.as_str(), &self.substitutions, &self.escapes, &values);
        // Reading the length shows that a `usize` holds it.
        let _text_len = self.template.as_str().as_bytes().len();
        proof {
            predicted_len_is_exact(
                utf8(self.template@),
                item_values(*item),
                self.substitutions@,
                self.escapes@,
            );
        }
        len
    }
}

impl Template for ItemTemplate {
    type Deps<'a> = &'a TimelineItem;

    closed spec fn text(&self) -> Seq<char> {
        self.template@
    }

    open spec fn compiled(&self) -> bool {
        &&& lists_sites(utf8(self.text()), self.sites(), false)
        &&& lists_sites(utf8(self.text()), self.escape_sites(), true)
    }

    open spec fn default_text() -> Seq<char> {
        DEFAULT_ITEM_TEMPLATE@
    }

    fn builtin() -> (text: &'static str) {
        DEFAULT_ITEM_TEMPLATE
    }

    fn parse(template: &str) -> (compiled: Self) {
        let (substitutions, escapes) = compile::<ItemFormatSpecifier>(template);
        ItemTemplate { template: template.to_string(), substitutions, escapes }
    }

    /// Renders the template for one entry: every live placeholder gives way
    /// to the escaped value that the entry has for it, every backslash that
    /// escapes a placeholder is dropped, and the rest of the text stays.
    fn render<'a>(&self, item: &'a TimelineItem) -> (out: String)
        ensures
            utf8(out@) == self.rendering(*item),
            utf8(out@).len() == self.rendering_len(*item),
    {
        proof {
            use_type_invariant(self);
        }
        let values = escaped_item_values(item);
        splice(self.template.as_str(), &self.substitutions, &self.escapes, &values)
    }
}

impl Default for ItemTemplate {
    /// The built-in item template, compiled.
    fn default() -> (compiled: Self)
        ensures
            compiled.text() == DEFAULT_ITEM_TEMPLATE@,
            compiled.compiled(),
    {
        ItemTemplate::parse(DEFAULT_ITEM_TEMPLATE)
    }
}

/// The renderings of the first `upto` of the entries, one after the other.
pub open spec fn items_rendering(
    item_template: ItemTemplate,
    shown: Seq<TimelineItem>,
    upto: int,
) -> Seq<u8>
    decreases upto,
{
    if upto <= 0 {
        Seq::empty()
    } else {
        items_rendering(item_template, shown, upto - 1) + item_template.rendering(shown[upto - 1])
    }
}

/// What a page gives for a placeholder of a page template: the renderings of
/// the entries as they are, and, escaped, the number of entries, the number
/// of feeds, and the day, the time of day and the timestamp of the rendering.
pub open spec fn page_value(
    specifier: PageFormatSpecifier,
    items: Seq<u8>,
    shown: nat,
    channels: nat,
    now: int,
) -> Seq<u8> {
    match specifier {
        PageFormatSpecifier::Items => items,
        PageFormatSpecifier::ItemCount => escaped_bytes(decimal(shown)),
        PageFormatSpecifier::ChannelCount => escaped_bytes(decimal(channels)),
        PageFormatSpecifier::Date => escaped_bytes(
            instant_text_or_empty(now, 0, 0, date_pattern()),
        ),
        PageFormatSpecifier::Time => escaped_bytes(
            instant_text_or_empty(now, 0, 0, time_pattern()),
        ),
        PageFormatSpecifier::Timestamp => escaped_bytes(signed_decimal(now)),
    }
}

/// The values of a page, one for each placeholder of a page template, each at
/// the place of its placeholder.
pub open spec fn page_values(items: Seq<u8>, shown: nat, channels: nat, now: int) -> Seq<Seq<u8>> {
    seq![
        page_value(PageFormatSpecifier::Items, items, shown, channels, now),
        page_value(PageFormatSpecifier::ItemCount, items, shown, channels, now),
        page_value(PageFormatSpecifier::ChannelCount, items, shown, channels, now),
        page_value(PageFormatSpecifier::Date, items, shown, channels, now),
        page_value(PageFormatSpecifier::Time, items, shown, channels, now),
        page_value(PageFormatSpecifier::Timestamp, items, shown, channels, now),
    ]
}

/// The value that stands at the place of a placeholder is the value that the
/// page gives for that placeholder.
pub proof fn page_values_are_keyed(
    specifier: PageFormatSpecifier,
    items: Seq<u8>,
    shown: nat,
    channels: nat,
    now: int,
)
    ensures
        page_values(items, shown, channels, now).len() == PageFormatSpecifier::spec_count(),
        page_values(items, shown, channels, now)[specifier.spec_index()] == page_value(
            specifier,
            items,
            shown,
            channels,
            now,
        ),
{
}

/// The values of a page rendered at `now` from the entries of a timeline.
/// Only the entries that are not in the future at `now` count, and they are
/// shown from newest to oldest.
pub open spec fn page_values_of(
    entries: Seq<TimelineItem>,
    item_template: ItemTemplate,
    now: int,
) -> Seq<Seq<u8>> {
    let shown = shown_entries(entries, now);
    page_values(
        items_rendering(item_template, shown, shown.len() as int),
        shown.len(),
        distinct_count(channel_links(shown)),
        now,
    )
}

/// The renderings of the entries at the given indices by an item template,
/// one after the other.
fn render_items(content: &[TimelineItem], order: &Vec<usize>, item_template: &ItemTemplate) -> (items:
    String)
    requires
        forall|k: int| 0 <= k < order@.len() ==> (#[trigger] order@[k]) < content@.len(),
    ensures
        utf8(items@) == items_rendering(
            *item_template,
            entries_at(content@, indices(order@)),
            order@.len() as int,
        ),
{
    let ghost shown = entries_at(content@, indices(order@));
    let mut items = String::new();
    let mut k: usize = 0;
    while k < order.len()
        invariant
            k <= order@.len(),
            shown == entries_at(content@, indices(order@)),
            forall|k: int| 0 <= k < order@.len() ==> (#[trigger] order@[k]) < content@.len(),
            utf8(items@) == items_rendering(*item_template, shown, k as int),
        decreases order@.len() - k,
    {
        let ghost before = items@;
        let piece = item_template.render(&content[order[k]]);
        items.append(piece.as_str());
        proof {
            lemma_utf8_concat(before, piece@);
        }
        k += 1;
    }
    items
}

/// The values of a page, one for each placeholder of a page template, from
/// the renderings of the entries, their number, the number of their feeds
/// and the time of the rendering.
fn page_value_texts(items: String, shown: usize, channels: usize, now: i64) -> (values: Vec<String>)
    ensures
        values@.len() == PageFormatSpecifier::spec_count(),
        bytes_of(values@) == page_values(utf8(items@), shown as nat, channels as nat, now as int),
{
    let ghost rendered = utf8(items@);
    let mut values: Vec<String> = Vec::new();
    values.push(items);
    values.push(encode_safe(decimal_text(shown as u64).as_str()));
    values.push(encode_safe(decimal_text(channels as u64).as_str()));
    values.push(encode_safe(format_utc(now, Pattern::Date).as_str()));
    values.push(encode_safe(format_utc(now, Pattern::Time).as_str()));
    values.push(encode_safe(signed_decimal_text(now).as_str()));
    assert(bytes_of(values@) =~= page_values(rendered, shown as nat, channels as nat, now as int));
    values
}

/// The values of a page rendered at `now`, one for each placeholder of a
/// page template.
fn escaped_page_values(content: &[TimelineItem], item_template: &ItemTemplate, now: i64) -> (values:
    Vec<String>)
    ensures
        values@.len() == PageFormatSpecifier::spec_count(),
        bytes_of(values@) == page_values_of(content@, *item_template, now as int),
{
    let order = select_renderable(content, now);
    assert(entries_at(content@, indices(order@)) == shown_entries(content@, now as int));
    assert(order@.len() == indices(order@).len());
    let items = render_items(content, &order, item_template);
    let channels = count_channels(content, &order);
    page_value_texts(items, order.len(), channels, now)
}

/// A page template: it shows the timeline as a whole.
#[derive(Debug)]
pub struct PageTemplate {
    template: String,
    substitutions: Vec<Substitution<PageFormatSpecifier>>,
    escapes: Vec<Substitution<PageFormatSpecifier>>,
}

impl PageTemplate {
    /// The live placeholders of the text, in ascending order.
    pub closed spec fn sites(&self) -> Seq<Substitution<PageFormatSpecifier>> {
        self.substitutions@
    }

    /// The backslashes of the text that escape a placeholder, in ascending
    /// order.
    pub closed spec fn escape_sites(&self) -> Seq<Substitution<PageFormatSpecifier>> {
        self.escapes@
    }

    #[verifier::type_invariant]
    closed spec fn lists_hold(self) -> bool {
        &&& lists_sites(utf8(self.template@), self.substitutions@, false)
        &&& lists_sites(utf8(self.template@), self.escapes@, true)
    }

    /// The text holds a live `${items}`.
    pub open spec fn has_items(&self) -> bool {
        exists|at: int| live_at(utf8(self.text()), at, name_bytes(PageFormatSpecifier::Items))
    }

    /// The rendering of the page at `now`, as bytes. A template without a
    /// live `${items}` is rendered as its text, unchanged.
    pub open spec fn rendering(
        &self,
        entries: Seq<TimelineItem>,
        item_template: ItemTemplate,
        now: int,
    ) -> Seq<u8> {
        if self.has_items() {
            expand::<PageFormatSpecifier>(
                utf8(self.text()),
                page_values_of(entries, item_template, now),
                0,
            )
        } else {
            utf8(self.text())
        }
    }

    /// The length of the rendering of the page at `now`, foretold from the
    /// compiled lists.
    pub open spec fn rendering_len(
        &self,
        entries: Seq<TimelineItem>,
        item_template: ItemTemplate,
        now: int,
    ) -> int {
        if self.has_items() {
            predicted_len(
                utf8(self.text()).len() as int,
                self.sites(),
                self.escape_sites(),
                page_values_of(entries, item_template, now),
            )
        } else {
            utf8(self.text()).len() as int
        }
    }

    /// The text that the template was compiled from.
    pub fn source_text(&self) -> (text: &str)
        ensures
            text@ == self.text(),
    {
        self.template.as_str()
    }

    /// The live placeholders of the text, in ascending order.
    pub fn substitutions(&self) -> (sites: &Vec<Substitution<PageFormatSpecifier>>)
        ensures
            sites@ == self.sites(),
            self.compiled(),
    {
        proof {
            use_type_invariant(self);
        }
        &self.substitutions
    }

    /// The backslashes of the text that escape a placeholder, each as a site
    /// of one byte, in ascending order.
    pub fn escapes(&self) -> (sites: &Vec<Substitution<PageFormatSpecifier>>)
        ensures
            sites@ == self.escape_sites(),
            self.compiled(),
    {
        proof {
            use_type_invariant(self);
        }
        &self.escapes
    }

    /// Whether the text holds a live `${items}`.
    pub fn shows_items(&self) -> (found: bool)
        ensures
            found == self.has_items(),
    {
        proof {
            use_type_invariant(self);
        }
        // Reading the length shows that a `usize` holds it.
        let _text_len = self.template.as_str().as_bytes().len();
        let ghost text = utf8(self.template@);
        let ghost name = name_bytes(PageFormatSpecifier::Items);
        let mut m: usize = 0;
        while m < self.substitutions.len()
            invariant
                m <= self.substitutions@.len(),
                text == utf8(self.template@),
                name == name_bytes(PageFormatSpecifier::Items),
                lists_sites(text, self.substitutions@, false),
                forall|n: int|
                    0 <= n < m ==> (#[trigger] self.substitutions@[n]).specifier
                        != PageFormatSpecifier::Items,
            decreases self.substitutions@.len() - m,
        {
            let site = self.substitutions[m];
            match site.specifier {
                PageFormatSpecifier::Items => {
                    assert(self.substitutions@.contains(site));
                    assert(live_at(utf8(self.text()), site.start as int, name));
                    return true;
                },
                _ => {},
            }
            m += 1;
        }
        proof {
            if self.has_items() {
                let at = choose|at: int| live_at(text, at, name);
                lemma_occurrence_bytes(text, at, name);
                let site = Substitution {
                    start: at as usize,
                    end: (at + literal(name).len()) as usize,
                    specifier: PageFormatSpecifier::Items,
                };
                assert(is_site(text, site, false));
                assert(self.substitutions@.contains(site));
            }
        }
        false
    }

    /// The length in bytes that the rendering of the page at `now` will
    /// have, foretold from the compiled lists; `None` where it is more than a
    /// `usize` holds.
    pub fn predicted_len(
        &self,
        content: &[TimelineItem],
        item_template: &ItemTemplate,
        now: i64,
    ) -> (len: Option<usize>)
        ensures
            self.rendering_len(content@, *item_template, now as int) == self.rendering(
                content@,
                *item_template,
                now as int,
            ).len(),
            (match len {
                Some(n) => n == self.rendering_len(content@, *item_template, now as int),
                None => self.rendering_len(content@, *item_template, now as int) > usize::MAX,
            }),
    {
        proof {
            use_type_invariant(self);
        }
        let text_len = self.template.as_str().as_bytes().len();
        if !self.shows_items() {
            return Some(text_len);
        }
        let values = escaped_page_values(content, item_template, now);
        proof {
            predicted_len_is_exact(
                utf8(self.template@),
                page_values_of(content@, *item_template, now as int),
                self.substitutions@,
                self.escapes@,
            );
        }
        predict_len(self.template.as_str(), &self.substitutions, &self.escapes, &values)
    }
}

impl Template for PageTemplate {
    /// The entries of the timeline, the template that shows each of them,
    /// and the time of the rendering in seconds since the epoch.
    type Deps<'a> = (&'a [TimelineItem], &'a ItemTemplate, i64);

    closed spec fn text(&self) -> Seq<char> {
        self.template@
    }

    open spec fn compiled(&self) -> bool {
        &&& lists_sites(utf8(self.text()), self.sites(), false)
        &&& lists_sites(utf8(self.text()), self.escape_sites(), true)
    }

    open spec fn default_text() -> Seq<char> {
        DEFAULT_PAGE_TEMPLATE@
    }

    fn builtin() -> (text: &'static str) {
        DEFAULT_PAGE_TEMPLATE
    }

    fn parse(template: &str) -> (compiled: Self) {
        let (substitutions, escapes) = compile::<PageFormatSpecifier>(template);
        PageTemplate { template: template.to_string(), substitutions, escapes }
    }

    /// Renders the page from the entries of a timeline, by an item template,
    /// as of a time in seconds since the epoch. The time is given: nothing
    /// here reads a clock.
    ///
    /// A template without a live `${items}` is returned as its text,
    /// unchanged. Otherwise the entries whose time is not after the given
    /// time are shown, from newest to oldest: `${items}` gives way to their
    /// renderings by the item template, one after the other and not escaped
    /// again; `${item_count}` to their number; `${channel_count}` to the
    /// number of different feed links among them; `${date}`, `${time}` and
    /// `${timestamp}` to the day, the time of day and the seconds of the
    /// given time. The entries themselves are only read.
    fn render<'a>(&self, content: (&'a [TimelineItem], &'a ItemTemplate, i64)) -> (out: String)
        ensures
            utf8(out@) == self.rendering(content.0@, *content.1, content.2 as int),
            utf8(out@).len() == self.rendering_len(content.0@, *content.1, content.2 as int),
    {
        proof {
            use_type_invariant(self);
        }
        if !self.shows_items() {
            return self.template.clone();
        }
        let values = escaped_page_values(content.0, content.1, content.2);
        splice(self.template.as_str(), &self.substitutions, &self.escapes, &values)
    }
}

impl Default for PageTemplate {
    /// The built-in page template, compiled.
    fn default() -> (compiled: Self)
        ensures
            compiled.text() == DEFAULT_PAGE_TEMPLATE@,
            compiled.compiled(),
    {
        PageTemplate::parse(DEFAULT_PAGE_TEMPLATE)
    }
}

/// Picks the text of a template: the one given on the command line if there
/// is one, else the one from the user's configuration if there is one, else
/// the built-in one; and compiles it.
pub fn load_template<T: Template>(cli_text: Option<&str>, config_text: Option<&str>) -> (template: T)
    ensures
        template.compiled(),
        template.text() == (match cli_text {
            Some(text) => text@,
            None => match config_text {
                Some(text) => text@,
                None => T::default_text(),
            },
        }),
{
    match cli_text {
        Some(text) => T::parse(text),
        None => match config_text {
            Some(text) => T::parse(text),
            None => T::parse(T::builtin()),
        },
    }
}

/// Compiles the page template and the item template. Each comes from the
/// text given for it on the command line if there is one, else from the text
/// in the user's configuration if there is one, else it is the built-in one.
pub fn load_templates_or_default(
    page_cli_text: Option<&str>,
    page_config_text: Option<&str>,
    item_cli_text: Option<&str>,
    item_config_text: Option<&str>,
) -> (templates: (PageTemplate, ItemTemplate))
    ensures
        templates.0.compiled(),
        templates.1.compiled(),
        templates.0.text() == (match page_cli_text {
            Some(text) => text@,
            None => match page_config_text {
                Some(text) => text@,
                None => DEFAULT_PAGE_TEMPLATE@,
            },
        }),
        templates.1.text() == (match item_cli_text {
            Some(text) => text@,
            None => match item_config_text {
                Some(text) => text@,
                None => DEFAULT_ITEM_TEMPLATE@,
            },
        }),
{
    (load_template(page_cli_text, page_config_text), load_template(item_cli_text, item_config_text))
}

/// Rendering an entry is a function of the template and the entry: two texts
/// that are renderings of the same entry by the same template are the same
/// text.
pub proof fn item_rendering_is_determined(
    template: ItemTemplate,
    item: TimelineItem,
    first: Seq<char>,
    second: Seq<char>,
)
    requires
        utf8(first) == template.rendering(item),
        utf8(second) == template.rendering(item),
    ensures
        first == second,
{
    lemma_utf8_injective(first, second);
}

/// Rendering a page is a function of the templates, the entries and the time
/// of the rendering: two texts that are renderings of the same entries by the
/// same templates at the same time are the same text.
pub proof fn page_rendering_is_determined(
    template: PageTemplate,
    entries: Seq<TimelineItem>,
    item_template: ItemTemplate,
    now: int,
    first: Seq<char>,
    second: Seq<char>,
)
    requires
        utf8(first) == template.rendering(entries, item_template, now),
        utf8(second) == template.rendering(entries, item_template, now),
    ensures
        first == second,
{
    lemma_utf8_injective(first, second);
}

/// An item template whose text holds none of the item placeholders renders
/// every entry as that text, byte for byte.
pub proof fn item_template_without_placeholders(template: ItemTemplate, item: TimelineItem)
    requires
        forall|at: int, k: ItemFormatSpecifier| !#[trigger]
            occurs_at(utf8(template.text()), at, name_bytes(k)),
    ensures
        template.rendering(item) == utf8(template.text()),
{
    plain_text_is_unchanged::<ItemFormatSpecifier>(utf8(template.text()), item_values(item));
}

/// A page template whose text holds none of the page placeholders is
/// rendered as that text, byte for byte, whatever the timeline holds.
pub proof fn page_template_without_placeholders(
    template: PageTemplate,
    entries: Seq<TimelineItem>,
    item_template: ItemTemplate,
    now: int,
)
    requires
        forall|at: int, k: PageFormatSpecifier| !#[trigger]
            occurs_at(utf8(template.text()), at, name_bytes(k)),
    ensures
        template.rendering(entries, item_template, now) == utf8(template.text()),
{
    if template.has_items() {
        let at = choose|at: int|
            live_at(utf8(template.text()), at, name_bytes(PageFormatSpecifier::Items));
        assert(occurs_at(utf8(template.text()), at, name_bytes(PageFormatSpecifier::Items)));
    }
}

/// The order in which entries of distinct times were appended does not show
/// in a page: two timelines that hold the same entries, no two of them of the
/// same time, are rendered as the same page.
pub proof fn page_does_not_show_order_of_appending(
    template: PageTemplate,
    item_template: ItemTemplate,
    first: Seq<TimelineItem>,
    second: Seq<TimelineItem>,
    now: int,
)
    requires
        forall|x: TimelineItem| first.contains(x) <==> second.contains(x),
        distinct_times(first),
        distinct_times(second),
    ensures
        template.rendering(first, item_template, now) == template.rendering(
            second,
            item_template,
            now,
        ),
{
    order_of_appending_does_not_show(first, second, now);
}

} // verus!
