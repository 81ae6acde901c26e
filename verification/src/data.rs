//! The entries that feeds give and the timeline that holds them, in memory.

use crate::dates::{
    date_pattern, format_datetime, rfc2822_instant, rfc2822_text, rfc2822_timestamp, time_pattern,
    Pattern,
};
pub use crate::feeds::{
    export_channel_urls, export_opml, import_channel_urls, import_opml_channel_urls,
};
use vstd::prelude::*;
use vstd::string::*;

verus! {

/// One article as its feed gave it. A field that the feed left out is `None`.
#[derive(Debug, Clone)]
pub struct FeedItem {
    pub title: Option<String>,
    pub description: Option<String>,
    pub link: Option<String>,
    /// The date of publication, as the feed wrote it.
    pub pub_date: Option<String>,
}

/// One feed with its articles.
#[derive(Debug, Clone)]
pub struct FeedChannel {
    pub title: String,
    pub link: String,
    pub description: String,
    /// The names of the categories that the feed files itself under.
    pub categories: Vec<String>,
    pub items: Vec<FeedItem>,
}

/// An entry of the timeline: an article, the name and the link of the feed it
/// came from, and the time by which it is ordered.
#[derive(Debug, Clone)]
pub struct TimelineItem {
    pub item: FeedItem,
    pub channel_title: String,
    pub channel_url: String,
    /// Seconds since the epoch.
    pub timestamp: i64,
}

/// The store of all entries: they are appended and never changed or removed.
#[derive(Debug)]
pub struct DataStoreType {
    /// The entries in the order in which they were appended.
    pub timeline: Vec<TimelineItem>,
}

/// How many seconds before the time of ingestion an entry is put whose date
/// of publication is missing or cannot be read.
pub const FALLBACK_AGE: i64 = 60;

/// The text of an optional field, or `fallback` where the field is absent.
pub open spec fn text_or(field: Option<String>, fallback: Seq<char>) -> Seq<char> {
    match field {
        Some(text) => text@,
        None => fallback,
    }
}

/// The date of publication as seconds since the epoch, where the feed gave
/// one that can be read.
pub open spec fn published_at(item: FeedItem) -> Option<int> {
    match item.pub_date {
        Some(date) => match rfc2822_instant(date@) {
            Some(instant) => Some(instant.0),
            None => None,
        },
        None => None,
    }
}

/// The time given to an entry without a readable date: `FALLBACK_AGE` seconds
/// before `now`, and no earlier than the earliest time there is.
pub open spec fn fallback_timestamp(now: int) -> int {
    if now - FALLBACK_AGE < i64::MIN {
        i64::MIN as int
    } else {
        now - FALLBACK_AGE
    }
}

/// The time of an entry that is ingested at `now`: the time of its
/// publication where it has one, and the fallback time where it has none.
pub open spec fn timestamp_of_entry(published: Option<int>, now: int) -> int {
    match published {
        Some(seconds) => seconds,
        None => fallback_timestamp(now),
    }
}

/// The entry that an article of a feed makes when it is ingested at `now`.
pub open spec fn timeline_entry(channel: FeedChannel, item: FeedItem, now: int) -> TimelineItem {
    TimelineItem {
        item,
        channel_title: channel.title,
        channel_url: channel.link,
        timestamp: timestamp_of_entry(published_at(item), now) as i64,
    }
}

/// The entries that the articles of a feed make, in the feed's order.
pub open spec fn entries_of(channel: FeedChannel, now: int) -> Seq<TimelineItem> {
    Seq::new(channel.items@.len(), |i: int| timeline_entry(channel, channel.items@[i], now))
}

/// How many of the first `upto` articles have no readable date.
pub open spec fn undated(items: Seq<FeedItem>, upto: int) -> nat
    decreases upto,
{
    if upto <= 0 {
        0
    } else if published_at(items[upto - 1]).is_none() {
        undated(items, upto - 1) + 1
    } else {
        undated(items, upto - 1)
    }
}

/// A copy of an optional text.
fn copy_text(field: &Option<String>) -> (copy: Option<String>)
    ensures
        copy == *field,
{
    match field {
        Some(text) => Some(text.clone()),
        None => None,
    }
}

/// A copy of an article.
fn copy_item(item: &FeedItem) -> (copy: FeedItem)
    ensures
        copy == *item,
{
    FeedItem {
        title: copy_text(&item.title),
        description: copy_text(&item.description),
        link: copy_text(&item.link),
        pub_date: copy_text(&item.pub_date),
    }
}

impl TimelineItem {
    /// The title, or `(No title)` where the feed gave none.
    pub open spec fn spec_title(&self) -> Seq<char> {
        text_or(self.item.title, "(No title)"@)
    }

    /// The description, or `(No description)` where the feed gave none.
    pub open spec fn spec_description(&self) -> Seq<char> {
        text_or(self.item.description, "(No description)"@)
    }

    /// The name of the feed.
    pub open spec fn spec_source(&self) -> Seq<char> {
        self.channel_title@
    }

    /// The link, or the empty text where the feed gave none.
    pub open spec fn spec_link(&self) -> Seq<char> {
        text_or(self.item.link, Seq::empty())
    }

    /// The day of publication; the empty text where the feed gave no date or
    /// one that cannot be read.
    pub open spec fn spec_date(&self) -> Seq<char> {
        match self.item.pub_date {
            Some(date) => rfc2822_text(date@, date_pattern()),
            None => Seq::empty(),
        }
    }

    /// The time of day of publication; the empty text where the feed gave no
    /// date or one that cannot be read.
    pub open spec fn spec_time(&self) -> Seq<char> {
        match self.item.pub_date {
            Some(date) => rfc2822_text(date@, time_pattern()),
            None => Seq::empty(),
        }
    }

    /// The title of the article, or `(No title)` where the feed gave none.
    pub fn title(&self) -> (text: String)
        ensures
            text@ == self.spec_title(),
    {
        match &self.item.title {
            Some(title) => title.clone(),
            None => "(No title)".to_string(),
        }
    }

    /// The description of the article, or `(No description)` where the feed
    /// gave none.
    pub fn description(&self) -> (text: String)
        ensures
            text@ == self.spec_description(),
    {
        match &self.item.description {
            Some(description) => description.clone(),
            None => "(No description)".to_string(),
        }
    }

    /// The name of the feed that the article came from.
    pub fn source(&self) -> (text: String)
        ensures
            text@ == self.spec_source(),
    {
        self.channel_title.clone()
    }

    /// The link of the article, or the empty text where the feed gave none.
    pub fn link(&self) -> (text: String)
        ensures
            text@ == self.spec_link(),
    {
        match &self.item.link {
            Some(link) => link.clone(),
            None => String::new(),
        }
    }

    /// The day of publication, as in `2024-01-31`, at the offset from UTC that
    /// the feed's date names; the empty text where the feed gave no date or
    /// one that cannot be read.
    pub fn date(&self) -> (text: String)
        ensures
            text@ == self.spec_date(),
    {
        match &self.item.pub_date {
            Some(date) => format_datetime(date.as_str(), Pattern::Date),
            None => String::new(),
        }
    }

    /// The time of day of publication, as in `23:59:59`, at the offset from
    /// UTC that the feed's date names; the empty text where the feed gave no
    /// date or one that cannot be read.
    pub fn time(&self) -> (text: String)
        ensures
            text@ == self.spec_time(),
    {
        match &self.item.pub_date {
            Some(date) => format_datetime(date.as_str(), Pattern::Time),
            None => String::new(),
        }
    }
}

impl DataStoreType {
    /// An empty store.
    pub fn new() -> (store: Self)
        ensures
            store.timeline@ == Seq::<TimelineItem>::empty(),
    {
        DataStoreType { timeline: Vec::new() }
    }

    /// Appends one entry. Nothing is ordered here: a rendering orders what it
    /// reads.
    pub fn append(&mut self, entry: TimelineItem)
        ensures
            final(self).timeline@ == old(self).timeline@.push(entry),
    {
        self.timeline.push(entry);
    }

    /// The entries as a rendering reads them: all of them, in the order in
    /// which they were appended.
    pub fn snapshot_for_render(&self) -> (entries: &[TimelineItem])
        ensures
            entries@ == self.timeline@,
    {
        self.timeline.as_slice()
    }
}

impl Default for DataStoreType {
    /// An empty store.
    fn default() -> (store: Self)
        ensures
            store.timeline@ == Seq::<TimelineItem>::empty(),
    {
        DataStoreType::new()
    }
}

/// The published time of an optional reading, as a mathematical integer.
pub open spec fn seconds_of(published: Option<i64>) -> Option<int> {
    match published {
        Some(seconds) => Some(seconds as int),
        None => None,
    }
}

/// The time that an entry gets when it is ingested at `now`: the time of its
/// publication where one was read from its date, else `FALLBACK_AGE` seconds
/// before `now`, and no earlier than the earliest time there is.
pub fn entry_timestamp(published: Option<i64>, now: i64) -> (timestamp: i64)
    ensures
        timestamp == timestamp_of_entry(seconds_of(published), now as int),
{
    match published {
        Some(seconds) => seconds,
        None => {
            if now < i64::MIN + FALLBACK_AGE {
                i64::MIN
            } else {
                now - FALLBACK_AGE
            }
        },
    }
}

/// Appends the articles of a feed to the store, as ingested at `now`: each
/// becomes an entry at the time of its publication, or, where it has no
/// readable date, `FALLBACK_AGE` seconds before `now`. Returns how many had
/// no readable date.
pub fn add_channel_items(store: &mut DataStoreType, channel: &FeedChannel, now: i64) -> (missing:
    usize)
    ensures
        final(store).timeline@ == old(store).timeline@ + entries_of(*channel, now as int),
        missing == undated(channel.items@, channel.items@.len() as int),
{
    let mut missing: usize = 0;
    let mut i: usize = 0;
    let ghost before = store.timeline@;
    let ghost made = entries_of(*channel, now as int);
    assert(store.timeline@ =~= before + made.take(0));
    while i < channel.items.len()
        invariant
            i <= channel.items@.len(),
            made == entries_of(*channel, now as int),
            store.timeline@ == before + made.take(i as int),
            missing == undated(channel.items@, i as int),
            missing <= i,
        decreases channel.items@.len() - i,
    {
        let item = &channel.items[i];
        let dated = match &item.pub_date {
            Some(date) => rfc2822_timestamp(date.as_str()),
            None => None,
        };
        if dated.is_none() {
            missing += 1;
        }
        let timestamp = entry_timestamp(dated, now);
        let entry = TimelineItem {
            item: copy_item(item),
            channel_title: channel.title.clone(),
            channel_url: channel.link.clone(),
            timestamp,
        };
        assert(entry == made[i as int]);
        store.timeline.push(entry);
        i += 1;
        assert(store.timeline@ =~= before + made.take(i as int));
    }
    assert(made.take(i as int) =~= made);
    missing
}

} // verus!
