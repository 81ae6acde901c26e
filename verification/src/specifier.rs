//! The closed sets of placeholders that item templates and page templates know.

use crate::scanner::{
    escaped_positions, find_occurrences, literal, live_positions, spans_of, BACKSLASH, CLOSE_BRACE,
    DOLLAR,
};
use crate::text::utf8;
use vstd::prelude::*;
use vstd::string::*;
use vstd::utf8::*;

verus! {

/// A name can stand between `${` and `}`: it holds none of the bytes that
/// structure a placeholder (`$`, `}`) or escape one (`\`).
pub open spec fn plain_name(name: Seq<u8>) -> bool {
    forall|i: int|
        0 <= i < name.len() ==> #[trigger] name[i] != DOLLAR && name[i] != CLOSE_BRACE && name[i]
            != BACKSLASH
}

/// A closed set of placeholders. Each has a name, written in a template as
/// `${name}`, and a place in the set, by which its value is looked up.
pub trait FormatSpecifier: Sized + Copy {
    /// The name of the placeholder.
    spec fn spec_name(self) -> Seq<char>;

    /// The place of the placeholder in its set, counted from 0.
    spec fn spec_index(self) -> int;

    /// How many placeholders the set holds.
    spec fn spec_count() -> int;

    /// The name of the placeholder.
    fn name(&self) -> (r: &'static str)
        ensures
            r@ == self.spec_name(),
    ;

    /// The place of the placeholder in its set.
    fn index(&self) -> (r: usize)
        ensures
            r == self.spec_index(),
    ;

    /// Every placeholder of the set, each at its place.
    fn all() -> (r: Vec<Self>)
        ensures
            r@.len() == Self::spec_count(),
            forall|i: int| 0 <= i < r@.len() ==> (#[trigger] r@[i]).spec_index() == i,
    ;

    /// Names are plain and places lie within the set.
    proof fn lemma_well_formed(self)
        ensures
            plain_name(utf8(self.spec_name())),
            0 <= self.spec_index() < Self::spec_count(),
    ;

    /// No two placeholders share a place or a name.
    proof fn lemma_distinct(self, other: Self)
        ensures
            self.spec_index() == other.spec_index() ==> self == other,
            self.spec_name() == other.spec_name() ==> self == other,
    ;
}

/// The bytes of a placeholder's name.
pub open spec fn name_bytes<F: FormatSpecifier>(specifier: F) -> Seq<u8> {
    utf8(specifier.spec_name())
}

/// The placeholders of an item template.
#[derive(Debug, Clone, Copy, PartialEq, Eq)]
pub enum ItemFormatSpecifier {
    Title,
    Description,
    Source,
    Link,
    Date,
    Time,
    Timestamp,
    ChannelLink,
}

/// The placeholders of a page template.
#[derive(Debug, Clone, Copy, PartialEq, Eq)]
pub enum PageFormatSpecifier {
    Items,
    ItemCount,
    ChannelCount,
    Date,
    Time,
    Timestamp,
}

/// The bytes of an ASCII text are its characters, one byte each.
pub proof fn lemma_ascii_bytes(chars: Seq<char>)
    requires
        is_ascii_chars(chars),
    ensures
        utf8(chars).len() == chars.len(),
        forall|i: int| 0 <= i < chars.len() ==> #[trigger] utf8(chars)[i] == chars[i] as u8,
{
    is_ascii_chars_encode_utf8(chars);
}

impl FormatSpecifier for ItemFormatSpecifier {
    open spec fn spec_name(self) -> Seq<char> {
        match self {
            ItemFormatSpecifier::Title => "title"@,
            ItemFormatSpecifier::Description => "description"@,
            ItemFormatSpecifier::Source => "source"@,
            ItemFormatSpecifier::Link => "link"@,
            ItemFormatSpecifier::Date => "date"@,
            ItemFormatSpecifier::Time => "time"@,
            ItemFormatSpecifier::Timestamp => "timestamp"@,
            ItemFormatSpecifier::ChannelLink => "channel_link"@,
        }
    }

    open spec fn spec_index(self) -> int {
        match self {
            ItemFormatSpecifier::Title => 0,
            ItemFormatSpecifier::Description => 1,
            ItemFormatSpecifier::Source => 2,
            ItemFormatSpecifier::Link => 3,
            ItemFormatSpecifier::Date => 4,
            ItemFormatSpecifier::Time => 5,
            ItemFormatSpecifier::Timestamp => 6,
            ItemFormatSpecifier::ChannelLink => 7,
        }
    }

    open spec fn spec_count() -> int {
        8
    }

    fn name(&self) -> (r: &'static str) {
        match self {
            ItemFormatSpecifier::Title => "title",
            ItemFormatSpecifier::Description => "description",
            ItemFormatSpecifier::Source => "source",
            ItemFormatSpecifier::Link => "link",
            ItemFormatSpecifier::Date => "date",
            ItemFormatSpecifier::Time => "time",
            ItemFormatSpecifier::Timestamp => "timestamp",
            ItemFormatSpecifier::ChannelLink => "channel_link",
        }
    }

    fn index(&self) -> (r: usize) {
        match self {
            ItemFormatSpecifier::Title => 0,
            ItemFormatSpecifier::Description => 1,
            ItemFormatSpecifier::Source => 2,
            ItemFormatSpecifier::Link => 3,
            ItemFormatSpecifier::Date => 4,
            ItemFormatSpecifier::Time => 5,
            ItemFormatSpecifier::Timestamp => 6,
            ItemFormatSpecifier::ChannelLink => 7,
        }
    }

    fn all() -> (r: Vec<Self>) {
        vec![
            ItemFormatSpecifier::Title,
            ItemFormatSpecifier::Description,
            ItemFormatSpecifier::Source,
            ItemFormatSpecifier::Link,
            ItemFormatSpecifier::Date,
            ItemFormatSpecifier::Time,
            ItemFormatSpecifier::Timestamp,
            ItemFormatSpecifier::ChannelLink,
        ]
    }

    proof fn lemma_well_formed(self) {
        reveal_strlit("title");
        reveal_strlit("description");
        reveal_strlit("source");
        reveal_strlit("link");
        reveal_strlit("date");
        reveal_strlit("time");
        reveal_strlit("timestamp");
        reveal_strlit("channel_link");
        lemma_ascii_bytes(self.spec_name());
    }

    proof fn lemma_distinct(self, other: Self) {
        reveal_strlit("title");
        reveal_strlit("description");
        reveal_strlit("source");
        reveal_strlit("link");
        reveal_strlit("date");
        reveal_strlit("time");
        reveal_strlit("timestamp");
        reveal_strlit("channel_link");
        if self.spec_name() == other.spec_name() {
            assert(self.spec_name().len() == other.spec_name().len());
            assert(self.spec_name()[0] == other.spec_name()[0]);
        }
    }
}

impl FormatSpecifier for PageFormatSpecifier {
    open spec fn spec_name(self) -> Seq<char> {
        match self {
            PageFormatSpecifier::Items => "items"@,
            PageFormatSpecifier::ItemCount => "item_count"@,
            PageFormatSpecifier::ChannelCount => "channel_count"@,
            PageFormatSpecifier::Date => "date"@,
            PageFormatSpecifier::Time => "time"@,
            PageFormatSpecifier::Timestamp => "timestamp"@,
        }
    }

    open spec fn spec_index(self) -> int {
        match self {
            PageFormatSpecifier::Items => 0,
            PageFormatSpecifier::ItemCount => 1,
            PageFormatSpecifier::ChannelCount => 2,
            PageFormatSpecifier::Date => 3,
            PageFormatSpecifier::Time => 4,
            PageFormatSpecifier::Timestamp => 5,
        }
    }

    open spec fn spec_count() -> int {
        6
    }

    fn name(&self) -> (r: &'static str) {
        match self {
            PageFormatSpecifier::Items => "items",
            PageFormatSpecifier::ItemCount => "item_count",
            PageFormatSpecifier::ChannelCount => "channel_count",
            PageFormatSpecifier::Date => "date",
            PageFormatSpecifier::Time => "time",
            PageFormatSpecifier::Timestamp => "timestamp",
        }
    }

    fn index(&self) -> (r: usize) {
        match self {
            PageFormatSpecifier::Items => 0,
            PageFormatSpecifier::ItemCount => 1,
            PageFormatSpecifier::ChannelCount => 2,
            PageFormatSpecifier::Date => 3,
            PageFormatSpecifier::Time => 4,
            PageFormatSpecifier::Timestamp => 5,
        }
    }

    fn all() -> (r: Vec<Self>) {
        vec![
            PageFormatSpecifier::Items,
            PageFormatSpecifier::ItemCount,
            PageFormatSpecifier::ChannelCount,
            PageFormatSpecifier::Date,
            PageFormatSpecifier::Time,
            PageFormatSpecifier::Timestamp,
        ]
    }

    proof fn lemma_well_formed(self) {
        reveal_strlit("items");
        reveal_strlit("item_count");
        reveal_strlit("channel_count");
        reveal_strlit("date");
        reveal_strlit("time");
        reveal_strlit("timestamp");
        lemma_ascii_bytes(self.spec_name());
    }

    proof fn lemma_distinct(self, other: Self) {
        reveal_strlit("items");
        reveal_strlit("item_count");
        reveal_strlit("channel_count");
        reveal_strlit("date");
        reveal_strlit("time");
        reveal_strlit("timestamp");
        if self.spec_name() == other.spec_name() {
            assert(self.spec_name().len() == other.spec_name().len());
            assert(self.spec_name()[0] == other.spec_name()[0]);
        }
    }
}

/// The site of one live placeholder in a template: the byte offsets at which
/// it starts and ends, and which placeholder it is.
#[derive(Debug, Clone, Copy, PartialEq, Eq)]
pub struct Substitution<F: FormatSpecifier> {
    pub start: usize,
    pub end: usize,
    pub specifier: F,
}

/// All live occurrences of the placeholder `specifier` in `template`, as pairs
/// of start and end byte offset, in ascending order. An occurrence right
/// after a backslash is escaped and left out.
pub fn find_format_specifiers<F: FormatSpecifier>(template: &str, specifier: F) -> (found: Vec<
    (usize, usize),
>)
    ensures
        spans_of(
            found@,
            live_positions(utf8(template@), name_bytes(specifier)),
            literal(name_bytes(specifier)).len() as int,
        ),
{
    find_occurrences(template.as_bytes(), specifier.name().as_bytes(), false)
}

/// All escaped occurrences of the placeholder `specifier` in `template`, as
/// pairs of the start and end byte offset of the placeholder itself; the
/// backslash stands one byte before the start.
pub fn find_escaped_specifiers<F: FormatSpecifier>(template: &str, specifier: F) -> (found: Vec<
    (usize, usize),
>)
    ensures
        spans_of(
            found@,
            escaped_positions(utf8(template@), name_bytes(specifier)),
            literal(name_bytes(specifier)).len() as int,
        ),
{
    find_occurrences(template.as_bytes(), specifier.name().as_bytes(), true)
}

} // verus!
