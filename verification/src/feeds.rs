//! The list of subscribed feeds: as lines of text, one link per line, and as
//! outlines of a subscription list.

use crate::data::FeedChannel;
use crate::text::{lemma_ascii_byte_boundaries, slice_text, utf8};
use vstd::prelude::*;
use vstd::string::*;
use vstd::utf8::*;

verus! {

/// The byte of a line feed.
pub const LINE_FEED: u8 = 10;

/// The title of an exported subscription list.
pub const OPML_TITLE: &'static str = "Noos Exported Subscriptions";

/// The texts of a list of strings.
pub open spec fn texts(strings: Seq<String>) -> Seq<Seq<char>> {
    Seq::new(strings.len(), |i: int| strings[i]@)
}

/// A text without the white space at its start and at its end, as Unicode
/// defines white space.
pub uninterp spec fn trimmed(text: Seq<char>) -> Seq<char>;

/// Trims a text by `str::trim`, which returns the text without leading and
/// trailing white space. The contract only names the result.
#[verifier::external_body]
fn trim(text: &str) -> (inner: &str)
    ensures
        inner@ == trimmed(text@),
{
    text.trim()
}

/// The lines of a text: the stretches of bytes between its line feeds. A text
/// with n line feeds has n + 1 lines, of which any may be empty.
pub open spec fn split_lines(bytes: Seq<u8>) -> Seq<Seq<u8>>
    decreases bytes.len(),
{
    if bytes.len() == 0 {
        seq![Seq::empty()]
    } else {
        let before = split_lines(bytes.drop_last());
        if bytes.last() == LINE_FEED {
            before.push(Seq::empty())
        } else {
            before.drop_last().push(before.last().push(bytes.last()))
        }
    }
}

/// The lines, each trimmed of the white space at its start and at its end.
pub open spec fn trimmed_lines(lines: Seq<Seq<u8>>) -> Seq<Seq<char>> {
    Seq::new(lines.len(), |i: int| trimmed(decode_utf8(lines[i])))
}

/// Those of the first `upto` lines that are not empty, in their order.
pub open spec fn non_empty(lines: Seq<Seq<char>>, upto: int) -> Seq<Seq<char>>
    decreases upto,
{
    if upto <= 0 {
        Seq::empty()
    } else if lines[upto - 1].len() == 0 {
        non_empty(lines, upto - 1)
    } else {
        non_empty(lines, upto - 1).push(lines[upto - 1])
    }
}

/// The links of the feeds that a text lists, one to a line: its lines, each
/// trimmed, without those of which nothing remains.
pub open spec fn channel_urls_in(content: Seq<char>) -> Seq<Seq<char>> {
    let lines = trimmed_lines(split_lines(utf8(content)));
    non_empty(lines, lines.len() as int)
}

/// The lines of a text, each trimmed of the white space at its start and at
/// its end. A text with n line feeds has n + 1 lines.
pub fn trimmed_lines_of(content: &str) -> (lines: Vec<String>)
    ensures
        texts(lines@) == trimmed_lines(split_lines(utf8(content@))),
{
    let bytes = content.as_bytes();
    let len = bytes.len();
    let ghost all = utf8(content@);
    let mut lines: Vec<String> = Vec::new();
    let mut start: usize = 0;
    let mut at: usize = 0;
    let ghost mut done: Seq<Seq<u8>> = Seq::empty();
    proof {
        encode_utf8_valid_utf8(content@);
        is_char_boundary_start_end_of_seq(all);
        assert(all.take(0) =~= Seq::<u8>::empty());
        assert(split_lines(all.take(0)) =~= done.push(all.subrange(0, 0)));
        assert(texts(lines@) =~= trimmed_lines(done));
    }
    while at < len
        invariant
            start <= at <= len == all.len(),
            all == utf8(content@),
            bytes@ == all,
            valid_utf8(all),
            is_char_boundary(all, start as int),
            split_lines(all.take(at as int)) == done.push(all.subrange(start as int, at as int)),
            texts(lines@) == trimmed_lines(done),
        decreases len - at,
    {
        let ghost seen = all.take(at as int);
        let ghost line = all.subrange(start as int, at as int);
        proof {
            assert(all.take(at + 1).drop_last() =~= seen);
            assert(all.take(at + 1).last() == all[at as int]);
        }
        if bytes[at] == LINE_FEED {
            proof {
                lemma_ascii_byte_boundaries(all, at as int);
            }
            let piece = slice_text(content, start, at);
            let ghost before = texts(lines@);
            let link = trim(piece);
            lines.push(link.to_string());
            proof {
                encode_utf8_decode_utf8(piece@);
                let grown = done.push(line);
                assert(decode_utf8(line) == piece@);
                assert(texts(lines@) =~= before.push(trimmed(piece@)));
                assert(trimmed_lines(grown) =~= trimmed_lines(done).push(trimmed(piece@)));
                done = grown;
                assert(all.subrange(at + 1, at + 1) =~= Seq::<u8>::empty());
            }
            start = at + 1;
        } else {
            proof {
                assert(done.push(line).drop_last() =~= done);
                assert(line.push(all[at as int]) =~= all.subrange(start as int, at + 1));
            }
        }
        at += 1;
    }
    let ghost line = all.subrange(start as int, len as int);
    proof {
        is_char_boundary_start_end_of_seq(all);
        assert(all.take(len as int) =~= all);
    }
    let piece = slice_text(content, start, len);
    let ghost before = texts(lines@);
    let link = trim(piece);
    lines.push(link.to_string());
    proof {
        encode_utf8_decode_utf8(piece@);
        assert(decode_utf8(line) == piece@);
        assert(texts(lines@) =~= before.push(trimmed(piece@)));
        assert(trimmed_lines(done.push(line)) =~= trimmed_lines(done).push(trimmed(piece@)));
    }
    lines
}

/// Keeps the links among lines that were trimmed: the lines that are not
/// empty, in their order.
pub fn keep_links(lines: &Vec<String>) -> (urls: Vec<String>)
    ensures
        texts(urls@) == non_empty(texts(lines@), lines@.len() as int),
{
    let mut urls: Vec<String> = Vec::new();
    let mut i: usize = 0;
    assert(texts(urls@) =~= non_empty(texts(lines@), 0));
    while i < lines.len()
        invariant
            i <= lines@.len(),
            texts(urls@) == non_empty(texts(lines@), i as int),
        decreases lines@.len() - i,
    {
        if !lines[i].as_str().is_empty() {
            urls.push(lines[i].clone());
        }
        i += 1;
        assert(texts(urls@) =~= non_empty(texts(lines@), i as int));
    }
    urls
}

/// Reads the links of feeds from a text that lists one to a line: every line
/// is trimmed of white space, and a line of which nothing remains is left
/// out.
pub fn import_channel_urls(content: &str) -> (urls: Vec<String>)
    ensures
        texts(urls@) == channel_urls_in(content@),
{
    let lines = trimmed_lines_of(content);
    keep_links(&lines)
}

/// The first `upto` links, each on a line of its own: a line feed stands
/// between two links, and none after the last.
pub open spec fn joined_lines(urls: Seq<Seq<char>>, upto: int) -> Seq<char>
    decreases upto,
{
    if upto <= 0 {
        Seq::empty()
    } else if upto == 1 {
        urls[0]
    } else {
        joined_lines(urls, upto - 1) + seq!['\n'] + urls[upto - 1]
    }
}

/// Writes the links of feeds as a text that lists one to a line.
pub fn export_channel_urls(urls: &Vec<String>) -> (content: String)
    ensures
        content@ == joined_lines(texts(urls@), urls@.len() as int),
{
    let mut content = String::new();
    let mut i: usize = 0;
    proof {
        reveal_strlit("\n");
    }
    while i < urls.len()
        invariant
            i <= urls@.len(),
            "\n"@ == seq!['\n'],
            content@ == joined_lines(texts(urls@), i as int),
        decreases urls@.len() - i,
    {
        if i > 0 {
            content.append("\n");
        }
        content.append(urls[i].as_str());
        i += 1;
        assert(content@ =~= joined_lines(texts(urls@), i as int));
    }
    content
}

/// Whether the list holds the link.
pub fn has_feed(urls: &Vec<String>, feed: &str) -> (found: bool)
    ensures
        found == texts(urls@).contains(feed@),
{
    let wanted = feed.to_string();
    let mut i: usize = 0;
    while i < urls.len()
        invariant
            i <= urls@.len(),
            wanted@ == feed@,
            forall|k: int| 0 <= k < i ==> texts(urls@)[k] != feed@,
        decreases urls@.len() - i,
    {
        if urls[i] == wanted {
            assert(texts(urls@)[i as int] == feed@);
            return true;
        }
        i += 1;
    }
    false
}

/// Adds a link to the list, at its end, unless the list holds it already:
/// then the list stays as it is and `false` is returned.
pub fn add_feed(urls: &mut Vec<String>, feed: String) -> (added: bool)
    ensures
        added == !texts(old(urls)@).contains(feed@),
        final(urls)@ == (if added {
            old(urls)@.push(feed)
        } else {
            old(urls)@
        }),
{
    if has_feed(urls, feed.as_str()) {
        false
    } else {
        urls.push(feed);
        true
    }
}

/// The first `upto` links without those that are `feed`.
pub open spec fn without(urls: Seq<Seq<char>>, feed: Seq<char>, upto: int) -> Seq<Seq<char>>
    decreases upto,
{
    if upto <= 0 {
        Seq::empty()
    } else if urls[upto - 1] == feed {
        without(urls, feed, upto - 1)
    } else {
        without(urls, feed, upto - 1).push(urls[upto - 1])
    }
}

/// Takes a link out of the list, wherever it stands in it, and keeps the
/// order of the others. Where the list does not hold the link it stays as it
/// is and `false` is returned.
pub fn remove_feed(urls: &mut Vec<String>, feed: &str) -> (removed: bool)
    ensures
        removed == texts(old(urls)@).contains(feed@),
        texts(final(urls)@) == without(texts(old(urls)@), feed@, old(urls)@.len() as int),
        !removed ==> final(urls)@ == old(urls)@,
{
    if !has_feed(urls, feed) {
        proof {
            lemma_without_absent(texts(urls@), feed@, urls@.len() as int);
        }
        assert(texts(urls@) =~= without(texts(urls@), feed@, urls@.len() as int));
        return false;
    }
    let wanted = feed.to_string();
    let mut kept: Vec<String> = Vec::new();
    let mut i: usize = 0;
    assert(texts(kept@) =~= without(texts(urls@), feed@, 0));
    while i < urls.len()
        invariant
            i <= urls@.len(),
            wanted@ == feed@,
            texts(kept@) == without(texts(urls@), feed@, i as int),
        decreases urls@.len() - i,
    {
        if urls[i] != wanted {
            kept.push(urls[i].clone());
        }
        i += 1;
        assert(texts(kept@) =~= without(texts(urls@), feed@, i as int));
    }
    *urls = kept;
    true
}

/// Taking out a link that the list does not hold leaves the list as it is.
proof fn lemma_without_absent(urls: Seq<Seq<char>>, feed: Seq<char>, upto: int)
    requires
        0 <= upto <= urls.len(),
        !urls.contains(feed),
    ensures
        without(urls, feed, upto) == urls.take(upto),
    decreases upto,
{
    if upto > 0 {
        lemma_without_absent(urls, feed, upto - 1);
        assert(urls[upto - 1] != feed) by {
            if urls[upto - 1] == feed {
                assert(urls.contains(feed));
            }
        }
        assert(urls.take(upto) =~= urls.take(upto - 1).push(urls[upto - 1]));
    } else {
        assert(urls.take(upto) =~= Seq::<Seq<char>>::empty());
    }
}

/// The name of the file that keeps the list as it was on a day, before it is
/// written anew: one such file per day.
pub fn backup_file_name(day: &str) -> (name: String)
    ensures
        name@ == "channels_"@ + day@ + ".txt.bak"@,
{
    let mut name = "channels_".to_string();
    name.append(day);
    name.append(".txt.bak");
    name
}

/// One feed in a subscription list in outline form.
#[derive(Debug, Clone)]
pub struct Outline {
    pub text: String,
    pub title: Option<String>,
    pub description: Option<String>,
    pub xml_url: Option<String>,
    pub created: Option<String>,
    pub category: Option<String>,
}

/// The outline of a feed: its title as text and as title, its description
/// unless that is empty, its link, the time of the export, and the first of
/// its categories if it has one.
pub open spec fn outline_for(channel: FeedChannel, created: Seq<char>, outline: Outline) -> bool {
    &&& outline.text@ == channel.title@
    &&& outline.title.is_some() && outline.title.unwrap()@ == channel.title@
    &&& if channel.description@.len() == 0 {
        outline.description.is_none()
    } else {
        outline.description.is_some() && outline.description.unwrap()@ == channel.description@
    }
    &&& outline.xml_url.is_some() && outline.xml_url.unwrap()@ == channel.link@
    &&& outline.created.is_some() && outline.created.unwrap()@ == created
    &&& if channel.categories@.len() == 0 {
        outline.category.is_none()
    } else {
        outline.category.is_some() && outline.category.unwrap()@ == channel.categories@[0]@
    }
}

/// Makes the outline of a feed for a subscription list exported at `created`.
pub fn outline_of(channel: &FeedChannel, created: &str) -> (outline: Outline)
    ensures
        outline_for(*channel, created@, outline),
{
    let description = if channel.description.as_str().is_empty() {
        None
    } else {
        Some(channel.description.clone())
    };
    let category = if channel.categories.len() == 0 {
        None
    } else {
        Some(channel.categories[0].clone())
    };
    Outline {
        text: channel.title.clone(),
        title: Some(channel.title.clone()),
        description,
        xml_url: Some(channel.link.clone()),
        created: Some(created.to_string()),
        category,
    }
}

/// Makes the outlines of feeds for a subscription list exported at `created`,
/// one for each feed and in the order of the feeds.
pub fn export_opml(channels: &Vec<FeedChannel>, created: &str) -> (outlines: Vec<Outline>)
    ensures
        outlines@.len() == channels@.len(),
        forall|i: int|
            0 <= i < channels@.len() ==> outline_for(channels@[i], created@, #[trigger] outlines@[i]),
{
    let mut outlines: Vec<Outline> = Vec::new();
    let mut i: usize = 0;
    while i < channels.len()
        invariant
            i <= channels@.len(),
            outlines@.len() == i,
            forall|k: int|
                0 <= k < i ==> outline_for(channels@[k], created@, #[trigger] outlines@[k]),
        decreases channels@.len() - i,
    {
        outlines.push(outline_of(&channels[i], created));
        i += 1;
    }
    outlines
}

/// The links of the feeds among the first `upto` outlines: the link of each
/// outline that has one, in the order of the outlines.
pub open spec fn links_of(outlines: Seq<Outline>, upto: int) -> Seq<Seq<char>>
    decreases upto,
{
    if upto <= 0 {
        Seq::empty()
    } else {
        match outlines[upto - 1].xml_url {
            Some(link) => links_of(outlines, upto - 1).push(link@),
            None => links_of(outlines, upto - 1),
        }
    }
}

/// Reads the links of the feeds from the outlines of a subscription list.
pub fn import_opml_channel_urls(outlines: &Vec<Outline>) -> (urls: Vec<String>)
    ensures
        texts(urls@) == links_of(outlines@, outlines@.len() as int),
{
    let mut urls: Vec<String> = Vec::new();
    let mut i: usize = 0;
    assert(texts(urls@) =~= links_of(outlines@, 0));
    while i < outlines.len()
        invariant
            i <= outlines@.len(),
            texts(urls@) == links_of(outlines@, i as int),
        decreases outlines@.len() - i,
    {
        match &outlines[i].xml_url {
            Some(link) => {
                urls.push(link.clone());
            },
            None => {},
        }
        i += 1;
        assert(texts(urls@) =~= links_of(outlines@, i as int));
    }
    urls
}

} // verus!
