//! What a rendering reads from the timeline: the entries that are not in the
//! future, newest first, and how many feeds they come from.

use crate::data::TimelineItem;
use crate::lists::{lemma_ascending_lists_agree, lemma_contains_push};
use vstd::prelude::*;
use vstd::seq_lib::*;
use vstd::set::*;
use vstd::string::*;

verus! {

/// The timestamps of the entries.
pub open spec fn stamps(entries: Seq<TimelineItem>) -> Seq<int> {
    Seq::new(entries.len(), |i: int| entries[i].timestamp as int)
}

/// `order`, a list of entries by their indices that runs from newest to
/// oldest, with one more entry put in: behind every entry that is not older
/// than it, and before every older one.
pub open spec fn insert_newest_first(stamps: Seq<int>, order: Seq<int>, index: int) -> Seq<int>
    decreases order.len(),
{
    if order.len() == 0 {
        seq![index]
    } else if stamps[order.last()] >= stamps[index] {
        order.push(index)
    } else {
        insert_newest_first(stamps, order.drop_last(), index).push(order.last())
    }
}

/// The indices of those of the first `upto` entries that are not in the
/// future at `now`, from newest to oldest; of two entries of the same time
/// the one that was appended first comes first.
pub open spec fn newest_first(stamps: Seq<int>, now: int, upto: int) -> Seq<int>
    decreases upto,
{
    if upto <= 0 {
        Seq::empty()
    } else if stamps[upto - 1] > now {
        newest_first(stamps, now, upto - 1)
    } else {
        insert_newest_first(stamps, newest_first(stamps, now, upto - 1), upto - 1)
    }
}

/// The indices of the entries that a rendering at `now` shows, in the order
/// in which it shows them.
pub open spec fn renderable(entries: Seq<TimelineItem>, now: int) -> Seq<int> {
    newest_first(stamps(entries), now, entries.len() as int)
}

/// The indices as mathematical integers.
pub open spec fn indices(order: Seq<usize>) -> Seq<int> {
    Seq::new(order.len(), |i: int| order[i] as int)
}

/// Putting an entry in is inserting it at the place before which nothing is
/// older and from which on everything is.
proof fn lemma_insert_at(stamps: Seq<int>, order: Seq<int>, index: int, at: int)
    requires
        0 <= at <= order.len(),
        at > 0 ==> stamps[order[at - 1]] >= stamps[index],
        forall|k: int| at <= k < order.len() ==> stamps[#[trigger] order[k]] < stamps[index],
    ensures
        insert_newest_first(stamps, order, index) == order.insert(at, index),
    decreases order.len() - at,
{
    if at == order.len() {
        assert(order.insert(at, index) =~= order.push(index));
        if order.len() > 0 {
            assert(order.last() == order[at - 1]);
        }
    } else {
        let shorter = order.drop_last();
        assert(stamps[order[order.len() - 1]] < stamps[index]);
        assert forall|k: int| at <= k < shorter.len() implies stamps[#[trigger] shorter[k]]
            < stamps[index] by {
            assert(shorter[k] == order[k]);
        }
        if at > 0 {
            assert(shorter[at - 1] == order[at - 1]);
        }
        lemma_insert_at(stamps, shorter, index, at);
        assert(shorter.insert(at, index).push(order.last()) =~= order.insert(at, index));
    }
}

/// The entries that a rendering at `now` shows, by their indices in
/// `content`: those whose time is not after `now`, from newest to oldest, and
/// in the order of `content` where times are equal.
pub fn select_renderable(content: &[TimelineItem], now: i64) -> (order: Vec<usize>)
    ensures
        indices(order@) == renderable(content@, now as int),
        forall|k: int|
            0 <= k < order@.len() ==> (#[trigger] order@[k]) < content@.len()
                && content@[order@[k] as int].timestamp <= now,
{
    let mut order: Vec<usize> = Vec::new();
    let ghost times = stamps(content@);
    let mut i: usize = 0;
    assert(indices(order@) =~= newest_first(times, now as int, 0));
    while i < content.len()
        invariant
            i <= content@.len(),
            times == stamps(content@),
            indices(order@) == newest_first(times, now as int, i as int),
            forall|k: int| 0 <= k < order@.len() ==> (#[trigger] order@[k]) < i,
        decreases content@.len() - i,
    {
        let stamp = content[i].timestamp;
        if stamp <= now {
            let mut at: usize = order.len();
            while at > 0 && content[order[at - 1]].timestamp < stamp
                invariant
                    at <= order@.len(),
                    i < content@.len(),
                    times == stamps(content@),
                    stamp == times[i as int],
                    forall|k: int| 0 <= k < order@.len() ==> (#[trigger] order@[k]) < i,
                    forall|k: int|
                        at <= k < order@.len() ==> times[#[trigger] indices(order@)[k]] < stamp,
                decreases at,
            {
                at -= 1;
            }
            proof {
                let shown = indices(order@);
                if at > 0 {
                    assert(times[shown[at - 1]] >= stamp);
                }
                lemma_insert_at(times, shown, i as int, at as int);
            }
            let ghost shown = indices(order@);
            order.insert(at, i);
            assert(indices(order@) =~= shown.insert(at as int, i as int));
        }
        i += 1;
    }
    proof {
        lemma_newest_first_members(times, now as int, content@.len() as int);
        assert forall|k: int| 0 <= k < order@.len() implies (#[trigger] order@[k])
            < content@.len() && content@[order@[k] as int].timestamp <= now by {
            let shown = indices(order@);
            assert(shown[k] == order@[k]);
            assert(shown.contains(shown[k]));
        }
    }
    order
}

/// Every index that is shown is the index of an entry that is not in the
/// future, and every such entry is shown once.
proof fn lemma_newest_first_members(stamps: Seq<int>, now: int, upto: int)
    requires
        0 <= upto <= stamps.len(),
    ensures
        forall|i: int| #[trigger]
            newest_first(stamps, now, upto).contains(i) <==> 0 <= i < upto && stamps[i] <= now,
        newest_first(stamps, now, upto).no_duplicates(),
    decreases upto,
{
    if upto > 0 {
        lemma_newest_first_members(stamps, now, upto - 1);
        let before = newest_first(stamps, now, upto - 1);
        if stamps[upto - 1] <= now {
            lemma_insert_members(stamps, before, upto - 1);
            let after = newest_first(stamps, now, upto);
            assert forall|i: int| #[trigger]
                after.contains(i) <==> 0 <= i < upto && stamps[i] <= now by {
                assert(before.contains(i) <==> 0 <= i < upto - 1 && stamps[i] <= now);
            }
            assert(!before.contains(upto - 1));
        }
    }
}

/// Putting an entry in adds it and keeps the others; where the list held
/// nothing twice and the entry is new to it, it still holds nothing twice.
proof fn lemma_insert_members(stamps: Seq<int>, order: Seq<int>, index: int)
    ensures
        forall|i: int| #[trigger]
            insert_newest_first(stamps, order, index).contains(i) <==> order.contains(i) || i
                == index,
        insert_newest_first(stamps, order, index).len() == order.len() + 1,
        order.no_duplicates() && !order.contains(index) ==> insert_newest_first(
            stamps,
            order,
            index,
        ).no_duplicates(),
    decreases order.len(),
{
    let after = insert_newest_first(stamps, order, index);
    if order.len() == 0 {
        assert forall|i: int| #[trigger] after.contains(i) <==> order.contains(i) || i == index by {
            if i == index {
                assert(after[0] == i);
            }
        }
    } else if stamps[order.last()] >= stamps[index] {
        assert forall|i: int| #[trigger] after.contains(i) <==> order.contains(i) || i == index by {
            lemma_contains_push(order, index, i);
        }
    } else {
        let shorter = order.drop_last();
        let inner = insert_newest_first(stamps, shorter, index);
        lemma_insert_members(stamps, shorter, index);
        assert(order =~= shorter.push(order.last()));
        assert forall|i: int| #[trigger] after.contains(i) <==> order.contains(i) || i == index by {
            lemma_contains_push(inner, order.last(), i);
            lemma_contains_push(shorter, order.last(), i);
        }
        if order.no_duplicates() && !order.contains(index) {
            assert(shorter.no_duplicates());
            assert(!shorter.contains(index)) by {
                if shorter.contains(index) {
                    let k = choose|k: int| 0 <= k < shorter.len() && shorter[k] == index;
                    assert(order[k] == index);
                }
            }
            assert(!inner.contains(order.last())) by {
                if shorter.contains(order.last()) {
                    let k = choose|k: int| 0 <= k < shorter.len() && shorter[k] == order.last();
                    assert(order[k] == order[order.len() - 1]);
                }
                assert(order.contains(order.last())) by {
                    assert(order[order.len() - 1] == order.last());
                }
            }
            assert forall|a: int, b: int| 0 <= a < b < after.len() implies after[a] != after[b] by {
                if b == after.len() - 1 {
                    assert(inner.contains(after[a])) by {
                        assert(inner[a] == after[a]);
                    }
                } else {
                    assert(inner[a] != inner[b]);
                }
            }
        }
    }
}

/// `a` is shown before `b`: it is newer, or as old and appended earlier.
pub open spec fn shown_before(stamps: Seq<int>, a: int, b: int) -> bool {
    stamps[a] > stamps[b] || (stamps[a] == stamps[b] && a < b)
}

/// The list runs from newest to oldest, in the order of appending where times
/// are equal.
pub open spec fn runs_newest_first(stamps: Seq<int>, order: Seq<int>) -> bool {
    forall|k: int, l: int| 0 <= k < l < order.len() ==> shown_before(stamps, order[k], order[l])
}

/// Putting in an entry that was appended after all those in the list keeps
/// the list running from newest to oldest.
proof fn lemma_insert_keeps_order(stamps: Seq<int>, order: Seq<int>, index: int)
    requires
        runs_newest_first(stamps, order),
        forall|k: int| 0 <= k < order.len() ==> #[trigger] order[k] < index,
    ensures
        runs_newest_first(stamps, insert_newest_first(stamps, order, index)),
    decreases order.len(),
{
    let after = insert_newest_first(stamps, order, index);
    if order.len() == 0 {
    } else if stamps[order.last()] >= stamps[index] {
        assert forall|k: int, l: int| 0 <= k < l < after.len() implies shown_before(
            stamps,
            after[k],
            after[l],
        ) by {
            if l == after.len() - 1 {
                if k < order.len() - 1 {
                    assert(shown_before(stamps, order[k], order[order.len() - 1]));
                }
            } else {
                assert(shown_before(stamps, order[k], order[l]));
            }
        }
    } else {
        let shorter = order.drop_last();
        let inner = insert_newest_first(stamps, shorter, index);
        assert forall|k: int, l: int| 0 <= k < l < shorter.len() implies shown_before(
            stamps,
            shorter[k],
            shorter[l],
        ) by {
            assert(shown_before(stamps, order[k], order[l]));
        }
        assert forall|k: int| 0 <= k < shorter.len() implies #[trigger] shorter[k] < index by {
            assert(shorter[k] == order[k]);
        }
        lemma_insert_keeps_order(stamps, shorter, index);
        lemma_insert_members(stamps, shorter, index);
        assert forall|k: int, l: int| 0 <= k < l < after.len() implies shown_before(
            stamps,
            after[k],
            after[l],
        ) by {
            if l == after.len() - 1 {
                assert(inner.contains(inner[k]));
                if inner[k] != index {
                    assert(shorter.contains(inner[k]));
                    let m = choose|m: int| 0 <= m < shorter.len() && shorter[m] == inner[k];
                    assert(shown_before(stamps, order[m], order[order.len() - 1]));
                }
            } else {
                assert(shown_before(stamps, inner[k], inner[l]));
            }
        }
    }
}

/// What a rendering shows runs from newest to oldest, in the order of
/// appending where times are equal.
proof fn lemma_newest_first_order(stamps: Seq<int>, now: int, upto: int)
    requires
        0 <= upto <= stamps.len(),
    ensures
        runs_newest_first(stamps, newest_first(stamps, now, upto)),
    decreases upto,
{
    if upto > 0 {
        lemma_newest_first_order(stamps, now, upto - 1);
        if stamps[upto - 1] <= now {
            let before = newest_first(stamps, now, upto - 1);
            lemma_newest_first_members(stamps, now, upto - 1);
            assert forall|k: int| 0 <= k < before.len() implies #[trigger] before[k] < upto - 1 by {
                assert(before.contains(before[k]));
            }
            lemma_insert_keeps_order(stamps, before, upto - 1);
        }
    }
}

/// The entries at the given indices, in the order of the indices.
pub open spec fn entries_at(entries: Seq<TimelineItem>, order: Seq<int>) -> Seq<TimelineItem> {
    Seq::new(order.len(), |k: int| entries[order[k]])
}

/// The entries that a rendering at `now` shows, in the order in which it
/// shows them.
pub open spec fn shown_entries(entries: Seq<TimelineItem>, now: int) -> Seq<TimelineItem> {
    entries_at(entries, renderable(entries, now))
}

/// The links of the feeds of the entries, one per entry.
pub open spec fn channel_links(shown: Seq<TimelineItem>) -> Seq<Seq<char>> {
    Seq::new(shown.len(), |k: int| shown[k].channel_url@)
}

/// How many different texts `links` holds.
pub open spec fn distinct_count(links: Seq<Seq<char>>) -> nat {
    links.to_set().len()
}

/// How many different feeds the entries that are shown come from: the number
/// of different feed links among them.
pub fn count_channels(content: &[TimelineItem], order: &Vec<usize>) -> (count: usize)
    requires
        forall|k: int| 0 <= k < order@.len() ==> (#[trigger] order@[k]) < content@.len(),
    ensures
        count == distinct_count(channel_links(entries_at(content@, indices(order@)))),
{
    let ghost links = channel_links(entries_at(content@, indices(order@)));
    // The entries at which a link was met for the first time.
    let mut firsts: Vec<usize> = Vec::new();
    let ghost mut met: Seq<Seq<char>> = Seq::empty();
    let mut i: usize = 0;
    assert(met.to_set() =~= links.take(0).to_set());
    while i < order.len()
        invariant
            i <= order@.len(),
            links == channel_links(entries_at(content@, indices(order@))),
            forall|k: int| 0 <= k < order@.len() ==> (#[trigger] order@[k]) < content@.len(),
            firsts@.len() == met.len() <= i,
            forall|m: int|
                0 <= m < firsts@.len() ==> (#[trigger] firsts@[m]) < content@.len()
                    && content@[firsts@[m] as int].channel_url@ == met[m],
            met.no_duplicates(),
            met.to_set() == links.take(i as int).to_set(),
        decreases order@.len() - i,
    {
        let entry = order[i];
        let link = &content[entry].channel_url;
        let mut seen = false;
        let mut k: usize = 0;
        while k < firsts.len() && !seen
            invariant
                k <= firsts@.len() == met.len(),
                entry < content@.len(),
                link@ == content@[entry as int].channel_url@,
                forall|m: int|
                    0 <= m < firsts@.len() ==> (#[trigger] firsts@[m]) < content@.len()
                        && content@[firsts@[m] as int].channel_url@ == met[m],
                seen ==> met.contains(link@),
                !seen ==> forall|m: int| 0 <= m < k ==> met[m] != link@,
            decreases firsts@.len() - k + (if seen { 0int } else { 1int }),
        {
            if content[firsts[k]].channel_url == *link {
                seen = true;
                assert(met[k as int] == link@);
            } else {
                k += 1;
            }
        }
        proof {
            let held = links.take(i as int);
            assert(link@ == links[i as int]);
            assert(links.take(i + 1) =~= held.push(link@));
            held.lemma_push_to_set_commute(link@);
            if seen {
                assert(met.to_set().contains(link@));
                assert(held.to_set().insert(link@) =~= held.to_set());
            } else {
                assert(!met.contains(link@)) by {
                    if met.contains(link@) {
                        let m = choose|m: int| 0 <= m < met.len() && met[m] == link@;
                        assert(met[m] != link@);
                    }
                }
                met.lemma_push_to_set_commute(link@);
            }
        }
        if !seen {
            firsts.push(entry);
            proof {
                let grown = met.push(link@);
                assert forall|a: int, b: int| 0 <= a < b < grown.len() implies grown[a]
                    != grown[b] by {
                    if b == met.len() {
                        assert(met.contains(met[a]));
                    }
                }
                met = grown;
            }
        }
        i += 1;
    }
    proof {
        assert(links.take(i as int) =~= links);
        met.unique_seq_to_set();
    }
    firsts.len()
}

/// How many of the first `upto` entries are not in the future at `now`.
pub open spec fn count_not_after(stamps: Seq<int>, now: int, upto: int) -> nat
    decreases upto,
{
    if upto <= 0 {
        0
    } else if stamps[upto - 1] > now {
        count_not_after(stamps, now, upto - 1)
    } else {
        count_not_after(stamps, now, upto - 1) + 1
    }
}

/// As many entries are shown as are not in the future.
proof fn lemma_newest_first_len(stamps: Seq<int>, now: int, upto: int)
    ensures
        newest_first(stamps, now, upto).len() == count_not_after(stamps, now, upto),
    decreases upto,
{
    if upto > 0 {
        lemma_newest_first_len(stamps, now, upto - 1);
        lemma_insert_members(stamps, newest_first(stamps, now, upto - 1), upto - 1);
    }
}

/// An entry whose time is after the time of the rendering is not shown, and
/// is not counted: every entry that is not in the future is shown exactly
/// once, no other is, and the number of entries shown is the number of
/// entries that are not in the future.
pub proof fn future_entries_are_left_out(entries: Seq<TimelineItem>, now: int)
    ensures
        forall|i: int| #[trigger]
            renderable(entries, now).contains(i) <==> 0 <= i < entries.len()
                && entries[i].timestamp <= now,
        renderable(entries, now).no_duplicates(),
        renderable(entries, now).len() == count_not_after(
            stamps(entries),
            now,
            entries.len() as int,
        ),
{
    lemma_newest_first_members(stamps(entries), now, entries.len() as int);
    lemma_newest_first_len(stamps(entries), now, entries.len() as int);
    assert forall|i: int| #[trigger]
        renderable(entries, now).contains(i) <==> 0 <= i < entries.len() && entries[i].timestamp
            <= now by {
        if 0 <= i < entries.len() {
            assert(stamps(entries)[i] == entries[i].timestamp);
        }
    }
}

/// The entries are shown from newest to oldest, and in the order in which
/// they were appended where their times are equal: of any two that are
/// shown, the one shown first is newer, or as old and appended earlier.
pub proof fn entries_are_shown_newest_first(entries: Seq<TimelineItem>, now: int, k: int, l: int)
    requires
        0 <= k < l < renderable(entries, now).len(),
    ensures
        ({
            let first = renderable(entries, now)[k];
            let second = renderable(entries, now)[l];
            &&& 0 <= first < entries.len()
            &&& 0 <= second < entries.len()
            &&& entries[first].timestamp > entries[second].timestamp || (entries[first].timestamp
                == entries[second].timestamp && first < second)
        }),
{
    let order = renderable(entries, now);
    lemma_newest_first_members(stamps(entries), now, entries.len() as int);
    lemma_newest_first_order(stamps(entries), now, entries.len() as int);
    assert(order.contains(order[k]));
    assert(order.contains(order[l]));
    assert(shown_before(stamps(entries), order[k], order[l]));
}

/// No two of the entries have the same time.
pub open spec fn distinct_times(entries: Seq<TimelineItem>) -> bool {
    forall|i: int, j: int|
        0 <= i < j < entries.len() ==> entries[i].timestamp != entries[j].timestamp
}

/// The times of the entries, each negated, so that newest first is ascending.
spec fn negated_times(shown: Seq<TimelineItem>) -> Seq<int> {
    Seq::new(shown.len(), |k: int| -(shown[k].timestamp as int))
}

/// What is shown of entries of distinct times: exactly the entries that are
/// not in the future, in strictly descending order of time.
proof fn lemma_shown_entries(entries: Seq<TimelineItem>, now: int)
    requires
        distinct_times(entries),
    ensures
        forall|x: TimelineItem| #[trigger]
            shown_entries(entries, now).contains(x) <==> entries.contains(x) && x.timestamp <= now,
        forall|k: int, l: int|
            0 <= k < l < shown_entries(entries, now).len() ==> shown_entries(
                entries,
                now,
            )[k].timestamp > shown_entries(entries, now)[l].timestamp,
{
    let order = renderable(entries, now);
    let shown = shown_entries(entries, now);
    future_entries_are_left_out(entries, now);
    assert forall|x: TimelineItem| #[trigger]
        shown.contains(x) <==> entries.contains(x) && x.timestamp <= now by {
        if shown.contains(x) {
            let k = choose|k: int| 0 <= k < shown.len() && shown[k] == x;
            assert(order.contains(order[k]));
            assert(entries[order[k]] == x);
        }
        if entries.contains(x) && x.timestamp <= now {
            let i = choose|i: int| 0 <= i < entries.len() && entries[i] == x;
            assert(order.contains(i));
            let k = choose|k: int| 0 <= k < order.len() && order[k] == i;
            assert(shown[k] == x);
        }
    }
    assert forall|k: int, l: int| 0 <= k < l < shown.len() implies shown[k].timestamp
        > shown[l].timestamp by {
        entries_are_shown_newest_first(entries, now, k, l);
        assert(order[k] != order[l]);
    }
}

/// The order in which entries of distinct times were appended does not show:
/// two timelines that hold the same entries, no two of them of the same
/// time, show the same entries in the same order.
pub proof fn order_of_appending_does_not_show(
    first: Seq<TimelineItem>,
    second: Seq<TimelineItem>,
    now: int,
)
    requires
        forall|x: TimelineItem| first.contains(x) <==> second.contains(x),
        distinct_times(first),
        distinct_times(second),
    ensures
        shown_entries(first, now) == shown_entries(second, now),
{
    let a = shown_entries(first, now);
    let b = shown_entries(second, now);
    lemma_shown_entries(first, now);
    lemma_shown_entries(second, now);
    let ta = negated_times(a);
    let tb = negated_times(b);
    assert forall|t: int| ta.contains(t) <==> tb.contains(t) by {
        if ta.contains(t) {
            let k = choose|k: int| 0 <= k < ta.len() && ta[k] == t;
            assert(a.contains(a[k]));
            assert(b.contains(a[k]));
            let m = choose|m: int| 0 <= m < b.len() && b[m] == a[k];
            assert(tb[m] == t);
        }
        if tb.contains(t) {
            let k = choose|k: int| 0 <= k < tb.len() && tb[k] == t;
            assert(b.contains(b[k]));
            assert(a.contains(b[k]));
            let m = choose|m: int| 0 <= m < a.len() && a[m] == b[k];
            assert(ta[m] == t);
        }
    }
    lemma_ascending_lists_agree(ta, tb);
    assert(a.len() == ta.len() && b.len() == tb.len());
    assert forall|k: int| 0 <= k < a.len() implies a[k] == b[k] by {
        assert(a.contains(a[k]));
        assert(b.contains(a[k]));
        let m = choose|m: int| 0 <= m < b.len() && b[m] == a[k];
        assert(ta[k] == tb[k]);
        if m < k {
            assert(b[m].timestamp > b[k].timestamp);
        }
        if k < m {
            assert(b[k].timestamp > b[m].timestamp);
        }
    }
    assert(a =~= b);
}

} // verus!
