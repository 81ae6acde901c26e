//! The sites of a template: where its placeholders stand. A template is
//! compiled into two lists of sites, found once: the live placeholders, which
//! a rendering replaces, and the backslashes that escape a placeholder, which
//! a rendering drops.

use crate::lists::{lemma_ascending_lists_agree, lemma_contains_push, strictly_ascending};
use crate::scanner::{
    escaped_at, found_at, lemma_positions, literal, live_at, occurs_at, positions, spans_of,
    BACKSLASH, CLOSE_BRACE, DOLLAR, OPEN_BRACE,
};
use crate::specifier::{
    find_escaped_specifiers, find_format_specifiers, name_bytes, FormatSpecifier, Substitution,
};
use crate::text::{lemma_utf8_injective, utf8};
use vstd::prelude::*;
use vstd::string::*;

verus! {

/// `site` marks a live placeholder of `text`: the placeholder stands at its
/// start, unescaped, and ends at its end.
pub open spec fn is_live_site<F: FormatSpecifier>(text: Seq<u8>, site: Substitution<F>) -> bool {
    &&& live_at(text, site.start as int, name_bytes(site.specifier))
    &&& site.end == site.start + literal(name_bytes(site.specifier)).len()
}

/// `site` marks the backslash that escapes a placeholder of `text`: it spans
/// that one byte, and the escaped placeholder starts at its end.
pub open spec fn is_escape_site<F: FormatSpecifier>(text: Seq<u8>, site: Substitution<F>) -> bool {
    &&& escaped_at(text, site.start + 1, name_bytes(site.specifier))
    &&& site.end == site.start + 1
}

/// A site of the wanted sort: an escape site or a live site.
pub open spec fn is_site<F: FormatSpecifier>(
    text: Seq<u8>,
    site: Substitution<F>,
    escaped: bool,
) -> bool {
    if escaped {
        is_escape_site(text, site)
    } else {
        is_live_site(text, site)
    }
}

/// The sites start at strictly ascending offsets.
pub open spec fn ascending<F: FormatSpecifier>(sites: Seq<Substitution<F>>) -> bool {
    forall|i: int, j: int| 0 <= i < j < sites.len() ==> sites[i].start < sites[j].start
}

/// `sites` lists, in ascending order, exactly the sites of `text` of the
/// wanted sort. There is one such list for a text.
pub open spec fn lists_sites<F: FormatSpecifier>(
    text: Seq<u8>,
    sites: Seq<Substitution<F>>,
    escaped: bool,
) -> bool {
    &&& ascending(sites)
    &&& forall|s: Substitution<F>| #[trigger] sites.contains(s) <==> is_site(text, s, escaped)
}

/// Compiles a template: finds the sites of every placeholder of the set and
/// merges them into two ascending lists, the live sites and the escape sites.
pub fn compile<F: FormatSpecifier>(template: &str) -> (lists: (
    Vec<Substitution<F>>,
    Vec<Substitution<F>>,
))
    ensures
        lists_sites(utf8(template@), lists.0@, false),
        lists_sites(utf8(template@), lists.1@, true),
{
    let ghost text = utf8(template@);
    let kinds = F::all();
    let mut live: Vec<Substitution<F>> = Vec::new();
    let mut escapes: Vec<Substitution<F>> = Vec::new();
    let mut n: usize = 0;
    proof {
        assert forall|s: Substitution<F>| s.specifier.spec_index() >= 0 by {
            s.specifier.lemma_well_formed();
        }
    }
    while n < kinds.len()
        invariant
            n <= kinds@.len() == F::spec_count(),
            text == utf8(template@),
            forall|i: int| 0 <= i < kinds@.len() ==> (#[trigger] kinds@[i]).spec_index() == i,
            lists_sites_below(text, live@, false, n as int),
            lists_sites_below(text, escapes@, true, n as int),
        decreases kinds@.len() - n,
    {
        let kind = kinds[n];
        let found = find_format_specifiers(template, kind);
        let more = sites_from(&found, kind, false, Ghost(text));
        proof {
            lemma_merge_ready(text, live@, more@, false, n as int, kind);
        }
        let ghost old_live = live@;
        live = merge_sites(live, more);
        let found = find_escaped_specifiers(template, kind);
        let more_escapes = sites_from(&found, kind, true, Ghost(text));
        proof {
            lemma_merge_ready(text, escapes@, more_escapes@, true, n as int, kind);
        }
        let ghost old_escapes = escapes@;
        escapes = merge_sites(escapes, more_escapes);
        n += 1;
        proof {
            lemma_merged(text, old_live, more@, live@, false, n - 1, kind);
            lemma_merged(text, old_escapes, more_escapes@, escapes@, true, n - 1, kind);
        }
    }
    proof {
        assert forall|s: Substitution<F>| #[trigger]
            live@.contains(s) <==> is_site(text, s, false) by {
            s.specifier.lemma_well_formed();
        }
        assert forall|s: Substitution<F>| #[trigger]
            escapes@.contains(s) <==> is_site(text, s, true) by {
            s.specifier.lemma_well_formed();
        }
    }
    (live, escapes)
}

/// The offset of the placeholder that a site belongs to: the start of a live
/// site, and the end of an escape site, where the escaped placeholder starts.
pub open spec fn placeholder_offset<F: FormatSpecifier>(site: Substitution<F>, escaped: bool) -> int {
    if escaped {
        site.end as int
    } else {
        site.start as int
    }
}

/// The offsets of the placeholder `kind` among the first `upto` sites, in the
/// order of the sites.
pub open spec fn offsets_of<F: FormatSpecifier>(
    sites: Seq<Substitution<F>>,
    kind: F,
    escaped: bool,
    upto: int,
) -> Seq<int>
    decreases upto,
{
    if upto <= 0 {
        Seq::empty()
    } else if sites[upto - 1].specifier == kind {
        offsets_of(sites, kind, escaped, upto - 1).push(
            placeholder_offset(sites[upto - 1], escaped),
        )
    } else {
        offsets_of(sites, kind, escaped, upto - 1)
    }
}

/// The compiled list holds one site for each occurrence of a placeholder, and
/// no other for it: the placeholder offsets of its sites of `kind` are the
/// offsets at which the scanner finds `kind` in the text, in the same order.
/// So a text with N live occurrences of a placeholder has exactly N sites for
/// it in the list of live sites, and one with M escaped occurrences has
/// exactly M in the list of escape sites.
pub proof fn sites_match_occurrences<F: FormatSpecifier>(
    text: Seq<u8>,
    sites: Seq<Substitution<F>>,
    escaped: bool,
    kind: F,
)
    requires
        lists_sites(text, sites, escaped),
        text.len() <= usize::MAX,
    ensures
        offsets_of(sites, kind, escaped, sites.len() as int) == positions(
            text,
            name_bytes(kind),
            escaped,
            text.len() as int,
        ),
{
    let name = name_bytes(kind);
    let listed = offsets_of(sites, kind, escaped, sites.len() as int);
    let found = positions(text, name, escaped, text.len() as int);
    assert forall|m: int| 0 <= m < sites.len() implies (#[trigger] sites[m]).end == sites[m].start
        + 1 || !escaped by {
        assert(sites.contains(sites[m]));
    }
    lemma_offsets_of(sites, kind, escaped, sites.len() as int);
    lemma_positions(text, name, escaped, text.len() as int);
    assert forall|x: int| listed.contains(x) <==> found.contains(x) by {
        if listed.contains(x) {
            let m = choose|m: int|
                0 <= m < sites.len() && (#[trigger] sites[m]).specifier == kind
                    && placeholder_offset(sites[m], escaped) == x;
            assert(sites.contains(sites[m]));
            assert(found_at(text, x, name, escaped));
            lemma_occurrence_bytes(text, x, name);
        }
        if found.contains(x) {
            let i = choose|i: int| 0 <= i < found.len() && found[i] == x;
            assert(found_at(text, x, name, escaped));
            lemma_occurrence_bytes(text, x, name);
            let site = if escaped {
                Substitution { start: (x - 1) as usize, end: x as usize, specifier: kind }
            } else {
                Substitution {
                    start: x as usize,
                    end: (x + literal(name).len()) as usize,
                    specifier: kind,
                }
            };
            assert(is_site(text, site, escaped));
            assert(sites.contains(site));
            let m = choose|m: int| 0 <= m < sites.len() && sites[m] == site;
            assert(sites[m].specifier == kind && placeholder_offset(sites[m], escaped) == x);
        }
    }
    lemma_ascending_lists_agree(listed, found);
}

/// The offsets at which the sites start.
pub open spec fn starts<F: FormatSpecifier>(sites: Seq<Substitution<F>>) -> Seq<int> {
    Seq::new(sites.len(), |i: int| sites[i].start as int)
}

/// A text has one list of sites of each sort: two lists that both list the
/// sites of a text are the same list.
pub proof fn sites_are_determined<F: FormatSpecifier>(
    text: Seq<u8>,
    first: Seq<Substitution<F>>,
    second: Seq<Substitution<F>>,
    escaped: bool,
)
    requires
        lists_sites(text, first, escaped),
        lists_sites(text, second, escaped),
    ensures
        first == second,
{
    let a = starts(first);
    let b = starts(second);
    assert forall|x: int| a.contains(x) <==> b.contains(x) by {
        if a.contains(x) {
            let i = choose|i: int| 0 <= i < a.len() && a[i] == x;
            assert(first.contains(first[i]));
            assert(second.contains(first[i]));
            let j = choose|j: int| 0 <= j < second.len() && second[j] == first[i];
            assert(b[j] == x);
        }
        if b.contains(x) {
            let j = choose|j: int| 0 <= j < b.len() && b[j] == x;
            assert(second.contains(second[j]));
            assert(first.contains(second[j]));
            let i = choose|i: int| 0 <= i < first.len() && first[i] == second[j];
            assert(a[i] == x);
        }
    }
    lemma_ascending_lists_agree(a, b);
    assert forall|i: int| 0 <= i < first.len() implies first[i] == second[i] by {
        assert(first.contains(first[i]));
        assert(second.contains(first[i]));
        let j = choose|j: int| 0 <= j < second.len() && second[j] == first[i];
        assert(a[i] == b[i]);
        assert(b[j] == b[i]);
        if j < i {
            assert(second[j].start < second[i].start);
        }
        if i < j {
            assert(second[i].start < second[j].start);
        }
    }
    assert(first.len() == a.len() && second.len() == b.len());
    assert(first =~= second);
}

/// The live sites of a text lie within the text and do not overlap: each
/// ends at or before the start of the next.
pub proof fn live_sites_do_not_overlap<F: FormatSpecifier>(
    text: Seq<u8>,
    sites: Seq<Substitution<F>>,
    i: int,
    j: int,
)
    requires
        lists_sites(text, sites, false),
        0 <= i < j < sites.len(),
    ensures
        sites[i].start < sites[i].end <= sites[j].start,
        sites[j].start < sites[j].end <= text.len(),
{
    assert(sites.contains(sites[i]));
    assert(sites.contains(sites[j]));
    lemma_occurrence_bytes(text, sites[i].start as int, name_bytes(sites[i].specifier));
    lemma_occurrence_bytes(text, sites[j].start as int, name_bytes(sites[j].specifier));
    if sites[j].start < sites[i].end {
        lemma_inside_occurrence(
            text,
            sites[i].start as int,
            sites[i].specifier,
            sites[j].start as int,
        );
    }
}

/// `sites` lists, in ascending order, exactly the sites of `text` of the
/// wanted sort whose placeholder has a place below `kinds` in its set.
pub open spec fn lists_sites_below<F: FormatSpecifier>(
    text: Seq<u8>,
    sites: Seq<Substitution<F>>,
    escaped: bool,
    kinds: int,
) -> bool {
    &&& ascending(sites)
    &&& forall|s: Substitution<F>| #[trigger]
        sites.contains(s) <==> is_site(text, s, escaped) && s.specifier.spec_index() < kinds
}

/// The sites that the scanner's spans stand for: one site per span, of the
/// given placeholder. The site of an escaped occurrence is the backslash
/// before the span.
fn sites_from<F: FormatSpecifier>(
    found: &Vec<(usize, usize)>,
    specifier: F,
    escaped: bool,
    Ghost(text): Ghost<Seq<u8>>,
) -> (sites: Vec<Substitution<F>>)
    requires
        spans_of(
            found@,
            positions(text, name_bytes(specifier), escaped, text.len() as int),
            literal(name_bytes(specifier)).len() as int,
        ),
    ensures
        ascending(sites@),
        forall|s: Substitution<F>| #[trigger]
            sites@.contains(s) <==> is_site(text, s, escaped) && s.specifier == specifier,
{
    let ghost name = name_bytes(specifier);
    let ghost all = positions(text, name, escaped, text.len() as int);
    let ghost width = literal(name).len() as int;
    proof {
        lemma_positions(text, name, escaped, text.len() as int);
    }
    let mut sites: Vec<Substitution<F>> = Vec::new();
    let mut i: usize = 0;
    while i < found.len()
        invariant
            i <= found.len(),
            sites@.len() == i,
            spans_of(found@, all, width),
            width == literal(name).len(),
            name == name_bytes(specifier),
            forall|m: int|
                0 <= m < all.len() ==> 0 <= #[trigger] all[m] < text.len() && found_at(
                    text,
                    all[m],
                    name,
                    escaped,
                ),
            forall|m: int|
                0 <= m < i ==> (#[trigger] sites@[m]).specifier == specifier && sites@[m].end
                    == found@[m].0 + (if escaped {
                    0int
                } else {
                    width
                }) && sites@[m].start == found@[m].0 - (if escaped {
                    1int
                } else {
                    0int
                }),
        decreases found.len() - i,
    {
        let span = found[i];
        assert(span.0 == all[i as int] && span.1 == all[i as int] + width);
        assert(found_at(text, all[i as int], name, escaped));
        if escaped {
            sites.push(Substitution { start: span.0 - 1, end: span.0, specifier });
        } else {
            sites.push(Substitution { start: span.0, end: span.1, specifier });
        }
        i += 1;
    }
    proof {
        assert forall|m: int, n: int| 0 <= m < n < sites@.len() implies sites@[m].start
            < sites@[n].start by {
            assert(found@[m].0 == all[m] && found@[n].0 == all[n]);
        }
        assert forall|s: Substitution<F>| #[trigger]
            sites@.contains(s) <==> is_site(text, s, escaped) && s.specifier == specifier by {
            if sites@.contains(s) {
                let m = choose|m: int| 0 <= m < sites@.len() && sites@[m] == s;
                assert(found@[m].0 == all[m] && found@[m].1 == all[m] + width);
                assert(found_at(text, all[m], name, escaped));
            }
            if is_site(text, s, escaped) && s.specifier == specifier {
                let at = if escaped {
                    s.start + 1
                } else {
                    s.start as int
                };
                assert(found_at(text, at, name, escaped));
                assert(all.contains(at));
                let m = choose|m: int| 0 <= m < all.len() && all[m] == at;
                assert(found@[m].0 == all[m] && found@[m].1 == all[m] + width);
                assert(sites@[m] == s);
            }
        }
    }
    sites
}

/// Merges two ascending lists of sites that share no start into one.
fn merge_sites<F: FormatSpecifier>(a: Vec<Substitution<F>>, b: Vec<Substitution<F>>) -> (out: Vec<
    Substitution<F>,
>)
    requires
        ascending(a@),
        ascending(b@),
        forall|i: int, j: int|
            0 <= i < a@.len() && 0 <= j < b@.len() ==> a@[i].start != b@[j].start,
    ensures
        ascending(out@),
        forall|s: Substitution<F>| #[trigger]
            out@.contains(s) <==> a@.contains(s) || b@.contains(s),
{
    let mut out: Vec<Substitution<F>> = Vec::new();
    let mut i: usize = 0;
    let mut j: usize = 0;
    while i < a.len() || j < b.len()
        invariant
            i <= a@.len(),
            j <= b@.len(),
            ascending(a@),
            ascending(b@),
            ascending(out@),
            forall|m: int, n: int|
                0 <= m < a@.len() && 0 <= n < b@.len() ==> a@[m].start != b@[n].start,
            forall|m: int|
                0 <= m < out@.len() ==> (i < a@.len() ==> (#[trigger] out@[m]).start
                    < a@[i as int].start) && (j < b@.len() ==> out@[m].start < b@[j as int].start),
            forall|s: Substitution<F>| #[trigger]
                out@.contains(s) <==> a@.take(i as int).contains(s) || b@.take(j as int).contains(
                    s,
                ),
        decreases a@.len() - i + b@.len() - j,
    {
        let ghost before = out@;
        let take_a = j >= b.len() || (i < a.len() && a[i].start < b[j].start);
        if take_a {
            let site = a[i];
            out.push(site);
            i += 1;
            proof {
                let grown = a@.take(i as int);
                let kept = b@.take(j as int);
                assert(grown =~= a@.take(i - 1).push(site));
                assert forall|s: Substitution<F>| #[trigger]
                    out@.contains(s) <==> grown.contains(s) || kept.contains(s) by {
                    lemma_contains_push(before, site, s);
                    lemma_contains_push(a@.take(i - 1), site, s);
                }
            }
        } else {
            let site = b[j];
            out.push(site);
            j += 1;
            proof {
                let grown = b@.take(j as int);
                let kept = a@.take(i as int);
                assert(grown =~= b@.take(j - 1).push(site));
                assert forall|s: Substitution<F>| #[trigger]
                    out@.contains(s) <==> kept.contains(s) || grown.contains(s) by {
                    lemma_contains_push(before, site, s);
                    lemma_contains_push(b@.take(j - 1), site, s);
                }
            }
        }
    }
    assert(a@.take(i as int) =~= a@ && b@.take(j as int) =~= b@);
    out
}

/// The sites of one more placeholder start where none of the sites listed so
/// far does.
proof fn lemma_merge_ready<F: FormatSpecifier>(
    text: Seq<u8>,
    sites: Seq<Substitution<F>>,
    more: Seq<Substitution<F>>,
    escaped: bool,
    n: int,
    kind: F,
)
    requires
        lists_sites_below(text, sites, escaped, n),
        kind.spec_index() == n,
        forall|s: Substitution<F>| #[trigger]
            more.contains(s) <==> is_site(text, s, escaped) && s.specifier == kind,
    ensures
        forall|i: int, j: int|
            0 <= i < sites.len() && 0 <= j < more.len() ==> sites[i].start != more[j].start,
{
    assert forall|i: int, j: int| 0 <= i < sites.len() && 0 <= j < more.len() implies sites[i].start
        != more[j].start by {
        assert(sites.contains(sites[i]));
        assert(more.contains(more[j]));
        if sites[i].start == more[j].start {
            lemma_same_start_same_kind(text, sites[i], more[j], escaped);
        }
    }
}

/// After the merge the list holds the sites of one more placeholder.
proof fn lemma_merged<F: FormatSpecifier>(
    text: Seq<u8>,
    sites: Seq<Substitution<F>>,
    more: Seq<Substitution<F>>,
    merged: Seq<Substitution<F>>,
    escaped: bool,
    n: int,
    kind: F,
)
    requires
        lists_sites_below(text, sites, escaped, n),
        kind.spec_index() == n,
        forall|s: Substitution<F>| #[trigger]
            more.contains(s) <==> is_site(text, s, escaped) && s.specifier == kind,
        ascending(merged),
        forall|s: Substitution<F>| #[trigger]
            merged.contains(s) <==> sites.contains(s) || more.contains(s),
    ensures
        lists_sites_below(text, merged, escaped, n + 1),
{
    assert forall|s: Substitution<F>| #[trigger]
        merged.contains(s) <==> is_site(text, s, escaped) && s.specifier.spec_index() < n + 1 by {
        if s.specifier.spec_index() == n {
            s.specifier.lemma_distinct(kind);
        }
    }
}

/// Two sites of a text that start at the same offset are sites of the same
/// placeholder, whichever sort each is of.
proof fn lemma_same_start_same_kind<F: FormatSpecifier>(
    text: Seq<u8>,
    a: Substitution<F>,
    b: Substitution<F>,
    escaped: bool,
)
    requires
        is_site(text, a, escaped),
        is_site(text, b, escaped),
        a.start == b.start,
    ensures
        a.specifier == b.specifier,
{
    let at = if escaped {
        a.start + 1
    } else {
        a.start as int
    };
    lemma_one_placeholder_at(text, at, a.specifier, b.specifier);
}

/// The bytes of an occurrence are those of the placeholder.
pub proof fn lemma_occurrence_bytes(text: Seq<u8>, at: int, name: Seq<u8>)
    requires
        occurs_at(text, at, name),
    ensures
        text[at] == DOLLAR,
        text[at + 1] == OPEN_BRACE,
        forall|i: int| 0 <= i < name.len() ==> text[at + 2 + i] == #[trigger] name[i],
        text[at + 2 + name.len()] == CLOSE_BRACE,
        literal(name).len() == name.len() + 3,
{
    let lit = literal(name);
    let part = text.subrange(at, at + lit.len());
    assert(part[0] == lit[0]);
    assert(part[1] == lit[1]);
    assert(part[2 + name.len() as int] == lit[2 + name.len() as int]);
    assert forall|i: int| 0 <= i < name.len() implies text[at + 2 + i] == #[trigger] name[i] by {
        assert(part[2 + i] == lit[2 + i]);
    }
}

/// At one offset at most one placeholder of a set occurs.
pub proof fn lemma_one_placeholder_at<F: FormatSpecifier>(text: Seq<u8>, at: int, a: F, b: F)
    requires
        occurs_at(text, at, name_bytes(a)),
        occurs_at(text, at, name_bytes(b)),
    ensures
        a == b,
{
    let na = name_bytes(a);
    let nb = name_bytes(b);
    a.lemma_well_formed();
    b.lemma_well_formed();
    lemma_occurrence_bytes(text, at, na);
    lemma_occurrence_bytes(text, at, nb);
    if na.len() < nb.len() {
        assert(text[at + 2 + na.len()] == nb[na.len() as int]);
    } else if nb.len() < na.len() {
        assert(text[at + 2 + nb.len()] == na[nb.len() as int]);
    } else {
        assert forall|i: int| 0 <= i < na.len() implies na[i] == nb[i] by {
            assert(text[at + 2 + i] == na[i]);
            assert(text[at + 2 + i] == nb[i]);
        }
        assert(na =~= nb);
        lemma_utf8_injective(a.spec_name(), b.spec_name());
        a.lemma_distinct(b);
    }
}

/// Inside an occurrence, after its first byte, stands neither a `$` nor a
/// backslash: no placeholder and no escape starts there.
pub proof fn lemma_inside_occurrence<F: FormatSpecifier>(text: Seq<u8>, at: int, k: F, p: int)
    requires
        occurs_at(text, at, name_bytes(k)),
        at < p < at + literal(name_bytes(k)).len(),
    ensures
        text[p] != DOLLAR,
        text[p] != BACKSLASH,
{
    let name = name_bytes(k);
    k.lemma_well_formed();
    lemma_occurrence_bytes(text, at, name);
    if at + 2 <= p < at + 2 + name.len() {
        assert(text[at + 2 + (p - at - 2)] == name[p - at - 2]);
    }
}

/// What `offsets_of` holds: the offsets of the sites of the placeholder, in
/// ascending order where the sites ascend.
proof fn lemma_offsets_of<F: FormatSpecifier>(
    sites: Seq<Substitution<F>>,
    kind: F,
    escaped: bool,
    upto: int,
)
    requires
        ascending(sites),
        0 <= upto <= sites.len(),
        forall|m: int| 0 <= m < sites.len() ==> (#[trigger] sites[m]).end == sites[m].start + 1
            || !escaped,
    ensures
        strictly_ascending(offsets_of(sites, kind, escaped, upto)),
        forall|x: int| #[trigger]
            offsets_of(sites, kind, escaped, upto).contains(x) <==> exists|m: int|
                0 <= m < upto && (#[trigger] sites[m]).specifier == kind && placeholder_offset(
                    sites[m],
                    escaped,
                ) == x,
    decreases upto,
{
    if upto > 0 {
        lemma_offsets_of(sites, kind, escaped, upto - 1);
        let before = offsets_of(sites, kind, escaped, upto - 1);
        let all = offsets_of(sites, kind, escaped, upto);
        let last = sites[upto - 1];
        assert forall|x: int| #[trigger]
            all.contains(x) <==> exists|m: int|
                0 <= m < upto && (#[trigger] sites[m]).specifier == kind && placeholder_offset(
                    sites[m],
                    escaped,
                ) == x by {
            if last.specifier == kind {
                lemma_contains_push(before, placeholder_offset(last, escaped), x);
            }
            if before.contains(x) {
                let m = choose|m: int|
                    0 <= m < upto - 1 && (#[trigger] sites[m]).specifier == kind
                        && placeholder_offset(sites[m], escaped) == x;
                assert(0 <= m < upto && sites[m].specifier == kind);
            }
        }
        if last.specifier == kind {
            assert forall|i: int, j: int| 0 <= i < j < all.len() implies all[i] < all[j] by {
                if j == all.len() - 1 {
                    assert(before.contains(before[i]));
                    let m = choose|m: int|
                        0 <= m < upto - 1 && (#[trigger] sites[m]).specifier == kind
                            && placeholder_offset(sites[m], escaped) == before[i];
                    assert(sites[m].start < sites[upto - 1].start);
                } else {
                    assert(before[i] < before[j]);
                }
            }
        }
    }
}

} // verus!
