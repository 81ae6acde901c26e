//! Rendering a compiled template: what the rendering of a text is, and the
//! single walk over the sites of the text that writes it.

use crate::scanner::{escaped_at, literal, live_at, occurs_at, BACKSLASH, CLOSE_BRACE, DOLLAR};
use crate::sites::{
    is_escape_site, is_live_site, is_site, lemma_inside_occurrence, lemma_occurrence_bytes,
    lemma_one_placeholder_at, lists_sites,
};
use crate::specifier::{name_bytes, FormatSpecifier, Substitution};
use crate::text::{
    lemma_ascii_byte_boundaries, lemma_utf8_concat, slice_text, text_with_capacity, utf8,
};
use vstd::prelude::*;
use vstd::string::*;
use vstd::utf8::*;

verus! {

/// The placeholder of the set that is live at offset `at`, if one is.
pub open spec fn live_kind_at<F: FormatSpecifier>(text: Seq<u8>, at: int) -> Option<F> {
    if exists|k: F| live_at(text, at, name_bytes(k)) {
        Some(choose|k: F| live_at(text, at, name_bytes(k)))
    } else {
        None
    }
}

/// The byte at offset `at` is a backslash that escapes a placeholder of the
/// set.
pub open spec fn escapes_at<F: FormatSpecifier>(text: Seq<u8>, at: int) -> bool {
    exists|k: F| escaped_at(text, at + 1, name_bytes(k))
}

/// The rendering of `text` from offset `from` on: each live placeholder gives
/// way to its value, `values` holding one per place in the set; a backslash
/// that escapes a placeholder is dropped, and the placeholder after it stays
/// as it is written; every other byte stays.
pub open spec fn expand<F: FormatSpecifier>(text: Seq<u8>, values: Seq<Seq<u8>>, from: int) -> Seq<
    u8,
>
    decreases text.len() - from,
{
    if from < 0 || from >= text.len() {
        Seq::empty()
    } else {
        match live_kind_at::<F>(text, from) {
            Some(k) => values[k.spec_index()] + expand::<F>(
                text,
                values,
                from + literal(name_bytes(k)).len(),
            ),
            None => if escapes_at::<F>(text, from) {
                expand::<F>(text, values, from + 1)
            } else {
                seq![text[from]] + expand::<F>(text, values, from + 1)
            },
        }
    }
}

/// By how many bytes the first `upto` sites lengthen the text: at each, the
/// length of the value less that of the placeholder.
pub open spec fn net_growth<F: FormatSpecifier>(
    sites: Seq<Substitution<F>>,
    values: Seq<Seq<u8>>,
    upto: int,
) -> int
    decreases upto,
{
    if upto <= 0 {
        0
    } else {
        let site = sites[upto - 1];
        net_growth(sites, values, upto - 1) + values[site.specifier.spec_index()].len() - literal(
            name_bytes(site.specifier),
        ).len()
    }
}

/// The length of a rendering, foretold from the compiled lists: the length of
/// the text, plus at each live site the length of the value less that of the
/// placeholder, less one byte for each escaping backslash.
pub open spec fn predicted_len<F: FormatSpecifier>(
    text_len: int,
    live: Seq<Substitution<F>>,
    escapes: Seq<Substitution<F>>,
    values: Seq<Seq<u8>>,
) -> int {
    text_len + net_growth(live, values, live.len() as int) - escapes.len()
}

/// The bytes of each of the values.
pub open spec fn bytes_of(values: Seq<String>) -> Seq<Seq<u8>> {
    Seq::new(values.len(), |i: int| utf8(values[i]@))
}

/// Renders a compiled template: walks its sites once, copies the text between
/// them, writes at each live site the value of its placeholder, and leaves
/// out each escaping backslash. `values` holds one value per place in the set.
pub(crate) fn splice<F: FormatSpecifier>(
    template: &str,
    live: &Vec<Substitution<F>>,
    escapes: &Vec<Substitution<F>>,
    values: &Vec<String>,
) -> (out: String)
    requires
        lists_sites(utf8(template@), live@, false),
        lists_sites(utf8(template@), escapes@, true),
        values@.len() == F::spec_count(),
    ensures
        utf8(out@) == expand::<F>(utf8(template@), bytes_of(values@), 0),
        utf8(out@).len() == predicted_len(
            utf8(template@).len() as int,
            live@,
            escapes@,
            bytes_of(values@),
        ),
{
    let text_len = template.as_bytes().len();
    let ghost text = utf8(template@);
    let ghost vals = bytes_of(values@);
    let mut out = match predict_len(template, live, escapes, values) {
        Some(capacity) => if capacity <= isize::MAX as usize {
            text_with_capacity(capacity)
        } else {
            String::new()
        },
        None => String::new(),
    };
    let mut last: usize = 0;
    let mut i: usize = 0;
    let mut j: usize = 0;
    proof {
        encode_utf8_valid_utf8(template@);
        is_char_boundary_start_end_of_seq(text);
        assert(utf8(out@) + expand::<F>(text, vals, 0) =~= expand::<F>(text, vals, 0));
    }
    while i < live.len() || j < escapes.len()
        invariant
            i <= live@.len(),
            j <= escapes@.len(),
            last <= text_len == text.len(),
            text == utf8(template@),
            vals == bytes_of(values@),
            valid_utf8(text),
            lists_sites(text, live@, false),
            lists_sites(text, escapes@, true),
            values@.len() == F::spec_count(),
            is_char_boundary(text, last as int),
            utf8(out@) + expand::<F>(text, vals, last as int) == expand::<F>(text, vals, 0),
            forall|m: int|
                0 <= m < live@.len() ==> if m < i {
                    (#[trigger] live@[m]).start < last
                } else {
                    live@[m].start >= last
                },
            forall|m: int|
                0 <= m < escapes@.len() ==> if m < j {
                    (#[trigger] escapes@[m]).start < last
                } else {
                    escapes@[m].start >= last
                },
        decreases live@.len() - i + escapes@.len() - j,
    {
        let ghost before = out@;
        let take_live = j >= escapes.len() || (i < live.len() && live[i].start < escapes[j].start);
        if take_live {
            let site = live[i];
            proof {
                assert(live@.contains(site));
                lemma_expand_live(text, vals, site);
                lemma_expand_gap(text, vals, live@, escapes@, last as int, site.start as int);
                lemma_ascii_byte_boundaries(text, site.start as int);
                lemma_ascii_byte_boundaries(text, site.end - 1);
                site.specifier.lemma_well_formed();
                assert forall|m: int| i < m < live@.len() implies (#[trigger] live@[m]).start
                    >= site.end by {
                    assert(live@.contains(live@[m]));
                    lemma_live_site_is_clear(text, site, live@[m], false);
                }
                assert forall|m: int| j <= m < escapes@.len() implies (#[trigger] escapes@[m]).start
                    >= site.end by {
                    assert(escapes@.contains(escapes@[m]));
                    lemma_live_site_is_clear(text, site, escapes@[m], true);
                }
            }
            let gap = slice_text(template, last, site.start);
            out.append(gap);
            let value = values[site.specifier.index()].as_str();
            out.append(value);
            proof {
                lemma_utf8_concat(before, gap@);
                lemma_utf8_concat(before + gap@, value@);
                assert(vals[site.specifier.spec_index()] == utf8(value@));
                assert(utf8(out@) + expand::<F>(text, vals, site.end as int) =~= utf8(before) + (
                text.subrange(last as int, site.start as int) + (vals[site.specifier.spec_index()]
                    + expand::<F>(text, vals, site.end as int))));
            }
            last = site.end;
            i += 1;
        } else {
            let site = escapes[j];
            proof {
                assert(escapes@.contains(site));
                lemma_expand_escape(text, vals, site);
                if i < live@.len() {
                    assert(live@.contains(live@[i as int]));
                    lemma_expand_live(text, vals, live@[i as int]);
                }
                lemma_expand_gap(text, vals, live@, escapes@, last as int, site.start as int);
                lemma_ascii_byte_boundaries(text, site.start as int);
            }
            let gap = slice_text(template, last, site.start);
            out.append(gap);
            proof {
                lemma_utf8_concat(before, gap@);
                assert(utf8(out@) + expand::<F>(text, vals, site.end as int) =~= utf8(before) + (
                text.subrange(last as int, site.start as int) + expand::<F>(
                    text,
                    vals,
                    site.end as int,
                )));
            }
            last = site.end;
            j += 1;
        }
    }
    proof {
        lemma_expand_gap(text, vals, live@, escapes@, last as int, text_len as int);
    }
    let ghost before = out@;
    let rest = slice_text(template, last, text_len);
    out.append(rest);
    proof {
        lemma_utf8_concat(before, rest@);
        assert(utf8(out@) =~= utf8(before) + (text.subrange(last as int, text_len as int)
            + expand::<F>(text, vals, text_len as int)));
        predicted_len_is_exact(text, vals, live@, escapes@);
    }
    out
}

/// The length that a rendering will have, foretold from the compiled lists
/// without rendering: the length of the text, plus at each live site the
/// length of the value less that of the placeholder, less one byte for each
/// escaping backslash. `None` where that length is more than a `usize` holds.
pub(crate) fn predict_len<F: FormatSpecifier>(
    template: &str,
    live: &Vec<Substitution<F>>,
    escapes: &Vec<Substitution<F>>,
    values: &Vec<String>,
) -> (len: Option<usize>)
    requires
        lists_sites(utf8(template@), live@, false),
        lists_sites(utf8(template@), escapes@, true),
        values@.len() == F::spec_count(),
    ensures
        (match len {
            Some(n) => n == predicted_len(
                utf8(template@).len() as int,
                live@,
                escapes@,
                bytes_of(values@),
            ),
            None => predicted_len(
                utf8(template@).len() as int,
                live@,
                escapes@,
                bytes_of(values@),
            ) > usize::MAX,
        }),
{
    let text_len = template.as_bytes().len();
    let ghost text = utf8(template@);
    let ghost vals = bytes_of(values@);
    let mut gained: u128 = 0;
    let mut lost: u128 = 0;
    let mut i: usize = 0;
    while i < live.len()
        invariant
            i <= live@.len(),
            text == utf8(template@),
            vals == bytes_of(values@),
            text.len() <= usize::MAX,
            lists_sites(text, live@, false),
            values@.len() == F::spec_count(),
            gained <= i * usize::MAX,
            lost <= i * usize::MAX,
            gained - lost == net_growth(live@, vals, i as int),
        decreases live@.len() - i,
    {
        let site = live[i];
        proof {
            assert(live@.contains(site));
            site.specifier.lemma_well_formed();
            lemma_expand_live(text, vals, site);
            assert((i + 1) * usize::MAX == i * usize::MAX + usize::MAX) by (nonlinear_arith);
            assert(i * usize::MAX <= usize::MAX * usize::MAX) by (nonlinear_arith)
                requires
                    i <= usize::MAX,
            ;
            assert(usize::MAX * usize::MAX <= 0xffff_ffff_ffff_ffff * 0xffff_ffff_ffff_ffff)
                by (nonlinear_arith)
                requires
                    usize::MAX <= 0xffff_ffff_ffff_ffff,
            ;
        }
        let value_len = values[site.specifier.index()].as_str().as_bytes().len();
        gained = gained + value_len as u128;
        lost = lost + (site.end - site.start) as u128;
        i += 1;
    }
    proof {
        predicted_len_is_exact(text, vals, live@, escapes@);
        assert(i * usize::MAX <= usize::MAX * usize::MAX) by (nonlinear_arith)
            requires
                i <= usize::MAX,
        ;
        assert(usize::MAX * usize::MAX <= 0xffff_ffff_ffff_ffff * 0xffff_ffff_ffff_ffff)
            by (nonlinear_arith)
            requires
                usize::MAX <= 0xffff_ffff_ffff_ffff,
        ;
    }
    let total: u128 = text_len as u128 + gained;
    let less: u128 = lost + escapes.len() as u128;
    let len: u128 = total - less;
    if len <= usize::MAX as u128 {
        Some(len as usize)
    } else {
        None
    }
}

/// The length foretold from the compiled lists is the length of the
/// rendering, whatever the text and the values are.
pub proof fn predicted_len_is_exact<F: FormatSpecifier>(
    text: Seq<u8>,
    values: Seq<Seq<u8>>,
    live: Seq<Substitution<F>>,
    escapes: Seq<Substitution<F>>,
)
    requires
        lists_sites(text, live, false),
        lists_sites(text, escapes, true),
        text.len() <= usize::MAX,
    ensures
        expand::<F>(text, values, 0).len() == predicted_len(
            text.len() as int,
            live,
            escapes,
            values,
        ),
{
    lemma_expand_len_from(text, values, live, escapes, 0, 0, 0);
}

/// An escaped placeholder is rendered as it is written, without the
/// backslash: the rendering of the text is what comes before the backslash,
/// then the placeholder `${name}` itself, then the rendering of what follows
/// it.
pub proof fn escaped_placeholder_is_kept<F: FormatSpecifier>(
    text: Seq<u8>,
    values: Seq<Seq<u8>>,
    at: int,
    kind: F,
) -> (before: Seq<u8>)
    requires
        escaped_at(text, at, name_bytes(kind)),
    ensures
        expand::<F>(text, values, 0) == before + literal(name_bytes(kind)) + expand::<F>(
            text,
            values,
            at + literal(name_bytes(kind)).len(),
        ),
        expand::<F>(text, values, at - 1) == literal(name_bytes(kind)) + expand::<F>(
            text,
            values,
            at + literal(name_bytes(kind)).len(),
        ),
{
    let name = name_bytes(kind);
    let end = at + literal(name).len();
    lemma_occurrence_bytes(text, at, name);
    // No placeholder is live and no backslash escapes one within the
    // placeholder itself.
    assert forall|p: int, k: F| at <= p < end implies !#[trigger] live_at(
        text,
        p,
        name_bytes(k),
    ) by {
        if live_at(text, p, name_bytes(k)) {
            lemma_occurrence_bytes(text, p, name_bytes(k));
            if p > at {
                lemma_inside_occurrence(text, at, kind, p);
            }
        }
    }
    assert forall|p: int, k: F| at <= p < end implies !#[trigger] escaped_at(
        text,
        p + 1,
        name_bytes(k),
    ) by {
        if escaped_at(text, p + 1, name_bytes(k)) {
            if p > at {
                lemma_inside_occurrence(text, at, kind, p);
            }
        }
    }
    lemma_expand_run::<F>(text, values, at, end);
    assert(text.subrange(at, end) == literal(name));
    // The backslash is dropped.
    assert(escapes_at::<F>(text, at - 1));
    assert(live_kind_at::<F>(text, at - 1).is_none()) by {
        if exists|k: F| live_at(text, at - 1, name_bytes(k)) {
            let k = choose|k: F| live_at(text, at - 1, name_bytes(k));
            lemma_occurrence_bytes(text, at - 1, name_bytes(k));
        }
    }
    // The backslash lies inside no live placeholder.
    assert(!inside_live_placeholder::<F>(text, at - 1)) by {
        if inside_live_placeholder::<F>(text, at - 1) {
            let (q, k) = choose|q: int, k: F|
                #[trigger] live_at(text, q, name_bytes(k)) && q < at - 1 < q + 3 + name_bytes(
                    k,
                ).len();
            lemma_occurrence_bytes(text, q, name_bytes(k));
            lemma_inside_occurrence(text, q, k, at - 1);
        }
    }
    let before = lemma_expand_reaches::<F>(text, values, 0, at - 1);
    assert(expand::<F>(text, values, 0) =~= before + literal(name) + expand::<F>(
        text,
        values,
        end,
    ));
    before
}

/// A text that holds no placeholder of the set is rendered as it is, byte for
/// byte.
pub proof fn plain_text_is_unchanged<F: FormatSpecifier>(text: Seq<u8>, values: Seq<Seq<u8>>)
    requires
        forall|at: int, k: F| !#[trigger] occurs_at(text, at, name_bytes(k)),
    ensures
        expand::<F>(text, values, 0) == text,
{
    lemma_expand_run::<F>(text, values, 0, text.len() as int);
    assert(text.subrange(0, text.len() as int) + expand::<F>(text, values, text.len() as int)
        =~= text);
}

/// Across a stretch of the text in which no placeholder is live and no
/// backslash escapes one, the rendering copies the text.
pub proof fn lemma_expand_run<F: FormatSpecifier>(
    text: Seq<u8>,
    values: Seq<Seq<u8>>,
    from: int,
    to: int,
)
    requires
        0 <= from <= to <= text.len(),
        forall|at: int, k: F| from <= at < to ==> !#[trigger] live_at(text, at, name_bytes(k)),
        forall|at: int, k: F|
            from <= at < to ==> !#[trigger] escaped_at(text, at + 1, name_bytes(k)),
    ensures
        expand::<F>(text, values, from) == text.subrange(from, to) + expand::<F>(text, values, to),
    decreases to - from,
{
    if from == to {
        assert(text.subrange(from, to) + expand::<F>(text, values, to) =~= expand::<F>(
            text,
            values,
            to,
        ));
    } else {
        lemma_expand_run::<F>(text, values, from + 1, to);
        assert(seq![text[from]] + text.subrange(from + 1, to) =~= text.subrange(from, to));
        assert(expand::<F>(text, values, from) =~= text.subrange(from, to) + expand::<F>(
            text,
            values,
            to,
        ));
    }
}

/// Where no site starts between two offsets, the rendering copies the text
/// between them.
proof fn lemma_expand_gap<F: FormatSpecifier>(
    text: Seq<u8>,
    values: Seq<Seq<u8>>,
    live: Seq<Substitution<F>>,
    escapes: Seq<Substitution<F>>,
    from: int,
    to: int,
)
    requires
        lists_sites(text, live, false),
        lists_sites(text, escapes, true),
        0 <= from <= to <= text.len() <= usize::MAX,
        forall|m: int| 0 <= m < live.len() ==> !(from <= (#[trigger] live[m]).start < to),
        forall|m: int| 0 <= m < escapes.len() ==> !(from <= (#[trigger] escapes[m]).start < to),
    ensures
        expand::<F>(text, values, from) == text.subrange(from, to) + expand::<F>(text, values, to),
{
    assert forall|at: int, k: F| from <= at < to implies !#[trigger] live_at(
        text,
        at,
        name_bytes(k),
    ) by {
        if live_at(text, at, name_bytes(k)) {
            lemma_occurrence_bytes(text, at, name_bytes(k));
            let site = Substitution {
                start: at as usize,
                end: (at + literal(name_bytes(k)).len()) as usize,
                specifier: k,
            };
            assert(is_site(text, site, false));
            assert(live.contains(site));
        }
    }
    assert forall|at: int, k: F| from <= at < to implies !#[trigger] escaped_at(
        text,
        at + 1,
        name_bytes(k),
    ) by {
        if escaped_at(text, at + 1, name_bytes(k)) {
            let site = Substitution { start: at as usize, end: (at + 1) as usize, specifier: k };
            assert(is_site(text, site, true));
            assert(escapes.contains(site));
        }
    }
    lemma_expand_run::<F>(text, values, from, to);
}

/// At a live site the rendering goes on with the value of the placeholder,
/// and then with what follows the site.
proof fn lemma_expand_live<F: FormatSpecifier>(
    text: Seq<u8>,
    values: Seq<Seq<u8>>,
    site: Substitution<F>,
)
    requires
        is_live_site(text, site),
    ensures
        expand::<F>(text, values, site.start as int) == values[site.specifier.spec_index()]
            + expand::<F>(text, values, site.end as int),
        site.start < site.end <= text.len(),
        text[site.start as int] == DOLLAR,
        text[site.end - 1] == CLOSE_BRACE,
{
    lemma_occurrence_bytes(text, site.start as int, name_bytes(site.specifier));
    let k = choose|k: F| live_at(text, site.start as int, name_bytes(k));
    lemma_one_placeholder_at(text, site.start as int, k, site.specifier);
}

/// At an escape site the rendering drops the backslash.
proof fn lemma_expand_escape<F: FormatSpecifier>(
    text: Seq<u8>,
    values: Seq<Seq<u8>>,
    site: Substitution<F>,
)
    requires
        is_escape_site(text, site),
    ensures
        expand::<F>(text, values, site.start as int) == expand::<F>(text, values, site.end as int),
        site.start < site.end < text.len(),
        text[site.start as int] == BACKSLASH,
{
    lemma_occurrence_bytes(text, site.start + 1, name_bytes(site.specifier));
    if exists|k: F| live_at(text, site.start as int, name_bytes(k)) {
        let k = choose|k: F| live_at(text, site.start as int, name_bytes(k));
        lemma_occurrence_bytes(text, site.start as int, name_bytes(k));
    }
}

/// No site starts inside a live site, after its first byte.
proof fn lemma_live_site_is_clear<F: FormatSpecifier>(
    text: Seq<u8>,
    site: Substitution<F>,
    other: Substitution<F>,
    escaped: bool,
)
    requires
        is_live_site(text, site),
        is_site(text, other, escaped),
        site.start < other.start,
    ensures
        site.end <= other.start,
{
    if other.start < site.end {
        lemma_inside_occurrence(text, site.start as int, site.specifier, other.start as int);
        if escaped {
            lemma_expand_escape(text, Seq::empty(), other);
        } else {
            lemma_expand_live(text, Seq::empty(), other);
        }
    }
}

/// The sites up to `i` and `j` lie before `last`, and the others do not.
pub open spec fn walked<F: FormatSpecifier>(
    live: Seq<Substitution<F>>,
    escapes: Seq<Substitution<F>>,
    i: int,
    j: int,
    last: int,
) -> bool {
    &&& 0 <= i <= live.len()
    &&& 0 <= j <= escapes.len()
    &&& forall|m: int|
        0 <= m < live.len() ==> if m < i {
            (#[trigger] live[m]).start < last
        } else {
            live[m].start >= last
        }
    &&& forall|m: int|
        0 <= m < escapes.len() ==> if m < j {
            (#[trigger] escapes[m]).start < last
        } else {
            escapes[m].start >= last
        }
}

/// The length of what is left to render after a part of the walk.
proof fn lemma_expand_len_from<F: FormatSpecifier>(
    text: Seq<u8>,
    values: Seq<Seq<u8>>,
    live: Seq<Substitution<F>>,
    escapes: Seq<Substitution<F>>,
    i: int,
    j: int,
    last: int,
)
    requires
        lists_sites(text, live, false),
        lists_sites(text, escapes, true),
        0 <= last <= text.len() <= usize::MAX,
        walked(live, escapes, i, j, last),
    ensures
        expand::<F>(text, values, last).len() == text.len() - last + net_growth(
            live,
            values,
            live.len() as int,
        ) - net_growth(live, values, i) - (escapes.len() - j),
    decreases live.len() - i + escapes.len() - j,
{
    if i == live.len() && j == escapes.len() {
        lemma_expand_gap(text, values, live, escapes, last, text.len() as int);
    } else if j >= escapes.len() || (i < live.len() && live[i].start < escapes[j].start) {
        let site = live[i];
        assert(live.contains(site));
        lemma_expand_live(text, values, site);
        lemma_expand_gap(text, values, live, escapes, last, site.start as int);
        assert forall|m: int| i < m < live.len() implies (#[trigger] live[m]).start >= site.end by {
            assert(live.contains(live[m]));
            lemma_live_site_is_clear(text, site, live[m], false);
        }
        assert forall|m: int| j <= m < escapes.len() implies (#[trigger] escapes[m]).start
            >= site.end by {
            assert(escapes.contains(escapes[m]));
            lemma_live_site_is_clear(text, site, escapes[m], true);
        }
        lemma_expand_len_from(text, values, live, escapes, i + 1, j, site.end as int);
    } else {
        let site = escapes[j];
        assert(escapes.contains(site));
        lemma_expand_escape(text, values, site);
        if i < live.len() {
            assert(live.contains(live[i]));
            lemma_expand_live(text, values, live[i]);
        }
        lemma_expand_gap(text, values, live, escapes, last, site.start as int);
        lemma_expand_len_from(text, values, live, escapes, i, j + 1, site.end as int);
    }
}

/// An offset lies strictly inside a live placeholder of the set.
pub open spec fn inside_live_placeholder<F: FormatSpecifier>(text: Seq<u8>, offset: int) -> bool {
    exists|at: int, k: F|
        #[trigger] live_at(text, at, name_bytes(k)) && at < offset < at + 3 + name_bytes(k).len()
}

/// The rendering from an offset on is the end of the rendering from any
/// earlier offset on, unless it lies strictly inside a live placeholder.
proof fn lemma_expand_reaches<F: FormatSpecifier>(
    text: Seq<u8>,
    values: Seq<Seq<u8>>,
    from: int,
    to: int,
) -> (before: Seq<u8>)
    requires
        0 <= from <= to <= text.len(),
        !inside_live_placeholder::<F>(text, to),
    ensures
        expand::<F>(text, values, from) == before + expand::<F>(text, values, to),
    decreases to - from,
{
    if from == to {
        let before = Seq::<u8>::empty();
        assert(before + expand::<F>(text, values, to) =~= expand::<F>(text, values, to));
        before
    } else {
        match live_kind_at::<F>(text, from) {
            Some(k) => {
                lemma_occurrence_bytes(text, from, name_bytes(k));
                assert(live_at(text, from, name_bytes(k)));
                let next = from + 3 + name_bytes(k).len();
                let rest = lemma_expand_reaches::<F>(text, values, next, to);
                let before = values[k.spec_index()] + rest;
                assert(expand::<F>(text, values, from) =~= before + expand::<F>(text, values, to));
                before
            },
            None => {
                let rest = lemma_expand_reaches::<F>(text, values, from + 1, to);
                let before = if escapes_at::<F>(text, from) {
                    rest
                } else {
                    seq![text[from]] + rest
                };
                assert(expand::<F>(text, values, from) =~= before + expand::<F>(text, values, to));
                before
            },
        }
    }
}

} // verus!
