//! The placeholder scanner: where in a template a placeholder `${name}` stands,
//! and which of its occurrences a backslash right before the `$` switches off.

use vstd::prelude::*;
use vstd::slice::*;
use vstd::string::*;

verus! {

/// The byte `$`.
pub const DOLLAR: u8 = 36;

/// The byte `{`.
pub const OPEN_BRACE: u8 = 123;

/// The byte `}`.
pub const CLOSE_BRACE: u8 = 125;

/// The byte `\`.
pub const BACKSLASH: u8 = 92;

/// The bytes of the placeholder `${name}`.
pub open spec fn literal(name: Seq<u8>) -> Seq<u8> {
    seq![DOLLAR, OPEN_BRACE] + name + seq![CLOSE_BRACE]
}

/// The placeholder `${name}` stands in `text` at offset `at`.
pub open spec fn occurs_at(text: Seq<u8>, at: int, name: Seq<u8>) -> bool {
    &&& 0 <= at
    &&& at + literal(name).len() <= text.len()
    &&& text.subrange(at, at + literal(name).len()) == literal(name)
}

/// The placeholder at `at` is escaped: a backslash stands right before it.
pub open spec fn escaped_at(text: Seq<u8>, at: int, name: Seq<u8>) -> bool {
    occurs_at(text, at, name) && at > 0 && text[at - 1] == BACKSLASH
}

/// The placeholder at `at` is live: it occurs there and no backslash stands
/// right before it. At offset 0 nothing stands before it.
pub open spec fn live_at(text: Seq<u8>, at: int, name: Seq<u8>) -> bool {
    occurs_at(text, at, name) && !(at > 0 && text[at - 1] == BACKSLASH)
}

/// An occurrence of the wanted sort: escaped ones or live ones.
pub open spec fn found_at(text: Seq<u8>, at: int, name: Seq<u8>, escaped: bool) -> bool {
    if escaped {
        escaped_at(text, at, name)
    } else {
        live_at(text, at, name)
    }
}

/// The offsets below `below` at which `${name}` is found, in ascending order.
pub open spec fn positions(text: Seq<u8>, name: Seq<u8>, escaped: bool, below: int) -> Seq<int>
    decreases below,
{
    if below <= 0 {
        Seq::empty()
    } else if found_at(text, below - 1, name, escaped) {
        positions(text, name, escaped, below - 1).push(below - 1)
    } else {
        positions(text, name, escaped, below - 1)
    }
}

/// The offsets of all live occurrences of `${name}` in `text`, ascending.
pub open spec fn live_positions(text: Seq<u8>, name: Seq<u8>) -> Seq<int> {
    positions(text, name, false, text.len() as int)
}

/// The offsets of all escaped occurrences of `${name}` in `text`, ascending.
/// Each is the offset of the `$`; the backslash stands one byte before it.
pub open spec fn escaped_positions(text: Seq<u8>, name: Seq<u8>) -> Seq<int> {
    positions(text, name, true, text.len() as int)
}

/// `spans` holds one pair of offsets, start and end, for each of `starts`.
pub open spec fn spans_of(spans: Seq<(usize, usize)>, starts: Seq<int>, width: int) -> bool {
    &&& spans.len() == starts.len()
    &&& forall|i: int|
        0 <= i < spans.len() ==> (#[trigger] spans[i]).0 == starts[i] && spans[i].1 == starts[i]
            + width
}

/// Every offset in `positions(.., below)` is found, lies below `below`, and
/// the offsets ascend; every offset below `below` that is found is in it.
pub proof fn lemma_positions(text: Seq<u8>, name: Seq<u8>, escaped: bool, below: int)
    ensures
        forall|i: int|
            0 <= i < positions(text, name, escaped, below).len() ==> ({
                let p = #[trigger] positions(text, name, escaped, below)[i];
                0 <= p < below && found_at(text, p, name, escaped)
            }),
        forall|i: int, j: int|
            0 <= i < j < positions(text, name, escaped, below).len() ==> positions(
                text,
                name,
                escaped,
                below,
            )[i] < positions(text, name, escaped, below)[j],
        forall|p: int|
            0 <= p < below && found_at(text, p, name, escaped) ==> positions(
                text,
                name,
                escaped,
                below,
            ).contains(p),
    decreases below,
{
    if below > 0 {
        lemma_positions(text, name, escaped, below - 1);
        let before = positions(text, name, escaped, below - 1);
        let all = positions(text, name, escaped, below);
        assert forall|p: int| 0 <= p < below && found_at(text, p, name, escaped) implies all.contains(
            p,
        ) by {
            if p == below - 1 {
                assert(all[all.len() - 1] == p);
            } else {
                assert(before.contains(p));
                let i = choose|i: int| 0 <= i < before.len() && before[i] == p;
                assert(all[i] == p);
            }
        }
    }
}

/// Whether `${name}` stands in `text` at offset `at`.
fn occurs_here(text: &[u8], at: usize, name: &[u8]) -> (r: bool)
    requires
        at + name@.len() + 3 <= text@.len(),
    ensures
        r == occurs_at(text@, at as int, name@),
{
    let ghost lit = literal(name@);
    let ghost part = text@.subrange(at as int, at + lit.len());
    if text[at] != DOLLAR || text[at + 1] != OPEN_BRACE {
        assert(part[0] == text@[at as int] && part[1] == text@[at + 1]);
        return false;
    }
    let n = name.len();
    let mut i: usize = 0;
    while i < n
        invariant
            i <= n == name@.len(),
            at + n + 3 <= text@.len() <= usize::MAX,
            lit == literal(name@),
            part == text@.subrange(at as int, at + lit.len()),
            forall|j: int| 0 <= j < i ==> text@[at + 2 + j] == name@[j],
        decreases n - i,
    {
        if text[at + 2 + i] != name[i] {
            assert(part[2 + i] == text@[at + 2 + i] && lit[2 + i] == name@[i as int]);
            return false;
        }
        i += 1;
    }
    if text[at + 2 + n] != CLOSE_BRACE {
        assert(part[2 + n] == text@[at + 2 + n] && lit[2 + n] == CLOSE_BRACE);
        return false;
    }
    assert(part =~= lit);
    true
}

/// All occurrences of `${name}` in `text` of the wanted sort, as pairs of
/// start and end offset, ascending.
pub fn find_occurrences(text: &[u8], name: &[u8], escaped: bool) -> (found: Vec<(usize, usize)>)
    ensures
        spans_of(
            found@,
            positions(text@, name@, escaped, text@.len() as int),
            literal(name@).len() as int,
        ),
{
    let mut found: Vec<(usize, usize)> = Vec::new();
    let text_len = text.len();
    let name_len = name.len();
    let ghost width = literal(name@).len() as int;
    if text_len < 3 || text_len - 3 < name_len {
        proof {
            lemma_nothing_fits(text@, name@, escaped, text_len as int);
        }
        return found;
    }
    let width_exec: usize = name_len + 3;
    let last: usize = text_len - width_exec;
    let mut at: usize = 0;
    while at <= last
        invariant
            at <= last + 1,
            last + width_exec == text_len == text@.len(),
            width_exec == name_len + 3 == width,
            name_len == name@.len(),
            spans_of(found@, positions(text@, name@, escaped, at as int), width),
        decreases last + 1 - at,
    {
        let here = occurs_here(text, at, name);
        let after_backslash = at > 0 && text[at - 1] == BACKSLASH;
        if here && after_backslash == escaped {
            found.push((at, at + width_exec));
        }
        at += 1;
    }
    proof {
        lemma_nothing_fits_after(text@, name@, escaped, at as int, text_len as int);
    }
    found
}

/// Where the placeholder no longer fits before the end of the text, no
/// further occurrence is found.
proof fn lemma_nothing_fits_after(
    text: Seq<u8>,
    name: Seq<u8>,
    escaped: bool,
    from: int,
    below: int,
)
    requires
        0 <= from <= below <= text.len(),
        from + literal(name).len() > text.len(),
    ensures
        positions(text, name, escaped, below) == positions(text, name, escaped, from),
    decreases below - from,
{
    if from < below {
        lemma_nothing_fits_after(text, name, escaped, from, below - 1);
    }
}

/// A text shorter than the placeholder holds no occurrence of it.
proof fn lemma_nothing_fits(text: Seq<u8>, name: Seq<u8>, escaped: bool, below: int)
    requires
        0 <= below <= text.len(),
        literal(name).len() > text.len(),
    ensures
        positions(text, name, escaped, below) == Seq::<int>::empty(),
{
    lemma_nothing_fits_after(text, name, escaped, 0, below);
}

} // verus!
