//! Facts about lists that several modules use.

use vstd::prelude::*;

verus! {

/// What a sequence holds after a push: what it held, and the new element.
pub proof fn lemma_contains_push<T>(s: Seq<T>, last: T, x: T)
    ensures
        s.push(last).contains(x) <==> s.contains(x) || x == last,
{
    let grown = s.push(last);
    if s.contains(x) {
        let m = choose|m: int| 0 <= m < s.len() && s[m] == x;
        assert(grown[m] == x);
    }
    if x == last {
        assert(grown[s.len() as int] == x);
    }
    if grown.contains(x) {
        let m = choose|m: int| 0 <= m < grown.len() && grown[m] == x;
        if m < s.len() {
            assert(s[m] == x);
        }
    }
}

/// The offsets strictly ascend.
pub open spec fn strictly_ascending(offsets: Seq<int>) -> bool {
    forall|i: int, j: int| 0 <= i < j < offsets.len() ==> offsets[i] < offsets[j]
}

/// Two strictly ascending lists with the same members are the same list.
pub proof fn lemma_ascending_lists_agree(a: Seq<int>, b: Seq<int>)
    requires
        strictly_ascending(a),
        strictly_ascending(b),
        forall|x: int| a.contains(x) <==> b.contains(x),
    ensures
        a == b,
    decreases a.len(),
{
    if a.len() == 0 {
        if b.len() > 0 {
            assert(b.contains(b[0]));
        }
        assert(a =~= b);
    } else {
        assert(a.contains(a.last())) by {
            assert(a[a.len() - 1] == a.last());
        }
        let n = choose|n: int| 0 <= n < b.len() && b[n] == a.last();
        assert(b.contains(b.last())) by {
            assert(b[b.len() - 1] == b.last());
        }
        let m = choose|m: int| 0 <= m < a.len() && a[m] == b.last();
        assert(a.last() == b.last());
        let a0 = a.drop_last();
        let b0 = b.drop_last();
        assert forall|x: int| a0.contains(x) <==> b0.contains(x) by {
            if a0.contains(x) {
                let i = choose|i: int| 0 <= i < a0.len() && a0[i] == x;
                assert(a[i] == x);
                assert(a.contains(x));
                let j = choose|j: int| 0 <= j < b.len() && b[j] == x;
                assert(x < a.last());
                assert(b0[j] == x);
            }
            if b0.contains(x) {
                let j = choose|j: int| 0 <= j < b0.len() && b0[j] == x;
                assert(b[j] == x);
                assert(b.contains(x));
                let i = choose|i: int| 0 <= i < a.len() && a[i] == x;
                assert(x < b.last());
                assert(a0[i] == x);
            }
        }
        lemma_ascending_lists_agree(a0, b0);
        assert(a =~= a0.push(a.last()));
        assert(b =~= b0.push(b.last()));
    }
}

} // verus!
