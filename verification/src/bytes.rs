//! Byte strings: occurrence of one in another, and their order.

use vstd::prelude::*;

verus! {

/// Whether `needle` stands in `haystack` from position `at` on.
pub open spec fn stands_at(haystack: Seq<u8>, needle: Seq<u8>, at: int) -> bool {
    &&& 0 <= at
    &&& at + needle.len() <= haystack.len()
    &&& haystack.subrange(at, at + needle.len()) == needle
}

/// Whether `needle` stands anywhere in `haystack`.
pub open spec fn occurs(haystack: Seq<u8>, needle: Seq<u8>) -> bool {
    exists|at: int| stands_at(haystack, needle, at)
}

fn matches_at(haystack: &[u8], needle: &[u8], at: usize) -> (found: bool)
    requires
        at + needle@.len() <= haystack@.len(),
    ensures
        found == stands_at(haystack@, needle@, at as int),
{
    let mut k: usize = 0;
    while k < needle.len()
        invariant
            k <= needle@.len(),
            at + needle@.len() <= haystack.len(),
            forall|m: int| 0 <= m < k ==> haystack@[at + m] == needle@[m],
        decreases needle@.len() - k,
    {
        if haystack[at + k] != needle[k] {
            assert(haystack@.subrange(at as int, at + needle@.len())[k as int] != needle@[k as int]);
            return false;
        }
        k += 1;
    }
    assert(haystack@.subrange(at as int, at + needle@.len()) =~= needle@);
    true
}

/// Tells whether a byte string holds another, which must not be empty.
pub fn contains_seq(haystack: &[u8], needle: &[u8]) -> (found: bool)
    requires
        needle@.len() > 0,
    ensures
        found == occurs(haystack@, needle@),
{
    if haystack.len() < needle.len() {
        return false;
    }
    let last: usize = haystack.len() - needle.len();
    let mut at: usize = 0;
    loop
        invariant
            needle@.len() > 0,
            at <= last,
            last == haystack@.len() - needle@.len(),
            forall|k: int| 0 <= k < at ==> !stands_at(haystack@, needle@, k),
        decreases last - at,
    {
        if matches_at(haystack, needle, at) {
            return true;
        }
        if at == last {
            return false;
        }
        at += 1;
    }
}

/// Whether one byte string comes before another in lexicographic order.
pub open spec fn precedes(a: Seq<u8>, b: Seq<u8>) -> bool
    decreases a.len(),
{
    if b.len() == 0 {
        false
    } else if a.len() == 0 {
        true
    } else if a[0] != b[0] {
        a[0] < b[0]
    } else {
        precedes(a.drop_first(), b.drop_first())
    }
}

/// Tells whether one byte string comes before another in lexicographic order.
pub fn comes_before(a: &[u8], b: &[u8]) -> (before: bool)
    ensures
        before == precedes(a@, b@),
{
    let mut i: usize = 0;
    assert(a@.skip(0) == a@ && b@.skip(0) == b@);
    while i < a.len() && i < b.len()
        invariant
            i <= a@.len(),
            i <= b@.len(),
            precedes(a@, b@) == precedes(a@.skip(i as int), b@.skip(i as int)),
        decreases a@.len() - i,
    {
        if a[i] != b[i] {
            return a[i] < b[i];
        }
        assert(a@.skip(i as int).drop_first() == a@.skip(i + 1));
        assert(b@.skip(i as int).drop_first() == b@.skip(i + 1));
        i += 1;
    }
    i < b.len()
}

/// No byte string comes before itself.
pub proof fn lemma_precedes_irreflexive(a: Seq<u8>)
    ensures
        !precedes(a, a),
    decreases a.len(),
{
    if a.len() > 0 {
        lemma_precedes_irreflexive(a.drop_first());
    }
}

/// The order is transitive.
pub proof fn lemma_precedes_transitive(a: Seq<u8>, b: Seq<u8>, c: Seq<u8>)
    requires
        precedes(a, b),
        precedes(b, c),
    ensures
        precedes(a, c),
    decreases a.len(),
{
    if a.len() > 0 && b.len() > 0 && c.len() > 0 && a[0] == b[0] && b[0] == c[0] {
        lemma_precedes_transitive(a.drop_first(), b.drop_first(), c.drop_first());
    }
}

/// Of two different byte strings one comes before the other.
pub proof fn lemma_precedes_total(a: Seq<u8>, b: Seq<u8>)
    ensures
        a == b || precedes(a, b) || precedes(b, a),
    decreases a.len(),
{
    if a.len() > 0 && b.len() > 0 && a[0] == b[0] {
        lemma_precedes_total(a.drop_first(), b.drop_first());
        if a.drop_first() == b.drop_first() {
            assert(a == seq![a[0]] + a.drop_first());
            assert(b == seq![b[0]] + b.drop_first());
        }
    } else if a.len() == 0 && b.len() == 0 {
        assert(a == b);
    }
}

/// The first byte in which two byte strings differ decides which comes first: the one in which it
/// is smaller.
pub proof fn law_first_difference_decides(a: Seq<u8>, b: Seq<u8>, k: int)
    requires
        0 <= k < a.len(),
        k < b.len(),
        forall|i: int| 0 <= i < k ==> a[i] == b[i],
        a[k] < b[k],
    ensures
        precedes(a, b),
        !precedes(b, a),
    decreases k,
{
    if k > 0 {
        let x = a.drop_first();
        let y = b.drop_first();
        assert(a[0] == b[0]);
        assert forall|i: int| 0 <= i < k - 1 implies x[i] == y[i] by {
            assert(a[i + 1] == b[i + 1]);
        }
        law_first_difference_decides(x, y, k - 1);
    }
}

/// The beginning of a byte string comes before the whole of it.
pub proof fn law_beginning_comes_first(a: Seq<u8>, b: Seq<u8>)
    requires
        a.len() < b.len(),
        forall|i: int| 0 <= i < a.len() ==> a[i] == b[i],
    ensures
        precedes(a, b),
        !precedes(b, a),
    decreases a.len(),
{
    if a.len() > 0 {
        let x = a.drop_first();
        let y = b.drop_first();
        assert(a[0] == b[0]);
        assert forall|i: int| 0 <= i < x.len() implies x[i] == y[i] by {
            assert(a[i + 1] == b[i + 1]);
        }
        law_beginning_comes_first(x, y);
    }
}

/// A byte string is found wherever it stands between any other bytes.
pub proof fn law_found_between_any_bytes(before: Seq<u8>, needle: Seq<u8>, after: Seq<u8>)
    ensures
        occurs(before + needle + after, needle),
{
    let all = before + needle + after;
    let at = before.len() as int;
    assert(all.subrange(at, at + needle.len()) =~= needle);
    assert(stands_at(all, needle, at));
}

/// What is found stands there, byte for byte.
pub proof fn law_what_is_found_stands_there(haystack: Seq<u8>, needle: Seq<u8>)
    requires
        occurs(haystack, needle),
    ensures
        exists|before: Seq<u8>, after: Seq<u8>| haystack == #[trigger] (before + needle + after),
{
    let at = choose|at: int| stands_at(haystack, needle, at);
    let before = haystack.take(at);
    let after = haystack.skip(at + needle.len());
    assert forall|i: int| 0 <= i < needle.len() implies haystack[at + i] == needle[i] by {
        assert(haystack.subrange(at, at + needle.len())[i] == needle[i]);
    }
    assert(haystack =~= before + needle + after);
}

/// Whether a byte string stands in another, at any place.
pub open spec fn holds(bytes: Seq<u8>, s: Seq<u8>) -> bool {
    exists|k: int| 0 <= k <= bytes.len() - s.len() && #[trigger] bytes.subrange(k, k + s.len()) == s
}

/// A byte string occurs in another exactly where it is, byte for byte, a part of it.
pub proof fn law_occurring_is_being_held(bytes: Seq<u8>, s: Seq<u8>)
    ensures
        occurs(bytes, s) == holds(bytes, s),
{
    if occurs(bytes, s) {
        let at = choose|at: int| stands_at(bytes, s, at);
        assert(bytes.subrange(at, at + s.len()) == s);
    }
    if holds(bytes, s) {
        let k = choose|k: int|
            0 <= k <= bytes.len() - s.len() && #[trigger] bytes.subrange(k, k + s.len()) == s;
        assert(stands_at(bytes, s, k));
    }
}


} // verus!
