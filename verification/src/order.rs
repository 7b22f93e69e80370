//! The order of strings, and sorted lists of strings without duplicates.

use crate::text::texts;
use vstd::prelude::*;
use vstd::utf8::encode_utf8;

verus! {

/// Lexicographic order of byte sequences.
pub open spec fn bytes_less(a: Seq<u8>, b: Seq<u8>) -> bool
    decreases a.len(),
{
    if b.len() == 0 {
        false
    } else if a.len() == 0 {
        true
    } else if a[0] != b[0] {
        a[0] < b[0]
    } else {
        bytes_less(a.skip(1), b.skip(1))
    }
}

/// The order of strings: lexicographic by the bytes of their UTF-8 form.
pub open spec fn less(a: Seq<char>, b: Seq<char>) -> bool {
    bytes_less(encode_utf8(a), encode_utf8(b))
}

/// Whether each item stands before all later ones, so that none occurs twice.
pub open spec fn sorted(s: Seq<Seq<char>>) -> bool {
    forall|i: int, j: int| 0 <= i < j < s.len() ==> less(#[trigger] s[i], #[trigger] s[j])
}

proof fn lemma_bytes_less_transitive(a: Seq<u8>, b: Seq<u8>, c: Seq<u8>)
    requires
        bytes_less(a, b),
        bytes_less(b, c),
    ensures
        bytes_less(a, c),
    decreases a.len(),
{
    if a.len() > 0 && a[0] == b[0] && b[0] == c[0] {
        lemma_bytes_less_transitive(a.skip(1), b.skip(1), c.skip(1));
    }
}

proof fn lemma_bytes_less_irreflexive(a: Seq<u8>)
    ensures
        !bytes_less(a, a),
    decreases a.len(),
{
    if a.len() > 0 {
        lemma_bytes_less_irreflexive(a.skip(1));
    }
}

proof fn lemma_bytes_less_total(a: Seq<u8>, b: Seq<u8>)
    ensures
        a == b || bytes_less(a, b) || bytes_less(b, a),
    decreases a.len(),
{
    if a.len() > 0 && b.len() > 0 && a[0] == b[0] {
        lemma_bytes_less_total(a.skip(1), b.skip(1));
        if a.skip(1) == b.skip(1) {
            assert(seq![a[0]] + a.skip(1) =~= a);
            assert(seq![b[0]] + b.skip(1) =~= b);
        }
    } else if a.len() == 0 && b.len() == 0 {
        assert(a =~= b);
    }
}

/// The order of strings is transitive.
pub proof fn lemma_less_transitive(a: Seq<char>, b: Seq<char>, c: Seq<char>)
    requires
        less(a, b),
        less(b, c),
    ensures
        less(a, c),
{
    lemma_bytes_less_transitive(encode_utf8(a), encode_utf8(b), encode_utf8(c));
}

/// No string stands before itself.
pub proof fn lemma_less_irreflexive(a: Seq<char>)
    ensures
        !less(a, a),
{
    lemma_bytes_less_irreflexive(encode_utf8(a));
}

/// Of two different strings one stands before the other.
pub proof fn lemma_less_total(a: Seq<char>, b: Seq<char>)
    ensures
        a == b || less(a, b) || less(b, a),
{
    lemma_bytes_less_total(encode_utf8(a), encode_utf8(b));
    vstd::utf8::encode_utf8_decode_utf8(a);
    vstd::utf8::encode_utf8_decode_utf8(b);
}

/// Two sorted lists of the same strings are equal.
pub proof fn lemma_sorted_unique(a: Seq<Seq<char>>, b: Seq<Seq<char>>)
    requires
        sorted(a),
        sorted(b),
        forall|t: Seq<char>| #[trigger] a.contains(t) <==> b.contains(t),
    ensures
        a == b,
    decreases a.len(),
{
    if a.len() == 0 {
        if b.len() > 0 {
            assert(b.contains(b[0]));
            assert(a.contains(b[0]));
        }
        assert(a =~= b);
    } else {
        assert(a.contains(a.last()));
        let j = choose|j: int| 0 <= j < b.len() && b[j] == a.last();
        assert(b.contains(b.last()));
        assert(a.contains(b.last()));
        let i = choose|i: int| 0 <= i < a.len() && a[i] == b.last();
        // The last items agree: either would stand before the other otherwise.
        assert(a.last() == b.last()) by {
            if j < b.len() - 1 && i < a.len() - 1 {
                assert(less(b[j], b[b.len() - 1]));
                assert(less(a[i], a[a.len() - 1]));
                lemma_less_transitive(a.last(), b.last(), a.last());
                lemma_less_irreflexive(a.last());
            }
        }
        let x = a.drop_last();
        let y = b.drop_last();
        assert forall|t: Seq<char>| #[trigger] x.contains(t) <==> y.contains(t) by {
            lemma_sorted_front(a, t);
            lemma_sorted_front(b, t);
        }
        lemma_sorted_unique(x, y);
        assert(a =~= x.push(a.last()));
        assert(b =~= y.push(b.last()));
    }
}

/// The front of a sorted list holds everything but the last item.
proof fn lemma_sorted_front(a: Seq<Seq<char>>, t: Seq<char>)
    requires
        sorted(a),
        a.len() > 0,
    ensures
        a.drop_last().contains(t) <==> a.contains(t) && t != a.last(),
{
    let x = a.drop_last();
    if x.contains(t) {
        let i = choose|i: int| 0 <= i < x.len() && x[i] == t;
        assert(a[i] == t);
        assert(less(a[i], a[a.len() - 1]));
        lemma_less_irreflexive(t);
    }
    if a.contains(t) && t != a.last() {
        let i = choose|i: int| 0 <= i < a.len() && a[i] == t;
        assert(x[i] == t);
    }
}

/// Whether the list is sorted and holds what `v` holds, and `t`.
pub open spec fn adds(w: Seq<Seq<char>>, v: Seq<Seq<char>>, t: Seq<char>) -> bool {
    &&& sorted(w)
    &&& forall|x: Seq<char>| #[trigger] w.contains(x) <==> v.contains(x) || x == t
}

/// A string can be added to every sorted list.
pub proof fn lemma_can_add(v: Seq<Seq<char>>, t: Seq<char>)
    requires
        sorted(v),
    ensures
        exists|w: Seq<Seq<char>>| adds(w, v, t),
    decreases v.len(),
{
    if v.len() > 0 && v.last() == t {
        assert(v.contains(t));
        assert(adds(v, v, t));
    } else if v.len() == 0 || less(v.last(), t) {
        let w = v.push(t);
        assert forall|i: int, j: int| 0 <= i < j < w.len() implies less(
            #[trigger] w[i],
            #[trigger] w[j],
        ) by {
            if j == v.len() && i < v.len() - 1 {
                lemma_less_transitive(v[i], v[v.len() - 1], t);
            }
        }
        assert forall|x: Seq<char>| #[trigger] w.contains(x) <==> v.contains(x) || x == t by {
            lemma_push_contains(v, t, x);
        }
        assert(adds(w, v, t));
    } else {
        let front = v.drop_last();
        let last = v.last();
        lemma_less_total(last, t);
        lemma_can_add(front, t);
        let u = choose|u: Seq<Seq<char>>| adds(u, front, t);
        let w = u.push(last);
        assert forall|i: int, j: int| 0 <= i < j < w.len() implies less(
            #[trigger] w[i],
            #[trigger] w[j],
        ) by {
            if j == u.len() {
                assert(u.contains(u[i]));
                if u[i] != t {
                    let k = choose|k: int| 0 <= k < front.len() && front[k] == u[i];
                    assert(v[k] == u[i]);
                    assert(less(v[k], v[v.len() - 1]));
                }
            }
        }
        assert forall|x: Seq<char>| #[trigger] w.contains(x) <==> v.contains(x) || x == t by {
            lemma_push_contains(u, last, x);
            lemma_push_contains(front, last, x);
            assert(front.push(last) =~= v);
            assert(u.contains(x) <==> front.contains(x) || x == t);
        }
        assert(adds(w, v, t));
    }
}

/// A list with one more item holds that item and what it held.
pub proof fn lemma_push_contains(v: Seq<Seq<char>>, t: Seq<char>, x: Seq<char>)
    ensures
        v.push(t).contains(x) <==> v.contains(x) || x == t,
{
    let w = v.push(t);
    if v.contains(x) {
        let i = choose|i: int| 0 <= i < v.len() && v[i] == x;
        assert(w[i] == x);
    }
    assert(w[v.len() as int] == t);
    if w.contains(x) && x != t {
        let i = choose|i: int| 0 <= i < w.len() && w[i] == x;
        assert(v[i] == x);
    }
}

/// Whether `a` stands before `b`.
pub fn str_less(a: &str, b: &str) -> (r: bool)
    ensures
        r == less(a@, b@),
{
    let x = a.as_bytes();
    let y = b.as_bytes();
    let mut i: usize = 0;
    assert(x@.skip(0) =~= x@);
    assert(y@.skip(0) =~= y@);
    loop
        invariant
            x@ == encode_utf8(a@),
            y@ == encode_utf8(b@),
            i <= x.len(),
            i <= y.len(),
            bytes_less(x@.skip(i as int), y@.skip(i as int)) == bytes_less(x@, y@),
        decreases x.len() - i,
    {
        if i == y.len() {
            return false;
        }
        if i == x.len() {
            return true;
        }
        if x[i] != y[i] {
            return x[i] < y[i];
        }
        assert(x@.skip(i as int).skip(1) =~= x@.skip(i + 1));
        assert(y@.skip(i as int).skip(1) =~= y@.skip(i + 1));
        i = i + 1;
    }
}

/// Adds a string to a sorted list, unless it is there already.
pub(crate) fn insert_sorted(v: &mut Vec<String>, s: String)
    requires
        sorted(texts(old(v)@)),
    ensures
        sorted(texts(final(v)@)),
        forall|t: Seq<char>|
            #[trigger] texts(final(v)@).contains(t) <==> texts(old(v)@).contains(t) || t == s@,
{
    let ghost before = texts(v@);
    let mut lo: usize = 0;
    let mut hi: usize = v.len();
    while lo < hi
        invariant
            lo <= hi <= v.len(),
            before == texts(v@),
            sorted(before),
            forall|i: int| 0 <= i < lo ==> less(#[trigger] before[i], s@),
            forall|i: int| hi <= i < before.len() ==> !less(#[trigger] before[i], s@),
        decreases hi - lo,
    {
        let mid = lo + (hi - lo) / 2;
        if str_less(v[mid].as_str(), s.as_str()) {
            assert forall|i: int| 0 <= i < mid + 1 implies less(#[trigger] before[i], s@) by {
                if i < mid {
                    lemma_less_transitive(before[i], before[mid as int], s@);
                }
            }
            lo = mid + 1;
        } else {
            assert forall|i: int| mid <= i < before.len() implies !less(#[trigger] before[i], s@) by {
                if mid < i && less(before[i], s@) {
                    lemma_less_transitive(before[mid as int], before[i], s@);
                }
            }
            hi = mid;
        }
    }
    let ghost added = s@;
    if lo < v.len() && v[lo] == s {
        assert(before[lo as int] == added);
        return;
    }
    v.insert(lo, s);
    let ghost after = texts(v@);
    proof {
        assert(after =~= before.insert(lo as int, added));
        assert forall|i: int, j: int| 0 <= i < j < after.len() implies less(
            #[trigger] after[i],
            #[trigger] after[j],
        ) by {
            if i == lo {
                lemma_less_total(added, before[lo as int]);
                if j - 1 > lo {
                    lemma_less_transitive(added, before[lo as int], before[j - 1]);
                }
                assert(after[j] == before[j - 1]);
            } else if j == lo {
                assert(after[i] == before[i]);
            } else {
                let i0 = if i < lo { i } else { i - 1 };
                let j0 = if j < lo { j } else { j - 1 };
                assert(after[i] == before[i0] && after[j] == before[j0]);
            }
        }
        assert forall|t: Seq<char>| #[trigger] after.contains(t) <==> before.contains(t) || t == added by {
            if after.contains(t) {
                let i = choose|i: int| 0 <= i < after.len() && after[i] == t;
                if i < lo {
                    assert(before[i] == t);
                } else if i > lo {
                    assert(before[i - 1] == t);
                }
            }
            if before.contains(t) {
                let i = choose|i: int| 0 <= i < before.len() && before[i] == t;
                if i < lo {
                    assert(after[i] == t);
                } else {
                    assert(after[i + 1] == t);
                }
            }
            assert(after[lo as int] == added);
        }
    }
}

} // verus!
