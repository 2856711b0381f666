//! The order of texts: character by character, a text before every longer
//! one that starts with it.

use vstd::prelude::*;

verus! {

/// Whether `a` and `b` agree in their first `k` characters and `a` is the
/// lesser one from there: it ends there and `b` goes on, or its next
/// character is the lesser one.
pub open spec fn less_at(a: Seq<char>, b: Seq<char>, k: int) -> bool {
    &&& 0 <= k <= a.len()
    &&& k < b.len()
    &&& forall|j: int| 0 <= j < k ==> a[j] == b[j]
    &&& k < a.len() ==> a[k] < b[k]
}

/// Whether `a` comes before `b` in the order of texts.
pub open spec fn text_less(a: Seq<char>, b: Seq<char>) -> bool {
    exists|k: int| less_at(a, b, k)
}

/// How one item stands to another in an order.
#[derive(Debug, Clone, Copy)]
pub enum Rank {
    Below,
    Same,
    Above,
}

/// No text comes before itself.
pub proof fn lemma_text_less_irreflexive(a: Seq<char>)
    ensures
        !text_less(a, a),
{
}

/// A text that comes before a second one comes before every text that the
/// second one comes before.
pub proof fn lemma_text_less_transitive(a: Seq<char>, b: Seq<char>, c: Seq<char>)
    requires
        text_less(a, b),
        text_less(b, c),
    ensures
        text_less(a, c),
{
    let k1 = choose|k: int| less_at(a, b, k);
    let k2 = choose|k: int| less_at(b, c, k);
    if k1 <= k2 {
        assert(less_at(a, c, k1));
    } else {
        assert(less_at(a, c, k2));
    }
}

/// Of two texts that differ, one comes before the other.
pub proof fn lemma_text_order_total(a: Seq<char>, b: Seq<char>)
    ensures
        a == b || text_less(a, b) || text_less(b, a),
{
    if a != b {
        lemma_first_difference(a, b, 0);
    }
}

/// Two texts that agree in their first `k` characters are equal, or one
/// comes before the other.
proof fn lemma_first_difference(a: Seq<char>, b: Seq<char>, k: int)
    requires
        0 <= k <= a.len(),
        k <= b.len(),
        forall|j: int| 0 <= j < k ==> a[j] == b[j],
    ensures
        a == b || text_less(a, b) || text_less(b, a),
    decreases a.len() - k,
{
    if k == a.len() {
        if k == b.len() {
            assert(a =~= b);
        } else {
            assert(less_at(a, b, k));
        }
    } else if k == b.len() {
        assert(less_at(b, a, k));
    } else if a[k] < b[k] {
        assert(less_at(a, b, k));
    } else if b[k] < a[k] {
        assert(less_at(b, a, k));
    } else {
        lemma_first_difference(a, b, k + 1);
    }
}

/// Compares two texts.
pub fn compare_text(a: &Vec<char>, b: &Vec<char>) -> (r: Rank)
    ensures
        r is Below <==> text_less(a@, b@),
        r is Same <==> a@ == b@,
        r is Above <==> text_less(b@, a@),
{
    let mut k: usize = 0;
    while k < a.len() && k < b.len() && a[k] == b[k]
        invariant
            k <= a.len(),
            k <= b.len(),
            forall|j: int| 0 <= j < k ==> a@[j] == b@[j],
        decreases a.len() - k,
    {
        k += 1;
    }
    proof {
        lemma_text_less_irreflexive(a@);
        if text_less(a@, b@) && text_less(b@, a@) {
            lemma_text_less_transitive(a@, b@, a@);
        }
    }
    if k == a.len() {
        if k == b.len() {
            assert(a@ =~= b@);
            Rank::Same
        } else {
            assert(less_at(a@, b@, k as int));
            Rank::Below
        }
    } else if k == b.len() {
        assert(less_at(b@, a@, k as int));
        Rank::Above
    } else if a[k] < b[k] {
        assert(less_at(a@, b@, k as int));
        Rank::Below
    } else {
        assert(less_at(b@, a@, k as int));
        Rank::Above
    }
}

/// Whether every item of `s` comes before every later one.
pub open spec fn ascending<A>(s: Seq<A>, less: spec_fn(A, A) -> bool) -> bool {
    forall|i: int, j: int| 0 <= i < j < s.len() ==> less(#[trigger] s[i], #[trigger] s[j])
}

/// Whether `less` is a strict order: nothing comes before itself, and what
/// comes before an item comes before everything that the item comes before.
pub open spec fn strict_order<A>(less: spec_fn(A, A) -> bool) -> bool {
    &&& forall|x: A| !#[trigger] less(x, x)
    &&& forall|x: A, y: A, z: A| #[trigger] less(x, y) && #[trigger] less(y, z) ==> less(x, z)
}

/// The order of texts as a value.
pub open spec fn text_order() -> spec_fn(Seq<char>, Seq<char>) -> bool {
    |a: Seq<char>, b: Seq<char>| text_less(a, b)
}

/// The order of texts is a strict order.
pub proof fn lemma_text_order_strict()
    ensures
        strict_order(text_order()),
{
    assert forall|x: Seq<char>| !#[trigger] text_order()(x, x) by {
        lemma_text_less_irreflexive(x);
    }
    assert forall|x: Seq<char>, y: Seq<char>, z: Seq<char>| #[trigger]
        text_order()(x, y) && #[trigger] text_order()(y, z) implies text_order()(x, z) by {
        lemma_text_less_transitive(x, y, z);
    }
}

/// There is one way only to put given items in ascending order: two
/// ascending sequences that hold the same items are equal.
pub proof fn lemma_ascending_unique<A>(a: Seq<A>, b: Seq<A>, less: spec_fn(A, A) -> bool)
    requires
        strict_order(less),
        ascending(a, less),
        ascending(b, less),
        forall|x: A| a.contains(x) <==> b.contains(x),
    ensures
        a == b,
    decreases a.len(),
{
    if a.len() == 0 {
        if b.len() > 0 {
            assert(b.contains(b[0]));
        }
        assert(a =~= b);
    } else {
        let top = a.last();
        assert(a.contains(top));
        let j = choose|j: int| 0 <= j < b.len() && b[j] == top;
        assert(b.contains(b.last()));
        let i = choose|i: int| 0 <= i < a.len() && a[i] == b.last();
        if j < b.len() - 1 {
            assert(less(b[j], b[b.len() - 1]));
            if i < a.len() - 1 {
                assert(less(a[i], a[a.len() - 1]));
            }
        }
        assert(b.last() == top);
        let a0 = a.drop_last();
        let b0 = b.drop_last();
        assert forall|x: A| a0.contains(x) <==> b0.contains(x) by {
            if a0.contains(x) {
                let k = choose|k: int| 0 <= k < a0.len() && a0[k] == x;
                assert(a[k] == x);
                assert(less(a[k], a[a.len() - 1]));
                assert(a.contains(x));
                let m = choose|m: int| 0 <= m < b.len() && b[m] == x;
                assert(b0[m] == x);
            }
            if b0.contains(x) {
                let k = choose|k: int| 0 <= k < b0.len() && b0[k] == x;
                assert(b[k] == x);
                assert(less(b[k], b[b.len() - 1]));
                assert(b.contains(x));
                let m = choose|m: int| 0 <= m < a.len() && a[m] == x;
                assert(a0[m] == x);
            }
        }
        assert(ascending(a0, less)) by {
            assert forall|p: int, q: int| 0 <= p < q < a0.len() implies less(
                #[trigger] a0[p],
                #[trigger] a0[q],
            ) by {
                assert(a0[p] == a[p] && a0[q] == a[q]);
            }
        }
        assert(ascending(b0, less)) by {
            assert forall|p: int, q: int| 0 <= p < q < b0.len() implies less(
                #[trigger] b0[p],
                #[trigger] b0[q],
            ) by {
                assert(b0[p] == b[p] && b0[q] == b[q]);
            }
        }
        lemma_ascending_unique(a0, b0, less);
        assert(a =~= a0.push(top));
        assert(b =~= b0.push(top));
    }
}

} // verus!
