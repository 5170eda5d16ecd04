//! The order of texts, and sorting by it.

use vstd::prelude::*;

use crate::text::chars_of;
use crate::text;

verus! {

/// Whether `a` does not come after `b`: the first character in which they differ decides, and a
/// text comes before those that it is the beginning of.
pub open spec fn text_le(a: Seq<char>, b: Seq<char>) -> bool
    decreases a.len(),
{
    if a.len() == 0 {
        true
    } else if b.len() == 0 {
        false
    } else if a[0] != b[0] {
        a[0] < b[0]
    } else {
        text_le(a.drop_first(), b.drop_first())
    }
}

/// Whether no text comes after a later one.
pub open spec fn in_order(texts: Seq<Seq<char>>) -> bool {
    forall|i: int, j: int|
        0 <= i <= j < texts.len() ==> text_le(#[trigger] texts[i], #[trigger] texts[j])
}

/// Of two texts, one does not come after the other.
pub proof fn text_le_total(a: Seq<char>, b: Seq<char>)
    ensures
        text_le(a, b) || text_le(b, a),
    decreases a.len(),
{
    if a.len() > 0 && b.len() > 0 && a[0] == b[0] {
        text_le_total(a.drop_first(), b.drop_first());
    }
}

/// A text comes before what the texts after it come before.
pub proof fn text_le_transitive(a: Seq<char>, b: Seq<char>, c: Seq<char>)
    requires
        text_le(a, b),
        text_le(b, c),
    ensures
        text_le(a, c),
    decreases a.len(),
{
    if a.len() > 0 && a[0] == b[0] && b[0] == c[0] {
        text_le_transitive(a.drop_first(), b.drop_first(), c.drop_first());
    }
}

/// Texts of which neither comes after the other are the same.
pub proof fn text_le_antisymmetric(a: Seq<char>, b: Seq<char>)
    requires
        text_le(a, b),
        text_le(b, a),
    ensures
        a == b,
    decreases a.len(),
{
    if a.len() > 0 {
        text_le_antisymmetric(a.drop_first(), b.drop_first());
        assert(a =~= seq![a[0]] + a.drop_first());
        assert(b =~= seq![b[0]] + b.drop_first());
    } else {
        assert(a =~= b);
    }
}

/// Whether `a` does not come after `b`.
pub fn is_text_le(a: &str, b: &str) -> (r: bool)
    ensures
        r == text_le(a@, b@),
{
    let x = chars_of(a);
    let y = chars_of(b);
    let mut i: usize = 0;
    assert(x@.skip(0) =~= x@);
    assert(y@.skip(0) =~= y@);
    while i < x.len() && i < y.len() && x[i] == y[i]
        invariant
            i <= x@.len(),
            i <= y@.len(),
            text_le(x@, y@) == text_le(x@.skip(i as int), y@.skip(i as int)),
        decreases x@.len() - i,
    {
        assert(x@.skip(i as int).drop_first() =~= x@.skip(i + 1));
        assert(y@.skip(i as int).drop_first() =~= y@.skip(i + 1));
        i = i + 1;
    }
    if i >= x.len() {
        true
    } else if i >= y.len() {
        false
    } else {
        x[i] < y[i]
    }
}

proof fn insertion_keeps_order(texts: Seq<Seq<char>>, i: int, t: Seq<char>)
    requires
        in_order(texts),
        0 <= i <= texts.len(),
        i > 0 ==> text_le(texts[i - 1], t),
        i < texts.len() ==> text_le(t, texts[i]),
    ensures
        in_order(texts.insert(i, t)),
        texts.insert(i, t).to_multiset() == texts.to_multiset().insert(t),
{
    let s = texts.insert(i, t);
    assert forall|a: int, b: int| 0 <= a <= b < s.len() implies text_le(
        #[trigger] s[a],
        #[trigger] s[b],
    ) by {
        if a == b {
            text_le_total(s[a], s[a]);
        } else if b == i {
            text_le_transitive(texts[a], texts[i - 1], t);
        } else if a == i {
            text_le_transitive(t, texts[i], texts[b - 1]);
        }
    }
    s.to_multiset_ensures();
    assert(s.remove(i) =~= texts);
    assert(s[i] == t);
    assert(s.contains(t));
    assert(s.to_multiset().remove(t).insert(t) =~= s.to_multiset());
}

/// Sorts `texts`.
pub fn sort_texts(texts: Vec<String>) -> (r: Vec<String>)
    ensures
        in_order(text::views(r@)),
        text::views(r@).to_multiset() == text::views(texts@).to_multiset(),
{
    let mut sorted: Vec<String> = Vec::new();
    let mut k: usize = 0;
    let ghost all = text::views(texts@);
    assert(text::views(sorted@) =~= all.take(0));
    while k < texts.len()
        invariant
            k <= texts@.len(),
            all == text::views(texts@),
            in_order(text::views(sorted@)),
            text::views(sorted@).to_multiset() == all.take(k as int).to_multiset(),
            sorted@.len() == k,
        decreases texts@.len() - k,
    {
        let t = texts[k].clone();
        let mut i: usize = sorted.len();
        let ghost before = text::views(sorted@);
        while i > 0 && !is_text_le(sorted[i - 1].as_str(), t.as_str())
            invariant
                i <= sorted@.len(),
                before == text::views(sorted@),
                i < before.len() ==> text_le(t@, before[i as int]),
            decreases i,
        {
            proof {
                assert(before[i - 1] == sorted@[i - 1]@);
                text_le_total(before[i - 1], t@);
            }
            i = i - 1;
        }
        proof {
            if i > 0 {
                assert(before[i - 1] == sorted@[i - 1]@);
            }
            insertion_keeps_order(before, i as int, t@);
        }
        let ghost added = t@;
        sorted.insert(i, t);
        proof {
            assert(text::views(sorted@) =~= before.insert(i as int, added));
            assert(all[k as int] == added);
            assert(all.take(k + 1) =~= all.take(k as int).push(added));
            all.take(k as int).to_multiset_ensures();
        }
        k = k + 1;
    }
    assert(all.take(k as int) =~= all);
    sorted
}

/// There is one way to put texts in order.
pub proof fn order_is_unique(a: Seq<Seq<char>>, b: Seq<Seq<char>>)
    requires
        in_order(a),
        in_order(b),
        a.to_multiset() == b.to_multiset(),
    ensures
        a == b,
    decreases a.len(),
{
    a.to_multiset_ensures();
    b.to_multiset_ensures();
    if a.len() > 0 {
        assert(a.contains(a[0]));
        assert(b.contains(b[0]));
        assert(b.to_multiset().count(a[0]) > 0);
        assert(a.to_multiset().count(b[0]) > 0);
        let i = choose|i: int| 0 <= i < b.len() && b[i] == a[0];
        let j = choose|j: int| 0 <= j < a.len() && a[j] == b[0];
        text_le_antisymmetric(a[0], b[0]);
        assert(a.remove(0) =~= a.drop_first());
        assert(b.remove(0) =~= b.drop_first());
        order_is_unique(a.drop_first(), b.drop_first());
        assert(a =~= seq![a[0]] + a.drop_first());
        assert(b =~= seq![b[0]] + b.drop_first());
    } else {
        assert(a =~= b);
    }
}

} // verus!
