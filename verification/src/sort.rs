//! A stable sort of values by an order on what they show.

use vstd::prelude::*;

verus! {

/// A value that is ordered by its view.
pub trait Ranked: View {
    /// Whether `a` goes before `b`.
    spec fn ranks_before(a: Self::V, b: Self::V) -> bool;

    /// Whether this value goes before `other`.
    fn goes_before(&self, other: &Self) -> (r: bool)
        ensures
            r == Self::ranks_before(self@, other@),
    ;
}

/// The views of a list of values.
pub open spec fn views<T: View>(s: Seq<T>) -> Seq<T::V> {
    s.map_values(|t: T| t@)
}

/// The first position from `i` on whose value goes after `e`.
pub open spec fn slot<V>(s: Seq<V>, e: V, less: spec_fn(V, V) -> bool, i: int) -> int
    decreases s.len() - i,
{
    if i < 0 || i >= s.len() {
        s.len() as int
    } else if less(e, s[i]) {
        i
    } else {
        slot(s, e, less, i + 1)
    }
}

/// `s` in order, values that neither goes before the other in the order in
/// which they stood.
pub open spec fn sorted<V>(s: Seq<V>, less: spec_fn(V, V) -> bool) -> Seq<V>
    decreases s.len(),
{
    if s.len() == 0 {
        s
    } else {
        let head = sorted(s.drop_last(), less);
        head.insert(slot(head, s.last(), less, 0), s.last())
    }
}

/// The slot found lies in the list or right behind it; before it no value
/// goes after `e`.
pub proof fn lemma_slot<V>(s: Seq<V>, e: V, less: spec_fn(V, V) -> bool, i: int)
    requires
        0 <= i <= s.len(),
    ensures
        i <= slot(s, e, less, i) <= s.len(),
        forall|j: int| i <= j < slot(s, e, less, i) ==> !less(e, #[trigger] s[j]),
        slot(s, e, less, i) < s.len() ==> less(e, s[slot(s, e, less, i)]),
    decreases s.len() - i,
{
    if i < s.len() && !less(e, s[i]) {
        lemma_slot(s, e, less, i + 1);
    }
}

/// Sorting keeps the values and their number.
pub proof fn law_sorted_keeps<V>(s: Seq<V>, less: spec_fn(V, V) -> bool)
    ensures
        sorted(s, less).len() == s.len(),
        sorted(s, less).to_multiset() == s.to_multiset(),
    decreases s.len(),
{
    if s.len() > 0 {
        let head = sorted(s.drop_last(), less);
        law_sorted_keeps(s.drop_last(), less);
        lemma_slot(head, s.last(), less, 0);
        let k = slot(head, s.last(), less, 0);
        let t = head.insert(k, s.last());
        assert(s =~= s.drop_last().push(s.last()));
        s.drop_last().to_multiset_ensures();
        t.to_multiset_ensures();
        assert(t[k] == s.last());
        assert(t.remove(k) =~= head);
        assert(t.to_multiset().count(s.last()) > 0);
        assert(t.to_multiset() =~= head.to_multiset().insert(s.last()));
    }
}

/// What is in a list is in the sorted list, and the other way round.
pub proof fn lemma_same_members<V>(s: Seq<V>, less: spec_fn(V, V) -> bool, v: V)
    ensures
        s.contains(v) == sorted(s, less).contains(v),
{
    law_sorted_keeps(s, less);
    s.to_multiset_ensures();
    sorted(s, less).to_multiset_ensures();
    assert(s.contains(v) == (s.to_multiset().count(v) > 0));
    assert(sorted(s, less).contains(v) == (sorted(s, less).to_multiset().count(v) > 0));
}

/// Whether `less` is a strict order: nothing goes before itself, and what
/// goes before a value that goes before another, or that it ties with, goes
/// before that other too.
pub open spec fn is_strict_order<V>(less: spec_fn(V, V) -> bool) -> bool {
    &&& forall|a: V| !#[trigger] less(a, a)
    &&& forall|a: V, b: V, c: V| #[trigger] less(a, b) && #[trigger] less(b, c) ==> less(a, c)
    &&& forall|a: V, b: V, c: V| #[trigger] less(a, c) && !#[trigger] less(b, c) ==> less(a, b)
}

/// In a sorted list no value goes before one that stands ahead of it.
pub proof fn law_sorted_is_ordered<V>(s: Seq<V>, less: spec_fn(V, V) -> bool)
    requires
        is_strict_order(less),
    ensures
        forall|i: int, j: int|
            #![trigger sorted(s, less)[i], sorted(s, less)[j]]
            0 <= i < j < sorted(s, less).len() ==> !less(sorted(s, less)[j], sorted(s, less)[i]),
    decreases s.len(),
{
    if s.len() > 0 {
        let head = sorted(s.drop_last(), less);
        let e = s.last();
        law_sorted_is_ordered(s.drop_last(), less);
        lemma_slot(head, e, less, 0);
        let k = slot(head, e, less, 0);
        let t = head.insert(k, e);
        assert forall|i: int, j: int|
            #![trigger t[i], t[j]]
            0 <= i < j < t.len() implies !less(t[j], t[i]) by {
            if i < k && j > k {
                assert(t[i] == head[i] && t[j] == head[j - 1]);
            } else if i < k && j == k {
                assert(t[i] == head[i]);
            } else if i == k {
                assert(t[j] == head[j - 1]);
                if less(t[j], e) {
                    assert(less(e, head[k]));
                    assert(less(t[j], head[k]));
                    if j - 1 == k {
                        assert(!less(t[j], t[j]));
                    }
                }
            } else if j < k {
                assert(t[i] == head[i] && t[j] == head[j]);
            } else {
                assert(t[i] == head[i - 1] && t[j] == head[j - 1]);
            }
        }
    }
}

/// Sort `v` by its order, stably.
pub fn stable_sort<T: Ranked>(v: Vec<T>) -> (r: Vec<T>)
    ensures
        views(r@) == sorted(views(v@), |a: T::V, b: T::V| T::ranks_before(a, b)),
{
    let ghost less = |a: T::V, b: T::V| T::ranks_before(a, b);
    let ghost all = views(v@);
    let mut rest = v;
    let mut out: Vec<T> = Vec::new();
    let mut stack: Vec<T> = Vec::new();
    // Turn the list round, so that its values can be taken from the front.
    while rest.len() > 0
        invariant
            all == views(rest@) + views(stack@).reverse(),
        decreases rest@.len(),
    {
        let ghost before = rest@;
        let ghost stacked = stack@;
        match rest.pop() {
            Some(t) => {
                stack.push(t);
                proof {
                    assert(views(before) =~= views(rest@).push(t@));
                    assert(views(stack@) =~= views(stacked).push(t@));
                    assert(views(stack@).reverse() =~= seq![t@] + views(stacked).reverse());
                    assert(views(rest@).push(t@) + views(stacked).reverse() =~= views(rest@)
                        + views(stack@).reverse());
                }
            },
            None => {},
        }
    }
    assert(views(rest@) =~= Seq::<T::V>::empty());
    assert(all =~= views(stack@).reverse());
    let ghost mut done: Seq<T::V> = Seq::empty();
    assert(sorted(done, less) =~= views(out@));
    assert(all =~= done + views(stack@).reverse());
    while stack.len() > 0
        invariant
            all == done + views(stack@).reverse(),
            views(out@) == sorted(done, less),
            less == (|a: T::V, b: T::V| T::ranks_before(a, b)),
        decreases stack@.len(),
    {
        let ghost stacked = stack@;
        match stack.pop() {
            Some(t) => {
                let ghost placed = out@;
                let mut i: usize = 0;
                while i < out.len()
                    invariant
                        i <= out@.len(),
                        less == (|a: T::V, b: T::V| T::ranks_before(a, b)),
                        slot(views(out@), t@, less, 0) == slot(views(out@), t@, less, i as int),
                    ensures
                        i <= out@.len(),
                        slot(views(out@), t@, less, 0) == i,
                    decreases out@.len() - i,
                {
                    if t.goes_before(&out[i]) {
                        assert(less(t@, views(out@)[i as int]));
                        break;
                    }
                    i = i + 1;
                }
                let ghost e = t@;
                out.insert(i, t);
                proof {
                    assert(views(out@) =~= views(placed).insert(i as int, e));
                    assert(views(stacked) =~= views(stack@).push(e));
                    assert(views(stacked).reverse() =~= seq![e] + views(stack@).reverse());
                    assert(done.push(e).drop_last() =~= done);
                    assert(done + views(stacked).reverse() =~= done.push(e)
                        + views(stack@).reverse());
                    done = done.push(e);
                }
            },
            None => {},
        }
    }
    assert(all =~= done);
    out
}

impl Ranked for String {
    open spec fn ranks_before(a: Seq<char>, b: Seq<char>) -> bool {
        crate::text::lex_less(a, b)
    }

    fn goes_before(&self, other: &Self) -> (r: bool) {
        crate::text::before(self, other)
    }
}

/// The order of texts is a strict order.
pub proof fn lemma_lex_is_strict_order()
    ensures
        is_strict_order(|a: Seq<char>, b: Seq<char>| crate::text::lex_less(a, b)),
{
    let less = |a: Seq<char>, b: Seq<char>| crate::text::lex_less(a, b);
    assert forall|a: Seq<char>| !#[trigger] less(a, a) by {
        crate::text::lemma_lex_irreflexive(a);
    }
    assert forall|a: Seq<char>, b: Seq<char>, c: Seq<char>| #[trigger]
        less(a, b) && #[trigger] less(b, c) implies less(a, c) by {
        crate::text::lemma_lex_transitive(a, b, c);
    }
    assert forall|a: Seq<char>, b: Seq<char>, c: Seq<char>| #[trigger]
        less(a, c) && !#[trigger] less(b, c) implies less(a, b) by {
        crate::text::lemma_lex_total(a, b);
        crate::text::lemma_lex_total(b, c);
        if less(b, a) {
            crate::text::lemma_lex_transitive(b, a, c);
        }
    }
}

/// Whether one pair of texts goes before another: by the first text, then by
/// the second.
pub open spec fn pair_less(a: (Seq<char>, Seq<char>), b: (Seq<char>, Seq<char>)) -> bool {
    crate::text::lex_less(a.0, b.0) || (a.0 == b.0 && crate::text::lex_less(a.1, b.1))
}

impl Ranked for (String, String) {
    open spec fn ranks_before(a: (Seq<char>, Seq<char>), b: (Seq<char>, Seq<char>)) -> bool {
        pair_less(a, b)
    }

    fn goes_before(&self, other: &Self) -> (r: bool) {
        crate::text::before(&self.0, &other.0) || (crate::text::same(&self.0, &other.0)
            && crate::text::before(&self.1, &other.1))
    }
}

} // verus!
