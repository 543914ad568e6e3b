//! Rows and what is asked of them: looking one up, keeping some, putting them
//! in order, and reading each into a value that may be refused.

use crate::text;
use vstd::prelude::*;

verus! {

// ---- looking up ---------------------------------------------------------

/// The first element that meets `p`.
pub open spec fn first<V>(s: Seq<V>, p: spec_fn(V) -> bool) -> Option<V>
    decreases s.len(),
{
    if s.len() == 0 {
        None
    } else {
        match first(s.drop_last(), p) {
            Some(x) => Some(x),
            None => if p(s.last()) {
                Some(s.last())
            } else {
                None
            },
        }
    }
}

/// Whether some element meets `p`.
pub open spec fn any<V>(s: Seq<V>, p: spec_fn(V) -> bool) -> bool {
    exists|i: int| 0 <= i < s.len() && p(#[trigger] s[i])
}

/// What the first match is, and when there is none.
pub proof fn lemma_first<V>(s: Seq<V>, p: spec_fn(V) -> bool)
    ensures
        match first(s, p) {
            Some(x) => p(x) && s.contains(x) && any(s, p),
            None => !any(s, p) && forall|i: int| 0 <= i < s.len() ==> !p(#[trigger] s[i]),
        },
    decreases s.len(),
{
    if s.len() > 0 {
        let head = s.drop_last();
        lemma_first(head, p);
        match first(head, p) {
            Some(x) => {
                let i = choose|i: int| 0 <= i < head.len() && head[i] == x;
                assert(s[i] == x);
            },
            None => {
                assert forall|i: int| 0 <= i < s.len() && !p(s.last()) implies !p(
                    #[trigger] s[i],
                ) by {
                    if i < head.len() {
                        assert(head[i] == s[i]);
                    }
                }
                if p(s.last()) {
                    assert(s[s.len() - 1] == s.last());
                }
            },
        }
    }
}

/// The only element that meets `p` is the first that does.
pub proof fn lemma_first_is<V>(s: Seq<V>, p: spec_fn(V) -> bool, k: int)
    requires
        0 <= k < s.len(),
        p(s[k]),
        forall|i: int| 0 <= i < s.len() && p(#[trigger] s[i]) ==> s[i] == s[k],
    ensures
        first(s, p) == Some(s[k]),
{
    lemma_first(s, p);
}

/// Where the first row that meets `p` stands.
pub(crate) fn find<T: View, F: Fn(&T) -> bool>(
    rows: &Vec<T>,
    hit: F,
    Ghost(p): Ghost<spec_fn(T::V) -> bool>,
) -> (r: Option<usize>)
    requires
        forall|x: &T| #[trigger] hit.requires((x,)),
        forall|x: &T, b: bool| #[trigger] hit.ensures((x,), b) ==> b == p(x@),
    ensures
        match r {
            Some(i) => i < rows@.len() && p(rows@[i as int]@) && first(text::views(rows@), p)
                == Some(rows@[i as int]@),
            None => first(text::views(rows@), p) is None,
        },
{
    let mut i: usize = 0;
    let ghost all = text::views(rows@);
    proof {
        assert(all.take(0) =~= Seq::<T::V>::empty());
    }
    while i < rows.len()
        invariant
            i <= rows@.len(),
            all == text::views(rows@),
            first(all.take(i as int), p) is None,
            forall|x: &T| #[trigger] hit.requires((x,)),
            forall|x: &T, b: bool| #[trigger] hit.ensures((x,), b) ==> b == p(x@),
        decreases rows@.len() - i,
    {
        proof {
            text::lemma_views_step(rows@, i as int);
        }
        if hit(&rows[i]) {
            proof {
                lemma_first_prefix(all, p, i + 1);
            }
            return Some(i);
        }
        i += 1;
    }
    proof {
        assert(all.take(i as int) =~= all);
    }
    None
}

/// A match within a prefix is the first match of the whole.
pub proof fn lemma_first_prefix<V>(s: Seq<V>, p: spec_fn(V) -> bool, n: int)
    requires
        0 <= n <= s.len(),
        first(s.take(n), p) is Some,
    ensures
        first(s, p) == first(s.take(n), p),
    decreases s.len() - n,
{
    if n == s.len() {
        assert(s.take(n) =~= s);
    } else {
        assert(s.take(n + 1).drop_last() =~= s.take(n));
        lemma_first_prefix(s, p, n + 1);
    }
}

/// Whether some row meets `p`.
pub(crate) fn holds_some<T: View, F: Fn(&T) -> bool>(
    rows: &Vec<T>,
    hit: F,
    Ghost(p): Ghost<spec_fn(T::V) -> bool>,
) -> (r: bool)
    requires
        forall|x: &T| #[trigger] hit.requires((x,)),
        forall|x: &T, b: bool| #[trigger] hit.ensures((x,), b) ==> b == p(x@),
    ensures
        r == any(text::views(rows@), p),
{
    proof {
        lemma_first(text::views(rows@), p);
    }
    match find(rows, hit, Ghost(p)) {
        Some(_) => true,
        None => false,
    }
}

// ---- keeping ------------------------------------------------------------

/// Keeps the rows that meet `p`, in their order.
pub(crate) fn retain<T: View, F: Fn(&T) -> bool>(
    rows: &mut Vec<T>,
    keep: F,
    Ghost(p): Ghost<spec_fn(T::V) -> bool>,
)
    requires
        forall|x: &T| #[trigger] keep.requires((x,)),
        forall|x: &T, b: bool| #[trigger] keep.ensures((x,), b) ==> b == p(x@),
    ensures
        text::views(final(rows)@) == text::views(old(rows)@).filter(p),
{
    let ghost all = text::views(rows@);
    let mut i: usize = 0;
    let ghost mut k: int = 0;
    proof {
        reveal(Seq::filter);
        assert(all.take(0).filter(p) + all.skip(0) =~= all);
    }
    while i < rows.len()
        invariant
            0 <= k <= all.len(),
            i == all.take(k).filter(p).len(),
            text::views(rows@) == all.take(k).filter(p) + all.skip(k),
            i <= rows@.len(),
            forall|x: &T| #[trigger] keep.requires((x,)),
            forall|x: &T, b: bool| #[trigger] keep.ensures((x,), b) ==> b == p(x@),
        decreases rows@.len() - i,
    {
        let ghost before = text::views(rows@);
        let ghost kept = all.take(k).filter(p);
        proof {
            assert(before.len() == rows@.len());
            assert(k < all.len());
            assert(before[i as int] == rows@[i as int]@);
            assert(before[i as int] == all[k]);
            assert(all.take(k + 1) =~= all.take(k).push(all[k]));
            all.take(k).lemma_filter_push(all[k], p);
        }
        if keep(&rows[i]) {
            i += 1;
            proof {
                assert(all.take(k + 1).filter(p) + all.skip(k + 1) =~= before);
            }
        } else {
            let _ = rows.remove(i);
            proof {
                assert(text::views(rows@) =~= before.remove(i as int));
                assert(before.remove(i as int) =~= kept + all.skip(k + 1));
            }
        }
        proof {
            k = k + 1;
        }
    }
    proof {
        let kept = all.take(k).filter(p);
        assert(text::views(rows@).len() == rows@.len());
        assert(all.skip(k).len() == 0);
        assert(kept + all.skip(k) =~= kept);
        assert(all.take(k) =~= all);
    }
}

/// The rows that meet `p`, in their order.
pub(crate) fn chosen<'a, T: View, F: Fn(&T) -> bool>(
    rows: &'a Vec<T>,
    keep: F,
    Ghost(p): Ghost<spec_fn(T::V) -> bool>,
) -> (r: Vec<&'a T>)
    requires
        forall|x: &T| #[trigger] keep.requires((x,)),
        forall|x: &T, b: bool| #[trigger] keep.ensures((x,), b) ==> b == p(x@),
    ensures
        text::views(r@) == text::views(rows@).filter(p),
{
    let ghost all = text::views(rows@);
    let mut out: Vec<&'a T> = Vec::new();
    let mut i: usize = 0;
    proof {
        reveal(Seq::filter);
        assert(text::views(out@) =~= all.take(0).filter(p));
    }
    while i < rows.len()
        invariant
            i <= rows@.len(),
            all == text::views(rows@),
            text::views(out@) == all.take(i as int).filter(p),
            forall|x: &T| #[trigger] keep.requires((x,)),
            forall|x: &T, b: bool| #[trigger] keep.ensures((x,), b) ==> b == p(x@),
        decreases rows@.len() - i,
    {
        proof {
            text::lemma_views_step(rows@, i as int);
            all.take(i as int).lemma_filter_push(rows@[i as int]@, p);
        }
        if keep(&rows[i]) {
            proof {
                text::lemma_views_push(out@, &rows@[i as int]);
            }
            out.push(&rows[i]);
        }
        i += 1;
    }
    proof {
        assert(all.take(i as int) =~= all);
    }
    out
}

/// All the rows, in their order.
pub(crate) fn borrowed<'a, T: View>(rows: &'a Vec<T>) -> (r: Vec<&'a T>)
    ensures
        text::views(r@) == text::views(rows@),
{
    let mut out: Vec<&'a T> = Vec::new();
    let mut i: usize = 0;
    while i < rows.len()
        invariant
            i <= rows@.len(),
            out@.len() == i,
            forall|k: int| 0 <= k < i ==> (#[trigger] out@[k])@ == rows@[k]@,
        decreases rows@.len() - i,
    {
        out.push(&rows[i]);
        i += 1;
    }
    proof {
        assert(text::views(out@) =~= text::views(rows@));
    }
    out
}

// ---- ordering -----------------------------------------------------------

/// `x` put after the last element that may stand before it.
pub open spec fn place<V>(s: Seq<V>, x: V, le: spec_fn(V, V) -> bool) -> Seq<V>
    decreases s.len(),
{
    if s.len() == 0 {
        seq![x]
    } else if le(s.last(), x) {
        s.push(x)
    } else {
        place(s.drop_last(), x, le).push(s.last())
    }
}

/// The elements in ascending order; those that compare alike keep theirs.
pub open spec fn ordered<V>(s: Seq<V>, le: spec_fn(V, V) -> bool) -> Seq<V>
    decreases s.len(),
{
    if s.len() == 0 {
        s
    } else {
        place(ordered(s.drop_last(), le), s.last(), le)
    }
}

/// Whether each element may stand before every later one.
pub open spec fn ascending<V>(s: Seq<V>, le: spec_fn(V, V) -> bool) -> bool {
    forall|i: int, j: int| 0 <= i < j < s.len() ==> #[trigger] le(s[i], s[j])
}

/// Whether `le` compares any two elements, and compares them consistently.
pub open spec fn preorder<V>(le: spec_fn(V, V) -> bool) -> bool {
    &&& forall|a: V, b: V| #[trigger] le(a, b) || le(b, a)
    &&& forall|a: V, b: V, c: V| #[trigger] le(a, b) && #[trigger] le(b, c) ==> le(a, c)
}

pub proof fn lemma_place<V>(s: Seq<V>, x: V, le: spec_fn(V, V) -> bool)
    requires
        preorder(le),
        ascending(s, le),
    ensures
        ascending(place(s, x, le), le),
        place(s, x, le).to_multiset() == s.to_multiset().insert(x),
        place(s, x, le).len() == s.len() + 1,
        forall|y: V| #[trigger] place(s, x, le).contains(y) ==> y == x || s.contains(y),
    decreases s.len(),
{
    broadcast use vstd::seq_lib::group_to_multiset_ensures;

    if s.len() == 0 {
        assert(s =~= Seq::<V>::empty());
        assert(seq![x] =~= s.push(x));
    } else if le(s.last(), x) {
        let out = s.push(x);
        assert forall|i: int, j: int| 0 <= i < j < out.len() implies #[trigger] le(
            out[i],
            out[j],
        ) by {
            if j == s.len() && i < s.len() - 1 {
                assert(le(s[i], s[s.len() - 1]));
                assert(le(s.last(), x));
            }
        }
        assert forall|y: V| #[trigger] out.contains(y) implies y == x || s.contains(y) by {
            let i = choose|i: int| 0 <= i < out.len() && out[i] == y;
            if i < s.len() {
                assert(s[i] == y);
            }
        }
    } else {
        let head = s.drop_last();
        assert(ascending(head, le)) by {
            assert forall|i: int, j: int| 0 <= i < j < head.len() implies #[trigger] le(
                head[i],
                head[j],
            ) by {
                assert(le(s[i], s[j]));
            }
        }
        lemma_place(head, x, le);
        let inner = place(head, x, le);
        let out = inner.push(s.last());
        assert(head.push(s.last()) =~= s);
        assert forall|i: int, j: int| 0 <= i < j < out.len() implies #[trigger] le(
            out[i],
            out[j],
        ) by {
            if j == inner.len() {
                assert(inner.contains(inner[i]));
                if inner[i] == x {
                    assert(le(x, s.last()));
                } else {
                    let k = choose|k: int| 0 <= k < head.len() && head[k] == inner[i];
                    assert(le(s[k], s[s.len() - 1]));
                }
            } else {
                assert(le(inner[i], inner[j]));
            }
        }
        assert forall|y: V| #[trigger] out.contains(y) implies y == x || s.contains(y) by {
            let i = choose|i: int| 0 <= i < out.len() && out[i] == y;
            if i < inner.len() {
                assert(inner.contains(y));
                if y != x {
                    let k = choose|k: int| 0 <= k < head.len() && head[k] == y;
                    assert(s[k] == y);
                }
            } else {
                assert(s[s.len() - 1] == y);
            }
        }
        assert(out.to_multiset() =~= s.to_multiset().insert(x));
    }
}

/// A sequence whose elements all stand in another, each at a place of its own,
/// has none of them more often.
pub proof fn lemma_embedded<V>(s: Seq<V>, t: Seq<V>, places: Seq<int>)
    requires
        places.len() == s.len(),
        forall|i: int|
            0 <= i < s.len() ==> 0 <= #[trigger] places[i] < t.len() && t[places[i]] == s[i],
        forall|i: int, j: int|
            0 <= i < j < s.len() ==> #[trigger] places[i] != #[trigger] places[j],
    ensures
        s.to_multiset().subset_of(t.to_multiset()),
    decreases s.len(),
{
    broadcast use vstd::seq_lib::group_to_multiset_ensures;

    if s.len() > 0 {
        let head = s.drop_last();
        let at = places.last();
        let rest = t.remove(at);
        let moved = Seq::new(
            head.len(),
            |i: int|
                if places[i] < at {
                    places[i]
                } else {
                    places[i] - 1
                },
        );
        assert(places[s.len() - 1] == at);
        lemma_embedded(head, rest, moved);
        assert(head.push(s.last()) =~= s);
        assert(t[at] == s.last());
        assert forall|v: V| s.to_multiset().count(v) <= #[trigger] t.to_multiset().count(v) by {
            assert(head.to_multiset().count(v) <= rest.to_multiset().count(v));
            assert(rest.to_multiset() == t.to_multiset().remove(s.last()));
        }
    } else {
        assert(s =~= Seq::<V>::empty());
    }
}

/// Putting an element in its place adds what it maps to and nothing else.
proof fn lemma_place_mapped<V, W>(s: Seq<V>, x: V, le: spec_fn(V, V) -> bool, f: spec_fn(V) -> W)
    ensures
        place(s, x, le).map_values(f).to_multiset() == s.map_values(f).to_multiset().insert(f(x)),
    decreases s.len(),
{
    broadcast use vstd::seq_lib::group_to_multiset_ensures;

    if s.len() == 0 {
        assert(s.map_values(f) =~= Seq::<W>::empty());
        assert(place(s, x, le).map_values(f) =~= Seq::<W>::empty().push(f(x)));
    } else if le(s.last(), x) {
        assert(s.push(x).map_values(f) =~= s.map_values(f).push(f(x)));
    } else {
        let head = s.drop_last();
        lemma_place_mapped(head, x, le, f);
        assert(s.map_values(f) =~= head.map_values(f).push(f(s.last())));
        assert(place(s, x, le).map_values(f) =~= place(head, x, le).map_values(f).push(
            f(s.last()),
        ));
        assert(head.map_values(f).to_multiset().insert(f(x)).insert(f(s.last()))
            =~= head.map_values(f).to_multiset().insert(f(s.last())).insert(f(x)));
    }
}

/// Ordering neither adds nor loses what elements map to.
pub proof fn lemma_ordered_mapped<V, W>(
    s: Seq<V>,
    le: spec_fn(V, V) -> bool,
    f: spec_fn(V) -> W,
)
    ensures
        ordered(s, le).map_values(f).to_multiset() == s.map_values(f).to_multiset(),
        ordered(s, le).len() == s.len(),
    decreases s.len(),
{
    broadcast use vstd::seq_lib::group_to_multiset_ensures;

    if s.len() > 0 {
        let head = s.drop_last();
        lemma_ordered_mapped(head, le, f);
        lemma_place_mapped(ordered(head, le), s.last(), le, f);
        assert(s.map_values(f) =~= head.map_values(f).push(f(s.last())));
        assert(ordered(s, le).map_values(f).to_multiset().len()
            == s.map_values(f).to_multiset().len());
    }
}

/// Keeping twice is keeping what both keep.
pub proof fn lemma_filter_twice<V>(
    s: Seq<V>,
    p: spec_fn(V) -> bool,
    q: spec_fn(V) -> bool,
    both: spec_fn(V) -> bool,
)
    requires
        forall|i: int|
            0 <= i < s.len() ==> both(#[trigger] s[i]) == (p(s[i]) && q(s[i])),
    ensures
        s.filter(p).filter(q) == s.filter(both),
    decreases s.len(),
{
    reveal(Seq::filter);
    if s.len() > 0 {
        let head = s.drop_last();
        assert forall|i: int| 0 <= i < head.len() implies both(#[trigger] head[i]) == (p(head[i])
            && q(head[i])) by {
            assert(both(s[i]) == (p(s[i]) && q(s[i])));
        }
        lemma_filter_twice(head, p, q, both);
        assert(both(s[s.len() - 1]) == (p(s.last()) && q(s.last())));
        if p(s.last()) {
            head.filter(p).lemma_filter_push(s.last(), q);
        }
    }
}

/// Conditions that agree on the elements keep the same ones.
pub proof fn lemma_filter_same<V>(s: Seq<V>, p: spec_fn(V) -> bool, q: spec_fn(V) -> bool)
    requires
        forall|i: int| 0 <= i < s.len() ==> p(#[trigger] s[i]) == q(s[i]),
    ensures
        s.filter(p) == s.filter(q),
    decreases s.len(),
{
    reveal(Seq::filter);
    if s.len() > 0 {
        let head = s.drop_last();
        assert forall|i: int| 0 <= i < head.len() implies p(#[trigger] head[i]) == q(head[i]) by {
            assert(p(s[i]) == q(s[i]));
        }
        lemma_filter_same(head, p, q);
        assert(p(s[s.len() - 1]) == q(s.last()));
    }
}

/// What is kept of a sequence is what it has that meets the condition.
pub proof fn lemma_filter_members<V>(s: Seq<V>, keep: spec_fn(V) -> bool)
    ensures
        forall|x: V| #[trigger] s.filter(keep).contains(x) <==> s.contains(x) && keep(x),
    decreases s.len(),
{
    reveal(Seq::filter);
    if s.len() > 0 {
        let head = s.drop_last();
        lemma_filter_members(head, keep);
        lemma_push_members(head, s.last());
        lemma_push_members(head.filter(keep), s.last());
        assert(head.push(s.last()) =~= s);
    }
}

/// What holds of each element and every later one holds of those that are
/// kept: what is left of an ascending sequence is ascending.
pub proof fn lemma_ascending_filtered<V>(
    s: Seq<V>,
    keep: spec_fn(V) -> bool,
    le: spec_fn(V, V) -> bool,
)
    requires
        ascending(s, le),
    ensures
        ascending(s.filter(keep), le),
    decreases s.len(),
{
    reveal(Seq::filter);
    if s.len() > 0 {
        let head = s.drop_last();
        assert(ascending(head, le)) by {
            assert forall|i: int, j: int| 0 <= i < j < head.len() implies #[trigger] le(
                head[i],
                head[j],
            ) by {
                assert(le(s[i], s[j]));
            }
        }
        lemma_ascending_filtered(head, keep, le);
        lemma_filter_members(head, keep);
        let kept = head.filter(keep);
        let all = s.filter(keep);
        assert forall|i: int, j: int| 0 <= i < j < all.len() implies #[trigger] le(
            all[i],
            all[j],
        ) by {
            if j < kept.len() {
                assert(le(kept[i], kept[j]));
            } else {
                assert(kept.contains(kept[i]));
                let k = choose|k: int| 0 <= k < head.len() && head[k] == kept[i];
                assert(le(s[k], s[s.len() - 1]));
            }
        }
    }
}

/// Ordering puts the elements in ascending order and neither adds nor loses
/// any.
pub proof fn law_ordered_is_an_ordering<V>(s: Seq<V>, le: spec_fn(V, V) -> bool)
    requires
        preorder(le),
    ensures
        ascending(ordered(s, le), le),
        ordered(s, le).to_multiset() == s.to_multiset(),
        ordered(s, le).len() == s.len(),
    decreases s.len(),
{
    broadcast use vstd::seq_lib::group_to_multiset_ensures;

    if s.len() > 0 {
        law_ordered_is_an_ordering(s.drop_last(), le);
        lemma_place(ordered(s.drop_last(), le), s.last(), le);
        assert(s.drop_last().push(s.last()) =~= s);
    }
}

pub proof fn lemma_place_members<V>(s: Seq<V>, x: V, le: spec_fn(V, V) -> bool)
    ensures
        forall|y: V| #[trigger] place(s, x, le).contains(y) <==> y == x || s.contains(y),
    decreases s.len(),
{
    let out = place(s, x, le);
    if s.len() == 0 {
        assert(out[0] == x);
    } else if le(s.last(), x) {
        lemma_push_members(s, x);
    } else {
        let head = s.drop_last();
        lemma_place_members(head, x, le);
        lemma_push_members(place(head, x, le), s.last());
        lemma_push_members(head, s.last());
        assert(head.push(s.last()) =~= s);
    }
}

proof fn lemma_push_members<V>(s: Seq<V>, x: V)
    ensures
        forall|y: V| #[trigger] s.push(x).contains(y) <==> y == x || s.contains(y),
{
    let out = s.push(x);
    assert(out[s.len() as int] == x);
    assert forall|y: V| s.contains(y) implies #[trigger] out.contains(y) by {
        let i = choose|i: int| 0 <= i < s.len() && s[i] == y;
        assert(out[i] == y);
    }
}

/// Ordering neither adds nor loses an element.
pub proof fn lemma_ordered_members<V>(s: Seq<V>, le: spec_fn(V, V) -> bool)
    ensures
        forall|y: V| #[trigger] ordered(s, le).contains(y) <==> s.contains(y),
    decreases s.len(),
{
    if s.len() > 0 {
        lemma_ordered_members(s.drop_last(), le);
        lemma_place_members(ordered(s.drop_last(), le), s.last(), le);
        lemma_push_members(s.drop_last(), s.last());
        assert(s.drop_last().push(s.last()) =~= s);
    }
}

/// Rows that have an order.
pub trait Ordered: View + Sized {
    /// Whether `a` may stand before `b`.
    spec fn le(a: Self::V, b: Self::V) -> bool;

    /// Whether this row may stand before `other`.
    fn not_after(&self, other: &Self) -> (r: bool)
        ensures
            r == Self::le(self@, other@),
    ;
}

/// The order of a kind of row.
pub open spec fn le_of<T: Ordered>() -> spec_fn(T::V, T::V) -> bool {
    |a: T::V, b: T::V| T::le(a, b)
}

proof fn lemma_place_at<V>(s: Seq<V>, x: V, le: spec_fn(V, V) -> bool, k: int)
    requires
        0 <= k <= s.len(),
        k > 0 ==> le(s[k - 1], x),
        forall|i: int| k <= i < s.len() ==> !le(#[trigger] s[i], x),
    ensures
        place(s, x, le) == s.insert(k, x),
    decreases s.len(),
{
    if s.len() == 0 {
        assert(seq![x] =~= s.insert(k, x));
    } else if k == s.len() {
        assert(s.push(x) =~= s.insert(k, x));
    } else {
        assert(!le(s[s.len() - 1], x));
        let head = s.drop_last();
        assert forall|i: int| k <= i < head.len() implies !le(#[trigger] head[i], x) by {
            assert(head[i] == s[i]);
        }
        lemma_place_at(head, x, le, k);
        assert(head.insert(k, x).push(s.last()) =~= s.insert(k, x));
    }
}

/// Puts one more row where its order wants it.
pub(crate) fn put_in_order<'a, T: Ordered>(rows: &mut Vec<&'a T>, row: &'a T)
    ensures
        text::views(final(rows)@) == place(text::views(old(rows)@), row@, le_of::<T>()),
{
    let mut k: usize = rows.len();
    while k > 0 && !rows[k - 1].not_after(row)
        invariant
            k <= rows@.len(),
            forall|i: int| k <= i < rows@.len() ==> !T::le(#[trigger] rows@[i]@, row@),
        decreases k,
    {
        k -= 1;
    }
    proof {
        let all = text::views(rows@);
        assert forall|i: int| k <= i < all.len() implies !le_of::<T>()(
            #[trigger] all[i],
            row@,
        ) by {
            assert(!T::le(rows@[i]@, row@));
        }
        lemma_place_at(all, row@, le_of::<T>(), k as int);
        assert(text::views(rows@.insert(k as int, row)) =~= all.insert(k as int, row@));
    }
    rows.insert(k, row);
}

/// Puts one more row of its own where its order wants it.
pub(crate) fn insert_in_order<T: Ordered>(rows: &mut Vec<T>, row: T)
    ensures
        text::views(final(rows)@) == place(text::views(old(rows)@), row@, le_of::<T>()),
{
    let mut k: usize = rows.len();
    while k > 0 && !rows[k - 1].not_after(&row)
        invariant
            k <= rows@.len(),
            forall|i: int| k <= i < rows@.len() ==> !T::le(#[trigger] rows@[i]@, row@),
        decreases k,
    {
        k -= 1;
    }
    proof {
        let all = text::views(rows@);
        assert forall|i: int| k <= i < all.len() implies !le_of::<T>()(
            #[trigger] all[i],
            row@,
        ) by {
            assert(!T::le(rows@[i]@, row@));
        }
        lemma_place_at(all, row@, le_of::<T>(), k as int);
        assert(text::views(rows@.insert(k as int, row)) =~= all.insert(k as int, row@));
    }
    rows.insert(k, row);
}

/// The rows in their order.
pub(crate) fn in_order<'a, T: Ordered>(rows: &Vec<&'a T>) -> (r: Vec<&'a T>)
    ensures
        text::views(r@) == ordered(text::views(rows@), le_of::<T>()),
{
    let ghost all = text::views(rows@);
    let mut out: Vec<&'a T> = Vec::new();
    let mut i: usize = 0;
    proof {
        assert(text::views(out@) =~= all.take(0));
    }
    while i < rows.len()
        invariant
            i <= rows@.len(),
            all == text::views(rows@),
            text::views(out@) == ordered(all.take(i as int), le_of::<T>()),
        decreases rows@.len() - i,
    {
        proof {
            text::lemma_views_step(rows@, i as int);
        }
        put_in_order(&mut out, rows[i]);
        i += 1;
    }
    proof {
        assert(all.take(i as int) =~= all);
    }
    out
}

// ---- reading ------------------------------------------------------------

/// Every element read, or the first refusal in their order.
pub open spec fn collected<R, M, E>(s: Seq<R>, f: spec_fn(R) -> Result<M, E>) -> Result<Seq<M>, E>
    decreases s.len(),
{
    if s.len() == 0 {
        Ok(Seq::empty())
    } else {
        match collected(s.drop_last(), f) {
            Err(e) => Err(e),
            Ok(done) => match f(s.last()) {
                Err(e) => Err(e),
                Ok(x) => Ok(done.push(x)),
            },
        }
    }
}

/// Reads every row, or gives the first refusal.
pub(crate) fn read_all<T: View, M: View, E: View, F: Fn(&T) -> Result<M, E>>(
    rows: &Vec<&T>,
    read: F,
    Ghost(f): Ghost<spec_fn(T::V) -> Result<M::V, E::V>>,
) -> (r: Result<Vec<M>, E>)
    requires
        forall|x: &T| #[trigger] read.requires((x,)),
        forall|x: &T, m: Result<M, E>| #[trigger]
            read.ensures((x,), m) ==> match m {
                Ok(v) => f(x@) == Ok::<M::V, E::V>(v@),
                Err(e) => f(x@) == Err::<M::V, E::V>(e@),
            },
    ensures
        match r {
            Ok(v) => collected(text::views(rows@), f) == Ok::<Seq<M::V>, E::V>(text::views(v@)),
            Err(e) => collected(text::views(rows@), f) == Err::<Seq<M::V>, E::V>(e@),
        },
{
    let ghost all = text::views(rows@);
    let mut out: Vec<M> = Vec::new();
    let mut i: usize = 0;
    proof {
        assert(all.take(0) =~= Seq::<T::V>::empty());
        assert(text::views(out@) =~= Seq::<M::V>::empty());
    }
    while i < rows.len()
        invariant
            i <= rows@.len(),
            all == text::views(rows@),
            collected(all.take(i as int), f) == Ok::<Seq<M::V>, E::V>(text::views(out@)),
            forall|x: &T| #[trigger] read.requires((x,)),
            forall|x: &T, m: Result<M, E>| #[trigger]
                read.ensures((x,), m) ==> match m {
                    Ok(v) => f(x@) == Ok::<M::V, E::V>(v@),
                    Err(e) => f(x@) == Err::<M::V, E::V>(e@),
                },
        decreases rows@.len() - i,
    {
        proof {
            text::lemma_views_step(rows@, i as int);
        }
        match read(rows[i]) {
            Ok(v) => {
                proof {
                    text::lemma_views_push(out@, v);
                }
                out.push(v);
            },
            Err(e) => {
                proof {
                    lemma_collected_refusal(all, f, i + 1);
                }
                return Err(e);
            },
        }
        i += 1;
    }
    proof {
        assert(all.take(i as int) =~= all);
    }
    Ok(out)
}

/// A refusal within a prefix is the refusal of the whole.
pub proof fn lemma_collected_refusal<R, M, E>(
    s: Seq<R>,
    f: spec_fn(R) -> Result<M, E>,
    n: int,
)
    requires
        0 <= n <= s.len(),
        collected(s.take(n), f) is Err,
    ensures
        collected(s, f) == collected(s.take(n), f),
    decreases s.len() - n,
{
    if n == s.len() {
        assert(s.take(n) =~= s);
    } else {
        assert(s.take(n + 1).drop_last() =~= s.take(n));
        lemma_collected_refusal(s, f, n + 1);
    }
}

/// Where everything is read, each result belongs to the element at its place.
pub proof fn lemma_collected_each<R, M, E>(s: Seq<R>, f: spec_fn(R) -> Result<M, E>)
    ensures
        match collected(s, f) {
            Ok(done) => done.len() == s.len() && forall|i: int|
                0 <= i < s.len() ==> f(#[trigger] s[i]) == Ok::<M, E>(done[i]),
            Err(e) => true,
        },
    decreases s.len(),
{
    if s.len() > 0 {
        let head = s.drop_last();
        lemma_collected_each(head, f);
        if let Ok(done) = collected(s, f) {
            let before = collected(head, f)->Ok_0;
            assert forall|i: int| 0 <= i < s.len() implies f(#[trigger] s[i]) == Ok::<M, E>(
                done[i],
            ) by {
                if i < head.len() {
                    assert(head[i] == s[i]);
                    assert(before[i] == done[i]);
                }
            }
        }
    }
}

/// Where every row can be read, all are.
pub proof fn lemma_collected_all<R, M, E>(s: Seq<R>, f: spec_fn(R) -> Result<M, E>)
    requires
        forall|i: int| 0 <= i < s.len() ==> f(#[trigger] s[i]) is Ok,
    ensures
        collected(s, f) == Ok::<Seq<M>, E>(s.map_values(|x: R| f(x)->Ok_0)),
    decreases s.len(),
{
    let read = |x: R| f(x)->Ok_0;
    if s.len() > 0 {
        let head = s.drop_last();
        assert forall|i: int| 0 <= i < head.len() implies f(#[trigger] head[i]) is Ok by {
            assert(f(s[i]) is Ok);
        }
        lemma_collected_all(head, f);
        assert(f(s[s.len() - 1]) is Ok);
        assert(s.map_values(read) =~= head.map_values(read).push(read(s.last())));
    } else {
        assert(s.map_values(read) =~= Seq::<M>::empty());
    }
}

/// A listing that gains a row gains what it reads as, and nothing else.
pub proof fn lemma_listing_gains<R, M, E>(
    s: Seq<R>,
    p: spec_fn(R) -> bool,
    le: spec_fn(R, R) -> bool,
    f: spec_fn(R) -> Result<M, E>,
    x: R,
)
    requires
        p(x),
        f(x) is Ok,
        collected(ordered(s.filter(p), le), f) is Ok,
    ensures
        collected(ordered(s.push(x).filter(p), le), f) is Ok,
        collected(ordered(s.push(x).filter(p), le), f)->Ok_0.to_multiset() == collected(
            ordered(s.filter(p), le),
            f,
        )->Ok_0.to_multiset().insert(f(x)->Ok_0),
{
    let mine = s.filter(p);
    let rows = ordered(mine, le);
    let read = |y: R| f(y)->Ok_0;
    s.lemma_filter_push(x, p);
    assert(mine.push(x).drop_last() =~= mine);
    let more = place(rows, x, le);
    assert(ordered(s.push(x).filter(p), le) == more);
    lemma_collected_each(rows, f);
    lemma_collected_all(rows, f);
    lemma_place_members(rows, x, le);
    assert forall|i: int| 0 <= i < more.len() implies f(#[trigger] more[i]) is Ok by {
        assert(more.contains(more[i]));
        if more[i] != x {
            let k = choose|k: int| 0 <= k < rows.len() && rows[k] == more[i];
            assert(f(rows[k]) is Ok);
        }
    }
    lemma_collected_all(more, f);
    lemma_place_mapped(rows, x, le, read);
}

} // verus!
