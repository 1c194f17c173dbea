//! Stable sorting by insertion.
//!
//! An order is given by a relation `before(a, b)`: `a` has to stand before
//! `b`.  Elements of which neither has to stand before the other keep the
//! order in which they came.

use vstd::prelude::*;

verus! {

/// The values of a list of items.
pub open spec fn view_seq<T: View>(s: Seq<T>) -> Seq<T::V> {
    Seq::new(s.len(), |i: int| s[i]@)
}

/// The place of `x` in the sorted list `s`: the first index whose element
/// `x` has to stand before, or the end where there is none.
pub open spec fn insert_position<T>(s: Seq<T>, x: T, before: spec_fn(T, T) -> bool) -> int
    decreases s.len(),
{
    if s.len() == 0 {
        0
    } else if before(x, s[0]) {
        0
    } else {
        1 + insert_position(s.drop_first(), x, before)
    }
}

/// `s` sorted: its elements are taken in order, and each is put at its
/// place among those taken before it.
pub open spec fn sorted_by<T>(s: Seq<T>, before: spec_fn(T, T) -> bool) -> Seq<T>
    decreases s.len(),
{
    if s.len() == 0 {
        Seq::empty()
    } else {
        let front = sorted_by(s.drop_last(), before);
        front.insert(insert_position(front, s.last(), before), s.last())
    }
}

/// No element has to stand before one that stands earlier in `s`.
pub open spec fn in_order<T>(s: Seq<T>, before: spec_fn(T, T) -> bool) -> bool {
    forall|i: int, j: int| 0 <= i < j < s.len() ==> !before(#[trigger] s[j], #[trigger] s[i])
}

/// Neither of `a` and `b` has to stand before the other.
pub open spec fn tied<T>(a: T, b: T, before: spec_fn(T, T) -> bool) -> bool {
    !before(a, b) && !before(b, a)
}

/// Among the elements of which `holds` is true, the relation never puts two
/// elements before each other, and carries over a middle element.
pub open spec fn is_strict_order<T>(
    before: spec_fn(T, T) -> bool,
    holds: spec_fn(T) -> bool,
) -> bool {
    &&& forall|a: T, b: T| holds(a) && holds(b) && #[trigger] before(a, b) ==> !before(b, a)
    &&& forall|a: T, b: T, c: T|
        holds(a) && holds(b) && holds(c) && #[trigger] before(a, b) && #[trigger] before(b, c)
            ==> before(a, c)
}

/// Among the elements of which `holds` is true, being tied carries over a
/// middle element, as it does for an order by a key.
pub open spec fn ties_are_transitive<T>(
    before: spec_fn(T, T) -> bool,
    holds: spec_fn(T) -> bool,
) -> bool {
    forall|a: T, b: T, c: T|
        holds(a) && holds(b) && holds(c) && #[trigger] tied(a, b, before) && #[trigger] tied(
            b,
            c,
            before,
        ) ==> tied(a, c, before)
}

/// Whether `holds` is true of every element.
pub open spec fn all_hold<T>(s: Seq<T>, holds: spec_fn(T) -> bool) -> bool {
    forall|i: int| 0 <= i < s.len() ==> holds(#[trigger] s[i])
}

/// What `insert_position` finds: it lies within the list, `x` has to stand
/// before none of the elements in front of it, and before the element at it.
pub proof fn lemma_insert_position<T>(s: Seq<T>, x: T, before: spec_fn(T, T) -> bool)
    ensures
        0 <= insert_position(s, x, before) <= s.len(),
        forall|j: int| 0 <= j < insert_position(s, x, before) ==> !before(x, #[trigger] s[j]),
        insert_position(s, x, before) < s.len() ==> before(x, s[insert_position(s, x, before)]),
    decreases s.len(),
{
    if s.len() > 0 && !before(x, s[0]) {
        let rest = s.drop_first();
        lemma_insert_position(rest, x, before);
        let p = insert_position(s, x, before);
        assert forall|j: int| 0 <= j < p implies !before(x, #[trigger] s[j]) by {
            if j > 0 {
                assert(s[j] == rest[j - 1]);
            }
        }
        assert(p < s.len() ==> s[p] == rest[p - 1]);
    }
}

/// An index with the two properties of `lemma_insert_position` is the
/// insert position.
pub proof fn lemma_insert_position_is<T>(
    s: Seq<T>,
    x: T,
    before: spec_fn(T, T) -> bool,
    p: int,
)
    requires
        0 <= p <= s.len(),
        forall|j: int| 0 <= j < p ==> !before(x, #[trigger] s[j]),
        p < s.len() ==> before(x, s[p]),
    ensures
        insert_position(s, x, before) == p,
{
    lemma_insert_position(s, x, before);
    let q = insert_position(s, x, before);
    if q < p {
        assert(!before(x, s[q]));
    }
}

/// Sorting keeps the number of elements.
pub proof fn lemma_sorted_len<T>(s: Seq<T>, before: spec_fn(T, T) -> bool)
    ensures
        sorted_by(s, before).len() == s.len(),
    decreases s.len(),
{
    if s.len() > 0 {
        lemma_sorted_len(s.drop_last(), before);
        lemma_insert_position(sorted_by(s.drop_last(), before), s.last(), before);
    }
}

/// Sorting keeps the elements: each occurs as often as before.
pub proof fn lemma_sorted_permutes<T>(s: Seq<T>, before: spec_fn(T, T) -> bool)
    ensures
        sorted_by(s, before).to_multiset() == s.to_multiset(),
    decreases s.len(),
{
    broadcast use vstd::seq_lib::group_to_multiset_ensures;

    if s.len() == 0 {
        assert(sorted_by(s, before) =~= s);
    } else {
        let front = sorted_by(s.drop_last(), before);
        lemma_sorted_permutes(s.drop_last(), before);
        lemma_insert_position(front, s.last(), before);
        assert(s =~= s.drop_last().push(s.last()));
        assert(sorted_by(s, before).to_multiset() =~= front.to_multiset().insert(s.last()));
        assert(s.to_multiset() =~= s.drop_last().to_multiset().insert(s.last()));
    }
}

/// Under a strict order the sorted list is in order.
pub proof fn lemma_sorted_in_order<T>(
    s: Seq<T>,
    before: spec_fn(T, T) -> bool,
    holds: spec_fn(T) -> bool,
)
    requires
        all_hold(s, holds),
        is_strict_order(before, holds),
    ensures
        in_order(sorted_by(s, before), before),
        all_hold(sorted_by(s, before), holds),
    decreases s.len(),
{
    lemma_sorted_keeps(s, before, holds);
    if s.len() > 0 {
        let front = sorted_by(s.drop_last(), before);
        let x = s.last();
        let p = insert_position(front, x, before);
        let r = sorted_by(s, before);
        assert(all_hold(s.drop_last(), holds)) by {
            assert forall|i: int| 0 <= i < s.drop_last().len() implies holds(
                #[trigger] s.drop_last()[i],
            ) by {
                assert(s.drop_last()[i] == s[i]);
            }
        }
        assert(holds(s[s.len() - 1]));
        lemma_sorted_in_order(s.drop_last(), before, holds);
        lemma_insert_position(front, x, before);
        assert forall|i: int, j: int| 0 <= i < j < r.len() implies !before(
            #[trigger] r[j],
            #[trigger] r[i],
        ) by {
            if j < p {
                assert(r[i] == front[i] && r[j] == front[j]);
            } else if j == p {
                assert(r[i] == front[i]);
            } else if i == p {
                assert(r[j] == front[j - 1]);
                if j - 1 > p {
                    assert(!before(front[j - 1], front[p]));
                }
                if before(front[j - 1], x) {
                    assert(before(x, front[p]));
                    assert(before(front[j - 1], front[p]));
                }
            } else if i < p {
                assert(r[i] == front[i] && r[j] == front[j - 1]);
            } else {
                assert(r[i] == front[i - 1] && r[j] == front[j - 1]);
            }
        }
    }
}

/// Sorting the values of a list is the same as sorting the list by an
/// order that looks at the values only.
pub proof fn lemma_sorted_values<T, V>(
    s: Seq<T>,
    value: spec_fn(T) -> V,
    before: spec_fn(T, T) -> bool,
    value_before: spec_fn(V, V) -> bool,
)
    requires
        forall|a: T, b: T| #[trigger] before(a, b) == value_before(value(a), value(b)),
    ensures
        sorted_by(s, before).map_values(value) == sorted_by(s.map_values(value), value_before),
    decreases s.len(),
{
    if s.len() == 0 {
        assert(sorted_by(s, before).map_values(value) =~= sorted_by(
            s.map_values(value),
            value_before,
        ));
    } else {
        let front = sorted_by(s.drop_last(), before);
        let x = s.last();
        let p = insert_position(front, x, before);
        lemma_sorted_values(s.drop_last(), value, before, value_before);
        lemma_insert_position(front, x, before);
        let mapped = s.map_values(value);
        assert(mapped.drop_last() =~= s.drop_last().map_values(value));
        assert(mapped.last() == value(x));
        let vfront = front.map_values(value);
        assert(vfront == sorted_by(mapped.drop_last(), value_before));
        assert forall|j: int| 0 <= j < p implies !value_before(value(x), #[trigger] vfront[j]) by {
            assert(!before(x, front[j]));
        }
        lemma_insert_position_is(vfront, value(x), value_before, p);
        assert(front.insert(p, x).map_values(value) =~= vfront.insert(p, value(x)));
    }
}

/// Elements that are tied keep their order: the elements tied with `x`
/// stand in the sorted list as they stood in `s`.
pub proof fn lemma_sorted_stable<T>(
    s: Seq<T>,
    before: spec_fn(T, T) -> bool,
    holds: spec_fn(T) -> bool,
    x: T,
)
    requires
        all_hold(s, holds),
        holds(x),
        is_strict_order(before, holds),
        ties_are_transitive(before, holds),
    ensures
        sorted_by(s, before).filter(|e: T| tied(e, x, before)) == s.filter(
            |e: T| tied(e, x, before),
        ),
    decreases s.len(),
{
    let keep = |e: T| tied(e, x, before);
    if s.len() == 0 {
        assert(sorted_by(s, before) =~= s);
    } else {
        let front = sorted_by(s.drop_last(), before);
        let y = s.last();
        let p = insert_position(front, y, before);
        assert(all_hold(s.drop_last(), holds)) by {
            assert forall|i: int| 0 <= i < s.drop_last().len() implies holds(
                #[trigger] s.drop_last()[i],
            ) by {
                assert(s.drop_last()[i] == s[i]);
            }
        }
        assert(holds(s[s.len() - 1]));
        lemma_sorted_stable(s.drop_last(), before, holds, x);
        lemma_sorted_in_order(s.drop_last(), before, holds);
        lemma_insert_position(front, y, before);
        let left = front.take(p);
        let right = front.skip(p);
        assert(front =~= left + right);
        assert(front.insert(p, y) =~= left + seq![y] + right);
        assert(s =~= s.drop_last() + seq![y]);
        Seq::filter_distributes_over_add(left, right, keep);
        Seq::filter_distributes_over_add(left + seq![y], right, keep);
        Seq::filter_distributes_over_add(left, seq![y], keep);
        Seq::filter_distributes_over_add(s.drop_last(), seq![y], keep);
        if keep(y) {
            // No element behind the place of `y` is tied with `x`: `y` has
            // to stand before the first of them, and so before each.
            assert forall|i: int| 0 <= i < right.len() implies !keep(#[trigger] right[i]) by {
                assert(right[i] == front[p + i]);
                assert(right[0] == front[p]);
                assert(holds(front[p + i]) && holds(front[p]));
                assert(before(y, front[p]));
                if i > 0 {
                    assert(!before(front[p + i], front[p]));
                }
                if keep(right[i]) {
                    assert(tied(right[i], x, before) && tied(x, y, before));
                    assert(tied(right[i], y, before));
                    if i > 0 {
                        if before(front[p], front[p + i]) {
                            assert(before(y, front[p + i]));
                        } else {
                            assert(tied(front[p], front[p + i], before));
                            assert(tied(front[p + i], y, before));
                            assert(tied(front[p], y, before));
                        }
                    }
                }
            }
            right.lemma_all_neg_filter_empty(keep);
            assert(right.filter(keep) =~= Seq::<T>::empty());
        }
        reveal(Seq::filter);
        assert(seq![y].filter(keep) =~= if keep(y) {
            seq![y]
        } else {
            Seq::<T>::empty()
        }) by {
            assert(seq![y].drop_last() =~= Seq::<T>::empty());
        }
        assert(sorted_by(s, before).filter(keep) =~= s.filter(keep));
    }
}

/// What holds of every element of a list holds of every element of the
/// sorted list.
pub proof fn lemma_sorted_keeps<T>(
    s: Seq<T>,
    before: spec_fn(T, T) -> bool,
    holds: spec_fn(T) -> bool,
)
    requires
        forall|i: int| 0 <= i < s.len() ==> holds(#[trigger] s[i]),
    ensures
        forall|i: int|
            0 <= i < sorted_by(s, before).len() ==> holds(#[trigger] sorted_by(s, before)[i]),
    decreases s.len(),
{
    if s.len() > 0 {
        let front = sorted_by(s.drop_last(), before);
        let p = insert_position(front, s.last(), before);
        assert forall|i: int| 0 <= i < s.drop_last().len() implies holds(
            #[trigger] s.drop_last()[i],
        ) by {
            assert(s.drop_last()[i] == s[i]);
        }
        lemma_sorted_keeps(s.drop_last(), before, holds);
        lemma_insert_position(front, s.last(), before);
        let r = sorted_by(s, before);
        assert forall|i: int| 0 <= i < r.len() implies holds(#[trigger] r[i]) by {
            if i < p {
                assert(r[i] == front[i]);
            } else if i == p {
                assert(r[i] == s[s.len() - 1]);
            } else {
                assert(r[i] == front[i - 1]);
            }
        }
    }
}

/// Two lists that are sorted by orders which agree on related elements
/// stay related element by element.
pub proof fn lemma_sorted_together<A, B>(
    a: Seq<A>,
    b: Seq<B>,
    before_a: spec_fn(A, A) -> bool,
    before_b: spec_fn(B, B) -> bool,
    related: spec_fn(A, B) -> bool,
)
    requires
        a.len() == b.len(),
        forall|i: int| 0 <= i < a.len() ==> related(#[trigger] a[i], b[i]),
        forall|x: A, y: A, s: B, t: B| #[trigger]
            related(x, s) && #[trigger] related(y, t) ==> before_a(x, y) == before_b(s, t),
    ensures
        sorted_by(a, before_a).len() == a.len(),
        sorted_by(b, before_b).len() == a.len(),
        forall|i: int|
            0 <= i < a.len() ==> related(
                #[trigger] sorted_by(a, before_a)[i],
                sorted_by(b, before_b)[i],
            ),
    decreases a.len(),
{
    lemma_sorted_len(a, before_a);
    lemma_sorted_len(b, before_b);
    if a.len() > 0 {
        let fa = sorted_by(a.drop_last(), before_a);
        let fb = sorted_by(b.drop_last(), before_b);
        let x = a.last();
        let s = b.last();
        assert forall|i: int| 0 <= i < a.drop_last().len() implies related(
            #[trigger] a.drop_last()[i],
            b.drop_last()[i],
        ) by {
            assert(a.drop_last()[i] == a[i] && b.drop_last()[i] == b[i]);
        }
        lemma_sorted_together(a.drop_last(), b.drop_last(), before_a, before_b, related);
        lemma_insert_position(fa, x, before_a);
        let p = insert_position(fa, x, before_a);
        assert(related(a[a.len() - 1], b[a.len() - 1]));
        assert forall|j: int| 0 <= j < p implies !before_b(s, #[trigger] fb[j]) by {
            assert(related(fa[j], fb[j]));
            assert(!before_a(x, fa[j]));
        }
        if p < fa.len() {
            assert(related(fa[p], fb[p]));
        }
        lemma_insert_position_is(fb, s, before_b, p);
        let ra = sorted_by(a, before_a);
        let rb = sorted_by(b, before_b);
        assert forall|i: int| 0 <= i < a.len() implies related(#[trigger] ra[i], rb[i]) by {
            if i < p {
                assert(ra[i] == fa[i] && rb[i] == fb[i]);
                assert(related(fa[i], fb[i]));
            } else if i == p {
                assert(ra[i] == x && rb[i] == s);
            } else {
                assert(ra[i] == fa[i - 1] && rb[i] == fb[i - 1]);
                assert(related(fa[i - 1], fb[i - 1]));
            }
        }
    }
}

/// Every element of a list stands in the sorted list.
pub proof fn lemma_sorted_holds_each<T>(s: Seq<T>, before: spec_fn(T, T) -> bool, j: int)
    requires
        0 <= j < s.len(),
    ensures
        exists|i: int| 0 <= i < sorted_by(s, before).len() && #[trigger] sorted_by(s, before)[i] == s[j],
    decreases s.len(),
{
    let front = sorted_by(s.drop_last(), before);
    let p = insert_position(front, s.last(), before);
    let r = sorted_by(s, before);
    lemma_insert_position(front, s.last(), before);
    lemma_sorted_len(s, before);
    if j == s.len() - 1 {
        assert(r[p] == s[j]);
    } else {
        lemma_sorted_holds_each(s.drop_last(), before, j);
        let i = choose|i: int| 0 <= i < front.len() && #[trigger] front[i] == s.drop_last()[j];
        if i < p {
            assert(r[i] == s[j]);
        } else {
            assert(r[i + 1] == s[j]);
        }
    }
}

/// Two tests that agree on the elements of a list pick the same elements.
pub proof fn lemma_filter_agree<T>(s: Seq<T>, f: spec_fn(T) -> bool, g: spec_fn(T) -> bool)
    requires
        forall|i: int| 0 <= i < s.len() ==> f(#[trigger] s[i]) == g(s[i]),
    ensures
        s.filter(f) == s.filter(g),
    decreases s.len(),
{
    reveal(Seq::filter);
    if s.len() > 0 {
        assert forall|i: int| 0 <= i < s.drop_last().len() implies f(#[trigger] s.drop_last()[i])
            == g(s.drop_last()[i]) by {
            assert(s.drop_last()[i] == s[i]);
        }
        lemma_filter_agree(s.drop_last(), f, g);
        assert(f(s[s.len() - 1]) == g(s[s.len() - 1]));
    }
}

/// Taking the first item off the rest of a list: the item is the next of
/// the whole list, and what stays is the rest behind it.
pub proof fn lemma_next_item<T: View>(
    before: Seq<T>,
    after: Seq<T>,
    item: T,
    all: Seq<T::V>,
    taken: int,
)
    requires
        0 <= taken <= all.len(),
        before.len() > 0,
        view_seq(before) == all.skip(taken),
        item == before[0],
        after == before.remove(0),
    ensures
        taken < all.len(),
        item@ == all[taken],
        view_seq(after) == all.skip(taken + 1),
        all.take(taken + 1).drop_last() == all.take(taken),
        all.take(taken + 1).last() == item@,
{
    let rest = all.skip(taken);
    assert(view_seq(before).len() == before.len());
    assert(rest.len() == all.len() - taken);
    assert(view_seq(before)[0] == before[0]@);
    assert(rest[0] == all[taken]);
    assert(after.len() == before.len() - 1);
    assert forall|j: int| 0 <= j < after.len() implies view_seq(after)[j] == all.skip(taken + 1)[j] by {
        assert(after[j] == before[j + 1]);
        assert(view_seq(before)[j + 1] == before[j + 1]@);
        assert(rest[j + 1] == all[taken + j + 1]);
        assert(all.skip(taken + 1)[j] == all[taken + 1 + j]);
    }
    assert(view_seq(after) =~= all.skip(taken + 1));
    assert(all.take(taken + 1).drop_last() =~= all.take(taken));
}

/// A list that is used up from its front.
pub struct Pending<T> {
    /// The items that are left, the next one last.
    stack: Vec<T>,
}

impl<T> View for Pending<T> {
    type V = Seq<T>;

    /// The items that are left, the next one first.
    closed spec fn view(&self) -> Seq<T> {
        self.stack@.reverse()
    }
}

impl<T> Pending<T> {
    /// All items of a list, still to be used.
    pub fn new(items: Vec<T>) -> (r: Self)
        ensures
            r@ == items@,
    {
        let ghost all = items@;
        let mut items = items;
        let mut stack: Vec<T> = Vec::new();
        while items.len() > 0
            invariant
                items@.len() + stack@.len() == all.len(),
                items@ == all.take(items@.len() as int),
                forall|i: int| 0 <= i < stack@.len() ==> stack@[i] == all[all.len() - 1 - i],
            decreases items.len(),
        {
            let ghost before = items@;
            match items.pop() {
                Some(item) => {
                    assert(item == all[before.len() - 1]);
                    stack.push(item);
                    assert(items@ =~= all.take(items@.len() as int));
                },
                None => {},
            }
        }
        assert(stack@.reverse() =~= all);
        Pending { stack }
    }

    /// Whether no item is left.
    pub fn is_empty(&self) -> (b: bool)
        ensures
            b == (self@.len() == 0),
    {
        self.stack.len() == 0
    }

    /// Takes the next item.
    pub fn next(&mut self) -> (item: T)
        requires
            old(self)@.len() > 0,
        ensures
            item == old(self)@[0],
            final(self)@ == old(self)@.remove(0),
    {
        let ghost before = self.stack@;
        let item = self.stack.pop();
        proof {
            assert(self.stack@.reverse() =~= before.reverse().remove(0));
        }
        item.unwrap()
    }
}

/// A type whose values can be put in order.
pub trait Ranked: Sized {
    /// Whether `self` has to stand before `other`.
    spec fn before(&self, other: &Self) -> bool;

    /// Whether `self` has to stand before `other`.
    fn stands_before(&self, other: &Self) -> (b: bool)
        ensures
            b == self.before(other),
    ;
}

/// The order of a ranked type, as a relation.
pub open spec fn ranked_order<T: Ranked>() -> spec_fn(T, T) -> bool {
    |a: T, b: T| a.before(&b)
}

/// Sorts a list by the order of its items.  Items of which neither has to
/// stand before the other keep their order.
pub fn sort_ranked<T: Ranked>(v: Vec<T>) -> (r: Vec<T>)
    ensures
        r@ == sorted_by(v@, ranked_order::<T>()),
{
    let ghost all = v@;
    let ghost order = ranked_order::<T>();
    let mut rest = Pending::new(v);
    let mut r: Vec<T> = Vec::new();
    let ghost mut taken: int = 0;
    proof {
        assert(all.take(0) =~= Seq::<T>::empty());
        assert(all.skip(0) =~= all);
    }
    while !rest.is_empty()
        invariant
            order == ranked_order::<T>(),
            0 <= taken <= all.len(),
            rest@ == all.skip(taken),
            r@ == sorted_by(all.take(taken), order),
        decreases rest@.len(),
    {
        let x = rest.next();
        proof {
            lemma_sorted_len(all.take(taken), order);
            lemma_insert_position(r@, x, order);
            assert(x == all[taken]);
            assert(rest@ =~= all.skip(taken + 1));
            assert(all.take(taken + 1).drop_last() =~= all.take(taken));
        }
        let mut p: usize = 0;
        while p < r.len() && !x.stands_before(&r[p])
            invariant
                order == ranked_order::<T>(),
                p <= r.len(),
                forall|j: int| 0 <= j < p ==> !order(x, #[trigger] r@[j]),
            decreases r.len() - p,
        {
            p += 1;
        }
        proof {
            lemma_insert_position_is(r@, x, order, p as int);
        }
        r.insert(p, x);
        proof {
            taken = taken + 1;
        }
    }
    proof {
        assert(all.take(taken) =~= all);
    }
    r
}

} // verus!
