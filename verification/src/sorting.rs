use vstd::prelude::*;

verus! {

broadcast use vstd::seq_lib::group_seq_properties;

/// Where a stable insertion puts `x` into `s`: before the first element that
/// `x` must precede, or at the end when there is none.
pub open spec fn insert_pos<A>(s: Seq<A>, x: A, before: spec_fn(A, A) -> bool) -> nat
    decreases s.len(),
{
    if s.len() == 0 {
        0
    } else if before(x, s[0]) {
        0
    } else {
        1 + insert_pos(s.drop_first(), x, before)
    }
}

/// Stable insertion sort of `s` under the strict order `before`: the elements
/// are inserted one by one, in the order of `s`.
pub open spec fn insertion_sort<A>(s: Seq<A>, before: spec_fn(A, A) -> bool) -> Seq<A>
    decreases s.len(),
{
    if s.len() == 0 {
        Seq::empty()
    } else {
        let t = insertion_sort(s.drop_last(), before);
        t.insert(insert_pos(t, s.last(), before) as int, s.last())
    }
}

/// `before` is a strict partial order.
pub open spec fn strict_order<A>(before: spec_fn(A, A) -> bool) -> bool {
    &&& forall|a: A| !#[trigger] before(a, a)
    &&& forall|a: A, b: A, c: A| #[trigger] before(a, b) && #[trigger] before(b, c) ==> before(a, c)
}

/// No element of `s` must precede an element placed before it.
pub open spec fn sorted_by<A>(s: Seq<A>, before: spec_fn(A, A) -> bool) -> bool {
    forall|i: int, j: int| 0 <= i < j < s.len() ==> !before(#[trigger] s[j], #[trigger] s[i])
}

/// The position found by a linear scan is the insertion position.
pub proof fn lemma_insert_pos_scan<A>(s: Seq<A>, x: A, before: spec_fn(A, A) -> bool, j: int)
    requires
        0 <= j <= s.len(),
        forall|k: int| 0 <= k < j ==> !before(x, #[trigger] s[k]),
        j == s.len() || before(x, s[j]),
    ensures
        insert_pos(s, x, before) == j,
    decreases j,
{
    if j > 0 {
        let t = s.drop_first();
        assert forall|k: int| 0 <= k < j - 1 implies !before(x, #[trigger] t[k]) by {
            assert(t[k] == s[k + 1]);
        }
        assert(!before(x, s[0]));
        lemma_insert_pos_scan(t, x, before, j - 1);
    }
}

/// The insertion position lies within the sequence, every element before it
/// may precede `x`, and `x` must precede the element at it.
pub proof fn lemma_insert_pos_props<A>(s: Seq<A>, x: A, before: spec_fn(A, A) -> bool)
    ensures
        insert_pos(s, x, before) <= s.len(),
        forall|k: int| 0 <= k < insert_pos(s, x, before) ==> !before(x, #[trigger] s[k]),
        insert_pos(s, x, before) < s.len() ==> before(x, s[insert_pos(s, x, before) as int]),
    decreases s.len(),
{
    if s.len() > 0 && !before(x, s[0]) {
        let t = s.drop_first();
        lemma_insert_pos_props(t, x, before);
        assert forall|k: int| 0 <= k < insert_pos(s, x, before) implies !before(x, #[trigger] s[k]) by {
            if k > 0 {
                assert(s[k] == t[k - 1]);
            }
        }
    }
}

/// Inserting one element adds it to the multiset of elements.
pub proof fn lemma_insert_multiset<A>(s: Seq<A>, p: int, x: A)
    requires
        0 <= p <= s.len(),
    ensures
        s.insert(p, x).to_multiset() =~= s.to_multiset().insert(x),
{
    let t = s.insert(p, x);
    s.insert_ensures(p, x);
    assert(t.remove(p) =~= s);
    t.to_multiset_ensures();
    assert(t.remove(p).to_multiset() =~= t.to_multiset().remove(x));
    assert(t.contains(x)) by {
        assert(t[p] == x);
    }
}

/// Insertion sort keeps every element exactly as often as before.
pub proof fn lemma_insertion_sort_multiset<A>(s: Seq<A>, before: spec_fn(A, A) -> bool)
    ensures
        insertion_sort(s, before).to_multiset() =~= s.to_multiset(),
        insertion_sort(s, before).len() == s.len(),
    decreases s.len(),
{
    if s.len() > 0 {
        let t = insertion_sort(s.drop_last(), before);
        lemma_insertion_sort_multiset(s.drop_last(), before);
        lemma_insert_pos_props(t, s.last(), before);
        lemma_insert_multiset(t, insert_pos(t, s.last(), before) as int, s.last());
        s.drop_last().to_multiset_ensures();
        assert(s.drop_last().push(s.last()) =~= s);
    }
}

/// Under a strict partial order, insertion sort yields a sorted sequence.
pub proof fn lemma_insertion_sort_sorted<A>(s: Seq<A>, before: spec_fn(A, A) -> bool)
    requires
        strict_order(before),
    ensures
        sorted_by(insertion_sort(s, before), before),
    decreases s.len(),
{
    if s.len() > 0 {
        let t = insertion_sort(s.drop_last(), before);
        let x = s.last();
        lemma_insertion_sort_sorted(s.drop_last(), before);
        lemma_insert_pos_props(t, x, before);
        let p = insert_pos(t, x, before) as int;
        let r = t.insert(p, x);
        t.insert_ensures(p, x);
        assert forall|i: int, j: int| 0 <= i < j < r.len() implies !before(#[trigger] r[j], #[trigger] r[i]) by {
            if j < p {
                assert(r[i] == t[i] && r[j] == t[j]);
            } else if j == p {
                assert(r[i] == t[i]);
            } else if i < p {
                assert(r[i] == t[i] && r[j] == t[j - 1]);
            } else if i == p {
                assert(r[j] == t[j - 1]);
                if before(t[j - 1], x) {
                    assert(before(x, t[p]));
                    assert(before(t[j - 1], t[p]));
                    if j - 1 == p {
                    } else {
                        assert(!before(t[j - 1], t[p]));
                    }
                }
            } else {
                assert(r[i] == t[i - 1] && r[j] == t[j - 1]);
            }
        }
    }
}

/// Every two elements of `s`, taken in order, are related by `ok`.
pub open spec fn pairwise<A>(s: Seq<A>, ok: spec_fn(A, A) -> bool) -> bool {
    forall|i: int, j: int| 0 <= i < j < s.len() ==> ok(#[trigger] s[i], #[trigger] s[j])
}

/// Insertion sort only rearranges: each element of the result is an element
/// of `s`, and a symmetric relation that holds between every two elements of
/// `s` holds between every two elements of the result.
pub proof fn lemma_insertion_sort_pairwise<A>(
    s: Seq<A>,
    before: spec_fn(A, A) -> bool,
    ok: spec_fn(A, A) -> bool,
)
    requires
        forall|a: A, b: A| #[trigger] ok(a, b) ==> ok(b, a),
        pairwise(s, ok),
    ensures
        forall|i: int|
            0 <= i < insertion_sort(s, before).len() ==> exists|k: int|
                0 <= k < s.len() && s[k] == #[trigger] insertion_sort(s, before)[i],
        pairwise(insertion_sort(s, before), ok),
    decreases s.len(),
{
    if s.len() > 0 {
        let init = s.drop_last();
        let x = s.last();
        assert forall|i: int, j: int| 0 <= i < j < init.len() implies ok(#[trigger] init[i], #[trigger] init[j]) by {
            assert(init[i] == s[i] && init[j] == s[j]);
        }
        lemma_insertion_sort_pairwise(init, before, ok);
        let t = insertion_sort(init, before);
        lemma_insert_pos_props(t, x, before);
        let p = insert_pos(t, x, before) as int;
        let r = t.insert(p, x);
        t.insert_ensures(p, x);
        assert(r == insertion_sort(s, before));
        assert forall|i: int| 0 <= i < r.len() implies exists|k: int| 0 <= k < s.len() && s[k] == #[trigger] r[i] by {
            if i == p {
                assert(s[s.len() - 1] == r[i]);
            } else {
                let m = if i < p { i } else { i - 1 };
                assert(r[i] == t[m]);
                let k = choose|k: int| 0 <= k < init.len() && init[k] == #[trigger] t[m];
                assert(s[k] == r[i]);
            }
        }
        assert forall|m: int| 0 <= m < t.len() implies ok(#[trigger] t[m], x) by {
            let k = choose|k: int| 0 <= k < init.len() && init[k] == #[trigger] t[m];
            assert(s[k] == t[m]);
            assert(ok(s[k], s[s.len() - 1]));
        }
        assert forall|i: int, j: int| 0 <= i < j < r.len() implies ok(#[trigger] r[i], #[trigger] r[j]) by {
            if i == p {
                assert(r[j] == t[j - 1]);
                assert(ok(t[j - 1], x));
            } else if j == p {
                assert(r[i] == t[i]);
            } else {
                let mi = if i < p { i } else { i - 1 };
                let mj = if j < p { j } else { j - 1 };
                assert(r[i] == t[mi] && r[j] == t[mj]);
            }
        }
    }
}

/// Sorting keeps the elements: so does any projection of them.
pub proof fn lemma_insertion_sort_map_multiset<A, B>(
    s: Seq<A>,
    before: spec_fn(A, A) -> bool,
    f: spec_fn(A) -> B,
)
    ensures
        insertion_sort(s, before).map_values(f).to_multiset() =~= s.map_values(f).to_multiset(),
    decreases s.len(),
{
    if s.len() > 0 {
        let init = s.drop_last();
        let x = s.last();
        lemma_insertion_sort_map_multiset(init, before, f);
        lemma_insertion_sort_multiset(init, before);
        let t = insertion_sort(init, before);
        lemma_insert_pos_props(t, x, before);
        let p = insert_pos(t, x, before) as int;
        let r = t.insert(p, x);
        t.insert_ensures(p, x);
        assert(r.map_values(f) =~= t.map_values(f).insert(p, f(x)));
        lemma_insert_multiset(t.map_values(f), p, f(x));
        assert(s.map_values(f) =~= init.map_values(f).insert(init.len() as int, f(x)));
        lemma_insert_multiset(init.map_values(f), init.len() as int, f(x));
    }
}

} // verus!
