//! Orders: text compared in the standard order of strings, and a stable sort
//! stated as insertion into what is already sorted.
use vstd::prelude::*;

verus! {

/// The standard order of strings, on their characters: -1, 0 or 1.
pub open spec fn text_order(a: Seq<char>, b: Seq<char>) -> int
    decreases a.len(),
{
    if a.len() == 0 {
        if b.len() == 0 {
            0
        } else {
            -1
        }
    } else if b.len() == 0 {
        1
    } else if a[0] < b[0] {
        -1
    } else if a[0] > b[0] {
        1
    } else {
        text_order(a.drop_first(), b.drop_first())
    }
}

pub fn compare_chars(a: &Vec<char>, b: &Vec<char>) -> (r: i8)
    ensures
        r as int == text_order(a@, b@),
{
    let mut i: usize = 0;
    assert(a@.skip(0) =~= a@ && b@.skip(0) =~= b@);
    while i < a.len() && i < b.len() && a[i] == b[i]
        invariant
            i <= a.len(),
            i <= b.len(),
            text_order(a@, b@) == text_order(a@.skip(i as int), b@.skip(i as int)),
        decreases a.len() - i,
    {
        assert(a@.skip(i as int).drop_first() =~= a@.skip(i + 1));
        assert(b@.skip(i as int).drop_first() =~= b@.skip(i + 1));
        i = i + 1;
    }
    let ghost sa = a@.skip(i as int);
    let ghost sb = b@.skip(i as int);
    if i == a.len() {
        assert(sa.len() == 0);
        if i == b.len() {
            0
        } else {
            -1
        }
    } else if i == b.len() {
        1
    } else if a[i] < b[i] {
        assert(sa[0] == a@[i as int]);
        -1
    } else {
        assert(sa[0] == a@[i as int] && sb[0] == b@[i as int]);
        assert(a@[i as int] != b@[i as int]);
        1
    }
}

pub fn compare_strings(a: &String, b: &String) -> (r: i8)
    ensures
        r as int == text_order(a@, b@),
{
    let x = crate::text::chars_of_string(a);
    let y = crate::text::chars_of_string(b);
    compare_chars(&x, &y)
}

/// Where `x` goes in `sorted` so that it lands after every element it does
/// not sort before: the first place whose element `x` sorts before.
pub open spec fn first_after<A>(sorted: Seq<A>, x: A, lt: spec_fn(A, A) -> bool) -> int
    decreases sorted.len(),
{
    if sorted.len() == 0 {
        0
    } else if lt(x, sorted[0]) {
        0
    } else {
        1 + first_after(sorted.drop_first(), x, lt)
    }
}

pub proof fn lemma_first_after<A>(sorted: Seq<A>, x: A, lt: spec_fn(A, A) -> bool, j: int)
    requires
        0 <= j <= sorted.len(),
        forall|i: int| 0 <= i < j ==> !lt(x, #[trigger] sorted[i]),
        j == sorted.len() || lt(x, sorted[j]),
    ensures
        first_after(sorted, x, lt) == j,
    decreases j,
{
    if j > 0 {
        let t = sorted.drop_first();
        assert(!lt(x, sorted[0]));
        assert forall|i: int| 0 <= i < j - 1 implies !lt(x, #[trigger] t[i]) by {
            assert(t[i] == sorted[i + 1]);
        }
        if j < sorted.len() {
            assert(t[j - 1] == sorted[j]);
        }
        lemma_first_after(t, x, lt, j - 1);
    }
}

/// A stable sort: each element in turn is put after every element already
/// placed that it does not sort before, so equal elements keep their order.
pub open spec fn stable_sort<A>(s: Seq<A>, lt: spec_fn(A, A) -> bool) -> Seq<A>
    decreases s.len(),
{
    if s.len() == 0 {
        s
    } else {
        let sorted = stable_sort(s.drop_last(), lt);
        sorted.insert(first_after(sorted, s.last(), lt), s.last())
    }
}

pub proof fn lemma_stable_sort_len<A>(s: Seq<A>, lt: spec_fn(A, A) -> bool)
    ensures
        stable_sort(s, lt).len() == s.len(),
    decreases s.len(),
{
    if s.len() > 0 {
        lemma_stable_sort_len(s.drop_last(), lt);
        lemma_first_after_bound(stable_sort(s.drop_last(), lt), s.last(), lt);
    }
}

pub proof fn lemma_first_after_bound<A>(sorted: Seq<A>, x: A, lt: spec_fn(A, A) -> bool)
    ensures
        0 <= first_after(sorted, x, lt) <= sorted.len(),
    decreases sorted.len(),
{
    if sorted.len() > 0 && !lt(x, sorted[0]) {
        lemma_first_after_bound(sorted.drop_first(), x, lt);
    }
}

/// Puts `x` into `sorted` after every entry it does not sort before, as
/// `before` decides.
pub fn insert_by<T, F: Fn(&T, &T) -> bool>(
    sorted: &mut Vec<T>,
    x: T,
    before: &F,
    Ghost(lt): Ghost<spec_fn(T, T) -> bool>,
)
    requires
        forall|a: &T, b: &T| #[trigger] before.requires((a, b)),
        forall|a: &T, b: &T, r: bool| before.ensures((a, b), r) ==> r == lt(*a, *b),
    ensures
        final(sorted)@ == old(sorted)@.insert(first_after(old(sorted)@, x, lt), x),
{
    let mut k: usize = 0;
    while k < sorted.len() && !before(&x, &sorted[k])
        invariant
            k <= sorted.len(),
            forall|a: &T, b: &T| #[trigger] before.requires((a, b)),
            forall|a: &T, b: &T, r: bool| before.ensures((a, b), r) ==> r == lt(*a, *b),
            forall|i: int| 0 <= i < k ==> !lt(x, #[trigger] sorted@[i]),
        decreases sorted.len() - k,
    {
        k = k + 1;
    }
    proof {
        lemma_first_after(sorted@, x, lt, k as int);
    }
    sorted.insert(k, x);
}

/// The entries of `v`, stably sorted by `before`.
pub fn sorted_by<T, F: Fn(&T, &T) -> bool>(v: Vec<T>, before: &F, Ghost(lt): Ghost<spec_fn(T, T) -> bool>) -> (r: Vec<T>)
    requires
        forall|a: &T, b: &T| #[trigger] before.requires((a, b)),
        forall|a: &T, b: &T, r: bool| before.ensures((a, b), r) ==> r == lt(*a, *b),
    ensures
        r@ == stable_sort(v@, lt),
{
    let ghost all = v@;
    let mut rest = v;
    let mut out: Vec<T> = Vec::new();
    let n = rest.len();
    let mut k: usize = 0;
    assert(all.take(0) =~= Seq::<T>::empty());
    assert(all.skip(0) =~= all);
    while rest.len() > 0
        invariant
            k <= all.len(),
            n == all.len(),
            rest@ == all.skip(k as int),
            out@ == stable_sort(all.take(k as int), lt),
            forall|a: &T, b: &T| #[trigger] before.requires((a, b)),
            forall|a: &T, b: &T, r: bool| before.ensures((a, b), r) ==> r == lt(*a, *b),
        decreases rest.len(),
    {
        let x = rest.remove(0);
        assert(all.take(k + 1).drop_last() =~= all.take(k as int));
        assert(all.take(k + 1).last() == x);
        assert(all.skip(k + 1) =~= all.skip(k as int).drop_first());
        insert_by(&mut out, x, before, Ghost(lt));
        k = k + 1;
    }
    assert(all.take(all.len() as int) =~= all);
    out
}

proof fn lemma_first_after_map<A, B>(
    sorted: Seq<A>,
    x: A,
    f: spec_fn(A) -> B,
    lt_a: spec_fn(A, A) -> bool,
    lt_b: spec_fn(B, B) -> bool,
)
    requires
        forall|p: A, q: A| #[trigger] lt_a(p, q) == lt_b(f(p), f(q)),
    ensures
        first_after(sorted, x, lt_a) == first_after(sorted.map_values(f), f(x), lt_b),
    decreases sorted.len(),
{
    if sorted.len() > 0 {
        assert(sorted.map_values(f).drop_first() =~= sorted.drop_first().map_values(f));
        assert(lt_a(x, sorted[0]) == lt_b(f(x), f(sorted[0])));
        lemma_first_after_map(sorted.drop_first(), x, f, lt_a, lt_b);
    }
}

/// Sorting commutes with a map that keeps the order: sorting the images
/// gives the images of the sorted list.
pub proof fn lemma_sort_map<A, B>(s: Seq<A>, f: spec_fn(A) -> B, lt_a: spec_fn(A, A) -> bool, lt_b: spec_fn(B, B) -> bool)
    requires
        forall|p: A, q: A| #[trigger] lt_a(p, q) == lt_b(f(p), f(q)),
    ensures
        stable_sort(s, lt_a).map_values(f) == stable_sort(s.map_values(f), lt_b),
    decreases s.len(),
{
    if s.len() > 0 {
        lemma_sort_map(s.drop_last(), f, lt_a, lt_b);
        assert(s.map_values(f).drop_last() =~= s.drop_last().map_values(f));
        let sorted = stable_sort(s.drop_last(), lt_a);
        lemma_first_after_map(sorted, s.last(), f, lt_a, lt_b);
        lemma_first_after_bound(sorted, s.last(), lt_a);
        let k = first_after(sorted, s.last(), lt_a);
        assert(sorted.insert(k, s.last()).map_values(f) =~= sorted.map_values(f).insert(k, f(s.last())));
    } else {
        assert(s.map_values(f) =~= Seq::<B>::empty());
    }
}

/// An order that no item precedes itself in, and that carries through.
pub open spec fn strict_order<A>(lt: spec_fn(A, A) -> bool) -> bool {
    &&& forall|a: A| !#[trigger] lt(a, a)
    &&& forall|a: A, b: A, c: A| #[trigger] lt(a, b) && #[trigger] lt(b, c) ==> lt(a, c)
}

/// No item is placed after one it should come before.
pub open spec fn in_order<A>(s: Seq<A>, lt: spec_fn(A, A) -> bool) -> bool {
    forall|i: int, j: int| 0 <= i < j < s.len() ==> !lt(#[trigger] s[j], #[trigger] s[i])
}

proof fn lemma_first_after_facts<A>(sorted: Seq<A>, x: A, lt: spec_fn(A, A) -> bool)
    ensures
        forall|i: int| 0 <= i < first_after(sorted, x, lt) ==> !lt(x, #[trigger] sorted[i]),
        first_after(sorted, x, lt) < sorted.len() ==> lt(x, sorted[first_after(sorted, x, lt)]),
    decreases sorted.len(),
{
    lemma_first_after_bound(sorted, x, lt);
    if sorted.len() > 0 && !lt(x, sorted[0]) {
        let t = sorted.drop_first();
        lemma_first_after_facts(t, x, lt);
        assert forall|i: int| 0 <= i < first_after(sorted, x, lt) implies !lt(x, #[trigger] sorted[i]) by {
            if i > 0 {
                assert(sorted[i] == t[i - 1]);
            }
        }
        let m = first_after(t, x, lt);
        lemma_first_after_bound(t, x, lt);
        assert(first_after(sorted, x, lt) == m + 1);
        if m < t.len() {
            assert(sorted[m + 1] == t[m]);
        }
    }
}

/// A stable sort by a strict order puts no item after one it should come
/// before, and keeps every item: the result is a reordering of the input.
pub proof fn law_sorted_is_in_order<A>(s: Seq<A>, lt: spec_fn(A, A) -> bool)
    requires
        strict_order(lt),
    ensures
        in_order(stable_sort(s, lt), lt),
        stable_sort(s, lt).to_multiset() == s.to_multiset(),
    decreases s.len(),
{
    broadcast use vstd::seq_lib::group_to_multiset_ensures;
    if s.len() == 0 {
    } else {
        let init = s.drop_last();
        let x = s.last();
        law_sorted_is_in_order(init, lt);
        let sorted = stable_sort(init, lt);
        lemma_stable_sort_len(init, lt);
        lemma_first_after_bound(sorted, x, lt);
        lemma_first_after_facts(sorted, x, lt);
        let k = first_after(sorted, x, lt);
        let r = sorted.insert(k, x);
        assert forall|i: int, j: int| 0 <= i < j < r.len() implies !lt(#[trigger] r[j], #[trigger] r[i]) by {
            if j < k {
                assert(r[i] == sorted[i] && r[j] == sorted[j]);
            } else if j == k {
                assert(r[j] == x && r[i] == sorted[i]);
            } else if i == k {
                assert(r[i] == x && r[j] == sorted[j - 1]);
                if lt(sorted[j - 1], x) {
                    assert(lt(x, sorted[k]));
                    if j - 1 == k {
                        assert(lt(sorted[k], sorted[k]));
                    } else {
                        assert(lt(sorted[j - 1], sorted[k]));
                    }
                }
            } else if i < k {
                assert(r[i] == sorted[i] && r[j] == sorted[j - 1]);
            } else {
                assert(r[i] == sorted[i - 1] && r[j] == sorted[j - 1]);
            }
        }
        assert(s =~= init.push(x));
        assert(r.to_multiset() =~= sorted.to_multiset().insert(x)) by {
            vstd::seq_lib::to_multiset_insert(sorted, k, x);
        }
    }
}

/// Text is never before itself, two texts are ordered the same way from
/// either side, and the order carries through.
pub proof fn lemma_text_order(a: Seq<char>, b: Seq<char>, c: Seq<char>)
    ensures
        text_order(a, a) == 0,
        text_order(a, b) == -text_order(b, a),
        text_order(a, b) == 0 ==> a == b,
        text_order(a, b) < 0 && text_order(b, c) < 0 ==> text_order(a, c) < 0,
    decreases a.len() + b.len() + c.len(),
{
    if a.len() > 0 && b.len() > 0 && c.len() > 0 {
        lemma_text_order(a.drop_first(), b.drop_first(), c.drop_first());
    } else if a.len() > 0 && b.len() > 0 {
        lemma_text_order(a.drop_first(), b.drop_first(), c);
    } else if a.len() > 0 {
        lemma_text_order(a.drop_first(), b, c);
    }
    if a.len() > 0 && b.len() > 0 && a[0] == b[0] && text_order(a.drop_first(), b.drop_first()) == 0 {
        assert(a.drop_first() == b.drop_first());
        assert(a =~= seq![a[0]] + a.drop_first());
        assert(b =~= seq![b[0]] + b.drop_first());
    }
    if a.len() == 0 && b.len() == 0 {
        assert(a =~= b);
    }
}

/// Sorting only moves entries: what holds of each entry of a sequence holds
/// of each entry of it sorted.
pub proof fn lemma_stable_sort_keeps<A>(s: Seq<A>, lt: spec_fn(A, A) -> bool, p: spec_fn(A) -> bool)
    requires
        forall|i: int| 0 <= i < s.len() ==> #[trigger] p(s[i]),
    ensures
        forall|i: int| 0 <= i < stable_sort(s, lt).len() ==> #[trigger] p(stable_sort(s, lt)[i]),
    decreases s.len(),
{
    lemma_stable_sort_len(s, lt);
    if s.len() > 0 {
        let rest = s.drop_last();
        assert forall|i: int| 0 <= i < rest.len() implies #[trigger] p(rest[i]) by {
            assert(rest[i] == s[i]);
        }
        lemma_stable_sort_keeps(rest, lt, p);
        let sorted = stable_sort(rest, lt);
        lemma_stable_sort_len(rest, lt);
        let k = first_after(sorted, s.last(), lt);
        lemma_first_after_bound(sorted, s.last(), lt);
        let out = sorted.insert(k, s.last());
        assert(p(s[s.len() - 1]));
        assert forall|i: int| 0 <= i < out.len() implies #[trigger] p(out[i]) by {
            if i < k {
                assert(out[i] == sorted[i]);
            } else if i > k {
                assert(out[i] == sorted[i - 1]);
            }
        }
    }
}

} // verus!
