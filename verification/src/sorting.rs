//! Lexicographic order on names and paths, and a stable sort by that order.
use vstd::prelude::*;

use crate::fs_ops::char_vecs;

verus! {

/// `a` comes before `b` in character order (as `str` and `OsStr` compare).
pub open spec fn chars_lt(a: Seq<char>, b: Seq<char>) -> bool
    decreases a.len(),
{
    if a.len() == 0 {
        b.len() > 0
    } else if b.len() == 0 {
        false
    } else if a[0] != b[0] {
        a[0] < b[0]
    } else {
        chars_lt(a.drop_first(), b.drop_first())
    }
}

/// `a` comes before `b`, component by component, each component compared by
/// `chars_lt`; on the keys of `tree::path_key` this is how `Path` compares.
pub open spec fn comps_lt(a: Seq<Seq<char>>, b: Seq<Seq<char>>) -> bool
    decreases a.len(),
{
    if a.len() == 0 {
        b.len() > 0
    } else if b.len() == 0 {
        false
    } else if a[0] != b[0] {
        chars_lt(a[0], b[0])
    } else {
        comps_lt(a.drop_first(), b.drop_first())
    }
}

/// Decides `chars_lt`.
pub fn chars_less(a: &Vec<char>, b: &Vec<char>) -> (r: bool)
    ensures
        r == chars_lt(a@, b@),
{
    let mut i: usize = 0;
    assert(a@.skip(0) =~= a@);
    assert(b@.skip(0) =~= b@);
    while i < a.len() && i < b.len() && a[i] == b[i]
        invariant
            i <= a@.len(),
            i <= b@.len(),
            chars_lt(a@, b@) == chars_lt(a@.skip(i as int), b@.skip(i as int)),
        decreases a@.len() - i,
    {
        assert(a@.skip(i as int).drop_first() =~= a@.skip(i + 1));
        assert(b@.skip(i as int).drop_first() =~= b@.skip(i + 1));
        i = i + 1;
    }
    if i == a.len() {
        i < b.len()
    } else if i == b.len() {
        false
    } else {
        a[i] < b[i]
    }
}

/// Whether two character vectors are equal.
pub fn chars_eq(a: &Vec<char>, b: &Vec<char>) -> (r: bool)
    ensures
        r == (a@ == b@),
{
    assert(a@.subrange(0, a@.len() as int) =~= a@);
    crate::text::slice_equals(a, 0, a.len(), b)
}

/// Decides `comps_lt`.
pub fn comps_less(a: &Vec<Vec<char>>, b: &Vec<Vec<char>>) -> (r: bool)
    ensures
        r == comps_lt(char_vecs(a@), char_vecs(b@)),
{
    let ghost av = char_vecs(a@);
    let ghost bv = char_vecs(b@);
    let mut i: usize = 0;
    assert(av.skip(0) =~= av);
    assert(bv.skip(0) =~= bv);
    while i < a.len() && i < b.len() && chars_eq(&a[i], &b[i])
        invariant
            i <= a@.len(),
            i <= b@.len(),
            av == char_vecs(a@),
            bv == char_vecs(b@),
            comps_lt(av, bv) == comps_lt(av.skip(i as int), bv.skip(i as int)),
        decreases a@.len() - i,
    {
        assert(av.skip(i as int).drop_first() =~= av.skip(i + 1));
        assert(bv.skip(i as int).drop_first() =~= bv.skip(i + 1));
        i = i + 1;
    }
    if i == a.len() {
        i < b.len()
    } else if i == b.len() {
        false
    } else {
        assert(av.skip(i as int)[0] == a@[i as int]@);
        assert(bv.skip(i as int)[0] == b@[i as int]@);
        chars_less(&a[i], &b[i])
    }
}

/// Items paired with the components they are ordered by.
pub open spec fn keyed_view<T>(v: Seq<(Vec<Vec<char>>, T)>) -> Seq<(Seq<Seq<char>>, T)> {
    v.map_values(|p: (Vec<Vec<char>>, T)| (char_vecs(p.0@), p.1))
}

/// The first position at or after `j` whose key comes after `k`, or `s.len()`.
pub open spec fn first_after<T>(s: Seq<(Seq<Seq<char>>, T)>, k: Seq<Seq<char>>, j: int) -> int
    decreases s.len() - j,
{
    if j >= s.len() {
        s.len() as int
    } else if comps_lt(k, s[j].0) {
        j
    } else {
        first_after(s, k, j + 1)
    }
}

/// `x` placed after every item of `s` whose key does not come after its own.
pub open spec fn sorted_insert<T>(s: Seq<(Seq<Seq<char>>, T)>, x: (Seq<Seq<char>>, T)) -> Seq<
    (Seq<Seq<char>>, T),
> {
    s.insert(first_after(s, x.0, 0), x)
}

/// The stable sort of `s` by key: each item in turn placed after the items
/// before it whose keys do not come after its own.
pub open spec fn stable_sort<T>(s: Seq<(Seq<Seq<char>>, T)>) -> Seq<(Seq<Seq<char>>, T)>
    decreases s.len(),
{
    if s.len() == 0 {
        s
    } else {
        sorted_insert(stable_sort(s.drop_last()), s.last())
    }
}

proof fn lemma_first_after_bounds<T>(s: Seq<(Seq<Seq<char>>, T)>, k: Seq<Seq<char>>, j: int)
    requires
        0 <= j <= s.len(),
    ensures
        j <= first_after(s, k, j) <= s.len(),
    decreases s.len() - j,
{
    if j < s.len() && !comps_lt(k, s[j].0) {
        lemma_first_after_bounds(s, k, j + 1);
    }
}

/// Sorts keyed items stably by their keys.
pub fn sort_keyed<T>(items: Vec<(Vec<Vec<char>>, T)>) -> (r: Vec<(Vec<Vec<char>>, T)>)
    ensures
        keyed_view(r@) == stable_sort(keyed_view(items@)),
{
    let ghost input = keyed_view(items@);
    let n = items.len();
    assert(input.len() == n);
    let mut rest = items;
    let mut sorted: Vec<(Vec<Vec<char>>, T)> = Vec::new();
    let mut done: usize = 0;
    assert(input.take(0) =~= Seq::<(Seq<Seq<char>>, T)>::empty());
    assert(keyed_view(sorted@) =~= Seq::<(Seq<Seq<char>>, T)>::empty());
    while rest.len() > 0
        invariant
            done + rest@.len() == input.len(),
            input.len() <= usize::MAX,
            keyed_view(rest@) == input.skip(done as int),
            keyed_view(sorted@) == stable_sort(input.take(done as int)),
        decreases rest@.len(),
    {
        let ghost before = keyed_view(rest@);
        let x = rest.remove(0);
        assert(keyed_view(rest@) =~= before.drop_first());
        assert(before[0] == (char_vecs(x.0@), x.1));
        let ghost sv = keyed_view(sorted@);
        let mut j: usize = 0;
        while j < sorted.len() && !comps_less(&x.0, &sorted[j].0)
            invariant
                j <= sorted@.len(),
                sv == keyed_view(sorted@),
                first_after(sv, char_vecs(x.0@), 0) == first_after(sv, char_vecs(x.0@), j as int),
            decreases sorted@.len() - j,
        {
            j = j + 1;
        }
        proof {
            lemma_first_after_bounds(sv, char_vecs(x.0@), 0);
        }
        assert(first_after(sv, char_vecs(x.0@), j as int) == j);
        sorted.insert(j, x);
        proof {
            assert(input.take(done + 1).drop_last() =~= input.take(done as int));
            assert(input.take(done + 1).last() == (char_vecs(x.0@), x.1));
            assert(keyed_view(sorted@) =~= sv.insert(j as int, (char_vecs(x.0@), x.1)));
            assert(input.skip(done + 1) =~= input.skip(done as int).drop_first());
        }
        done = done + 1;
    }
    assert(input.take(done as int) =~= input);
    sorted
}


/// Inserting `x` adds one to the count of a predicate that holds of `x`,
/// and leaves the other counts alone.
pub proof fn lemma_insert_filter_len<A>(a: Seq<A>, k: int, x: A, p: spec_fn(A) -> bool)
    requires
        0 <= k <= a.len(),
    ensures
        a.insert(k, x).filter(p).len() == a.filter(p).len() + if p(x) {
            1int
        } else {
            0int
        },
{
    let l = a.take(k);
    let r = a.skip(k);
    assert(a =~= l + r);
    assert(a.insert(k, x) =~= l.push(x) + r);
    Seq::filter_distributes_over_add(l, r, p);
    Seq::filter_distributes_over_add(l.push(x), r, p);
    l.lemma_filter_push(x, p);
}

/// Sorting keeps every item: whatever holds of some items before the sort
/// holds of as many after it.
pub proof fn lemma_stable_sort_counts<T>(s: Seq<(Seq<Seq<char>>, T)>, p: spec_fn((Seq<Seq<char>>, T)) -> bool)
    ensures
        stable_sort(s).len() == s.len(),
        stable_sort(s).filter(p).len() == s.filter(p).len(),
    decreases s.len(),
{
    if s.len() > 0 {
        lemma_stable_sort_counts(s.drop_last(), p);
        let t = stable_sort(s.drop_last());
        lemma_first_after_bounds(t, s.last().0, 0);
        lemma_insert_filter_len(t, first_after(t, s.last().0, 0), s.last(), p);
        s.drop_last().lemma_filter_push(s.last(), p);
        assert(s.drop_last().push(s.last()) =~= s);
    }
}

/// Mapping and then filtering counts what filtering by the composed
/// predicate counts.
pub proof fn lemma_map_filter_len<A, B>(s: Seq<A>, f: spec_fn(A) -> B, p: spec_fn(B) -> bool)
    ensures
        s.map_values(f).filter(p).len() == s.filter(|a: A| p(f(a))).len(),
    decreases s.len(),
{
    if s.len() > 0 {
        let q = |a: A| p(f(a));
        lemma_map_filter_len(s.drop_last(), f, p);
        assert(s.map_values(f) =~= s.drop_last().map_values(f).push(f(s.last())));
        s.drop_last().map_values(f).lemma_filter_push(f(s.last()), p);
        s.drop_last().lemma_filter_push(s.last(), q);
        assert(s.drop_last().push(s.last()) =~= s);
    }
}

/// The predicate of being `y`.
pub open spec fn equal_to<A>(y: A) -> spec_fn(A) -> bool {
    |z: A| z == y
}

/// An item occurs in a sequence exactly when the count of items equal to
/// it is positive.
pub proof fn lemma_contains_count<A>(s: Seq<A>, y: A)
    ensures
        s.contains(y) <==> s.filter(equal_to(y)).len() > 0,
{
    let p = equal_to(y);
    if s.contains(y) {
        let i = choose|i: int| 0 <= i < s.len() && s[i] == y;
        s.lemma_filter_contains(p, i);
    }
    if s.filter(p).len() > 0 {
        s.lemma_filter_pred(p, 0);
        assert(s.filter(p).contains(s.filter(p)[0]));
        s.lemma_filter_contains_rev(p, s.filter(p)[0]);
    }
}
/// Removing duplicates after a list of distinct items seen leaves no
/// duplicates.
pub proof fn lemma_remove_duplicates_distinct<A>(s: Seq<A>, seen: Seq<A>)
    requires
        seen.no_duplicates(),
    ensures
        s.remove_duplicates(seen).no_duplicates(),
    decreases s.len(),
{
    if s.len() > 0 {
        if seen.contains(s[0]) {
            lemma_remove_duplicates_distinct(s.skip(1), seen);
        } else {
            let next = seen + seq![s[0]];
            assert forall|i: int, j: int| 0 <= i < next.len() && 0 <= j < next.len() && i != j implies next[i]
                != next[j] by {
                if i == seen.len() {
                    assert(seen[j] == next[j]);
                } else if j == seen.len() {
                    assert(seen[i] == next[i]);
                }
            }
            lemma_remove_duplicates_distinct(s.skip(1), next);
        }
    }
}


/// Nothing comes before itself in character order.
pub proof fn lemma_chars_lt_irreflexive(a: Seq<char>)
    ensures
        !chars_lt(a, a),
    decreases a.len(),
{
    if a.len() > 0 {
        lemma_chars_lt_irreflexive(a.drop_first());
    }
}

/// Character order is transitive.
pub proof fn lemma_chars_lt_transitive(a: Seq<char>, b: Seq<char>, c: Seq<char>)
    requires
        chars_lt(a, b),
        chars_lt(b, c),
    ensures
        chars_lt(a, c),
    decreases a.len(),
{
    if a.len() > 0 && b.len() > 0 && c.len() > 0 && a[0] == b[0] && b[0] == c[0] {
        lemma_chars_lt_transitive(a.drop_first(), b.drop_first(), c.drop_first());
    }
}

/// Nothing comes before itself in path order.
pub proof fn lemma_comps_lt_irreflexive(a: Seq<Seq<char>>)
    ensures
        !comps_lt(a, a),
    decreases a.len(),
{
    if a.len() > 0 {
        lemma_comps_lt_irreflexive(a.drop_first());
    }
}

/// Path order is transitive.
pub proof fn lemma_comps_lt_transitive(a: Seq<Seq<char>>, b: Seq<Seq<char>>, c: Seq<Seq<char>>)
    requires
        comps_lt(a, b),
        comps_lt(b, c),
    ensures
        comps_lt(a, c),
    decreases a.len(),
{
    if a.len() > 0 && b.len() > 0 && c.len() > 0 {
        if a[0] == b[0] && b[0] == c[0] {
            lemma_comps_lt_transitive(a.drop_first(), b.drop_first(), c.drop_first());
        } else if a[0] != b[0] && b[0] != c[0] {
            lemma_chars_lt_transitive(a[0], b[0], c[0]);
            if a[0] == c[0] {
                lemma_chars_lt_irreflexive(a[0]);
                lemma_chars_lt_transitive(b[0], c[0], b[0]);
                lemma_chars_lt_irreflexive(b[0]);
            }
        }
    }
}

/// No item comes before an item earlier in the sequence.
pub open spec fn keys_sorted<T>(s: Seq<(Seq<Seq<char>>, T)>) -> bool {
    forall|i: int, j: int| 0 <= i < j < s.len() ==> !comps_lt(#[trigger] s[j].0, #[trigger] s[i].0)
}

proof fn lemma_first_after<T>(s: Seq<(Seq<Seq<char>>, T)>, k: Seq<Seq<char>>, j: int)
    requires
        0 <= j <= s.len(),
    ensures
        j <= first_after(s, k, j) <= s.len(),
        first_after(s, k, j) < s.len() ==> comps_lt(k, s[first_after(s, k, j)].0),
        forall|m: int| j <= m < first_after(s, k, j) ==> !comps_lt(k, #[trigger] s[m].0),
    decreases s.len() - j,
{
    if j < s.len() && !comps_lt(k, s[j].0) {
        lemma_first_after(s, k, j + 1);
    }
}

proof fn lemma_sorted_insert_sorted<T>(t: Seq<(Seq<Seq<char>>, T)>, x: (Seq<Seq<char>>, T))
    requires
        keys_sorted(t),
    ensures
        keys_sorted(sorted_insert(t, x)),
{
    let k = first_after(t, x.0, 0);
    lemma_first_after(t, x.0, 0);
    let u = sorted_insert(t, x);
    assert forall|i: int, j: int| 0 <= i < j < u.len() implies !comps_lt(#[trigger] u[j].0, #[trigger] u[i].0) by {
        if i < k && j == k {
            assert(u[i] == t[i]);
        } else if i == k {
            let jj = j - 1;
            assert(u[j] == t[jj]);
            if comps_lt(t[jj].0, x.0) {
                lemma_comps_lt_transitive(t[jj].0, x.0, t[k].0);
                if jj == k {
                    lemma_comps_lt_irreflexive(t[k].0);
                }
            }
        } else {
            let ii = if i < k { i } else { i - 1 };
            let jj = if j < k { j } else { j - 1 };
            assert(u[i] == t[ii]);
            assert(u[j] == t[jj]);
        }
    }
}

/// The stable sort orders items by key.
pub proof fn lemma_stable_sort_sorted<T>(s: Seq<(Seq<Seq<char>>, T)>)
    ensures
        keys_sorted(stable_sort(s)),
    decreases s.len(),
{
    if s.len() > 0 {
        lemma_stable_sort_sorted(s.drop_last());
        lemma_sorted_insert_sorted(stable_sort(s.drop_last()), s.last());
    }
}

/// Filtering twice filters by both predicates.
pub proof fn lemma_filter_filter<A>(s: Seq<A>, p: spec_fn(A) -> bool, q: spec_fn(A) -> bool)
    ensures
        s.filter(p).filter(q) == s.filter(|x: A| p(x) && q(x)),
    decreases s.len(),
{
    if s.len() > 0 {
        lemma_filter_filter(s.drop_last(), p, q);
        s.drop_last().lemma_filter_push(s.last(), p);
        s.drop_last().filter(p).lemma_filter_push(s.last(), q);
        s.drop_last().lemma_filter_push(s.last(), |x: A| p(x) && q(x));
        assert(s.drop_last().push(s.last()) =~= s);
    }
}

/// `s` with the items at `i` and `i + 1` swapped.
pub open spec fn swap_adjacent<A>(s: Seq<A>, i: int) -> Seq<A> {
    s.update(i, s[i + 1]).update(i + 1, s[i])
}

/// Swapping two neighbours keeps the count of whatever holds of the items.
pub proof fn lemma_swap_counts<A>(s: Seq<A>, i: int, p: spec_fn(A) -> bool)
    requires
        0 <= i,
        i + 1 < s.len(),
    ensures
        swap_adjacent(s, i).filter(p).len() == s.filter(p).len(),
{
    let x = s[i];
    let y = s[i + 1];
    let a = s.take(i);
    let b = s.skip(i + 2);
    assert(s =~= a.push(x).push(y) + b);
    assert(swap_adjacent(s, i) =~= a.push(y).push(x) + b);
    Seq::filter_distributes_over_add(a.push(x).push(y), b, p);
    Seq::filter_distributes_over_add(a.push(y).push(x), b, p);
    a.lemma_filter_push(x, p);
    a.push(x).lemma_filter_push(y, p);
    a.lemma_filter_push(y, p);
    a.push(y).lemma_filter_push(x, p);
}

/// Two sequences hold the same items as often: every predicate holds of as
/// many items of one as of the other.
pub open spec fn same_items<A>(a: Seq<A>, b: Seq<A>) -> bool {
    forall|p: spec_fn(A) -> bool| #[trigger] a.filter(p).len() == b.filter(p).len()
}

/// The predicate of an item whose key is `k`.
pub open spec fn key_is<T>(k: Seq<Seq<char>>) -> spec_fn((Seq<Seq<char>>, T)) -> bool {
    |x: (Seq<Seq<char>>, T)| x.0 == k
}

/// No two items share a key.
pub open spec fn keys_distinct<T>(s: Seq<(Seq<Seq<char>>, T)>) -> bool {
    forall|k: Seq<Seq<char>>| #[trigger] s.filter(key_is::<T>(k)).len() <= 1
}

/// Different names are ordered one way or the other.
pub proof fn lemma_chars_lt_total(a: Seq<char>, b: Seq<char>)
    requires
        a != b,
    ensures
        chars_lt(a, b) || chars_lt(b, a),
    decreases a.len(),
{
    if a.len() == 0 && b.len() == 0 {
        assert(a =~= b);
    }
    if a.len() > 0 && b.len() > 0 && a[0] == b[0] {
        if a.drop_first() == b.drop_first() {
            assert(a.drop_first().len() == a.len() - 1);
            assert(b.drop_first().len() == b.len() - 1);
            assert(a.len() == b.len());
            assert forall|k: int| 0 <= k < a.len() implies a[k] == b[k] by {
                if k > 0 {
                    assert(a[k] == a.drop_first()[k - 1]);
                    assert(b[k] == b.drop_first()[k - 1]);
                }
            }
            assert(a =~= b);
        }
        lemma_chars_lt_total(a.drop_first(), b.drop_first());
    }
}

/// Different paths are ordered one way or the other.
pub proof fn lemma_comps_lt_total(a: Seq<Seq<char>>, b: Seq<Seq<char>>)
    requires
        a != b,
    ensures
        comps_lt(a, b) || comps_lt(b, a),
    decreases a.len(),
{
    if a.len() == 0 && b.len() == 0 {
        assert(a =~= b);
    }
    if a.len() > 0 && b.len() > 0 {
        if a[0] == b[0] {
            if a.drop_first() == b.drop_first() {
                assert(a.drop_first().len() == a.len() - 1);
                assert(b.drop_first().len() == b.len() - 1);
                assert(a.len() == b.len());
                assert forall|k: int| 0 <= k < a.len() implies a[k] == b[k] by {
                    if k > 0 {
                        assert(a[k] == a.drop_first()[k - 1]);
                        assert(b[k] == b.drop_first()[k - 1]);
                    }
                }
                assert(a =~= b);
            }
            lemma_comps_lt_total(a.drop_first(), b.drop_first());
        } else {
            lemma_chars_lt_total(a[0], b[0]);
        }
    }
}

proof fn lemma_two_positions<A>(s: Seq<A>, p: spec_fn(A) -> bool, i: int, j: int)
    requires
        0 <= i < j < s.len(),
        p(s[i]),
        p(s[j]),
    ensures
        s.filter(p).len() >= 2,
{
    let l = s.take(j);
    let r = s.skip(j);
    assert(s =~= l + r);
    Seq::filter_distributes_over_add(l, r, p);
    assert(l[i] == s[i]);
    l.lemma_filter_contains(p, i);
    assert(r[0] == s[j]);
    r.lemma_filter_contains(p, 0);
}

proof fn lemma_prepend_counts<A>(s: Seq<A>, p: spec_fn(A) -> bool)
    requires
        s.len() > 0,
    ensures
        s.filter(p).len() == s.drop_first().filter(p).len() + if p(s[0]) {
            1int
        } else {
            0int
        },
{
    assert(s =~= seq![s[0]] + s.drop_first());
    s.drop_first().lemma_filter_prepend(s[0], p);
}

/// Sorted sequences that hold the same items, no two sharing a key, are
/// equal: a sort by distinct keys has one outcome.
pub proof fn lemma_sorted_unique<T>(a: Seq<(Seq<Seq<char>>, T)>, b: Seq<(Seq<Seq<char>>, T)>)
    requires
        keys_sorted(a),
        keys_sorted(b),
        same_items(a, b),
        keys_distinct(a),
    ensures
        a == b,
    decreases a.len(),
{
    let all = |x: (Seq<Seq<char>>, T)| true;
    assert(a.filter(all).len() == b.filter(all).len());
    lemma_filter_everything(a, all);
    lemma_filter_everything(b, all);
    if a.len() > 0 {
        let x = a[0];
        let y = b[0];
        assert(a.filter(equal_to(x)).len() == b.filter(equal_to(x)).len());
        assert(a.filter(equal_to(y)).len() == b.filter(equal_to(y)).len());
        lemma_contains_count(a, x);
        lemma_contains_count(b, x);
        lemma_contains_count(a, y);
        lemma_contains_count(b, y);
        assert(a.contains(x)) by {
            assert(a[0] == x);
        }
        assert(b.contains(y)) by {
            assert(b[0] == y);
        }
        if x != y {
            let i = choose|i: int| 0 <= i < a.len() && a[i] == y;
            let j = choose|j: int| 0 <= j < b.len() && b[j] == x;
            if x.0 == y.0 {
                lemma_two_positions(a, key_is::<T>(x.0), 0, i);
                assert(a.filter(key_is::<T>(x.0)).len() <= 1);
            } else {
                lemma_comps_lt_total(x.0, y.0);
                assert(!comps_lt(a[i].0, a[0].0));
                assert(!comps_lt(b[j].0, b[0].0));
            }
        }
        let a2 = a.drop_first();
        let b2 = b.drop_first();
        assert forall|p: spec_fn((Seq<Seq<char>>, T)) -> bool| #[trigger] a2.filter(p).len() == b2.filter(p).len() by {
            assert(a.filter(p).len() == b.filter(p).len());
            lemma_prepend_counts(a, p);
            lemma_prepend_counts(b, p);
        }
        assert forall|k: Seq<Seq<char>>| #[trigger] a2.filter(key_is::<T>(k)).len() <= 1 by {
            assert(a.filter(key_is::<T>(k)).len() <= 1);
            lemma_prepend_counts(a, key_is::<T>(k));
        }
        assert forall|m: int, n: int| 0 <= m < n < a2.len() implies !comps_lt(#[trigger] a2[n].0, #[trigger] a2[m].0) by {
            assert(a2[n] == a[n + 1]);
            assert(a2[m] == a[m + 1]);
        }
        assert forall|m: int, n: int| 0 <= m < n < b2.len() implies !comps_lt(#[trigger] b2[n].0, #[trigger] b2[m].0) by {
            assert(b2[n] == b[n + 1]);
            assert(b2[m] == b[m + 1]);
        }
        lemma_sorted_unique(a2, b2);
        assert(a =~= seq![x] + a2);
        assert(b =~= seq![y] + b2);
    } else {
        assert(a =~= b);
    }
}

proof fn lemma_filter_everything<A>(s: Seq<A>, p: spec_fn(A) -> bool)
    requires
        forall|x: A| #[trigger] p(x),
    ensures
        s.filter(p) == s,
    decreases s.len(),
{
    if s.len() > 0 {
        lemma_filter_everything(s.drop_last(), p);
        s.drop_last().lemma_filter_push(s.last(), p);
        assert(s.drop_last().push(s.last()) =~= s);
    }
}

/// What holds of every item before the sort holds of every item after it.
pub proof fn lemma_stable_sort_all<T>(s: Seq<(Seq<Seq<char>>, T)>, p: spec_fn((Seq<Seq<char>>, T)) -> bool)
    requires
        forall|i: int| 0 <= i < s.len() ==> p(#[trigger] s[i]),
    ensures
        forall|i: int| 0 <= i < stable_sort(s).len() ==> p(#[trigger] stable_sort(s)[i]),
{
    let np = |x: (Seq<Seq<char>>, T)| !p(x);
    s.lemma_all_neg_filter_empty(np);
    lemma_stable_sort_counts(s, np);
    let t = stable_sort(s);
    assert forall|i: int| 0 <= i < t.len() implies p(#[trigger] t[i]) by {
        if !p(t[i]) {
            t.lemma_filter_contains(np, i);
        }
    }
}
} // verus!
