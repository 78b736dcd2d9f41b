//! Searching and counting in sequences.

use vstd::prelude::*;

verus! {

/// The first position, `from` or later, whose element satisfies `p`.
pub open spec fn first_index<T>(s: Seq<T>, p: spec_fn(T) -> bool, from: int) -> Option<int>
    decreases s.len() - from,
{
    if from >= s.len() {
        None
    } else if p(s[from]) {
        Some(from)
    } else {
        first_index(s, p, from + 1)
    }
}

/// The last position before `to` whose element satisfies `p`.
pub open spec fn last_index<T>(s: Seq<T>, p: spec_fn(T) -> bool, to: int) -> Option<int>
    decreases to,
{
    if to <= 0 {
        None
    } else if p(s[to - 1]) {
        Some(to - 1)
    } else {
        last_index(s, p, to - 1)
    }
}

/// How many of the first `n` elements satisfy `p`.
pub open spec fn count_of<T>(s: Seq<T>, p: spec_fn(T) -> bool, n: int) -> nat
    decreases n,
{
    if n <= 0 {
        0
    } else {
        count_of(s, p, n - 1) + if p(s[n - 1]) { 1nat } else { 0nat }
    }
}

/// Those of the first `n` elements that satisfy `p`, in order.
pub open spec fn filtered<T>(s: Seq<T>, p: spec_fn(T) -> bool, n: int) -> Seq<T>
    decreases n,
{
    if n <= 0 {
        Seq::empty()
    } else if p(s[n - 1]) {
        filtered(s, p, n - 1).push(s[n - 1])
    } else {
        filtered(s, p, n - 1)
    }
}

/// What is filtered satisfies `p` and comes from `s`; all of it is there.
pub proof fn lemma_filtered<T>(s: Seq<T>, p: spec_fn(T) -> bool, n: int)
    requires
        0 <= n <= s.len(),
    ensures
        filtered(s, p, n).len() <= n,
        forall|i: int|
            0 <= i < filtered(s, p, n).len() ==> p(#[trigger] filtered(s, p, n)[i]) && s.contains(
                filtered(s, p, n)[i],
            ),
        forall|j: int|
            0 <= j < n && p(#[trigger] s[j]) ==> filtered(s, p, n).contains(s[j]),
    decreases n,
{
    if n > 0 {
        lemma_filtered(s, p, n - 1);
        let before = filtered(s, p, n - 1);
        if p(s[n - 1]) {
            let now = before.push(s[n - 1]);
            assert forall|j: int| 0 <= j < n && p(#[trigger] s[j]) implies now.contains(s[j]) by {
                if j < n - 1 {
                    let k = choose|k: int| 0 <= k < before.len() && before[k] == s[j];
                    assert(now[k] == s[j]);
                } else {
                    assert(now[before.len() as int] == s[j]);
                }
            }
        }
    }
}

/// Filtering keeps everything that satisfies `p`.
pub proof fn lemma_filtered_all<T>(s: Seq<T>, p: spec_fn(T) -> bool, n: int)
    requires
        0 <= n <= s.len(),
        forall|i: int| 0 <= i < s.len() ==> p(#[trigger] s[i]),
    ensures
        filtered(s, p, n) == s.take(n),
    decreases n,
{
    if n > 0 {
        lemma_filtered_all(s, p, n - 1);
        assert(s.take(n) =~= s.take(n - 1).push(s[n - 1]));
    }
    assert(n == s.len() ==> s.take(n) =~= s);
}

/// What `first_index` finds satisfies `p`, and nothing between does.
pub proof fn lemma_first_index<T>(s: Seq<T>, p: spec_fn(T) -> bool, from: int)
    requires
        0 <= from,
    ensures
        match first_index(s, p, from) {
            Some(i) => from <= i < s.len() && p(s[i]) && forall|j: int| from <= j < i ==> !p(s[j]),
            None => forall|j: int| from <= j < s.len() ==> !p(s[j]),
        },
    decreases s.len() - from,
{
    if from < s.len() && !p(s[from]) {
        lemma_first_index(s, p, from + 1);
    }
}

/// What `last_index` finds satisfies `p`, and nothing after it does.
pub proof fn lemma_last_index<T>(s: Seq<T>, p: spec_fn(T) -> bool, to: int)
    requires
        0 <= to <= s.len(),
    ensures
        match last_index(s, p, to) {
            Some(i) => 0 <= i < to && p(s[i]) && forall|j: int| i < j < to ==> !p(s[j]),
            None => forall|j: int| 0 <= j < to ==> !p(s[j]),
        },
    decreases to,
{
    if to > 0 && !p(s[to - 1]) {
        lemma_last_index(s, p, to - 1);
    }
}

/// Predicates that agree on every element find the same position.
pub proof fn lemma_first_index_same<T>(
    s: Seq<T>,
    p: spec_fn(T) -> bool,
    q: spec_fn(T) -> bool,
    from: int,
)
    requires
        0 <= from,
        forall|j: int| 0 <= j < s.len() ==> p(#[trigger] s[j]) == q(s[j]),
    ensures
        first_index(s, p, from) == first_index(s, q, from),
    decreases s.len() - from,
{
    if from < s.len() {
        assert(p(s[from]) == q(s[from]));
        lemma_first_index_same(s, p, q, from + 1);
    }
}

/// A count is no more than what is counted.
pub proof fn lemma_count_bound<T>(s: Seq<T>, p: spec_fn(T) -> bool, n: int)
    requires
        0 <= n,
    ensures
        count_of(s, p, n) <= n,
    decreases n,
{
    if n > 0 {
        lemma_count_bound(s, p, n - 1);
    }
}

/// The elements by their keys.
pub open spec fn keyed<T>(s: Seq<T>, key: spec_fn(T) -> Seq<char>) -> Map<Seq<char>, T>
    decreases s.len(),
{
    if s.len() == 0 {
        Map::empty()
    } else {
        keyed(s.drop_last(), key).insert(key(s.last()), s.last())
    }
}

/// No two elements share a key.
pub open spec fn keys_distinct<T>(s: Seq<T>, key: spec_fn(T) -> Seq<char>) -> bool {
    forall|i: int, j: int|
        0 <= i < j < s.len() ==> key(#[trigger] s[i]) != key(#[trigger] s[j])
}

/// A key is there exactly if an element has it.
pub proof fn lemma_keyed_dom<T>(s: Seq<T>, key: spec_fn(T) -> Seq<char>, k: Seq<char>)
    ensures
        keyed(s, key).dom().contains(k) <==> exists|i: int|
            0 <= i < s.len() && key(#[trigger] s[i]) == k,
    decreases s.len(),
{
    if s.len() > 0 {
        let before = s.drop_last();
        lemma_keyed_dom(before, key, k);
        if exists|i: int| 0 <= i < before.len() && key(#[trigger] before[i]) == k {
            let i = choose|i: int| 0 <= i < before.len() && key(#[trigger] before[i]) == k;
            assert(key(s[i]) == k);
        }
        if exists|i: int| 0 <= i < s.len() && key(#[trigger] s[i]) == k {
            let i = choose|i: int| 0 <= i < s.len() && key(#[trigger] s[i]) == k;
            if i < before.len() {
                assert(key(before[i]) == k);
            }
        }
    }
}

/// Each element is found under its key.
pub proof fn lemma_keyed_at<T>(s: Seq<T>, key: spec_fn(T) -> Seq<char>, i: int)
    requires
        keys_distinct(s, key),
        0 <= i < s.len(),
    ensures
        keyed(s, key).dom().contains(key(s[i])),
        keyed(s, key)[key(s[i])] == s[i],
    decreases s.len(),
{
    if i < s.len() - 1 {
        let before = s.drop_last();
        assert(before[i] == s[i]);
        lemma_keyed_at(before, key, i);
        assert(key(s[i]) != key(s.last()));
    }
}

/// Removing an element removes its key.
pub proof fn lemma_keyed_removed<T>(s: Seq<T>, key: spec_fn(T) -> Seq<char>, i: int)
    requires
        keys_distinct(s, key),
        0 <= i < s.len(),
    ensures
        keyed(s.remove(i), key) == keyed(s, key).remove(key(s[i])),
        keys_distinct(s.remove(i), key),
    decreases s.len(),
{
    let before = s.drop_last();
    let k = key(s[i]);
    if i == s.len() - 1 {
        assert(s.remove(i) =~= before);
        lemma_keyed_dom(before, key, k);
        if keyed(before, key).dom().contains(k) {
            let j = choose|j: int| 0 <= j < before.len() && key(#[trigger] before[j]) == k;
            assert(key(s[j]) != key(s[i]));
        }
        assert(keyed(before, key).insert(k, s[i]).remove(k) =~= keyed(before, key));
    } else {
        let removed = s.remove(i);
        assert(removed.drop_last() =~= before.remove(i));
        assert(removed.last() == s.last());
        assert(before[i] == s[i]);
        lemma_keyed_removed(before, key, i);
        assert(key(s.last()) != k);
        assert(keyed(removed, key) =~= keyed(s, key).remove(k));
    }
}

/// An element with a new key can be added.
pub proof fn lemma_keyed_pushed<T>(s: Seq<T>, key: spec_fn(T) -> Seq<char>, x: T)
    requires
        keys_distinct(s, key),
        !keyed(s, key).dom().contains(key(x)),
    ensures
        keys_distinct(s.push(x), key),
        keyed(s.push(x), key) == keyed(s, key).insert(key(x), x),
{
    let t = s.push(x);
    assert(t.drop_last() =~= s);
    lemma_keyed_dom(s, key, key(x));
    assert forall|i: int, j: int| 0 <= i < j < t.len() implies key(#[trigger] t[i]) != key(
        #[trigger] t[j],
    ) by {
        assert(t[i] == s[i]);
        if j < s.len() {
            assert(t[j] == s[j]);
        }
    }
}

/// What is filtered keeps its order: the filtered parts of two sequences, one behind the
/// other, are what is filtered of both; a single element stays exactly if it satisfies `p`.
pub proof fn law_filtered<T>(a: Seq<T>, b: Seq<T>, x: T, p: spec_fn(T) -> bool)
    ensures
        filtered(a + b, p, (a + b).len() as int) == filtered(a, p, a.len() as int) + filtered(
            b,
            p,
            b.len() as int,
        ),
        filtered(seq![x], p, 1) == if p(x) {
            seq![x]
        } else {
            Seq::empty()
        },
    decreases b.len(),
{
    reveal_with_fuel(filtered, 2);
    assert(filtered(seq![x], p, 1) =~= if p(x) {
        seq![x]
    } else {
        Seq::empty()
    });
    let all = a + b;
    if b.len() == 0 {
        assert(all =~= a);
        assert(filtered(b, p, 0) =~= Seq::<T>::empty());
        assert(filtered(a, p, a.len() as int) + Seq::<T>::empty() =~= filtered(
            a,
            p,
            a.len() as int,
        ));
    } else {
        let less = b.drop_last();
        law_filtered(a, less, x, p);
        lemma_filtered_prefix(all, a + less, p, (a + less).len() as int);
        lemma_filtered_prefix(b, less, p, less.len() as int);
        assert(all.last() == b.last());
        assert(filtered(all, p, all.len() as int) =~= filtered(a, p, a.len() as int) + filtered(
            b,
            p,
            b.len() as int,
        ));
    }
}

proof fn lemma_filtered_prefix<T>(a: Seq<T>, b: Seq<T>, p: spec_fn(T) -> bool, n: int)
    requires
        n <= a.len(),
        n <= b.len(),
        forall|i: int| 0 <= i < n ==> a[i] == b[i],
    ensures
        filtered(a, p, n) == filtered(b, p, n),
    decreases n,
{
    if n > 0 {
        lemma_filtered_prefix(a, b, p, n - 1);
        assert(a[n - 1] == b[n - 1]);
    }
}

/// A count adds up: what is counted in two sequences, one behind the other, is counted in
/// both; a single element counts exactly if it satisfies `p`.
pub proof fn law_count<T>(a: Seq<T>, b: Seq<T>, x: T, p: spec_fn(T) -> bool)
    ensures
        count_of(a + b, p, (a + b).len() as int) == count_of(a, p, a.len() as int) + count_of(
            b,
            p,
            b.len() as int,
        ),
        count_of(seq![x], p, 1) == if p(x) {
            1nat
        } else {
            0nat
        },
    decreases b.len(),
{
    reveal_with_fuel(count_of, 2);
    let all = a + b;
    if b.len() == 0 {
        assert(all =~= a);
    } else {
        let less = b.drop_last();
        law_count(a, less, x, p);
        lemma_count_same(all, a + less, p, (a + less).len() as int);
        lemma_count_same(b, less, p, less.len() as int);
        assert(all.last() == b.last());
    }
}

proof fn lemma_count_same<T>(a: Seq<T>, b: Seq<T>, p: spec_fn(T) -> bool, n: int)
    requires
        n <= a.len(),
        n <= b.len(),
        forall|i: int| 0 <= i < n ==> a[i] == b[i],
    ensures
        count_of(a, p, n) == count_of(b, p, n),
    decreases n,
{
    if n > 0 {
        lemma_count_same(a, b, p, n - 1);
        assert(a[n - 1] == b[n - 1]);
    }
}

/// The first position is the one that satisfies `p` while none before it does; there is
/// none exactly if nothing from there on does.
pub proof fn law_first_index<T>(s: Seq<T>, p: spec_fn(T) -> bool, from: int)
    requires
        0 <= from <= s.len(),
    ensures
        forall|i: int|
            from <= i < s.len() && p(#[trigger] s[i]) && (forall|j: int|
                from <= j < i ==> !p(#[trigger] s[j])) ==> first_index(s, p, from) == Some(i),
        first_index(s, p, from) is None <==> forall|j: int|
            from <= j < s.len() ==> !p(#[trigger] s[j]),
    decreases s.len() - from,
{
    if from < s.len() {
        if p(s[from]) {
            assert forall|i: int|
                from <= i < s.len() && p(#[trigger] s[i]) && (forall|j: int|
                    from <= j < i ==> !p(#[trigger] s[j])) implies first_index(s, p, from) == Some(
                i,
            ) by {
                if from < i {
                    assert(!p(s[from]));
                }
            }
        } else {
            law_first_index(s, p, from + 1);
        }
    }
}

/// The last position is the one that satisfies `p` while none behind it does; there is
/// none exactly if nothing before the end does.
pub proof fn law_last_index<T>(s: Seq<T>, p: spec_fn(T) -> bool, to: int)
    requires
        0 <= to <= s.len(),
    ensures
        forall|i: int|
            0 <= i < to && p(#[trigger] s[i]) && (forall|j: int|
                i < j < to ==> !p(#[trigger] s[j])) ==> last_index(s, p, to) == Some(i),
        last_index(s, p, to) is None <==> forall|j: int| 0 <= j < to ==> !p(#[trigger] s[j]),
    decreases to,
{
    if to > 0 {
        if p(s[to - 1]) {
            assert forall|i: int|
                0 <= i < to && p(#[trigger] s[i]) && (forall|j: int|
                    i < j < to ==> !p(#[trigger] s[j])) implies last_index(s, p, to) == Some(i) by {
                if i < to - 1 {
                    assert(!p(s[to - 1]));
                }
            }
        } else {
            law_last_index(s, p, to - 1);
        }
    }
}

} // verus!
