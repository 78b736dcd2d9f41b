//! Sorting by a text key.

use crate::text::{lemma_order_total, lemma_order_transitive, not_after, ordered};
use vstd::prelude::*;

verus! {

/// `a` may stand before `b`.
pub open spec fn in_order(a: Seq<char>, b: Seq<char>, descending: bool) -> bool {
    if descending {
        not_after(b, a)
    } else {
        not_after(a, b)
    }
}

/// The keys of the elements rise, or fall, from the first to the last.
pub open spec fn sorted_by<T>(s: Seq<T>, key: spec_fn(T) -> Seq<char>, descending: bool) -> bool {
    forall|i: int, j: int|
        0 <= i < j < s.len() ==> in_order(key(#[trigger] s[i]), key(#[trigger] s[j]), descending)
}

fn may_precede(a: &Vec<char>, b: &Vec<char>, descending: bool) -> (r: bool)
    ensures
        r == in_order(a@, b@, descending),
{
    if descending {
        ordered(b, a)
    } else {
        ordered(a, b)
    }
}

proof fn lemma_insert_multiset<T>(s: Seq<T>, i: int, a: T)
    requires
        0 <= i <= s.len(),
    ensures
        s.insert(i, a).to_multiset() == s.to_multiset().insert(a),
{
    broadcast use vstd::seq_lib::group_to_multiset_ensures;

    let t = s.insert(i, a);
    assert(t.remove(i) =~= s);
    assert(t[i] == a);
    assert(t.contains(a));
    assert(t.to_multiset().remove(a) == s.to_multiset());
    assert(t.to_multiset().remove(a).insert(a) =~= t.to_multiset());
}

/// Sorts the items by their keys; items with equal keys keep their order.
pub(crate) fn sort_by_key<T>(
    items: Vec<T>,
    keys: Vec<Vec<char>>,
    descending: bool,
    Ghost(key): Ghost<spec_fn(T) -> Seq<char>>,
) -> (r: Vec<T>)
    requires
        items@.len() == keys@.len(),
        forall|i: int| 0 <= i < items@.len() ==> (#[trigger] keys@[i])@ == key(items@[i]),
    ensures
        r@.to_multiset() == items@.to_multiset(),
        sorted_by(r@, key, descending),
{
    let ghost all = items@;
    let ghost all_keys = keys@;
    let n: usize = items.len();
    let mut rest = items;
    let mut rest_keys = keys;
    let mut out: Vec<T> = Vec::new();
    let mut out_keys: Vec<Vec<char>> = Vec::new();
    let mut i: usize = 0;
    assert(all.skip(0) =~= all);
    assert(all_keys.skip(0) =~= all_keys);
    assert(all.take(0) =~= out@);
    while i < n
        invariant
            i <= n,
            n == all.len(),
            n == all_keys.len(),
            rest@ == all.skip(i as int),
            rest_keys@ == all_keys.skip(i as int),
            forall|k: int| 0 <= k < n ==> (#[trigger] all_keys[k])@ == key(all[k]),
            out@.len() == i,
            out_keys@.len() == i,
            forall|k: int| 0 <= k < i ==> (#[trigger] out_keys@[k])@ == key(out@[k]),
            out@.to_multiset() == all.take(i as int).to_multiset(),
            sorted_by(out@, key, descending),
        decreases n - i,
    {
        let item = rest.remove(0);
        let item_key = rest_keys.remove(0);
        assert(all.skip(i as int)[0] == all[i as int]);
        assert(all_keys.skip(i as int)[0] == all_keys[i as int]);
        assert(all.skip(i as int).remove(0) =~= all.skip(i as int + 1));
        assert(all_keys.skip(i as int).remove(0) =~= all_keys.skip(i as int + 1));
        let mut k: usize = out.len();
        while k > 0 && !may_precede(&out_keys[k - 1], &item_key, descending)
            invariant
                k <= out@.len(),
                out@.len() == i,
                out_keys@.len() == i,
                item_key@ == key(item),
                forall|m: int| 0 <= m < i ==> (#[trigger] out_keys@[m])@ == key(out@[m]),
                forall|m: int|
                    k <= m < i ==> !in_order(key(#[trigger] out@[m]), key(item), descending),
            decreases k,
        {
            assert(out_keys@[k - 1]@ == key(out@[k - 1]));
            k -= 1;
        }
        proof {
            if k > 0 {
                assert(out_keys@[k - 1]@ == key(out@[k - 1]));
            }
            lemma_insert_multiset(out@, k as int, item);
            assert(all.take(i as int + 1) =~= all.take(i as int).push(item));
            vstd::seq_lib::to_multiset_build(all.take(i as int), item);
        }
        let ghost before = out@;
        let ghost before_keys = out_keys@;
        out.insert(k, item);
        out_keys.insert(k, item_key);
        proof {
            lemma_insert_sorted(before, k as int, item, key, descending);
            assert forall|m: int| 0 <= m < i + 1 implies (#[trigger] out_keys@[m])@ == key(
                out@[m],
            ) by {
                if m < k {
                    assert(before_keys[m]@ == key(before[m]));
                } else if m > k {
                    assert(before_keys[m - 1]@ == key(before[m - 1]));
                }
            }
        }
        i += 1;
    }
    assert(all.take(n as int) =~= all);
    out
}

proof fn lemma_insert_sorted<T>(
    s: Seq<T>,
    k: int,
    item: T,
    key: spec_fn(T) -> Seq<char>,
    descending: bool,
)
    requires
        0 <= k <= s.len(),
        sorted_by(s, key, descending),
        k > 0 ==> in_order(key(s[k - 1]), key(item), descending),
        forall|m: int|
            k <= m < s.len() ==> !in_order(key(#[trigger] s[m]), key(item), descending),
    ensures
        sorted_by(s.insert(k, item), key, descending),
{
    let t = s.insert(k, item);
    assert forall|i: int, j: int| 0 <= i < j < t.len() implies in_order(
        key(#[trigger] t[i]),
        key(#[trigger] t[j]),
        descending,
    ) by {
        if j == k {
            assert(t[i] == s[i]);
            if i < k - 1 {
                assert(in_order(key(s[i]), key(s[k - 1]), descending));
                if descending {
                    lemma_order_transitive(key(item), key(s[k - 1]), key(s[i]));
                } else {
                    lemma_order_transitive(key(s[i]), key(s[k - 1]), key(item));
                }
            }
        } else if i == k {
            assert(t[j] == s[j - 1]);
            lemma_order_total(key(s[j - 1]), key(item));
        } else {
            let a = if i < k { i } else { i - 1 };
            let b = if j < k { j } else { j - 1 };
            assert(t[i] == s[a]);
            assert(t[j] == s[b]);
        }
    }
}

} // verus!
