//! Channel numbers in ascending order.
use std::collections::{HashMap, HashSet};
use vstd::prelude::*;

verus! {

broadcast use vstd::std_specs::hash::group_hash_axioms;

/// `s` names the members of `set`, each once, in ascending order.
pub open spec fn is_listing(s: Seq<u32>, set: Set<u32>) -> bool {
    &&& forall|i: int, j: int| 0 <= i < j < s.len() ==> s[i] < s[j]
    &&& forall|x: u32| #[trigger] s.contains(x) <==> set.contains(x)
}

/// The members of `set` in ascending order.
pub open spec fn listing(set: Set<u32>) -> Seq<u32> {
    choose|s: Seq<u32>| is_listing(s, set)
}

/// There is only one such order.
pub proof fn lemma_listing_unique(a: Seq<u32>, b: Seq<u32>, set: Set<u32>)
    requires
        is_listing(a, set),
        is_listing(b, set),
    ensures
        a == b,
    decreases a.len(),
{
    if a.len() == 0 {
        if b.len() > 0 {
            assert(b.contains(b[0]));
            assert(a.contains(b[0]));
        }
        assert(a =~= b);
    } else {
        assert(a.contains(a.last()));
        assert(b.contains(a.last()));
        assert(b.contains(b.last()));
        assert(a.contains(b.last()));
        let x = a.last();
        let i = choose|i: int| 0 <= i < b.len() && b[i] == x;
        let j = choose|j: int| 0 <= j < a.len() && a[j] == b.last();
        assert(b.last() >= x) by {
            if i < b.len() - 1 {
                assert(b[i] < b[b.len() - 1]);
            }
        }
        assert(b.last() <= x) by {
            if j < a.len() - 1 {
                assert(a[j] < a[a.len() - 1]);
            }
        }
        lemma_listing_init(a, set);
        lemma_listing_init(b, set);
        lemma_listing_unique(a.drop_last(), b.drop_last(), set.remove(x));
        assert(a =~= a.drop_last().push(x));
        assert(b =~= b.drop_last().push(x));
    }
}

/// Without its largest member.
proof fn lemma_listing_init(a: Seq<u32>, set: Set<u32>)
    requires
        is_listing(a, set),
        a.len() > 0,
    ensures
        is_listing(a.drop_last(), set.remove(a.last())),
{
    let b = a.drop_last();
    assert forall|x: u32| #[trigger] b.contains(x) <==> set.remove(a.last()).contains(x) by {
        if b.contains(x) {
            let i = choose|i: int| 0 <= i < b.len() && b[i] == x;
            assert(a[i] == x);
            assert(a[i] < a[a.len() - 1]);
            assert(a.contains(x));
        }
        if set.remove(a.last()).contains(x) {
            assert(a.contains(x));
            let i = choose|i: int| 0 <= i < a.len() && a[i] == x;
            assert(b[i] == x);
        }
    }
}

/// A listing is the listing.
pub proof fn lemma_listing(s: Seq<u32>, set: Set<u32>)
    requires
        is_listing(s, set),
    ensures
        listing(set) == s,
{
    lemma_listing_unique(listing(set), s, set);
}

/// The members of `set` below `k`, ascending.
spec fn below(set: Set<u32>, k: nat) -> Seq<u32>
    decreases k,
{
    if k == 0 {
        Seq::empty()
    } else if set.contains((k - 1) as u32) {
        below(set, (k - 1) as nat).push((k - 1) as u32)
    } else {
        below(set, (k - 1) as nat)
    }
}

proof fn lemma_below(set: Set<u32>, k: nat)
    requires
        k <= 0x1_0000_0000,
    ensures
        forall|i: int, j: int| 0 <= i < j < below(set, k).len() ==> below(set, k)[i] < below(set, k)[j],
        forall|x: u32| #[trigger] below(set, k).contains(x) <==> set.contains(x) && x < k,
    decreases k,
{
    if k > 0 {
        let s = below(set, (k - 1) as nat);
        let y = (k - 1) as u32;
        lemma_below(set, (k - 1) as nat);
        assert forall|i: int| 0 <= i < s.len() implies #[trigger] s[i] < y by {
            assert(s.contains(s[i]));
        }
        assert forall|x: u32| #[trigger] below(set, k).contains(x) <==> set.contains(x) && x
            < k by {
            if set.contains(y) {
                let t = s.push(y);
                if s.contains(x) {
                    let i = choose|i: int| 0 <= i < s.len() && s[i] == x;
                    assert(t[i] == x);
                }
                if x == y {
                    assert(t[s.len() as int] == y);
                }
                if t.contains(x) {
                    let i = choose|i: int| 0 <= i < t.len() && t[i] == x;
                    if i < s.len() {
                        assert(s[i] == x);
                    }
                }
            }
        }
    }
}

/// Every set of channel numbers has such an order.
pub proof fn lemma_listing_exists(set: Set<u32>)
    ensures
        is_listing(listing(set), set),
{
    lemma_below(set, 0x1_0000_0000);
    assert(is_listing(below(set, 0x1_0000_0000), set));
}

/// A part of an ascending list ascends.
pub proof fn lemma_ascending_part(s: Seq<u32>, pred: spec_fn(u32) -> bool)
    requires
        forall|i: int, j: int| 0 <= i < j < s.len() ==> s[i] < s[j],
    ensures
        forall|i: int, j: int|
            0 <= i < j < s.filter(pred).len() ==> s.filter(pred)[i] < s.filter(pred)[j],
        forall|x: u32| #[trigger] s.filter(pred).contains(x) ==> s.contains(x) && pred(x),
    decreases s.len(),
{
    reveal(Seq::filter);
    if s.len() > 0 {
        let t = s.drop_last();
        lemma_ascending_part(t, pred);
        let f = t.filter(pred);
        assert forall|i: int| 0 <= i < f.len() implies #[trigger] f[i] < s.last() by {
            assert(f.contains(f[i]));
            assert(t.contains(f[i]));
            let k = choose|k: int| 0 <= k < t.len() && t[k] == f[i];
            assert(s[k] < s[s.len() - 1]);
        }
        assert forall|x: u32| #[trigger] s.filter(pred).contains(x) implies s.contains(x) && pred(
            x,
        ) by {
            let i = choose|i: int| 0 <= i < s.filter(pred).len() && s.filter(pred)[i] == x;
            if i < f.len() {
                assert(f[i] == x);
                assert(f.contains(x));
                let k = choose|k: int| 0 <= k < t.len() && t[k] == x;
                assert(s[k] == x);
            } else {
                assert(s[s.len() - 1] == x);
            }
        }
    }
}

/// A part of a list holds what belongs to it.
pub proof fn lemma_part_holds(s: Seq<u32>, pred: spec_fn(u32) -> bool, x: u32)
    requires
        s.contains(x),
        pred(x),
    ensures
        s.filter(pred).contains(x),
    decreases s.len(),
{
    reveal(Seq::filter);
    let i = choose|i: int| 0 <= i < s.len() && s[i] == x;
    let t = s.drop_last();
    let f = t.filter(pred);
    if i < t.len() {
        assert(t[i] == x);
        lemma_part_holds(t, pred, x);
        let j = choose|j: int| 0 <= j < f.len() && f[j] == x;
        assert(s.filter(pred)[j] == x);
    } else {
        assert(s.filter(pred)[f.len() as int] == x);
    }
}

/// Adds a number to an ascending list.
pub(crate) fn insert_sorted(v: &mut Vec<u32>, x: u32, Ghost(set): Ghost<Set<u32>>)
    requires
        is_listing(old(v)@, set),
        !set.contains(x),
    ensures
        is_listing(final(v)@, set.insert(x)),
{
    let mut i: usize = 0;
    while i < v.len() && v[i] < x
        invariant
            i <= v@.len(),
            v@ == old(v)@,
            is_listing(v@, set),
            forall|k: int| 0 <= k < i ==> v@[k] < x,
        decreases v@.len() - i,
    {
        i = i + 1;
    }
    let ghost s = v@;
    assert forall|k: int| i <= k < s.len() implies s[k] > x by {
        assert(s.contains(s[k]));
        if k > i {
            assert(s[i as int] < s[k]);
        }
        assert(s.contains(s[i as int]));
    }
    v.insert(i, x);
    let ghost t = v@;
    proof {
        assert(t =~= s.insert(i as int, x));
        assert forall|y: u32| #[trigger] t.contains(y) <==> set.insert(x).contains(y) by {
            if t.contains(y) {
                let k = choose|k: int| 0 <= k < t.len() && t[k] == y;
                if k < i {
                    assert(s[k] == y);
                    assert(s.contains(y));
                } else if k > i {
                    assert(s[k - 1] == y);
                    assert(s.contains(y));
                }
            }
            if set.insert(x).contains(y) {
                if y == x {
                    assert(t[i as int] == x);
                } else {
                    assert(s.contains(y));
                    let k = choose|k: int| 0 <= k < s.len() && s[k] == y;
                    if k < i {
                        assert(t[k] == y);
                    } else {
                        assert(t[k + 1] == y);
                    }
                }
            }
        }
        assert forall|a: int, b: int| 0 <= a < b < t.len() implies t[a] < t[b] by {
            if a < i && b < i {
                assert(s[a] < s[b]);
            } else if a > i {
                assert(s[a - 1] < s[b - 1]);
            } else if a < i && b > i {
                assert(s[a] < x);
                assert(s[b - 1] > x);
            } else if a == i {
                assert(s[b - 1] > x);
            }
        }
    }
}

/// One more element of a walk that repeats none.
proof fn lemma_one_more(q: Seq<u32>, n: int)
    requires
        0 <= n < q.len(),
        q.no_duplicates(),
    ensures
        !q.take(n).to_set().contains(q[n]),
        q.take(n + 1).to_set() == q.take(n).to_set().insert(q[n]),
{
    let k = q[n];
    let q1 = q.take(n + 1);
    assert(!q.take(n).contains(k)) by {
        if q.take(n).contains(k) {
            let j = choose|j: int| 0 <= j < n && q.take(n)[j] == k;
            assert(q[j] == q[n]);
        }
    }
    assert(q1 =~= q.take(n).push(k));
    assert forall|y: u32| q1.to_set().contains(y) <==> #[trigger] q.take(n).to_set().insert(
        k,
    ).contains(y) by {
        if q.take(n).contains(y) {
            let j = choose|j: int| 0 <= j < n && q.take(n)[j] == y;
            assert(q1[j] == y);
        }
        assert(q1[n] == k);
        if q1.contains(y) && y != k {
            let j = choose|j: int| 0 <= j < n + 1 && q1[j] == y;
            assert(q.take(n)[j] == y);
        }
    }
    assert(q1.to_set() =~= q.take(n).to_set().insert(k));
}

/// The members of a set, in ascending order.
pub(crate) fn sorted_members(m: &HashSet<u32>) -> (r: Vec<u32>)
    ensures
        is_listing(r@, m@),
        r@ == listing(m@),
{
    let mut out: Vec<u32> = Vec::new();
    let ghost mut seen: Set<u32> = Set::empty();
    assert(is_listing(out@, seen));
    for k in it: m.iter()
        invariant
            is_listing(out@, seen),
            it.seq().no_duplicates(),
            it.seq().unref().no_duplicates(),
            it.seq().unref().to_set() == m@,
            seen == it.seq().unref().take(it.index() as int).to_set(),
            it.seq().unref().take(it.seq().unref().len() as int) =~= it.seq().unref(),
            it.index() == it.seq().len() ==> seen == m@,
    {
        let ghost q = it.seq().unref();
        let ghost n = it.index() as int;
        proof {
            lemma_one_more(q, n);
            assert(q[n] == *k);
        }
        insert_sorted(&mut out, *k, Ghost(seen));
        proof {
            seen = seen.insert(*k);
            assert(q.take(q.len() as int) =~= q);
        }
    }
    proof {
        lemma_listing(out@, m@);
    }
    out
}

/// The keys of a table, in ascending order.
pub(crate) fn sorted_keys<V>(m: &HashMap<u32, V>) -> (r: Vec<u32>)
    ensures
        is_listing(r@, m@.dom()),
        r@ == listing(m@.dom()),
{
    let mut out: Vec<u32> = Vec::new();
    let ghost mut seen: Set<u32> = Set::empty();
    assert(is_listing(out@, seen));
    proof {
        if m@.dom().len() == 0 {
            assert(m@.dom() =~= Set::empty());
        }
    }
    for k in it: m.keys()
        invariant
            is_listing(out@, seen),
            it.seq().no_duplicates(),
            it.seq().unref().no_duplicates(),
            it.seq().unref().to_set() == m@.dom(),
            seen == it.seq().unref().take(it.index() as int).to_set(),
            it.index() == it.seq().len() ==> seen == m@.dom(),
    {
        let ghost q = it.seq().unref();
        let ghost n = it.index() as int;
        proof {
            lemma_one_more(q, n);
            assert(q[n] == *k);
        }
        insert_sorted(&mut out, *k, Ghost(seen));
        proof {
            seen = seen.insert(*k);
            assert(q.take(q.len() as int) =~= q);
        }
    }
    proof {
        lemma_listing(out@, m@.dom());
    }
    out
}

} // verus!
