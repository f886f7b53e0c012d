//! Ordering by keys: dictionary order on lists of numbers, stable sorting and first or last extremes.
use vstd::prelude::*;

verus! {

/// Dictionary order on keys: the first position at which two keys differ decides, and a proper
/// prefix comes before what extends it.
pub open spec fn lex_less(a: Seq<u64>, b: Seq<u64>) -> bool
    decreases a.len(),
{
    if b.len() == 0 {
        false
    } else if a.len() == 0 {
        true
    } else if a[0] != b[0] {
        a[0] < b[0]
    } else {
        lex_less(a.drop_first(), b.drop_first())
    }
}

/// No key comes before itself.
pub proof fn lemma_lex_irreflexive(a: Seq<u64>)
    ensures
        !lex_less(a, a),
    decreases a.len(),
{
    if a.len() > 0 {
        lemma_lex_irreflexive(a.drop_first());
    }
}

/// Dictionary order is transitive.
pub proof fn lemma_lex_transitive(a: Seq<u64>, b: Seq<u64>, c: Seq<u64>)
    requires
        lex_less(a, b),
        lex_less(b, c),
    ensures
        lex_less(a, c),
    decreases a.len(),
{
    if a.len() > 0 && a[0] == b[0] && b[0] == c[0] {
        lemma_lex_transitive(a.drop_first(), b.drop_first(), c.drop_first());
    }
}

/// Of two different keys one comes before the other.
pub proof fn lemma_lex_total(a: Seq<u64>, b: Seq<u64>)
    ensures
        a == b || lex_less(a, b) || lex_less(b, a),
    decreases a.len(),
{
    if a.len() == 0 && b.len() == 0 {
        assert(a =~= b);
    } else if a.len() > 0 && b.len() > 0 && a[0] == b[0] {
        lemma_lex_total(a.drop_first(), b.drop_first());
        if a.drop_first() == b.drop_first() {
            assert forall|i: int| 0 <= i < a.len() implies a[i] == b[i] by {
                if i > 0 {
                    assert(a[i] == a.drop_first()[i - 1]);
                    assert(b[i] == b.drop_first()[i - 1]);
                }
            }
            assert(a.len() == a.drop_first().len() + 1);
            assert(b.len() == b.drop_first().len() + 1);
            assert(a =~= b);
        }
    }
}

/// Whether key `a` comes before key `b`.
pub fn key_precedes(a: &Vec<u64>, b: &Vec<u64>) -> (r: bool)
    ensures
        r == lex_less(a@, b@),
{
    let mut i: usize = 0;
    assert(a@.skip(0) =~= a@);
    assert(b@.skip(0) =~= b@);
    while i < a.len() && i < b.len()
        invariant
            i <= a.len(),
            i <= b.len(),
            lex_less(a@, b@) == lex_less(a@.skip(i as int), b@.skip(i as int)),
        decreases a.len() - i,
    {
        assert(a@.skip(i as int).drop_first() =~= a@.skip(i + 1));
        assert(b@.skip(i as int).drop_first() =~= b@.skip(i + 1));
        if a[i] != b[i] {
            return a[i] < b[i];
        }
        i += 1;
    }
    i < b.len()
}

/// The keys as plain sequences.
pub open spec fn key_views(keys: Seq<Vec<u64>>) -> Seq<Seq<u64>> {
    Seq::new(keys.len(), |i: int| keys[i]@)
}

/// Where a new key goes among the first `n` places of `order`: behind every key that does not
/// come after it.
pub open spec fn insertion_point(
    keys: Seq<Seq<u64>>,
    order: Seq<int>,
    key: Seq<u64>,
    n: int,
) -> int
    decreases n,
{
    if n <= 0 {
        0
    } else if lex_less(key, keys[order[n - 1]]) {
        insertion_point(keys, order, key, n - 1)
    } else {
        n
    }
}

/// The stable sorting order of the first `n` keys.
pub open spec fn sort_prefix(keys: Seq<Seq<u64>>, n: int) -> Seq<int>
    decreases n,
{
    if n <= 0 {
        Seq::empty()
    } else {
        let rest = sort_prefix(keys, n - 1);
        rest.insert(insertion_point(keys, rest, keys[n - 1], rest.len() as int), n - 1)
    }
}

/// The indices of `keys` in stable ascending order of their keys.
pub open spec fn sort_order(keys: Seq<Seq<u64>>) -> Seq<int> {
    sort_prefix(keys, keys.len() as int)
}

/// Index `i` stands before index `j` in a stable ascending order.
pub open spec fn stands_before(keys: Seq<Seq<u64>>, i: int, j: int) -> bool {
    lex_less(keys[i], keys[j]) || (keys[i] == keys[j] && i < j)
}

/// The items of `s` in the order that the indices give.
pub open spec fn gather<T>(s: Seq<T>, order: Seq<int>) -> Seq<T> {
    Seq::new(order.len(), |i: int| s[order[i]])
}

proof fn lemma_insertion_point(keys: Seq<Seq<u64>>, order: Seq<int>, key: Seq<u64>, n: int)
    requires
        0 <= n <= order.len(),
    ensures
        0 <= insertion_point(keys, order, key, n) <= n,
        forall|i: int|
            insertion_point(keys, order, key, n) <= i < n ==> lex_less(key, keys[#[trigger] order[i]]),
        insertion_point(keys, order, key, n) > 0 ==> !lex_less(
            key,
            keys[order[insertion_point(keys, order, key, n) - 1]],
        ),
    decreases n,
{
    if n > 0 && lex_less(key, keys[order[n - 1]]) {
        lemma_insertion_point(keys, order, key, n - 1);
    }
}

/// A stable order lists every index exactly once, smaller keys first and equal keys in the order
/// in which they were given.
pub proof fn lemma_sort_prefix(keys: Seq<Seq<u64>>, n: int)
    requires
        0 <= n <= keys.len(),
    ensures
        sort_prefix(keys, n).len() == n,
        forall|i: int| 0 <= i < n ==> 0 <= #[trigger] sort_prefix(keys, n)[i] < n,
        forall|i: int, j: int|
            0 <= i < j < n ==> stands_before(
                keys,
                #[trigger] sort_prefix(keys, n)[i],
                #[trigger] sort_prefix(keys, n)[j],
            ),
        forall|k: int| 0 <= k < n ==> sort_prefix(keys, n).contains(k),
    decreases n,
{
    if n > 0 {
        lemma_sort_prefix(keys, n - 1);
        let rest = sort_prefix(keys, n - 1);
        let key = keys[n - 1];
        let p = insertion_point(keys, rest, key, rest.len() as int);
        lemma_insertion_point(keys, rest, key, rest.len() as int);
        let all = sort_prefix(keys, n);
        assert(all == rest.insert(p, n - 1));
        assert forall|i: int, j: int| 0 <= i < j < n implies stands_before(
            keys,
            #[trigger] all[i],
            #[trigger] all[j],
        ) by {
            let before = |a: int| if a < p { a } else { a - 1 };
            if i != p && j != p {
                assert(all[i] == rest[before(i)]);
                assert(all[j] == rest[before(j)]);
            } else if i == p {
                assert(all[j] == rest[j - 1]);
            } else {
                assert(all[i] == rest[i]);
                let last = rest[p - 1];
                lemma_lex_total(key, keys[last]);
                if i < p - 1 {
                    assert(stands_before(keys, rest[i], rest[p - 1]));
                    if lex_less(keys[rest[i]], keys[last]) && lex_less(keys[last], key) {
                        lemma_lex_transitive(keys[rest[i]], keys[last], key);
                    }
                }
            }
        }
        assert forall|k: int| 0 <= k < n implies all.contains(k) by {
            if k == n - 1 {
                assert(all[p] == k);
            } else {
                let q = choose|q: int| 0 <= q < rest.len() && rest[q] == k;
                assert(rest.contains(k));
                if q < p {
                    assert(all[q] == k);
                } else {
                    assert(all[q + 1] == k);
                }
            }
        }
    }
}

/// The indices of `keys` in stable ascending order.
pub fn stable_order(keys: &Vec<Vec<u64>>) -> (order: Vec<usize>)
    ensures
        order.len() == keys.len(),
        forall|i: int|
            0 <= i < order.len() ==> #[trigger] order[i] == sort_order(key_views(keys@))[i],
        forall|i: int| 0 <= i < order.len() ==> #[trigger] order[i] < keys.len(),
{
    let ghost views = key_views(keys@);
    let mut order: Vec<usize> = Vec::new();
    let mut n: usize = 0;
    while n < keys.len()
        invariant
            n <= keys.len(),
            views == key_views(keys@),
            order.len() == n,
            forall|i: int| 0 <= i < n ==> #[trigger] order[i] == sort_prefix(views, n as int)[i],
            forall|i: int| 0 <= i < n ==> #[trigger] order[i] < n,
        decreases keys.len() - n,
    {
        let ghost rest = sort_prefix(views, n as int);
        proof {
            lemma_sort_prefix(views, n as int);
            lemma_sort_prefix(views, n + 1);
            lemma_insertion_point(views, rest, views[n as int], n as int);
        }
        let mut p: usize = order.len();
        while p > 0 && key_precedes(&keys[n], &keys[order[p - 1]])
            invariant
                p <= order.len(),
                n < keys.len(),
                order.len() == n,
                views == key_views(keys@),
                rest.len() == n,
                forall|i: int| 0 <= i < n ==> #[trigger] order[i] == rest[i],
                forall|i: int| 0 <= i < n ==> #[trigger] order[i] < n,
                insertion_point(views, rest, views[n as int], n as int) == insertion_point(
                    views,
                    rest,
                    views[n as int],
                    p as int,
                ),
            decreases p,
        {
            p -= 1;
        }
        order.insert(p, n);
        n += 1;
    }
    order
}

/// The index of the first of the least keys among the first `n`.
pub open spec fn first_least(keys: Seq<Seq<u64>>, n: int) -> int
    decreases n,
{
    if n <= 1 {
        0
    } else if lex_less(keys[n - 1], keys[first_least(keys, n - 1)]) {
        n - 1
    } else {
        first_least(keys, n - 1)
    }
}

/// The first least key has no smaller key, and no equal key before it.
pub proof fn lemma_first_least(keys: Seq<Seq<u64>>, n: int)
    requires
        0 < n <= keys.len(),
    ensures
        0 <= first_least(keys, n) < n,
        forall|i: int|
            0 <= i < n && i != first_least(keys, n) ==> stands_before(
                keys,
                first_least(keys, n),
                #[trigger] keys_index(i),
            ),
    decreases n,
{
    if n > 1 {
        lemma_first_least(keys, n - 1);
        let b = first_least(keys, n - 1);
        let r = first_least(keys, n);
        assert forall|i: int| 0 <= i < n && i != r implies stands_before(
            keys,
            r,
            #[trigger] keys_index(i),
        ) by {
            lemma_lex_total(keys[n - 1], keys[b]);
            if i < n - 1 && i != b {
                assert(stands_before(keys, b, keys_index(i)));
                if r == n - 1 {
                    if lex_less(keys[b], keys[i]) {
                        lemma_lex_transitive(keys[n - 1], keys[b], keys[i]);
                    }
                }
            }
        }
    }
}

/// The index itself.
pub open spec fn keys_index(i: int) -> int {
    i
}

/// The index of the first of the least keys, if there is any key.
pub fn least_index(keys: &Vec<Vec<u64>>) -> (r: Option<usize>)
    ensures
        r is None <==> keys.len() == 0,
        r matches Some(i) ==> i < keys.len() && i == first_least(
            key_views(keys@),
            keys.len() as int,
        ),
{
    if keys.len() == 0 {
        return None;
    }
    let ghost views = key_views(keys@);
    let mut best: usize = 0;
    let mut n: usize = 1;
    while n < keys.len()
        invariant
            1 <= n <= keys.len(),
            views == key_views(keys@),
            best < keys.len(),
            best == first_least(views, n as int),
        decreases keys.len() - n,
    {
        if key_precedes(&keys[n], &keys[best]) {
            best = n;
        }
        n += 1;
    }
    Some(best)
}

/// The key that is smaller where the two first differ comes first.
pub proof fn lemma_lex_by(a: Seq<u64>, b: Seq<u64>, k: int)
    requires
        0 <= k < a.len(),
        k < b.len(),
        forall|i: int| 0 <= i < k ==> #[trigger] a[i] == b[i],
        a[k] < b[k],
    ensures
        lex_less(a, b),
    decreases k,
{
    if k > 0 {
        assert(a[0] == b[0]);
        assert forall|i: int| 0 <= i < k - 1 implies #[trigger] a.drop_first()[i]
            == b.drop_first()[i] by {
            assert(a[i + 1] == b[i + 1]);
        }
        lemma_lex_by(a.drop_first(), b.drop_first(), k - 1);
    }
}

/// Of a sorted list no later key comes before an earlier one.
pub proof fn lemma_never_before(keys: Seq<Seq<u64>>, i: int, j: int)
    requires
        stands_before(keys, i, j),
    ensures
        !lex_less(keys[j], keys[i]),
{
    lemma_lex_irreflexive(keys[i]);
    if lex_less(keys[j], keys[i]) {
        if lex_less(keys[i], keys[j]) {
            lemma_lex_transitive(keys[i], keys[j], keys[i]);
        }
    }
}

/// Adding an item adds nothing else.
pub proof fn lemma_pushed<T>(s: Seq<T>, last: T, x: T)
    ensures
        s.push(last).contains(x) <==> s.contains(x) || x == last,
{
    let t = s.push(last);
    assert(t[s.len() as int] == last);
    if s.contains(x) {
        let i = choose|i: int| 0 <= i < s.len() && s[i] == x;
        assert(t[i] == x);
    }
    if t.contains(x) {
        let i = choose|i: int| 0 <= i < t.len() && t[i] == x;
        if i < s.len() {
            assert(s[i] == x);
        }
    }
}

/// Two lists together hold what either holds.
pub proof fn lemma_joined<T>(a: Seq<T>, b: Seq<T>, x: T)
    ensures
        (a + b).contains(x) <==> a.contains(x) || b.contains(x),
{
    let t = a + b;
    if a.contains(x) {
        let i = choose|i: int| 0 <= i < a.len() && a[i] == x;
        assert(t[i] == x);
    }
    if b.contains(x) {
        let i = choose|i: int| 0 <= i < b.len() && b[i] == x;
        assert(t[a.len() + i] == x);
    }
    if t.contains(x) {
        let i = choose|i: int| 0 <= i < t.len() && t[i] == x;
        if i < a.len() {
            assert(a[i] == x);
        } else {
            assert(b[i - a.len()] == x);
        }
    }
}

/// Sorting a list keeps its items.
pub proof fn lemma_gathered<T>(s: Seq<T>, keys: Seq<Seq<u64>>, x: T)
    requires
        keys.len() == s.len(),
    ensures
        gather(s, sort_order(keys)).contains(x) <==> s.contains(x),
        gather(s, sort_order(keys)).len() == s.len(),
{
    let order = sort_order(keys);
    let all = gather(s, order);
    lemma_sort_prefix(keys, keys.len() as int);
    if s.contains(x) {
        let i = choose|i: int| 0 <= i < s.len() && s[i] == x;
        assert(order.contains(i));
        let k = choose|k: int| 0 <= k < order.len() && order[k] == i;
        assert(all[k] == x);
    }
    if all.contains(x) {
        let k = choose|k: int| 0 <= k < all.len() && all[k] == x;
        assert(0 <= order[k] < s.len());
        assert(s[order[k]] == x);
    }
}

} // verus!
