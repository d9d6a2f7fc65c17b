//! Ranking of partial arrangements.
//!
//! A coordinate that follows `k` distinguished cubies among `n` positions is
//! the rank of a *slot sequence*: a sequence of length `n` whose entry at a
//! position is the number (below `k`) of the distinguished cubie that sits
//! there, or `k` where some other cubie sits. The rank is made of two parts:
//! which positions are taken (a combination, ranked in colexicographic order)
//! and in which order the distinguished cubies appear (a permutation, ranked
//! by the place of the greatest remaining cubie among those that remain).

use vstd::prelude::*;
use vstd::arithmetic::div_mod::*;
use vstd::arithmetic::mul::*;

verus! {

/// The number of ways to choose `k` of `n` things, by Pascal's rule.
pub open spec fn binomial(n: nat, k: nat) -> nat
    decreases n,
{
    if k == 0 {
        1
    } else if n == 0 {
        0
    } else {
        binomial((n - 1) as nat, (k - 1) as nat) + binomial((n - 1) as nat, k)
    }
}

/// `k!`
pub open spec fn factorial(k: nat) -> nat
    decreases k,
{
    if k == 0 {
        1
    } else {
        k * factorial((k - 1) as nat)
    }
}

/// Whether a slot entry names one of the `k` distinguished cubies.
pub open spec fn is_tracked(v: int, k: nat) -> bool {
    0 <= v < k
}

/// How many slots hold a distinguished cubie.
pub open spec fn tracked_count(s: Seq<int>, k: nat) -> nat
    decreases s.len(),
{
    if s.len() == 0 {
        0
    } else if is_tracked(s.last(), k) {
        tracked_count(s.drop_last(), k) + 1
    } else {
        tracked_count(s.drop_last(), k)
    }
}

/// The distinguished cubies in the order of the positions they sit at.
pub open spec fn tracked_order(s: Seq<int>, k: nat) -> Seq<int>
    decreases s.len(),
{
    if s.len() == 0 {
        Seq::empty()
    } else if is_tracked(s.last(), k) {
        tracked_order(s.drop_last(), k).push(s.last())
    } else {
        tracked_order(s.drop_last(), k)
    }
}

/// The colexicographic rank of the set of taken positions: arrangements that
/// leave the last position free come first.
pub open spec fn place_rank(s: Seq<int>, k: nat) -> nat
    decreases s.len(),
{
    if s.len() == 0 {
        0
    } else if is_tracked(s.last(), k) {
        binomial((s.len() - 1) as nat, tracked_count(s, k)) + place_rank(s.drop_last(), k)
    } else {
        place_rank(s.drop_last(), k)
    }
}

/// `q` holds each of the numbers `0 .. k` exactly once.
pub open spec fn is_arrangement(q: Seq<int>, k: nat) -> bool {
    &&& q.no_duplicates()
    &&& forall|i: int| 0 <= i < q.len() ==> 0 <= #[trigger] q[i] < k
    &&& forall|v: int| 0 <= v < k ==> q.contains(v)
}

/// The rank of an order of `0 .. q.len()`: the greatest number stands `d`
/// places before the end of the sequence, and `d` is the lowest digit of the
/// rank; what is left once it is taken out gives the higher digits.
pub open spec fn order_rank(q: Seq<int>) -> nat
    decreases q.len(),
{
    if q.len() == 0 {
        0
    } else {
        let top = q.len() - 1;
        let p = q.index_of(top);
        if 0 <= p < q.len() {
            ((top - p) + q.len() * order_rank(q.remove(p))) as nat
        } else {
            0
        }
    }
}

/// The order of `0 .. k` with the given rank.
pub open spec fn order_unrank(k: nat, b: nat) -> Seq<int>
    decreases k,
{
    if k == 0 {
        Seq::empty()
    } else {
        let top = (k - 1) as int;
        order_unrank((k - 1) as nat, b / k).insert(top - (b % k) as int, top)
    }
}

/// The slot sequence of length `n` that puts the entries of `q`, in their
/// order, on the set of positions of colexicographic rank `a`, and `other` on
/// every position left.
pub open spec fn spread(n: nat, a: nat, q: Seq<int>, other: int) -> Seq<int>
    decreases n,
{
    if n == 0 {
        Seq::empty()
    } else if q.len() > 0 && a >= binomial((n - 1) as nat, q.len()) {
        spread(
            (n - 1) as nat,
            (a - binomial((n - 1) as nat, q.len())) as nat,
            q.drop_last(),
            other,
        ).push(q.last())
    } else {
        spread((n - 1) as nat, a, q, other).push(other)
    }
}

/// A slot sequence over `n` positions for `k` distinguished cubies: every
/// entry is a cubie's number or `k`, and each distinguished cubie sits at
/// exactly one position.
pub open spec fn is_slots(s: Seq<int>, n: nat, k: nat) -> bool {
    &&& s.len() == n
    &&& forall|i: int| 0 <= i < s.len() ==> 0 <= #[trigger] s[i] <= k
    &&& is_arrangement(tracked_order(s, k), k)
}

/// The coordinate of a slot sequence.
pub open spec fn arrangement_rank(s: Seq<int>, k: nat) -> nat {
    factorial(k) * place_rank(s, k) + order_rank(tracked_order(s, k))
}

/// The slot sequence with the given coordinate.
pub open spec fn arrangement_unrank(n: nat, k: nat, x: nat) -> Seq<int> {
    spread(n, x / factorial(k), order_unrank(k, x % factorial(k)), k as int)
}

/// The number of coordinates of `k` cubies among `n` positions.
pub open spec fn arrangement_count(n: nat, k: nat) -> nat {
    binomial(n, k) * factorial(k)
}

/// There is no way to choose more than there is.
pub proof fn lemma_binomial_above(n: nat, k: nat)
    requires
        k > n,
    ensures
        binomial(n, k) == 0,
    decreases n,
{
    if n > 0 {
        lemma_binomial_above((n - 1) as nat, (k - 1) as nat);
        lemma_binomial_above((n - 1) as nat, k);
    }
}

/// There is one way to choose all.
pub proof fn lemma_binomial_full(n: nat)
    ensures
        binomial(n, n) == 1,
    decreases n,
{
    if n > 0 {
        lemma_binomial_full((n - 1) as nat);
        lemma_binomial_above((n - 1) as nat, n);
    }
}

/// Among more things there are no fewer ways to choose.
pub proof fn lemma_binomial_grows(n: nat, m: nat, k: nat)
    requires
        n <= m,
    ensures
        binomial(n, k) <= binomial(m, k),
    decreases m,
{
    if n < m {
        lemma_binomial_grows(n, (m - 1) as nat, k);
    }
}

/// A factorial is at least 1.
pub proof fn lemma_factorial_positive(k: nat)
    ensures
        factorial(k) > 0,
    decreases k,
{
    if k > 0 {
        lemma_factorial_positive((k - 1) as nat);
        lemma_mul_strictly_positive(k as int, factorial((k - 1) as nat) as int);
    }
}

/// The order holds the distinguished cubies, as many as are counted.
pub proof fn lemma_tracked_order_len(s: Seq<int>, k: nat)
    ensures
        tracked_order(s, k).len() == tracked_count(s, k),
        tracked_count(s, k) <= s.len(),
        forall|i: int|
            0 <= i < tracked_order(s, k).len() ==> is_tracked(#[trigger] tracked_order(s, k)[i], k),
    decreases s.len(),
{
    if s.len() > 0 {
        lemma_tracked_order_len(s.drop_last(), k);
    }
}

/// The rank of the taken positions is below the number of ways to take them.
pub proof fn lemma_place_rank_bound(s: Seq<int>, k: nat)
    ensures
        place_rank(s, k) < binomial(s.len(), tracked_count(s, k)),
    decreases s.len(),
{
    if s.len() > 0 {
        let d = s.drop_last();
        lemma_place_rank_bound(d, k);
        lemma_tracked_order_len(d, k);
        if !is_tracked(s.last(), k) {
            lemma_binomial_grows(d.len(), s.len(), tracked_count(s, k));
        }
    }
}

/// What `spread` builds has the order and the rank of positions it was given.
pub proof fn lemma_spread(n: nat, a: nat, q: Seq<int>, k: nat)
    requires
        a < binomial(n, q.len()),
        forall|i: int| 0 <= i < q.len() ==> is_tracked(#[trigger] q[i], k),
    ensures
        spread(n, a, q, k as int).len() == n,
        tracked_order(spread(n, a, q, k as int), k) == q,
        tracked_count(spread(n, a, q, k as int), k) == q.len(),
        place_rank(spread(n, a, q, k as int), k) == a,
        forall|i: int| 0 <= i < n ==> 0 <= #[trigger] spread(n, a, q, k as int)[i] <= k,
    decreases n,
{
    let s = spread(n, a, q, k as int);
    if n == 0 {
        assert(q.len() == 0);
        assert(q =~= Seq::empty());
    } else {
        let m = (n - 1) as nat;
        if q.len() > 0 && a >= binomial(m, q.len()) {
            let a2 = (a - binomial(m, q.len())) as nat;
            let t = spread(m, a2, q.drop_last(), k as int);
            lemma_spread(m, a2, q.drop_last(), k);
            assert(s == t.push(q.last()));
            assert(s.drop_last() =~= t);
            assert(q.drop_last().push(q.last()) =~= q);
            assert(is_tracked(q[q.len() - 1], k));
        } else {
            let t = spread(m, a, q, k as int);
            lemma_spread(m, a, q, k);
            assert(s == t.push(k as int));
            assert(s.drop_last() =~= t);
        }
    }
}

/// `spread` rebuilds a slot sequence from its order and its rank of positions.
pub proof fn lemma_spread_inverse(s: Seq<int>, k: nat)
    requires
        forall|i: int| 0 <= i < s.len() ==> 0 <= #[trigger] s[i] <= k,
    ensures
        spread(s.len(), place_rank(s, k), tracked_order(s, k), k as int) == s,
    decreases s.len(),
{
    if s.len() > 0 {
        let d = s.drop_last();
        let q = tracked_order(s, k);
        lemma_spread_inverse(d, k);
        lemma_tracked_order_len(s, k);
        lemma_tracked_order_len(d, k);
        lemma_place_rank_bound(d, k);
        if is_tracked(s.last(), k) {
            assert(q.drop_last() =~= tracked_order(d, k));
            assert(d.push(s.last()) =~= s);
        } else {
            assert(s.last() == k);
            assert(d.push(k as int) =~= s);
        }
    } else {
        assert(s =~= Seq::empty());
    }
}

/// Putting the next number into an order of the numbers below it.
pub proof fn lemma_insert_top(q: Seq<int>, k: nat, p: int)
    requires
        k > 0,
        is_arrangement(q, (k - 1) as nat),
        0 <= p <= q.len(),
    ensures
        is_arrangement(q.insert(p, k - 1), k),
        q.insert(p, k - 1).index_of(k - 1) == p,
        q.insert(p, k - 1).remove(p) == q,
{
    let top = k - 1;
    let r = q.insert(p, top);
    q.insert_ensures(p, top);
    assert forall|i: int, j: int| 0 <= i < r.len() && 0 <= j < r.len() && i != j implies r[i]
        != r[j] by {
        let i0 = if i < p { i } else { i - 1 };
        let j0 = if j < p { j } else { j - 1 };
        if i != p && j != p {
            assert(r[i] == q[i0]);
            assert(r[j] == q[j0]);
        } else if i == p {
            assert(r[j] == q[j0]);
        } else {
            assert(r[i] == q[i0]);
        }
    }
    assert forall|i: int| 0 <= i < r.len() implies 0 <= #[trigger] r[i] < k by {
        let i0 = if i < p { i } else { i - 1 };
        if i != p {
            assert(r[i] == q[i0]);
        }
    }
    assert forall|v: int| 0 <= v < k implies r.contains(v) by {
        if v == top {
            assert(r[p] == v);
        } else {
            assert(q.contains(v));
            let i0 = choose|i: int| 0 <= i < q.len() && q[i] == v;
            let i = if i0 < p { i0 } else { i0 + 1 };
            assert(r[i] == v);
        }
    }
    assert(r[p] == top);
    let c = r.index_of(top);
    assert(0 <= c < r.len() && r[c] == top);
    assert(c == p);
    assert(r.remove(p) =~= q);
}

/// Taking the greatest number out of an order leaves an order of the rest.
pub proof fn lemma_remove_top(q: Seq<int>, k: nat)
    requires
        k > 0,
        is_arrangement(q, k),
    ensures
        0 <= q.index_of(k - 1) < q.len(),
        q[q.index_of(k - 1)] == k - 1,
        is_arrangement(q.remove(q.index_of(k - 1)), (k - 1) as nat),
        q.remove(q.index_of(k - 1)).insert(q.index_of(k - 1), k - 1) == q,
{
    let top = k - 1;
    assert(q.contains(top));
    let p = q.index_of(top);
    let r = q.remove(p);
    q.remove_ensures(p);
    assert forall|i: int, j: int| 0 <= i < r.len() && 0 <= j < r.len() && i != j implies r[i]
        != r[j] by {
        let i0 = if i < p { i } else { i + 1 };
        let j0 = if j < p { j } else { j + 1 };
        assert(r[i] == q[i0]);
        assert(r[j] == q[j0]);
    }
    assert forall|i: int| 0 <= i < r.len() implies 0 <= #[trigger] r[i] < k - 1 by {
        let i0 = if i < p { i } else { i + 1 };
        assert(r[i] == q[i0]);
        assert(q[i0] != q[p]);
    }
    assert forall|v: int| 0 <= v < k - 1 implies r.contains(v) by {
        assert(q.contains(v));
        let i0 = choose|i: int| 0 <= i < q.len() && q[i] == v;
        let i = if i0 < p { i0 } else { i0 - 1 };
        assert(r[i] == v);
    }
    assert(r.insert(p, top) =~= q);
}

/// An order of `0 .. k` has `k` entries.
pub proof fn lemma_arrangement_len(q: Seq<int>, k: nat)
    requires
        is_arrangement(q, k),
    ensures
        q.len() == k,
    decreases k,
{
    if k == 0 {
        if q.len() > 0 {
            assert(0 <= q[0] < k);
        }
    } else {
        lemma_remove_top(q, k);
        lemma_arrangement_len(q.remove(q.index_of(k - 1)), (k - 1) as nat);
    }
}

/// Every rank below `k!` is the rank of the order that `order_unrank` gives.
pub proof fn lemma_order_unrank(k: nat, b: nat)
    requires
        b < factorial(k),
    ensures
        is_arrangement(order_unrank(k, b), k),
        order_unrank(k, b).len() == k,
        order_rank(order_unrank(k, b)) == b,
    decreases k,
{
    if k > 0 {
        let j = (k - 1) as nat;
        let f = factorial(j);
        assert(b / k < f) by {
            lemma_fundamental_div_mod(b as int, k as int);
            lemma_mod_bound(b as int, k as int);
            assert(b < k * f);
            assert(k * (b / k) < k * f);
            if b / k >= f {
                lemma_mul_inequality(f as int, (b / k) as int, k as int);
                lemma_mul_is_commutative(f as int, k as int);
                lemma_mul_is_commutative((b / k) as int, k as int);
            }
        }
        lemma_mod_bound(b as int, k as int);
        let q = order_unrank(j, b / k);
        lemma_order_unrank(j, b / k);
        let p = j - (b % k) as int;
        lemma_insert_top(q, k, p);
        let r = q.insert(p, j as int);
        assert(r == order_unrank(k, b));
        lemma_arrangement_len(r, k);
        lemma_fundamental_div_mod(b as int, k as int);
        assert(order_rank(r) == (j - p) + r.len() * order_rank(r.remove(p)));
    }
}

/// The rank of an order of `0 .. k` is below `k!`, and `order_unrank` gives
/// the order back.
pub proof fn lemma_order_rank(q: Seq<int>, k: nat)
    requires
        is_arrangement(q, k),
    ensures
        q.len() == k,
        order_rank(q) < factorial(k),
        order_unrank(k, order_rank(q)) == q,
    decreases k,
{
    lemma_arrangement_len(q, k);
    if k > 0 {
        let j = (k - 1) as nat;
        let p = q.index_of(k - 1);
        lemma_remove_top(q, k);
        let r = q.remove(p);
        lemma_order_rank(r, j);
        let d = j - p;
        let b = order_rank(q);
        let f = factorial(j);
        assert(b == d + k * order_rank(r));
        assert(k * order_rank(r) <= k * (f - 1)) by {
            lemma_mul_inequality(order_rank(r) as int, f - 1, k as int);
            lemma_mul_is_commutative(order_rank(r) as int, k as int);
            lemma_mul_is_commutative(f - 1, k as int);
        }
        assert(k * (f - 1) == k * f - k) by {
            lemma_mul_is_distributive_sub(k as int, f as int, 1);
        }
        lemma_mul_is_commutative(order_rank(r) as int, k as int);
        lemma_fundamental_div_mod_converse(b as int, k as int, order_rank(r) as int, d);
    } else {
        assert(q =~= Seq::empty());
    }
}

/// Every coordinate below the count is the coordinate of the slot sequence
/// that `arrangement_unrank` gives.
pub proof fn lemma_unrank_then_rank(n: nat, k: nat, x: nat)
    requires
        x < arrangement_count(n, k),
    ensures
        is_slots(arrangement_unrank(n, k, x), n, k),
        arrangement_rank(arrangement_unrank(n, k, x), k) == x,
{
    let f = factorial(k);
    lemma_factorial_positive(k);
    let a = x / f;
    let b = x % f;
    lemma_fundamental_div_mod(x as int, f as int);
    lemma_mod_bound(x as int, f as int);
    assert(a < binomial(n, k)) by {
        if a >= binomial(n, k) {
            lemma_mul_inequality(binomial(n, k) as int, a as int, f as int);
            lemma_mul_is_commutative(a as int, f as int);
        }
    }
    lemma_order_unrank(k, b);
    let q = order_unrank(k, b);
    lemma_spread(n, a, q, k);
}

/// The coordinate of a slot sequence is below the count, and
/// `arrangement_unrank` gives the slot sequence back.
pub proof fn lemma_rank_then_unrank(s: Seq<int>, n: nat, k: nat)
    requires
        is_slots(s, n, k),
    ensures
        arrangement_rank(s, k) < arrangement_count(n, k),
        arrangement_unrank(n, k, arrangement_rank(s, k)) == s,
{
    let f = factorial(k);
    lemma_factorial_positive(k);
    let q = tracked_order(s, k);
    let a = place_rank(s, k);
    let b = order_rank(q);
    lemma_order_rank(q, k);
    lemma_tracked_order_len(s, k);
    lemma_place_rank_bound(s, k);
    lemma_spread_inverse(s, k);
    let x = arrangement_rank(s, k);
    assert(x == f * a + b);
    lemma_mul_is_commutative(f as int, a as int);
    lemma_fundamental_div_mod_converse(x as int, f as int, a as int, b as int);
    assert(f * a <= f * (binomial(n, k) - 1)) by {
        lemma_mul_inequality(a as int, binomial(n, k) - 1, f as int);
        lemma_mul_is_commutative(binomial(n, k) - 1, f as int);
    }
    assert(f * (binomial(n, k) - 1) == f * binomial(n, k) - f) by {
        lemma_mul_is_distributive_sub(f as int, binomial(n, k) as int, 1);
    }
    lemma_mul_is_commutative(f as int, binomial(n, k) as int);
}

/// Where no distinguished cubie sits at the position `m` or after it, only
/// the first `m` positions count for the rank of the taken positions.
pub proof fn lemma_place_rank_prefix(s: Seq<int>, k: nat, m: int)
    requires
        0 <= m <= s.len(),
        forall|i: int| m <= i < s.len() ==> !is_tracked(#[trigger] s[i], k),
    ensures
        place_rank(s, k) == place_rank(s.take(m), k),
        tracked_count(s, k) == tracked_count(s.take(m), k),
        tracked_order(s, k) == tracked_order(s.take(m), k),
        place_rank(s, k) < binomial(m as nat, tracked_count(s, k)),
    decreases s.len() - m,
{
    if m < s.len() {
        let d = s.drop_last();
        assert(!is_tracked(s[s.len() - 1], k));
        assert(d.take(m) =~= s.take(m));
        lemma_place_rank_prefix(d, k, m);
    } else {
        assert(s.take(m) =~= s);
        lemma_place_rank_bound(s, k);
    }
}

/// Where the rank of the taken positions is below the number of ways to take
/// them among the first `m`, no position from `m` on is taken.
pub proof fn lemma_spread_prefix(n: nat, a: nat, q: Seq<int>, other: int, m: nat)
    requires
        m <= n,
        a < binomial(m, q.len()),
    ensures
        spread(n, a, q, other).len() == n,
        forall|i: int| m <= i < n ==> #[trigger] spread(n, a, q, other)[i] == other,
    decreases n,
{
    if n > m {
        let j = (n - 1) as nat;
        lemma_binomial_grows(m, j, q.len());
        lemma_spread_prefix(j, a, q, other, m);
    } else {
        lemma_spread_len(n, a, q, other);
    }
}

/// `spread` gives one entry for each position.
pub proof fn lemma_spread_len(n: nat, a: nat, q: Seq<int>, other: int)
    ensures
        spread(n, a, q, other).len() == n,
    decreases n,
{
    if n > 0 {
        let j = (n - 1) as nat;
        if q.len() > 0 && a >= binomial(j, q.len()) {
            lemma_spread_len(j, (a - binomial(j, q.len())) as nat, q.drop_last(), other);
        } else {
            lemma_spread_len(j, a, q, other);
        }
    }
}

/// A coordinate is below `binomial(m, k) * k!` exactly where the distinguished
/// cubies all sit among the first `m` positions.
pub proof fn lemma_rank_of_prefix(s: Seq<int>, n: nat, k: nat, m: nat)
    requires
        is_slots(s, n, k),
        m <= n,
    ensures
        arrangement_rank(s, k) < arrangement_count(m, k) <==> (forall|i: int|
            m <= i < n ==> !is_tracked(#[trigger] s[i], k)),
{
    let f = factorial(k);
    let a = place_rank(s, k);
    let b = order_rank(tracked_order(s, k));
    let x = arrangement_rank(s, k);
    lemma_factorial_positive(k);
    lemma_order_rank(tracked_order(s, k), k);
    lemma_tracked_order_len(s, k);
    lemma_rank_then_unrank(s, n, k);
    lemma_mul_is_commutative(f as int, a as int);
    lemma_fundamental_div_mod_converse(x as int, f as int, a as int, b as int);
    lemma_mul_is_commutative(binomial(m, k) as int, f as int);
    if forall|i: int| m <= i < n ==> !is_tracked(#[trigger] s[i], k) {
        lemma_place_rank_prefix(s, k, m as int);
        assert(f * a <= f * (binomial(m, k) - 1)) by {
            lemma_mul_inequality(a as int, binomial(m, k) - 1, f as int);
            lemma_mul_is_commutative(binomial(m, k) - 1, f as int);
        }
        assert(f * (binomial(m, k) - 1) == f * binomial(m, k) - f) by {
            lemma_mul_is_distributive_sub(f as int, binomial(m, k) as int, 1);
        }
    }
    if x < arrangement_count(m, k) {
        assert(a < binomial(m, k)) by {
            if a >= binomial(m, k) {
                lemma_mul_inequality(binomial(m, k) as int, a as int, f as int);
                lemma_mul_is_commutative(binomial(m, k) as int, f as int);
            }
        }
        lemma_spread_prefix(n, a, order_unrank(k, b), k as int, m);
        assert forall|i: int| m <= i < n implies !is_tracked(#[trigger] s[i], k) by {
            assert(s[i] == k);
        }
    }
}

/// The slot sequence that has the distinguished cubies on the first
/// positions, each on the position of its number.
pub open spec fn home_slots(n: nat, k: nat) -> Seq<int> {
    Seq::new(
        n,
        |i: int|
            if i < k {
                i
            } else {
                k as int
            },
    )
}

/// The order of the first `k` entries of the home slots is the rising order,
/// whose rank is 0.
pub proof fn lemma_home_order(n: nat, k: nat, j: nat)
    requires
        j <= k <= n,
    ensures
        tracked_order(home_slots(n, k).take(j as int), k) == Seq::new(j, |i: int| i),
        order_rank(Seq::new(j, |i: int| i)) == 0,
    decreases j,
{
    let s = home_slots(n, k).take(j as int);
    let q = Seq::new(j, |i: int| i);
    if j > 0 {
        lemma_home_order(n, k, (j - 1) as nat);
        assert(s.drop_last() =~= home_slots(n, k).take(j - 1));
        let q1 = Seq::new((j - 1) as nat, |i: int| i);
        assert(q1.push(j - 1) =~= q);
        assert(q[j - 1] == j - 1);
        let p = q.index_of(j - 1);
        assert(0 <= p < j && q[p] == j - 1);
        assert(p == j - 1);
        assert(q.remove(p) =~= q1);
        assert(order_rank(q) == (j - 1 - p) + q.len() * order_rank(q.remove(p)));
        assert(q.len() * order_rank(q1) == 0) by (nonlinear_arith)
            requires
                order_rank(q1) == 0,
        ;
    } else {
        assert(tracked_order(s, k) =~= q);
    }
}

/// The coordinate of the home slots is 0.
pub proof fn lemma_home_rank(n: nat, k: nat)
    requires
        k <= n,
    ensures
        arrangement_rank(home_slots(n, k), k) == 0,
{
    let s = home_slots(n, k);
    lemma_place_rank_prefix(s, k, k as int);
    lemma_home_order(n, k, k);
    lemma_tracked_order_len(s.take(k as int), k);
    lemma_binomial_full(k);
    lemma_mul_basics(factorial(k) as int);
}

/// Pascal's triangle down to the row of 12.
pub proof fn lemma_pascal_rows()
    ensures
        binomial(0, 0) == 1 && binomial(0, 1) == 0 && binomial(0, 2) == 0 && binomial(0, 3) == 0
            && binomial(0, 4) == 0 && binomial(0, 5) == 0 && binomial(0, 6) == 0 && binomial(0,
            7) == 0 && binomial(0, 8) == 0 && binomial(0, 9) == 0 && binomial(0, 10) == 0
            && binomial(0, 11) == 0 && binomial(0, 12) == 0,
        binomial(1, 0) == 1 && binomial(1, 1) == 1 && binomial(1, 2) == 0 && binomial(1, 3) == 0
            && binomial(1, 4) == 0 && binomial(1, 5) == 0 && binomial(1, 6) == 0 && binomial(1,
            7) == 0 && binomial(1, 8) == 0 && binomial(1, 9) == 0 && binomial(1, 10) == 0
            && binomial(1, 11) == 0 && binomial(1, 12) == 0,
        binomial(2, 0) == 1 && binomial(2, 1) == 2 && binomial(2, 2) == 1 && binomial(2, 3) == 0
            && binomial(2, 4) == 0 && binomial(2, 5) == 0 && binomial(2, 6) == 0 && binomial(2,
            7) == 0 && binomial(2, 8) == 0 && binomial(2, 9) == 0 && binomial(2, 10) == 0
            && binomial(2, 11) == 0 && binomial(2, 12) == 0,
        binomial(3, 0) == 1 && binomial(3, 1) == 3 && binomial(3, 2) == 3 && binomial(3, 3) == 1
            && binomial(3, 4) == 0 && binomial(3, 5) == 0 && binomial(3, 6) == 0 && binomial(3,
            7) == 0 && binomial(3, 8) == 0 && binomial(3, 9) == 0 && binomial(3, 10) == 0
            && binomial(3, 11) == 0 && binomial(3, 12) == 0,
        binomial(4, 0) == 1 && binomial(4, 1) == 4 && binomial(4, 2) == 6 && binomial(4, 3) == 4
            && binomial(4, 4) == 1 && binomial(4, 5) == 0 && binomial(4, 6) == 0 && binomial(4,
            7) == 0 && binomial(4, 8) == 0 && binomial(4, 9) == 0 && binomial(4, 10) == 0
            && binomial(4, 11) == 0 && binomial(4, 12) == 0,
        binomial(5, 0) == 1 && binomial(5, 1) == 5 && binomial(5, 2) == 10 && binomial(5, 3)
            == 10 && binomial(5, 4) == 5 && binomial(5, 5) == 1 && binomial(5, 6) == 0
            && binomial(5, 7) == 0 && binomial(5, 8) == 0 && binomial(5, 9) == 0 && binomial(5,
            10) == 0 && binomial(5, 11) == 0 && binomial(5, 12) == 0,
        binomial(6, 0) == 1 && binomial(6, 1) == 6 && binomial(6, 2) == 15 && binomial(6, 3)
            == 20 && binomial(6, 4) == 15 && binomial(6, 5) == 6 && binomial(6, 6) == 1
            && binomial(6, 7) == 0 && binomial(6, 8) == 0 && binomial(6, 9) == 0 && binomial(6,
            10) == 0 && binomial(6, 11) == 0 && binomial(6, 12) == 0,
        binomial(7, 0) == 1 && binomial(7, 1) == 7 && binomial(7, 2) == 21 && binomial(7, 3)
            == 35 && binomial(7, 4) == 35 && binomial(7, 5) == 21 && binomial(7, 6) == 7
            && binomial(7, 7) == 1 && binomial(7, 8) == 0 && binomial(7, 9) == 0 && binomial(7,
            10) == 0 && binomial(7, 11) == 0 && binomial(7, 12) == 0,
        binomial(8, 0) == 1 && binomial(8, 1) == 8 && binomial(8, 2) == 28 && binomial(8, 3)
            == 56 && binomial(8, 4) == 70 && binomial(8, 5) == 56 && binomial(8, 6) == 28
            && binomial(8, 7) == 8 && binomial(8, 8) == 1 && binomial(8, 9) == 0 && binomial(8,
            10) == 0 && binomial(8, 11) == 0 && binomial(8, 12) == 0,
        binomial(9, 0) == 1 && binomial(9, 1) == 9 && binomial(9, 2) == 36 && binomial(9, 3)
            == 84 && binomial(9, 4) == 126 && binomial(9, 5) == 126 && binomial(9, 6) == 84
            && binomial(9, 7) == 36 && binomial(9, 8) == 9 && binomial(9, 9) == 1 && binomial(9,
            10) == 0 && binomial(9, 11) == 0 && binomial(9, 12) == 0,
        binomial(10, 0) == 1 && binomial(10, 1) == 10 && binomial(10, 2) == 45 && binomial(10,
            3) == 120 && binomial(10, 4) == 210 && binomial(10, 5) == 252 && binomial(10, 6)
            == 210 && binomial(10, 7) == 120 && binomial(10, 8) == 45 && binomial(10, 9) == 10
            && binomial(10, 10) == 1 && binomial(10, 11) == 0 && binomial(10, 12) == 0,
        binomial(11, 0) == 1 && binomial(11, 1) == 11 && binomial(11, 2) == 55 && binomial(11,
            3) == 165 && binomial(11, 4) == 330 && binomial(11, 5) == 462 && binomial(11, 6)
            == 462 && binomial(11, 7) == 330 && binomial(11, 8) == 165 && binomial(11, 9) == 55
            && binomial(11, 10) == 11 && binomial(11, 11) == 1 && binomial(11, 12) == 0,
        binomial(12, 0) == 1 && binomial(12, 1) == 12 && binomial(12, 2) == 66 && binomial(12,
            3) == 220 && binomial(12, 4) == 495 && binomial(12, 5) == 792 && binomial(12, 6)
            == 924 && binomial(12, 7) == 792 && binomial(12, 8) == 495 && binomial(12, 9) == 220
            && binomial(12, 10) == 66 && binomial(12, 11) == 12 && binomial(12, 12) == 1,
{
    assert(binomial(0, 0) == 1 && binomial(0, 1) == 0 && binomial(0, 2) == 0 && binomial(0, 3)
        == 0 && binomial(0, 4) == 0 && binomial(0, 5) == 0 && binomial(0, 6) == 0 && binomial(0,
        7) == 0 && binomial(0, 8) == 0 && binomial(0, 9) == 0 && binomial(0, 10) == 0
        && binomial(0, 11) == 0 && binomial(0, 12) == 0);
    assert(binomial(1, 0) == 1 && binomial(1, 1) == 1 && binomial(1, 2) == 0 && binomial(1, 3)
        == 0 && binomial(1, 4) == 0 && binomial(1, 5) == 0 && binomial(1, 6) == 0 && binomial(1,
        7) == 0 && binomial(1, 8) == 0 && binomial(1, 9) == 0 && binomial(1, 10) == 0
        && binomial(1, 11) == 0 && binomial(1, 12) == 0);
    assert(binomial(2, 0) == 1 && binomial(2, 1) == 2 && binomial(2, 2) == 1 && binomial(2, 3)
        == 0 && binomial(2, 4) == 0 && binomial(2, 5) == 0 && binomial(2, 6) == 0 && binomial(2,
        7) == 0 && binomial(2, 8) == 0 && binomial(2, 9) == 0 && binomial(2, 10) == 0
        && binomial(2, 11) == 0 && binomial(2, 12) == 0);
    assert(binomial(3, 0) == 1 && binomial(3, 1) == 3 && binomial(3, 2) == 3 && binomial(3, 3)
        == 1 && binomial(3, 4) == 0 && binomial(3, 5) == 0 && binomial(3, 6) == 0 && binomial(3,
        7) == 0 && binomial(3, 8) == 0 && binomial(3, 9) == 0 && binomial(3, 10) == 0
        && binomial(3, 11) == 0 && binomial(3, 12) == 0);
    assert(binomial(4, 0) == 1 && binomial(4, 1) == 4 && binomial(4, 2) == 6 && binomial(4, 3)
        == 4 && binomial(4, 4) == 1 && binomial(4, 5) == 0 && binomial(4, 6) == 0 && binomial(4,
        7) == 0 && binomial(4, 8) == 0 && binomial(4, 9) == 0 && binomial(4, 10) == 0
        && binomial(4, 11) == 0 && binomial(4, 12) == 0);
    assert(binomial(5, 0) == 1 && binomial(5, 1) == 5 && binomial(5, 2) == 10 && binomial(5, 3)
        == 10 && binomial(5, 4) == 5 && binomial(5, 5) == 1 && binomial(5, 6) == 0 && binomial(5,
        7) == 0 && binomial(5, 8) == 0 && binomial(5, 9) == 0 && binomial(5, 10) == 0
        && binomial(5, 11) == 0 && binomial(5, 12) == 0);
    assert(binomial(6, 0) == 1 && binomial(6, 1) == 6 && binomial(6, 2) == 15 && binomial(6, 3)
        == 20 && binomial(6, 4) == 15 && binomial(6, 5) == 6 && binomial(6, 6) == 1 && binomial(6,
        7) == 0 && binomial(6, 8) == 0 && binomial(6, 9) == 0 && binomial(6, 10) == 0
        && binomial(6, 11) == 0 && binomial(6, 12) == 0);
    assert(binomial(7, 0) == 1 && binomial(7, 1) == 7 && binomial(7, 2) == 21 && binomial(7, 3)
        == 35 && binomial(7, 4) == 35 && binomial(7, 5) == 21 && binomial(7, 6) == 7 && binomial(7,
        7) == 1 && binomial(7, 8) == 0 && binomial(7, 9) == 0 && binomial(7, 10) == 0
        && binomial(7, 11) == 0 && binomial(7, 12) == 0);
    assert(binomial(8, 0) == 1 && binomial(8, 1) == 8 && binomial(8, 2) == 28 && binomial(8, 3)
        == 56 && binomial(8, 4) == 70 && binomial(8, 5) == 56 && binomial(8, 6) == 28
        && binomial(8, 7) == 8 && binomial(8, 8) == 1 && binomial(8, 9) == 0 && binomial(8, 10)
        == 0 && binomial(8, 11) == 0 && binomial(8, 12) == 0);
    assert(binomial(9, 0) == 1 && binomial(9, 1) == 9 && binomial(9, 2) == 36 && binomial(9, 3)
        == 84 && binomial(9, 4) == 126 && binomial(9, 5) == 126 && binomial(9, 6) == 84
        && binomial(9, 7) == 36 && binomial(9, 8) == 9 && binomial(9, 9) == 1 && binomial(9, 10)
        == 0 && binomial(9, 11) == 0 && binomial(9, 12) == 0);
    assert(binomial(10, 0) == 1 && binomial(10, 1) == 10 && binomial(10, 2) == 45 && binomial(10,
        3) == 120 && binomial(10, 4) == 210 && binomial(10, 5) == 252 && binomial(10, 6) == 210
        && binomial(10, 7) == 120 && binomial(10, 8) == 45 && binomial(10, 9) == 10 && binomial(10,
        10) == 1 && binomial(10, 11) == 0 && binomial(10, 12) == 0);
    assert(binomial(11, 0) == 1 && binomial(11, 1) == 11 && binomial(11, 2) == 55 && binomial(11,
        3) == 165 && binomial(11, 4) == 330 && binomial(11, 5) == 462 && binomial(11, 6) == 462
        && binomial(11, 7) == 330 && binomial(11, 8) == 165 && binomial(11, 9) == 55
        && binomial(11, 10) == 11 && binomial(11, 11) == 1 && binomial(11, 12) == 0);
    assert(binomial(12, 0) == 1 && binomial(12, 1) == 12 && binomial(12, 2) == 66 && binomial(12,
        3) == 220 && binomial(12, 4) == 495 && binomial(12, 5) == 792 && binomial(12, 6) == 924
        && binomial(12, 7) == 792 && binomial(12, 8) == 495 && binomial(12, 9) == 220
        && binomial(12, 10) == 66 && binomial(12, 11) == 12 && binomial(12, 12) == 1);
}

/// The factorials up to `6!`.
pub proof fn lemma_factorials()
    ensures
        factorial(0) == 1,
        factorial(1) == 1,
        factorial(2) == 2,
        factorial(3) == 6,
        factorial(4) == 24,
        factorial(5) == 120,
        factorial(6) == 720,
{
    assert(factorial(0) == 1);
    assert(factorial(1) == 1);
    assert(factorial(2) == 2);
    assert(factorial(3) == 6);
    assert(factorial(4) == 24);
    assert(factorial(5) == 120);
    assert(factorial(6) == 720);
}

/// The numbers of arrangements that the coordinates of a cube have.
pub proof fn lemma_counts()
    ensures
        arrangement_count(12, 4) == 11880,
        arrangement_count(12, 3) == 1320,
        arrangement_count(12, 6) == 665280,
        arrangement_count(8, 6) == 20160,
        arrangement_count(8, 3) == 336,
        arrangement_count(4, 4) == 24,
{
    lemma_pascal_rows();
    lemma_factorials();
    assert(arrangement_count(12, 4) == 495 * 24);
    assert(arrangement_count(12, 3) == 220 * 6);
    assert(arrangement_count(12, 6) == 924 * 720);
    assert(arrangement_count(8, 6) == 28 * 720);
    assert(arrangement_count(8, 3) == 56 * 6);
    assert(arrangement_count(4, 4) == 1 * 24);
}

/// The higher digits of a rank below `k!` are a rank below `(k - 1)!`.
pub proof fn lemma_digit_split(k: nat, b: nat)
    requires
        k > 0,
        b < factorial(k),
    ensures
        b / k < factorial((k - 1) as nat),
        0 <= b % k < k,
{
    let f = factorial((k - 1) as nat);
    lemma_fundamental_div_mod(b as int, k as int);
    lemma_mod_bound(b as int, k as int);
    if b / k >= f {
        lemma_mul_inequality(f as int, (b / k) as int, k as int);
        lemma_mul_is_commutative(f as int, k as int);
        lemma_mul_is_commutative((b / k) as int, k as int);
    }
}

/// The number of ways to choose `k` of `n` things, for the sizes that a cube
/// has: at most 12 positions.
pub fn binomial_of(n: usize, k: usize) -> (r: u32)
    requires
        n <= 12,
        k <= 12,
    ensures
        r == binomial(n as nat, k as nat),
        r <= 924,
{
    let rows: [[u32; 13]; 13] = [
        [1, 0, 0, 0, 0, 0, 0, 0, 0, 0, 0, 0, 0],
        [1, 1, 0, 0, 0, 0, 0, 0, 0, 0, 0, 0, 0],
        [1, 2, 1, 0, 0, 0, 0, 0, 0, 0, 0, 0, 0],
        [1, 3, 3, 1, 0, 0, 0, 0, 0, 0, 0, 0, 0],
        [1, 4, 6, 4, 1, 0, 0, 0, 0, 0, 0, 0, 0],
        [1, 5, 10, 10, 5, 1, 0, 0, 0, 0, 0, 0, 0],
        [1, 6, 15, 20, 15, 6, 1, 0, 0, 0, 0, 0, 0],
        [1, 7, 21, 35, 35, 21, 7, 1, 0, 0, 0, 0, 0],
        [1, 8, 28, 56, 70, 56, 28, 8, 1, 0, 0, 0, 0],
        [1, 9, 36, 84, 126, 126, 84, 36, 9, 1, 0, 0, 0],
        [1, 10, 45, 120, 210, 252, 210, 120, 45, 10, 1, 0, 0],
        [1, 11, 55, 165, 330, 462, 462, 330, 165, 55, 11, 1, 0],
        [1, 12, 66, 220, 495, 792, 924, 792, 495, 220, 66, 12, 1],
    ];
    proof {
        lemma_pascal_rows();
    }
    rows[n][k]
}

/// `k!` for at most 6 distinguished cubies.
pub fn factorial_of(k: usize) -> (r: u32)
    requires
        k <= 6,
    ensures
        r == factorial(k as nat),
        1 <= r <= 720,
{
    let values: [u32; 7] = [1, 1, 2, 6, 24, 120, 720];
    proof {
        lemma_factorials();
    }
    values[k]
}

/// The entries of an executable slot sequence as numbers.
pub open spec fn as_ints(v: Seq<u8>) -> Seq<int> {
    Seq::new(v.len(), |i: int| v[i] as int)
}

/// The rank of an order of `0 .. q.len()`.
pub fn order_rank_of(q: Vec<u8>) -> (r: u32)
    requires
        q@.len() <= 6,
        is_arrangement(as_ints(q@), q@.len()),
    ensures
        r == order_rank(as_ints(q@)),
        r < factorial(q@.len()),
    decreases q@.len(),
{
    let k = q.len();
    if k == 0 {
        return 0;
    }
    let ghost qi = as_ints(q@);
    let top = (k - 1) as u8;
    let ghost w = qi.index_of(k - 1);
    proof {
        lemma_remove_top(qi, k as nat);
        lemma_order_rank(qi, k as nat);
        lemma_factorials();
    }
    let mut p: usize = 0;
    while q[p] != top
        invariant
            p <= w < k,
            k == q@.len(),
            qi == as_ints(q@),
            qi[w] == top,
        decreases k - p,
    {
        assert(qi[p as int] == q@[p as int]);
        p += 1;
    }
    assert(qi[p as int] == q@[p as int]);
    assert(p == w);
    let mut rest = q;
    rest.remove(p);
    assert(as_ints(rest@) =~= qi.remove(p as int));
    proof {
        lemma_order_rank(qi.remove(p as int), (k - 1) as nat);
    }
    let higher = order_rank_of(rest);
    assert(k * higher <= 6 * 120) by (nonlinear_arith)
        requires
            k <= 6,
            higher <= 120,
    ;
    (k - 1 - p) as u32 + (k as u32) * higher
}

/// The order of `0 .. k` with rank `b`.
pub fn order_unrank_of(k: usize, b: u32) -> (q: Vec<u8>)
    requires
        k <= 6,
        b < factorial(k as nat),
    ensures
        as_ints(q@) == order_unrank(k as nat, b as nat),
        q@.len() == k,
    decreases k,
{
    if k == 0 {
        let q: Vec<u8> = Vec::new();
        assert(as_ints(q@) =~= order_unrank(0, b as nat));
        q
    } else {
        proof {
            lemma_digit_split(k as nat, b as nat);
            lemma_order_unrank((k - 1) as nat, b as nat / k as nat);
        }
        let mut q = order_unrank_of(k - 1, b / (k as u32));
        let d = (b % (k as u32)) as usize;
        let ghost before = as_ints(q@);
        q.insert(k - 1 - d, (k - 1) as u8);
        assert(as_ints(q@) =~= before.insert(k - 1 - d, k - 1));
        q
    }
}

/// The coordinate of a slot sequence.
pub fn arrangement_rank_of(slots: &Vec<u8>, k: usize) -> (x: u32)
    requires
        slots@.len() <= 12,
        k <= 6,
        is_slots(as_ints(slots@), slots@.len(), k as nat),
    ensures
        x == arrangement_rank(as_ints(slots@), k as nat),
        x < arrangement_count(slots@.len(), k as nat),
{
    let n = slots.len();
    let ghost s = as_ints(slots@);
    let mut a: u32 = 0;
    let mut c: usize = 0;
    let mut q: Vec<u8> = Vec::new();
    let mut j: usize = 0;
    assert(s.take(0) =~= Seq::empty());
    assert(as_ints(q@) =~= Seq::empty());
    while j < n
        invariant
            j <= n,
            n == slots@.len(),
            n <= 12,
            s == as_ints(slots@),
            a == place_rank(s.take(j as int), k as nat),
            c == tracked_count(s.take(j as int), k as nat),
            as_ints(q@) == tracked_order(s.take(j as int), k as nat),
            c <= j,
            a < 924,
        decreases n - j,
    {
        let v = slots[j];
        let ghost next = s.take(j + 1);
        proof {
            assert(next.drop_last() =~= s.take(j as int));
            assert(next.last() == v as int);
            lemma_place_rank_bound(next, k as nat);
            lemma_tracked_order_len(next, k as nat);
            lemma_pascal_rows();
        }
        if (v as usize) < k {
            c += 1;
            let step = binomial_of(j, c);
            a += step;
            let ghost before = as_ints(q@);
            q.push(v);
            assert(as_ints(q@) =~= before.push(v as int));
        }
        j += 1;
    }
    proof {
        assert(s.take(n as int) =~= s);
        lemma_rank_then_unrank(s, n as nat, k as nat);
        lemma_order_rank(as_ints(q@), k as nat);
        lemma_factorials();
    }
    let b = order_rank_of(q);
    let f = factorial_of(k);
    assert(f * a <= 720 * 924) by (nonlinear_arith)
        requires
            f <= 720,
            a <= 924,
    ;
    f * a + b
}

/// The slot sequence over `n` positions with coordinate `x`.
pub fn arrangement_unrank_of(n: usize, k: usize, x: u32) -> (slots: Vec<u8>)
    requires
        n <= 12,
        k <= 6,
        x < arrangement_count(n as nat, k as nat),
    ensures
        as_ints(slots@) == arrangement_unrank(n as nat, k as nat, x as nat),
        slots@.len() == n,
        is_slots(as_ints(slots@), n as nat, k as nat),
{
    let f = factorial_of(k);
    let mut a = x / f;
    let b = x % f;
    proof {
        lemma_unrank_then_rank(n as nat, k as nat, x as nat);
        lemma_mod_bound(x as int, f as int);
        lemma_order_unrank(k as nat, b as nat);
    }
    let q = order_unrank_of(k, b);
    let ghost qi = as_ints(q@);
    let ghost a0 = a as nat;
    let mut slots: Vec<u8> = Vec::new();
    let mut i: usize = 0;
    while i < n
        invariant
            i <= n,
            slots@.len() == i,
        decreases n - i,
    {
        slots.push(k as u8);
        i += 1;
    }
    let mut j: usize = n;
    let mut c: usize = k;
    assert(qi.take(k as int) =~= qi);
    assert(as_ints(slots@).subrange(n as int, n as int) =~= Seq::empty());
    assert(spread(n as nat, a0, qi, k as int) =~= spread(n as nat, a0, qi, k as int)
        + Seq::<int>::empty());
    while j > 0
        invariant
            j <= n <= 12,
            c <= k <= 6,
            slots@.len() == n,
            q@.len() == k,
            qi == as_ints(q@),
            spread(n as nat, a0, qi, k as int) == spread(
                j as nat,
                a as nat,
                qi.take(c as int),
                k as int,
            ) + as_ints(slots@).subrange(j as int, n as int),
        decreases j,
    {
        let ghost tail = as_ints(slots@).subrange(j as int, n as int);
        let ghost head = qi.take(c as int);
        j -= 1;
        let put: u8 = if c > 0 && a >= binomial_of(j, c) {
            a -= binomial_of(j, c);
            c -= 1;
            assert(head.drop_last() =~= qi.take(c as int));
            assert(head.last() == q@[c as int] as int);
            q[c]
        } else {
            k as u8
        };
        slots.set(j, put);
        assert(as_ints(slots@).subrange(j as int, n as int) =~= seq![put as int] + tail);
        assert(spread(j as nat, a as nat, qi.take(c as int), k as int).push(put as int) + tail
            =~= spread(j as nat, a as nat, qi.take(c as int), k as int) + (seq![put as int]
            + tail));
    }
    assert(spread(0, a as nat, qi.take(c as int), k as int) =~= Seq::<int>::empty());
    assert(as_ints(slots@).subrange(0, n as int) =~= as_ints(slots@));
    assert(Seq::<int>::empty() + as_ints(slots@) =~= as_ints(slots@));
    slots
}

} // verus!
