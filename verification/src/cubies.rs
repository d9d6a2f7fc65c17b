//! The model that the corners and the edges share: which cubie sits at each
//! position, and how the cubie at each position is turned.

use vstd::prelude::*;
use vstd::arithmetic::div_mod::lemma_add_mod_noop_right;
use crate::ranking::{
    arrangement_count, arrangement_rank, arrangement_unrank, as_ints, is_arrangement, is_slots,
    is_tracked, lemma_arrangement_len, lemma_rank_then_unrank, lemma_tracked_order_len,
    lemma_unrank_then_rank, tracked_count, tracked_order,
};

verus! {

/// The state of one kind of cubie. `perm[i]` is the number of the cubie at
/// position `i`, `ori[i]` says how the cubie at position `i` is turned.
pub struct CubieState {
    pub perm: Seq<int>,
    pub ori: Seq<int>,
}

impl CubieState {
    /// `n` cubies, each at exactly one of `n` positions, each turned by less
    /// than `modulus`.
    pub open spec fn valid(self, n: nat, modulus: int) -> bool {
        &&& self.perm.len() == n
        &&& self.ori.len() == n
        &&& is_arrangement(self.perm, n)
        &&& forall|i: int| 0 <= i < n ==> 0 <= #[trigger] self.ori[i] < modulus
    }

    /// Every cubie at its own position, none turned.
    pub open spec fn solved(n: nat) -> CubieState {
        CubieState { perm: Seq::new(n, |i: int| i), ori: Seq::new(n, |i: int| 0int) }
    }
}

/// The slot sequence that follows the `k` cubies numbered from `base` on.
pub open spec fn slots_of(perm: Seq<int>, base: int, k: nat) -> Seq<int> {
    Seq::new(
        perm.len(),
        |i: int|
            if base <= perm[i] < base + k {
                perm[i] - base
            } else {
                k as int
            },
    )
}

/// The same arrangement with positions and cubies both counted from the far
/// end.
pub open spec fn mirrored(perm: Seq<int>) -> Seq<int> {
    Seq::new(perm.len(), |i: int| perm.len() - 1 - perm[perm.len() - 1 - i])
}

/// The `i`-th of the cubies that are not among the `k` numbered from `base`
/// on, in rising order.
pub open spec fn other_cubie(i: int, base: int, k: nat) -> int {
    if i < base {
        i
    } else {
        i + k
    }
}

/// The arrangement of all cubies that has the given slots: the distinguished
/// cubies where the slots put them, the others in rising order on the
/// positions left.
pub open spec fn complete(s: Seq<int>, base: int, k: nat) -> Seq<int> {
    Seq::new(
        s.len(),
        |j: int|
            if is_tracked(s[j], k) {
                base + s[j]
            } else {
                other_cubie(j - tracked_count(s.take(j), k), base, k)
            },
    )
}

/// How many of the first `j` entries are greater than the entry at `i`.
pub open spec fn greater_before(p: Seq<int>, i: int, j: int) -> nat
    decreases j,
{
    if j <= 0 {
        0
    } else if p[j - 1] > p[i] {
        greater_before(p, i, j - 1) + 1
    } else {
        greater_before(p, i, j - 1)
    }
}

/// The number of pairs of positions whose cubies stand in falling order,
/// among the first `n` positions.
pub open spec fn inversions(p: Seq<int>, n: int) -> nat
    decreases n,
{
    if n <= 0 {
        0
    } else {
        inversions(p, n - 1) + greater_before(p, n - 1, n - 1)
    }
}

/// A sequence of `n` different numbers below `n` holds every number below
/// `n`.
pub proof fn lemma_pigeonhole(q: Seq<int>, n: nat)
    requires
        q.len() == n,
        q.no_duplicates(),
        forall|i: int| 0 <= i < q.len() ==> 0 <= #[trigger] q[i] < n,
    ensures
        is_arrangement(q, n),
    decreases n,
{
    if n > 0 {
        let top = n - 1;
        if q.contains(top) {
            let p = q.index_of(top);
            let r = q.remove(p);
            q.remove_ensures(p);
            assert forall|i: int, j: int|
                0 <= i < r.len() && 0 <= j < r.len() && i != j implies r[i] != r[j] by {
                let i0 = if i < p { i } else { i + 1 };
                let j0 = if j < p { j } else { j + 1 };
                assert(r[i] == q[i0]);
                assert(r[j] == q[j0]);
            }
            assert forall|i: int| 0 <= i < r.len() implies 0 <= #[trigger] r[i] < n - 1 by {
                let i0 = if i < p { i } else { i + 1 };
                assert(r[i] == q[i0]);
                assert(q[i0] != q[p]);
            }
            lemma_pigeonhole(r, (n - 1) as nat);
            assert forall|v: int| 0 <= v < n implies q.contains(v) by {
                if v != top {
                    assert(r.contains(v));
                    let i = choose|i: int| 0 <= i < r.len() && r[i] == v;
                    let i0 = if i < p { i } else { i + 1 };
                    assert(q[i0] == v);
                }
            }
        } else {
            let r = q.drop_last();
            assert forall|i: int| 0 <= i < r.len() implies 0 <= #[trigger] r[i] < n - 1 by {
                assert(r[i] == q[i]);
                assert(q.contains(q[i]));
            }
            lemma_pigeonhole(r, (n - 1) as nat);
            assert(q.contains(q[n - 1]));
            assert(r.contains(q[n - 1]));
            let i = choose|i: int| 0 <= i < r.len() && r[i] == q[n - 1];
            assert(q[i] == q[n - 1]);
            assert(false);
        }
    }
}

/// One more position adds its cubie to the count and to the order where it
/// is a distinguished one.
pub proof fn lemma_count_step(s: Seq<int>, k: nat, j: int)
    requires
        0 <= j < s.len(),
    ensures
        tracked_count(s.take(j + 1), k) == tracked_count(s.take(j), k) + if is_tracked(s[j], k) {
            1nat
        } else {
            0nat
        },
        tracked_order(s.take(j + 1), k) == if is_tracked(s[j], k) {
            tracked_order(s.take(j), k).push(s[j])
        } else {
            tracked_order(s.take(j), k)
        },
{
    assert(s.take(j + 1).drop_last() =~= s.take(j));
}

/// Between two positions the count of distinguished cubies grows by no more
/// than the number of positions.
pub proof fn lemma_count_between(s: Seq<int>, k: nat, a: int, b: int)
    requires
        0 <= a <= b <= s.len(),
    ensures
        tracked_count(s.take(a), k) <= tracked_count(s.take(b), k) <= tracked_count(s.take(a), k)
            + (b - a),
    decreases b - a,
{
    if a < b {
        lemma_count_between(s, k, a, b - 1);
        lemma_count_step(s, k, b - 1);
    }
}

/// The order of the distinguished cubies up to a position is the beginning of
/// their order over all positions.
pub proof fn lemma_order_prefix(s: Seq<int>, k: nat, a: int, b: int)
    requires
        0 <= a <= b <= s.len(),
    ensures
        tracked_order(s.take(a), k).len() <= tracked_order(s.take(b), k).len(),
        tracked_order(s.take(a), k) == tracked_order(s.take(b), k).take(
            tracked_order(s.take(a), k).len() as int,
        ),
    decreases b - a,
{
    let qa = tracked_order(s.take(a), k);
    if a < b {
        lemma_order_prefix(s, k, a, b - 1);
        lemma_count_step(s, k, b - 1);
        let qm = tracked_order(s.take(b - 1), k);
        let qb = tracked_order(s.take(b), k);
        assert(qa =~= qb.take(qa.len() as int));
    } else {
        assert(qa =~= qa.take(qa.len() as int));
    }
}

/// The distinguished cubie at a position stands in the order at the place
/// given by the count of distinguished cubies before it.
pub proof fn lemma_order_at(s: Seq<int>, k: nat, j: int)
    requires
        0 <= j < s.len(),
        is_tracked(s[j], k),
    ensures
        tracked_count(s.take(j), k) < tracked_count(s, k),
        tracked_order(s, k)[tracked_count(s.take(j), k) as int] == s[j],
{
    lemma_count_step(s, k, j);
    lemma_tracked_order_len(s.take(j), k);
    lemma_tracked_order_len(s.take(j + 1), k);
    lemma_tracked_order_len(s, k);
    lemma_order_prefix(s, k, j + 1, s.len() as int);
    lemma_count_between(s, k, j + 1, s.len() as int);
    assert(s.take(s.len() as int) =~= s);
    let c = tracked_count(s.take(j), k) as int;
    let q1 = tracked_order(s.take(j + 1), k);
    assert(q1[c] == s[j]);
    assert(q1 == tracked_order(s, k).take(q1.len() as int));
}

/// Every entry of the order sits at some position.
pub proof fn lemma_order_source(s: Seq<int>, k: nat, c: int)
    requires
        0 <= c < tracked_order(s, k).len(),
    ensures
        s.contains(tracked_order(s, k)[c]),
    decreases s.len(),
{
    if s.len() > 0 {
        let d = s.drop_last();
        if is_tracked(s.last(), k) && c == tracked_order(d, k).len() {
            assert(s[s.len() - 1] == tracked_order(s, k)[c]);
        } else {
            lemma_order_source(d, k, c);
            let v = tracked_order(s, k)[c];
            let i = choose|i: int| 0 <= i < d.len() && d[i] == v;
            assert(s[i] == v);
        }
    }
}

/// A sequence in which each of the `k` distinguished cubies sits at exactly
/// one position is a slot sequence.
pub proof fn lemma_slots_by_entries(s: Seq<int>, n: nat, k: nat)
    requires
        s.len() == n,
        forall|i: int| 0 <= i < n ==> 0 <= #[trigger] s[i] <= k,
        forall|i: int, j: int| 0 <= i < j < n && is_tracked(s[i], k) ==> s[i] != s[j],
        forall|v: int| 0 <= v < k ==> s.contains(v),
    ensures
        is_slots(s, n, k),
{
    let q = tracked_order(s, k);
    lemma_tracked_order_len(s, k);
    assert forall|v: int| 0 <= v < k implies q.contains(v) by {
        assert(s.contains(v));
        let j = choose|j: int| 0 <= j < s.len() && s[j] == v;
        lemma_order_at(s, k, j);
    }
    assert forall|c: int, d: int| 0 <= c < q.len() && 0 <= d < q.len() && c != d implies q[c]
        != q[d] by {
        if q[c] == q[d] {
            let (lo, hi) = if c < d { (c, d) } else { (d, c) };
            lemma_positions_of_order(s, k, lo, hi);
        }
    }
}

/// In a slot sequence each of the `k` distinguished cubies sits at exactly
/// one position.
pub proof fn lemma_entries_of_slots(s: Seq<int>, n: nat, k: nat)
    requires
        is_slots(s, n, k),
    ensures
        forall|i: int, j: int| 0 <= i < j < n && is_tracked(s[i], k) ==> s[i] != s[j],
        forall|v: int| 0 <= v < k ==> s.contains(v),
{
    let q = tracked_order(s, k);
    lemma_tracked_order_len(s, k);
    lemma_arrangement_len(q, k);
    assert forall|i: int, j: int| 0 <= i < j < n && is_tracked(s[i], k) implies s[i] != s[j] by {
        if is_tracked(s[j], k) {
            lemma_order_at(s, k, i);
            lemma_order_at(s, k, j);
            lemma_count_step(s, k, i);
            lemma_count_between(s, k, i + 1, j);
        }
    }
    assert forall|v: int| 0 <= v < k implies s.contains(v) by {
        assert(q.contains(v));
        let c = choose|c: int| 0 <= c < q.len() && q[c] == v;
        lemma_order_source(s, k, c);
    }
}

/// The slots of an arrangement of all cubies are a slot sequence.
pub proof fn lemma_slots_of(perm: Seq<int>, n: nat, base: int, k: nat)
    requires
        is_arrangement(perm, n),
        perm.len() == n,
        0 <= base,
        base + k <= n,
    ensures
        is_slots(slots_of(perm, base, k), n, k),
{
    let s = slots_of(perm, base, k);
    assert forall|v: int| 0 <= v < k implies s.contains(v) by {
        assert(perm.contains(base + v));
        let j = choose|j: int| 0 <= j < perm.len() && perm[j] == base + v;
        assert(s[j] == v);
    }
    assert forall|i: int, j: int| 0 <= i < j < n && is_tracked(s[i], k) implies s[i] != s[j] by {
        assert(perm[i] != perm[j]);
    }
    lemma_slots_by_entries(s, n, k);
}

/// Two places of the order come from two positions.
pub proof fn lemma_positions_of_order(s: Seq<int>, k: nat, c: int, d: int)
    requires
        0 <= c < d < tracked_order(s, k).len(),
    ensures
        exists|i: int, j: int|
            0 <= i < j < s.len() && s[i] == tracked_order(s, k)[c] && s[j] == tracked_order(
                s,
                k,
            )[d] && is_tracked(s[i], k) && is_tracked(s[j], k),
    decreases s.len(),
{
    if s.len() > 0 {
        let t = s.drop_last();
        lemma_tracked_order_len(s, k);
        if is_tracked(s.last(), k) && d == tracked_order(t, k).len() {
            lemma_order_source_tracked(t, k, c);
            let i = choose|i: int|
                0 <= i < t.len() && t[i] == tracked_order(t, k)[c] && is_tracked(t[i], k);
            assert(s[i] == tracked_order(s, k)[c]);
            assert(s[s.len() - 1] == tracked_order(s, k)[d]);
        } else {
            lemma_positions_of_order(t, k, c, d);
            let (i, j) = choose|i: int, j: int|
                0 <= i < j < t.len() && t[i] == tracked_order(t, k)[c] && t[j] == tracked_order(
                    t,
                    k,
                )[d] && is_tracked(t[i], k) && is_tracked(t[j], k);
            assert(s[i] == t[i] && s[j] == t[j]);
        }
    }
}

/// Every entry of the order is a distinguished cubie at some position.
pub proof fn lemma_order_source_tracked(s: Seq<int>, k: nat, c: int)
    requires
        0 <= c < tracked_order(s, k).len(),
    ensures
        exists|i: int| 0 <= i < s.len() && s[i] == tracked_order(s, k)[c] && is_tracked(s[i], k),
{
    lemma_order_source(s, k, c);
    lemma_tracked_order_len(s, k);
    let v = tracked_order(s, k)[c];
    let i = choose|i: int| 0 <= i < s.len() && s[i] == v;
    assert(is_tracked(s[i], k));
}

/// Filling the slots up gives an arrangement of all cubies, and its slots are
/// the ones it was made from.
pub proof fn lemma_complete(s: Seq<int>, n: nat, base: int, k: nat)
    requires
        is_slots(s, n, k),
        0 <= base,
        base + k <= n,
    ensures
        complete(s, base, k).len() == n,
        is_arrangement(complete(s, base, k), n),
        slots_of(complete(s, base, k), base, k) == s,
{
    let p = complete(s, base, k);
    let q = tracked_order(s, k);
    lemma_tracked_order_len(s, k);
    lemma_arrangement_len(q, k);
    assert(s.take(n as int) =~= s);
    assert forall|j: int| 0 <= j < n implies 0 <= #[trigger] p[j] < n && (!is_tracked(s[j], k)
        ==> 0 <= j - tracked_count(s.take(j), k) < n - k) by {
        lemma_tracked_order_len(s.take(j), k);
        if !is_tracked(s[j], k) {
            lemma_count_step(s, k, j);
            lemma_count_between(s, k, j + 1, n as int);
        }
    }
    assert forall|a: int, b: int| 0 <= a < b < n implies p[a] != p[b] by {
        lemma_count_step(s, k, a);
        lemma_count_between(s, k, a + 1, b);
        lemma_tracked_order_len(s.take(a), k);
        lemma_tracked_order_len(s.take(b), k);
        assert(0 <= p[a] < n && 0 <= p[b] < n);
        if is_tracked(s[a], k) && is_tracked(s[b], k) {
            lemma_order_at(s, k, a);
            lemma_order_at(s, k, b);
        }
    }
    assert(p.no_duplicates());
    lemma_pigeonhole(p, n);
    assert(slots_of(p, base, k) =~= s) by {
        assert forall|j: int| 0 <= j < n implies slots_of(p, base, k)[j] == s[j] by {
            assert(0 <= p[j] < n);
            lemma_tracked_order_len(s.take(j), k);
        }
    }
}

/// Mirroring keeps an arrangement an arrangement, and twice is nothing.
pub proof fn lemma_mirrored(perm: Seq<int>, n: nat)
    requires
        perm.len() == n,
        is_arrangement(perm, n),
    ensures
        mirrored(perm).len() == n,
        is_arrangement(mirrored(perm), n),
        mirrored(mirrored(perm)) == perm,
{
    let m = mirrored(perm);
    assert forall|a: int, b: int| 0 <= a < n && 0 <= b < n && a != b implies m[a] != m[b] by {
        assert(perm[n - 1 - a] != perm[n - 1 - b]);
    }
    lemma_pigeonhole(m, n);
    assert(mirrored(m) =~= perm);
}

/// The slots of an arrangement given as cubie numbers.
pub fn slots_from(numbers: &Vec<u8>, base: u8, k: u8) -> (slots: Vec<u8>)
    requires
        base + k <= 255,
    ensures
        as_ints(slots@) == slots_of(as_ints(numbers@), base as int, k as nat),
        slots@.len() == numbers@.len(),
{
    let n = numbers.len();
    let mut slots: Vec<u8> = Vec::new();
    let mut i: usize = 0;
    while i < n
        invariant
            i <= n,
            n == numbers@.len(),
            slots@.len() == i,
            base + k <= 255,
            forall|j: int|
                0 <= j < i ==> slots@[j] as int == slots_of(
                    as_ints(numbers@),
                    base as int,
                    k as nat,
                )[j],
        decreases n - i,
    {
        let v = numbers[i];
        if base <= v && v < base + k {
            slots.push(v - base);
        } else {
            slots.push(k);
        }
        i += 1;
    }
    assert(as_ints(slots@) =~= slots_of(as_ints(numbers@), base as int, k as nat));
    slots
}

/// The arrangement of all cubies, as cubie numbers, that has the given slots.
pub fn complete_from(slots: &Vec<u8>, base: u8, k: u8) -> (numbers: Vec<u8>)
    requires
        is_slots(as_ints(slots@), slots@.len(), k as nat),
        base + k <= slots@.len() <= 12,
    ensures
        as_ints(numbers@) == complete(as_ints(slots@), base as int, k as nat),
        numbers@.len() == slots@.len(),
{
    let n = slots.len();
    let ghost s = as_ints(slots@);
    let mut numbers: Vec<u8> = Vec::new();
    let mut others: u8 = 0;
    let mut j: usize = 0;
    proof {
        lemma_complete(s, n as nat, base as int, k as nat);
        assert(s.take(0) =~= Seq::empty());
    }
    while j < n
        invariant
            j <= n <= 12,
            n == slots@.len(),
            s == as_ints(slots@),
            base + k <= n,
            numbers@.len() == j,
            others == j - tracked_count(s.take(j as int), k as nat),
            is_arrangement(complete(s, base as int, k as nat), n as nat),
            forall|i: int|
                0 <= i < j ==> numbers@[i] as int == complete(s, base as int, k as nat)[i],
        decreases n - j,
    {
        let v = slots[j];
        proof {
            lemma_count_step(s, k as nat, j as int);
            lemma_tracked_order_len(s.take(j as int), k as nat);
            let c = complete(s, base as int, k as nat);
            assert(0 <= c[j as int] < n);
        }
        if v < k {
            numbers.push(base + v);
        } else {
            if others < base {
                numbers.push(others);
            } else {
                numbers.push(others + k);
            }
            others += 1;
        }
        j += 1;
    }
    assert(as_ints(numbers@) =~= complete(s, base as int, k as nat));
    numbers
}

/// The mirrored arrangement, as cubie numbers.
pub fn mirror_of(numbers: &Vec<u8>) -> (m: Vec<u8>)
    requires
        numbers@.len() <= 12,
        forall|i: int| 0 <= i < numbers@.len() ==> numbers@[i] < numbers@.len(),
    ensures
        as_ints(m@) == mirrored(as_ints(numbers@)),
        m@.len() == numbers@.len(),
{
    let n = numbers.len();
    let mut m: Vec<u8> = Vec::new();
    let mut i: usize = 0;
    while i < n
        invariant
            i <= n <= 12,
            n == numbers@.len(),
            m@.len() == i,
            forall|j: int| 0 <= j < n ==> numbers@[j] < n,
            forall|j: int| 0 <= j < i ==> m@[j] as int == mirrored(as_ints(numbers@))[j],
        decreases n - i,
    {
        let v = numbers[n - 1 - i];
        m.push((n - 1) as u8 - v);
        i += 1;
    }
    assert(as_ints(m@) =~= mirrored(as_ints(numbers@)));
    m
}

/// Reducing one term of a sum does not change the sum's remainder.
pub proof fn lemma_add_reduced(s: int, a: int, m: int)
    requires
        m > 0,
    ensures
        (s + a % m) % m == (s + a) % m,
{
    lemma_add_mod_noop_right(s, a, m);
}

/// Adding a multiple of the modulus does not change a remainder.
pub proof fn lemma_add_multiple(s: int, t: int, m: int)
    requires
        m > 0,
        t % m == 0,
    ensures
        (s + t) % m == s % m,
{
    lemma_add_mod_noop_right(s, t, m);
}

/// The arrangement as a coordinate looks at it: as it is, or mirrored.
pub open spec fn seen(perm: Seq<int>, mirror: bool) -> Seq<int> {
    if mirror {
        mirrored(perm)
    } else {
        perm
    }
}

/// The arrangement that is made for a coordinate has that coordinate: its
/// slots are the ones with the coordinate's rank.
pub proof fn lemma_placed(n: nat, x: nat, base: int, k: nat, mirror: bool)
    requires
        x < arrangement_count(n, k),
        0 <= base,
        base + k <= n,
    ensures
        seen(complete(arrangement_unrank(n, k, x), base, k), mirror).len() == n,
        is_arrangement(seen(complete(arrangement_unrank(n, k, x), base, k), mirror), n),
        slots_of(
            seen(seen(complete(arrangement_unrank(n, k, x), base, k), mirror), mirror),
            base,
            k,
        ) == arrangement_unrank(n, k, x),
        arrangement_rank(arrangement_unrank(n, k, x), k) == x,
{
    let s = arrangement_unrank(n, k, x);
    lemma_unrank_then_rank(n, k, x);
    lemma_complete(s, n, base, k);
    lemma_mirrored(complete(s, base, k), n);
}

/// The slots of an arrangement of all cubies, as a coordinate looks at it,
/// are a slot sequence, and the one that is made for their rank.
pub proof fn lemma_ranked(perm: Seq<int>, n: nat, base: int, k: nat, mirror: bool)
    requires
        perm.len() == n,
        is_arrangement(perm, n),
        0 <= base,
        base + k <= n,
    ensures
        is_slots(slots_of(seen(perm, mirror), base, k), n, k),
        arrangement_rank(slots_of(seen(perm, mirror), base, k), k) < arrangement_count(n, k),
        arrangement_unrank(n, k, arrangement_rank(slots_of(seen(perm, mirror), base, k), k))
            == slots_of(seen(perm, mirror), base, k),
{
    lemma_mirrored(perm, n);
    lemma_slots_of(seen(perm, mirror), n, base, k);
    lemma_rank_then_unrank(slots_of(seen(perm, mirror), base, k), n, k);
}

/// Where two arrangements have the same slots and both are moved in the same
/// way among the positions, they have the same slots afterwards.
pub proof fn lemma_slots_follow(
    p: Seq<int>,
    q: Seq<int>,
    p2: Seq<int>,
    q2: Seq<int>,
    from: spec_fn(int) -> int,
    n: nat,
    base: int,
    k: nat,
    mirror: bool,
)
    requires
        p.len() == n,
        q.len() == n,
        p2.len() == n,
        q2.len() == n,
        forall|i: int|
            0 <= i < n ==> 0 <= #[trigger] from(i) < n && p2[i] == p[from(i)] && q2[i] == q[from(
                i,
            )],
        slots_of(seen(p, mirror), base, k) == slots_of(seen(q, mirror), base, k),
    ensures
        slots_of(seen(p2, mirror), base, k) == slots_of(seen(q2, mirror), base, k),
{
    let sp = slots_of(seen(p, mirror), base, k);
    let sq = slots_of(seen(q, mirror), base, k);
    let sp2 = slots_of(seen(p2, mirror), base, k);
    let sq2 = slots_of(seen(q2, mirror), base, k);
    assert forall|i: int| 0 <= i < n implies sp2[i] == sq2[i] by {
        if mirror {
            let j = n - 1 - from(n - 1 - i);
            assert(0 <= from(n - 1 - i) < n);
            assert(sp[j] == sq[j]);
            assert(sp2[i] == sp[j]);
            assert(sq2[i] == sq[j]);
        } else {
            let j = from(i);
            assert(sp[j] == sq[j]);
            assert(sp2[i] == sp[j]);
            assert(sq2[i] == sq[j]);
        }
    }
    assert(sp2 =~= sq2);
}

/// The position, as a coordinate looks at the arrangement, whose slot a move
/// among the positions brings to the position `i`.
pub open spec fn slot_from(from: spec_fn(int) -> int, n: nat, mirror: bool, i: int) -> int {
    if mirror {
        n - 1 - from(n - 1 - i)
    } else {
        from(i)
    }
}

/// A move among the positions moves the slots in the same way.
pub proof fn lemma_slot_source(
    p: Seq<int>,
    p2: Seq<int>,
    from: spec_fn(int) -> int,
    n: nat,
    base: int,
    k: nat,
    mirror: bool,
    i: int,
)
    requires
        p.len() == n,
        p2.len() == n,
        forall|i: int| 0 <= i < n ==> 0 <= #[trigger] from(i) < n && p2[i] == p[from(i)],
        0 <= i < n,
    ensures
        0 <= slot_from(from, n, mirror, i) < n,
        slots_of(seen(p2, mirror), base, k)[i] == slots_of(seen(p, mirror), base, k)[slot_from(
            from,
            n,
            mirror,
            i,
        )],
{
    if mirror {
        assert(0 <= from(n - 1 - i) < n);
    } else {
        assert(0 <= from(i) < n);
    }
}

} // verus!
