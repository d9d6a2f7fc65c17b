//! The pruning table: for every state of the corners URF to DLF, of the four
//! middle-slice edges within their slice, and of the parity, the least number
//! of slice-keeping moves that lead to it from the solved state. Two entries
//! share a byte.

use vstd::prelude::*;
use crate::coordinate::Coordinate;

verus! {

/// The value of an entry that no move sequence has reached yet.
pub const UNVISITED: u8 = 0x0f;

/// The entry `i` of a packed table: the low half of the byte `i / 2` where
/// `i` is even, the high half where it is odd.
pub open spec fn nibble(bytes: Seq<u8>, i: int) -> u8 {
    if i % 2 == 0 {
        bytes[i / 2] & 0x0f
    } else {
        (bytes[i / 2] >> 4) & 0x0f
    }
}

impl Coordinate {
    /// Reads the entry `i` of a packed table.
    pub fn prunning(arr: &Vec<u8>, i: usize) -> (value: u8)
        requires
            i / 2 < arr@.len(),
        ensures
            value == nibble(arr@, i as int),
            value <= 0x0f,
    {
        let byte = arr[i / 2];
        assert(byte & 0x0f <= 0x0f) by (bit_vector);
        assert((byte >> 4) & 0x0f <= 0x0f) by (bit_vector);
        if i % 2 == 0 {
            byte & 0x0f
        } else {
            (byte >> 4) & 0x0f
        }
    }

    /// Writes the entry `i` of a packed table and leaves every other entry as
    /// it is. The half byte is cleared and then set, so that the entry holds
    /// `value` whatever it held before.
    pub fn set_prunning(arr: &mut Vec<u8>, i: usize, value: u8)
        requires
            i / 2 < old(arr)@.len(),
            value <= 0x0f,
        ensures
            final(arr)@.len() == old(arr)@.len(),
            nibble(final(arr)@, i as int) == value,
            forall|j: int|
                0 <= j < 2 * old(arr)@.len() && j != i ==> nibble(final(arr)@, j) == nibble(
                    old(arr)@,
                    j,
                ),
    {
        let byte = arr[i / 2];
        let updated = if i % 2 == 0 {
            (byte & 0xf0) | value
        } else {
            (byte & 0x0f) | (value << 4)
        };
        assert(i % 2 == 0 ==> (((byte & 0xf0) | value) & 0x0f == value
            && (((byte & 0xf0) | value) >> 4)
            & 0x0f == (byte >> 4) & 0x0f)) by (bit_vector)
            requires
                value <= 0x0f,
        ;
        assert(i % 2 != 0 ==> ((((byte & 0x0f) | (value << 4)) >> 4) & 0x0f == value
            && ((byte & 0x0f)
            | (value << 4)) & 0x0f == byte & 0x0f)) by (bit_vector)
            requires
                value <= 0x0f,
        ;
        arr.set(i / 2, updated);
        assert forall|j: int| 0 <= j < 2 * old(arr)@.len() && j != i implies nibble(arr@, j)
            == nibble(
            old(arr)@,
            j,
        ) by {
            if j / 2 != (i / 2) as int {
                assert(arr@[j / 2] == old(arr)@[j / 2]);
            }
        }
    }
}

/// The number of entries of the pruning table: 24 arrangements of the slice
/// edges, 20160 of the corners, 2 parities.
pub const NB_PRUNING: usize = 967680;

/// The number of bytes of the pruning table.
pub const NB_PRUNING_BYTES: usize = 483840;

/// The greatest distance that an entry can hold.
pub const MAX_DEPTH: u8 = 14;

/// The move tables that the pruning table is built from.
pub struct Transitions {
    /// The move table of the four middle-slice edges.
    pub slice: Seq<[u32; 18]>,
    /// The move table of the corners URF to DLF.
    pub corners: Seq<[u32; 18]>,
    /// The move table of the parity.
    pub parity: Seq<[u8; 18]>,
}

/// Whether the column `y` of a move table belongs to a move that keeps the
/// middle-slice edges in their slice: any turn of U or D, and the half turns
/// of R, F, L and B.
pub open spec fn keeps_slice_index(y: int) -> bool {
    0 <= y < 18 && y != 3 && y != 5 && y != 6 && y != 8 && y != 12 && y != 14 && y != 15 && y
        != 17
}

impl Transitions {
    /// The slice-keeping moves lead from the first 24 slice coordinates to
    /// the first 24, from corner coordinates to corner coordinates and from
    /// parities to parities.
    pub open spec fn closed(self) -> bool {
        &&& self.slice.len() >= 24
        &&& self.corners.len() >= 20160
        &&& self.parity.len() == 2
        &&& forall|s: int, y: int|
            0 <= s < 24 && keeps_slice_index(y) ==> #[trigger] self.slice[s][y] < 24
        &&& forall|c: int, y: int|
            0 <= c < 20160 && keeps_slice_index(y) ==> #[trigger] self.corners[c][y] < 20160
        &&& forall|p: int, y: int|
            0 <= p < 2 && keeps_slice_index(y) ==> #[trigger] self.parity[p][y] < 2
    }

    /// The entry that the move of column `y` leads to from the entry `x`. An
    /// entry stands for the corner coordinate `x / 48`, the slice coordinate
    /// `x / 2 % 24` and the parity `x % 2`.
    pub open spec fn successor(self, x: int, y: int) -> int {
        (24 * self.corners[(x / 2) / 24][y] + self.slice[(x / 2) % 24][y]) * 2 + self.parity[x
            % 2][y]
    }

    /// Whether some sequence of exactly `d` slice-keeping moves leads from
    /// the entry 0, the solved state, to the entry `x`.
    pub open spec fn reached(self, x: int, d: nat) -> bool
        decreases d,
    {
        if d == 0 {
            x == 0
        } else {
            exists|p: int, y: int|
                0 <= p < NB_PRUNING && keeps_slice_index(y) && self.reached(p, (d - 1) as nat)
                    && #[trigger] self.successor(p, y) == x
        }
    }

    /// Whether `v` is the least number of slice-keeping moves that lead from
    /// the solved state to the entry `x`.
    pub open spec fn distance_is(self, x: int, v: nat) -> bool {
        self.reached(x, v) && forall|d: nat| d < v ==> !self.reached(x, d)
    }

    /// What holds of a packed table while the entries at distance `depth`
    /// are being expanded, those below `scanned` being done: a visited entry
    /// holds its distance, which is at most `bound`, and an entry is not
    /// reached in fewer moves than it holds, as far as `depth` moves.
    pub open spec fn settled(self, bytes: Seq<u8>, depth: nat, bound: nat, scanned: int) -> bool {
        &&& forall|x: int|
            0 <= x < NB_PRUNING ==> #[trigger] nibble(bytes, x) <= bound || nibble(bytes, x)
                == UNVISITED
        &&& forall|x: int|
            0 <= x < NB_PRUNING && #[trigger] nibble(bytes, x) != UNVISITED ==> self.reached(
                x,
                nibble(bytes, x) as nat,
            )
        &&& forall|x: int, d: nat|
            0 <= x < NB_PRUNING && d < nibble(bytes, x) && d <= depth ==> !#[trigger] self.reached(
                x,
                d,
            )
        &&& forall|p: int, y: int|
            0 <= p < scanned && nibble(bytes, p) == depth && keeps_slice_index(y) ==> nibble(
                bytes,
                #[trigger] self.successor(p, y),
            ) != UNVISITED
    }
}

/// The number of visited entries among the first `n`.
pub open spec fn visited_count(bytes: Seq<u8>, n: nat) -> nat
    decreases n,
{
    if n == 0 {
        0
    } else if nibble(bytes, n - 1) != UNVISITED {
        visited_count(bytes, (n - 1) as nat) + 1
    } else {
        visited_count(bytes, (n - 1) as nat)
    }
}

/// Visiting one entry adds one to the count.
pub proof fn lemma_visit_one(before: Seq<u8>, after: Seq<u8>, i: int, n: nat)
    requires
        0 <= i,
        forall|j: int| 0 <= j < n && j != i ==> nibble(after, j) == nibble(before, j),
        nibble(before, i) == UNVISITED,
        nibble(after, i) != UNVISITED,
    ensures
        visited_count(after, n) == visited_count(before, n) + if i < n {
            1nat
        } else {
            0nat
        },
    decreases n,
{
    if n > 0 {
        lemma_visit_one(before, after, i, (n - 1) as nat);
    }
}

/// The count is the number of entries exactly where every entry is visited.
pub proof fn lemma_all_visited(bytes: Seq<u8>, n: nat)
    ensures
        visited_count(bytes, n) <= n,
        visited_count(bytes, n) == n <==> (forall|j: int|
            0 <= j < n ==> nibble(bytes, j) != UNVISITED),
    decreases n,
{
    if n > 0 {
        lemma_all_visited(bytes, (n - 1) as nat);
    }
}

/// Among entries that are all unvisited, none is counted.
pub proof fn lemma_none_visited(bytes: Seq<u8>, n: nat)
    requires
        forall|j: int| 0 <= j < n ==> nibble(bytes, j) == UNVISITED,
    ensures
        visited_count(bytes, n) == 0,
    decreases n,
{
    if n > 0 {
        lemma_none_visited(bytes, (n - 1) as nat);
    }
}

/// Once every entry at distance `depth` is expanded, no unvisited entry is at
/// distance `depth + 1`.
pub proof fn lemma_layer_done(t: Transitions, bytes: Seq<u8>, depth: nat)
    requires
        t.settled(bytes, depth, depth + 1, NB_PRUNING as int),
        depth < MAX_DEPTH,
    ensures
        t.settled(bytes, depth + 1, depth + 1, 0),
{
    assert forall|x: int, d: nat|
        0 <= x < NB_PRUNING && d < nibble(bytes, x) && d <= depth + 1 implies !#[trigger] t.reached(
        x,
        d,
    ) by {
        if d == depth + 1 && t.reached(x, d) {
            assert(nibble(bytes, x) == UNVISITED);
            let (p, y) = choose|p: int, y: int|
                0 <= p < NB_PRUNING && keeps_slice_index(y) && t.reached(p, (d - 1) as nat)
                    && #[trigger] t.successor(p, y) == x;
            let v = nibble(bytes, p);
            if v == depth {
                assert(nibble(bytes, t.successor(p, y)) != UNVISITED);
            } else if v < depth {
                assert(t.reached(p, v as nat));
                assert(t.reached(x, (v + 1) as nat));
            } else {
                assert(!t.reached(p, depth));
            }
        }
    }
}

/// Builds the pruning table from the move tables: layer by layer, every
/// entry at the current distance is looked up and each unvisited entry that a
/// slice-keeping move leads to from it gets the next distance. Returns the
/// table and the number of visited entries.
///
/// An entry holds 15 where no sequence of at most 14 moves leads to it.
pub fn fill_pruning(
    slice_move: &Vec<[u32; 18]>,
    corner_move: &Vec<[u32; 18]>,
    parity_move: &[[u8; 18]; 2],
) -> (r: (Vec<u8>, usize))
    requires
        (Transitions { slice: slice_move@, corners: corner_move@, parity: parity_move@ }).closed(),
    ensures
        r.0@.len() == NB_PRUNING_BYTES,
        r.1 == visited_count(r.0@, NB_PRUNING as nat),
        r.1 == NB_PRUNING <==> (forall|x: int|
            0 <= x < NB_PRUNING ==> nibble(r.0@, x) != UNVISITED),
        forall|x: int|
            0 <= x < NB_PRUNING && nibble(r.0@, x) != UNVISITED ==> (Transitions {
                slice: slice_move@,
                corners: corner_move@,
                parity: parity_move@,
            }).distance_is(x, nibble(r.0@, x) as nat),
        forall|x: int, d: nat|
            0 <= x < NB_PRUNING && nibble(r.0@, x) == UNVISITED && d <= MAX_DEPTH ==> !(
            Transitions { slice: slice_move@, corners: corner_move@,
                parity: parity_move@ }).reached(
                x,
                d,
            ),
{
    let ghost t = Transitions { slice: slice_move@, corners: corner_move@, parity: parity_move@ };
    let mut table: Vec<u8> = Vec::new();
    let mut i: usize = 0;
    while i < NB_PRUNING_BYTES
        invariant
            i <= NB_PRUNING_BYTES,
            table@.len() == i,
            forall|j: int| 0 <= j < i ==> table@[j] == 0xffu8,
        decreases NB_PRUNING_BYTES - i,
    {
        table.push(0xff);
        i += 1;
    }
    assert(0xffu8 & 0x0f == 0x0f && (0xffu8 >> 4) & 0x0f == 0x0f) by (bit_vector);
    assert forall|x: int| 0 <= x < NB_PRUNING implies nibble(table@, x) == UNVISITED by {
        assert(table@[x / 2] == 0xffu8);
    }
    let ghost blank = table@;
    Coordinate::set_prunning(&mut table, 0, 0);
    let mut depth: u8 = 0;
    let mut done: usize = 1;
    proof {
        lemma_none_visited(blank, NB_PRUNING as nat);
        lemma_visit_one(blank, table@, 0, NB_PRUNING as nat);
        assert(t.reached(0, 0));
        assert forall|x: int|
            0 <= x < NB_PRUNING && #[trigger] nibble(table@, x) != UNVISITED implies t.reached(
            x,
            nibble(table@, x) as nat,
        ) by {
            assert(x == 0);
        }
    }
    while done != NB_PRUNING && depth < MAX_DEPTH
        invariant
            t == (Transitions { slice: slice_move@, corners: corner_move@, parity: parity_move@ }),
            t.closed(),
            table@.len() == NB_PRUNING_BYTES,
            depth <= MAX_DEPTH,
            done == visited_count(table@, NB_PRUNING as nat),
            t.settled(table@, depth as nat, depth as nat, 0),
        decreases MAX_DEPTH - depth,
    {
        let mut x: usize = 0;
        while x < NB_PRUNING
            invariant
                t == (Transitions {
                    slice: slice_move@,
                    corners: corner_move@,
                    parity: parity_move@,
                }),
                t.closed(),
                table@.len() == NB_PRUNING_BYTES,
                depth < MAX_DEPTH,
                x <= NB_PRUNING,
                done == visited_count(table@, NB_PRUNING as nat),
                t.settled(table@, depth as nat, (depth + 1) as nat, x as int),
            decreases NB_PRUNING - x,
        {
            let parity = x % 2;
            let urf_to_dlf = (x / 2) / 24;
            let slice = (x / 2) % 24;
            if Coordinate::prunning(&table, x) == depth {
                let mut y: usize = 0;
                while y < 18
                    invariant
                        t == (Transitions {
                            slice: slice_move@,
                            corners: corner_move@,
                            parity: parity_move@,
                        }),
                        t.closed(),
                        table@.len() == NB_PRUNING_BYTES,
                        depth < MAX_DEPTH,
                        x < NB_PRUNING,
                        y <= 18,
                        parity == x % 2,
                        urf_to_dlf == (x / 2) / 24,
                        slice == (x / 2) % 24,
                        nibble(table@, x as int) == depth,
                        done == visited_count(table@, NB_PRUNING as nat),
                        t.settled(table@, depth as nat, (depth + 1) as nat, x as int),
                        forall|z: int|
                            0 <= z < y && keeps_slice_index(z) ==> nibble(
                                table@,
                                #[trigger] t.successor(x as int, z),
                            ) != UNVISITED,
                    decreases 18 - y,
                {
                    if !(y == 3 || y == 5 || y == 6 || y == 8 || y == 12 || y == 14 || y == 15 || y
                        == 17) {
                        assert(keeps_slice_index(y as int));
                        let n_slice = slice_move[slice][y];
                        let n_urf_to_dlf = corner_move[urf_to_dlf][y];
                        let n_parity = parity_move[parity][y];
                        assert(n_slice == t.slice[slice as int][y as int]);
                        assert(n_urf_to_dlf == t.corners[urf_to_dlf as int][y as int]);
                        assert(n_parity == t.parity[parity as int][y as int]);
                        let index = ((24 * n_urf_to_dlf + n_slice) * 2 + n_parity as u32) as usize;
                        assert(index == t.successor(x as int, y as int));
                        if Coordinate::prunning(&table, index) == UNVISITED {
                            let ghost before = table@;
                            proof {
                                lemma_all_visited(before, NB_PRUNING as nat);
                            }
                            Coordinate::set_prunning(&mut table, index, depth + 1);
                            done += 1;
                            proof {
                                lemma_visit_one(before, table@, index as int, NB_PRUNING as nat);
                                lemma_all_visited(table@, NB_PRUNING as nat);
                                assert(t.reached(x as int, depth as nat));
                                assert(t.reached(index as int, (depth + 1) as nat));
                                assert forall|q: int|
                                    0 <= q < NB_PRUNING && #[trigger] nibble(table@, q)
                                        != UNVISITED implies t.reached(
                                    q,
                                    nibble(table@, q) as nat,
                                ) by {
                                    if q != index {
                                        assert(nibble(table@, q) == nibble(before, q));
                                    }
                                }
                                assert forall|q: int, d: nat|
                                    0 <= q < NB_PRUNING && d < nibble(table@, q) && d
                                        <= depth implies !#[trigger] t.reached(q, d) by {
                                    if q != index {
                                        assert(nibble(table@, q) == nibble(before, q));
                                    }
                                }
                                assert forall|p: int, z: int|
                                    0 <= p < x && nibble(table@, p) == depth && keeps_slice_index(
                                        z,
                                    ) implies nibble(table@, #[trigger] t.successor(p, z))
                                    != UNVISITED by {
                                    let q = t.successor(p, z);
                                    assert(nibble(before, p) == depth);
                                    assert(nibble(before, q) != UNVISITED);
                                    assert(0 <= q < NB_PRUNING);
                                }
                                assert forall|z: int|
                                    0 <= z < y && keeps_slice_index(z) implies nibble(
                                    table@,
                                    #[trigger] t.successor(x as int, z),
                                ) != UNVISITED by {
                                    let q = t.successor(x as int, z);
                                    assert(nibble(before, q) != UNVISITED);
                                    assert(0 <= q < NB_PRUNING);
                                }
                                assert forall|q: int| 0 <= q < NB_PRUNING implies #[trigger] nibble(
                                    table@,
                                    q,
                                ) <= depth + 1 || nibble(table@, q) == UNVISITED by {
                                    if q != index {
                                        assert(nibble(table@, q) == nibble(before, q));
                                    }
                                }
                            }
                        }
                    }
                    y += 1;
                }
            }
            x += 1;
        }
        proof {
            lemma_layer_done(t, table@, depth as nat);
        }
        depth += 1;
    }
    proof {
        lemma_all_visited(table@, NB_PRUNING as nat);
    }
    (table, done)
}

} // verus!
