//! The twelve edge cubies: where they sit, how they are flipped, and the
//! coordinates that are read off them.

use vstd::prelude::*;
use crate::cubies::{
    complete, complete_from, CubieState, lemma_add_multiple, lemma_add_reduced, lemma_complete,
    lemma_mirrored, lemma_pigeonhole, lemma_slots_of, mirror_of, mirrored, seen, slots_from,
    slots_of,
};
use crate::face::Face;
use crate::moves::{CubeMove, Move};
use crate::ranking::{
    arrangement_rank, arrangement_rank_of, arrangement_unrank, arrangement_unrank_of, as_ints,
    is_arrangement, lemma_factorials, lemma_pascal_rows, lemma_unrank_then_rank,
};

verus! {

/// The number of flip coordinates: `2^11`.
pub const NB_FLIP: usize = 2048;

/// The number of coordinates of the four edges FR to BR: `12 * 11 * 10 * 9`.
pub const NB_FR_TO_BR: usize = 11880;

/// The number of coordinates of the three edges UR to UL: `12 * 11 * 10`.
pub const NB_UR_TO_UL: usize = 1320;

/// The number of coordinates of the three edges UB to DF: `12 * 11 * 10`.
pub const NB_UB_TO_DF: usize = 1320;

/// The number of coordinates of the six edges UR to DF while the four edges
/// FR to BR stay in the middle slice: `8 * 7 * 6 * 5 * 4 * 3`.
pub const NB_UR_TO_DF: usize = 20160;

/// The number of coordinates of the six edges UR to DF anywhere among the
/// twelve positions.
pub const NB_UR_TO_DF_ANYWHERE: usize = 665280;

/// The number of coordinates of the four edges FR to BR while they stay in
/// the middle slice: `4!`.
pub const NB_SLICE: usize = 24;

/// An edge cubie, named by its two faces; as a position, the place where that
/// cubie sits in the solved cube.
#[derive(Clone, Copy, Debug, PartialEq, Eq, Hash, Structural)]
pub enum Edge {
    UR,
    UF,
    UL,
    UB,
    DR,
    DF,
    DL,
    DB,
    FR,
    FL,
    BL,
    BR,
}

impl Edge {
    /// The number of the cubie, from 0 for UR to 11 for BR.
    pub open spec fn number(self) -> int {
        match self {
            Edge::UR => 0,
            Edge::UF => 1,
            Edge::UL => 2,
            Edge::UB => 3,
            Edge::DR => 4,
            Edge::DF => 5,
            Edge::DL => 6,
            Edge::DB => 7,
            Edge::FR => 8,
            Edge::FL => 9,
            Edge::BL => 10,
            Edge::BR => 11,
        }
    }

    /// The cubie with the given number.
    pub open spec fn of_number(i: int) -> Edge {
        if i == 0 {
            Edge::UR
        } else if i == 1 {
            Edge::UF
        } else if i == 2 {
            Edge::UL
        } else if i == 3 {
            Edge::UB
        } else if i == 4 {
            Edge::DR
        } else if i == 5 {
            Edge::DF
        } else if i == 6 {
            Edge::DL
        } else if i == 7 {
            Edge::DB
        } else if i == 8 {
            Edge::FR
        } else if i == 9 {
            Edge::FL
        } else if i == 10 {
            Edge::BL
        } else {
            Edge::BR
        }
    }

    /// The number of the cubie.
    pub fn index(&self) -> (i: u8)
        ensures
            i == self.number(),
            i < 12,
            Edge::of_number(i as int) == *self,
    {
        match *self {
            Edge::UR => 0,
            Edge::UF => 1,
            Edge::UL => 2,
            Edge::UB => 3,
            Edge::DR => 4,
            Edge::DF => 5,
            Edge::DL => 6,
            Edge::DB => 7,
            Edge::FR => 8,
            Edge::FL => 9,
            Edge::BL => 10,
            Edge::BR => 11,
        }
    }

    /// The cubie with the given number.
    pub fn from_index(i: u8) -> (e: Edge)
        requires
            i < 12,
        ensures
            e == Edge::of_number(i as int),
            e.number() == i,
    {
        if i == 0 {
            Edge::UR
        } else if i == 1 {
            Edge::UF
        } else if i == 2 {
            Edge::UL
        } else if i == 3 {
            Edge::UB
        } else if i == 4 {
            Edge::DR
        } else if i == 5 {
            Edge::DF
        } else if i == 6 {
            Edge::DL
        } else if i == 7 {
            Edge::DB
        } else if i == 8 {
            Edge::FR
        } else if i == 9 {
            Edge::FL
        } else if i == 10 {
            Edge::BL
        } else {
            Edge::BR
        }
    }

    /// The two faces of the cubie, the one that counts for its flip first.
    pub open spec fn faces(self) -> (Face, Face) {
        match self {
            Edge::UR => (Face::U, Face::R),
            Edge::UF => (Face::U, Face::F),
            Edge::UL => (Face::U, Face::L),
            Edge::UB => (Face::U, Face::B),
            Edge::DR => (Face::D, Face::R),
            Edge::DF => (Face::D, Face::F),
            Edge::DL => (Face::D, Face::L),
            Edge::DB => (Face::D, Face::B),
            Edge::FR => (Face::F, Face::R),
            Edge::FL => (Face::F, Face::L),
            Edge::BL => (Face::B, Face::L),
            Edge::BR => (Face::B, Face::R),
        }
    }

    /// The two faces of the cubie.
    pub fn decompose(&self) -> (t: (Face, Face))
        ensures
            t == self.faces(),
    {
        match *self {
            Edge::UR => (Face::U, Face::R),
            Edge::UF => (Face::U, Face::F),
            Edge::UL => (Face::U, Face::L),
            Edge::UB => (Face::U, Face::B),
            Edge::DR => (Face::D, Face::R),
            Edge::DF => (Face::D, Face::F),
            Edge::DL => (Face::D, Face::L),
            Edge::DB => (Face::D, Face::B),
            Edge::FR => (Face::F, Face::R),
            Edge::FL => (Face::F, Face::L),
            Edge::BL => (Face::B, Face::L),
            Edge::BR => (Face::B, Face::R),
        }
    }

    /// The faces of the cubie, exchanged where it is flipped.
    pub open spec fn oriented(self, orientation: u8) -> (Face, Face) {
        let (a, b) = self.faces();
        if orientation == 0 {
            (a, b)
        } else {
            (b, a)
        }
    }

    /// The colours that the cubie, flipped or not, shows at its own position.
    pub fn orient(&self, orientation: u8) -> (t: (Face, Face))
        ensures
            t == self.oriented(orientation),
    {
        let (a, b) = self.decompose();
        match orientation {
            0 => (a, b),
            _ => (b, a),
        }
    }

    /// The colour that the cubie shows on the side `face` of the cube when it
    /// sits at the position `cubicle`, flipped or not.
    pub open spec fn shown(self, cubicle: Edge, orientation: u8, face: Face) -> Face {
        let (oa, ob) = self.oriented(orientation);
        let (a, _b) = cubicle.faces();
        if face == a {
            oa
        } else {
            ob
        }
    }

    /// The colour that the cubie shows on one side of the cube.
    pub fn get_face(&self, cubicle: Edge, orientation: u8, face: Face) -> (shown: Face)
        ensures
            shown == self.shown(cubicle, orientation, face),
    {
        let (oriented_a, oriented_b) = self.orient(orientation);
        let (a, _b) = cubicle.decompose();
        if face == a {
            oriented_a
        } else {
            oriented_b
        }
    }
}

/// The position from which a clockwise quarter turn of `f` brings an edge
/// cubie to position `i`.
pub open spec fn edge_from(f: Face, i: int) -> int {
    match f {
        Face::U => seq![3int, 0, 1, 2, 4, 5, 6, 7, 8, 9, 10, 11][i],
        Face::R => seq![8int, 1, 2, 3, 11, 5, 6, 7, 4, 9, 10, 0][i],
        Face::F => seq![0int, 9, 2, 3, 4, 8, 6, 7, 1, 5, 10, 11][i],
        Face::D => seq![0int, 1, 2, 3, 5, 6, 7, 4, 8, 9, 10, 11][i],
        Face::L => seq![0int, 1, 10, 3, 4, 5, 9, 7, 8, 2, 6, 11][i],
        Face::B => seq![0int, 1, 2, 11, 4, 5, 6, 10, 8, 9, 3, 7][i],
    }
}

/// Whether a clockwise quarter turn of `f` flips the edge cubie that it brings
/// to position `i` (1) or not (0).
pub open spec fn edge_flip(f: Face, i: int) -> int {
    match f {
        Face::U => seq![0int, 0, 0, 0, 0, 0, 0, 0, 0, 0, 0, 0][i],
        Face::R => seq![0int, 0, 0, 0, 0, 0, 0, 0, 0, 0, 0, 0][i],
        Face::F => seq![0int, 1, 0, 0, 0, 1, 0, 0, 1, 1, 0, 0][i],
        Face::D => seq![0int, 0, 0, 0, 0, 0, 0, 0, 0, 0, 0, 0][i],
        Face::L => seq![0int, 0, 0, 0, 0, 0, 0, 0, 0, 0, 0, 0][i],
        Face::B => seq![0int, 0, 0, 1, 0, 0, 0, 1, 0, 0, 1, 1][i],
    }
}

/// The position from which a clockwise quarter turn of `f` brings an edge
/// cubie to position `i`.
pub fn edge_source(f: Face, i: usize) -> (r: u8)
    requires
        i < 12,
    ensures
        r == edge_from(f, i as int),
        r < 12,
{
    let rows: [[u8; 12]; 6] = [
        [3, 0, 1, 2, 4, 5, 6, 7, 8, 9, 10, 11],
        [8, 1, 2, 3, 11, 5, 6, 7, 4, 9, 10, 0],
        [0, 9, 2, 3, 4, 8, 6, 7, 1, 5, 10, 11],
        [0, 1, 2, 3, 5, 6, 7, 4, 8, 9, 10, 11],
        [0, 1, 10, 3, 4, 5, 9, 7, 8, 2, 6, 11],
        [0, 1, 2, 11, 4, 5, 6, 10, 8, 9, 3, 7],
    ];
    rows[f.axis()][i]
}

/// The flip that a clockwise quarter turn of `f` adds at position `i`.
pub fn edge_turn(f: Face, i: usize) -> (r: u8)
    requires
        i < 12,
    ensures
        r == edge_flip(f, i as int),
        r < 2,
{
    let rows: [[u8; 12]; 6] = [
        [0, 0, 0, 0, 0, 0, 0, 0, 0, 0, 0, 0],
        [0, 0, 0, 0, 0, 0, 0, 0, 0, 0, 0, 0],
        [0, 1, 0, 0, 0, 1, 0, 0, 1, 1, 0, 0],
        [0, 0, 0, 0, 0, 0, 0, 0, 0, 0, 0, 0],
        [0, 0, 0, 0, 0, 0, 0, 0, 0, 0, 0, 0],
        [0, 0, 0, 1, 0, 0, 0, 1, 0, 0, 1, 1],
    ];
    rows[f.axis()][i]
}

impl From<Edge> for usize {
    fn from(e: Edge) -> (i: usize) {
        match e {
            Edge::UR => 0,
            Edge::UF => 1,
            Edge::UL => 2,
            Edge::UB => 3,
            Edge::DR => 4,
            Edge::DF => 5,
            Edge::DL => 6,
            Edge::DB => 7,
            Edge::FR => 8,
            Edge::FL => 9,
            Edge::BL => 10,
            Edge::BR => 11,
        }
    }
}

impl vstd::std_specs::convert::FromSpecImpl<Edge> for usize {
    open spec fn obeys_from_spec() -> bool {
        true
    }

    open spec fn from_spec(e: Edge) -> usize {
        e.number() as usize
    }
}

/// The edges after a clockwise quarter turn of `f`.
pub open spec fn turn_edges(c: CubieState, f: Face) -> CubieState {
    CubieState {
        perm: Seq::new(12, |i: int| c.perm[edge_from(f, i)]),
        ori: Seq::new(12, |i: int| (c.ori[edge_from(f, i)] + edge_flip(f, i)) % 2),
    }
}

/// The edges after `t` clockwise quarter turns of `f`.
pub open spec fn turn_edges_times(c: CubieState, f: Face, t: nat) -> CubieState
    decreases t,
{
    if t == 0 {
        c
    } else {
        turn_edges(turn_edges_times(c, f, (t - 1) as nat), f)
    }
}

/// The edges after a move.
pub open spec fn move_edges(c: CubieState, m: Move) -> CubieState {
    turn_edges_times(c, m.face_spec(), m.turns_spec())
}

/// The sum of the flips of all twelve edges.
pub open spec fn flip_total(ori: Seq<int>) -> int {
    ori[0] + ori[1] + ori[2] + ori[3] + ori[4] + ori[5] + ori[6] + ori[7] + ori[8] + ori[9]
        + ori[10] + ori[11]
}

/// The flip coordinate: the flips of the first eleven edges as the digits of
/// a number in base 2, the first edge's flip the highest digit.
pub open spec fn flip_rank(ori: Seq<int>) -> int {
    (((((((((ori[0] * 2 + ori[1]) * 2 + ori[2]) * 2 + ori[3]) * 2 + ori[4]) * 2 + ori[5]) * 2
        + ori[6]) * 2 + ori[7]) * 2 + ori[8]) * 2 + ori[9]) * 2 + ori[10]
}

/// The flips with the given flip coordinate: the first eleven are its digits,
/// the twelfth brings the sum of all twelve to an even number.
pub open spec fn flip_unrank(x: int) -> Seq<int> {
    let d10 = x % 2;
    let d9 = (x / 2) % 2;
    let d8 = (x / 2 / 2) % 2;
    let d7 = (x / 2 / 2 / 2) % 2;
    let d6 = (x / 2 / 2 / 2 / 2) % 2;
    let d5 = (x / 2 / 2 / 2 / 2 / 2) % 2;
    let d4 = (x / 2 / 2 / 2 / 2 / 2 / 2) % 2;
    let d3 = (x / 2 / 2 / 2 / 2 / 2 / 2 / 2) % 2;
    let d2 = (x / 2 / 2 / 2 / 2 / 2 / 2 / 2 / 2) % 2;
    let d1 = (x / 2 / 2 / 2 / 2 / 2 / 2 / 2 / 2 / 2) % 2;
    let d0 = (x / 2 / 2 / 2 / 2 / 2 / 2 / 2 / 2 / 2 / 2) % 2;
    let d11 = (2 - (d0 + d1 + d2 + d3 + d4 + d5 + d6 + d7 + d8 + d9 + d10) % 2) % 2;
    seq![d0, d1, d2, d3, d4, d5, d6, d7, d8, d9, d10, d11]
}

/// The coordinate of the `k` edges numbered from `base` on; where `mirror` is
/// set, of the `k` edges counted back from the last, among positions counted
/// back from the last.
pub open spec fn edge_rank(perm: Seq<int>, base: int, k: nat, mirror: bool) -> nat {
    arrangement_rank(slots_of(seen(perm, mirror), base, k), k)
}

/// The arrangement of the edges with the given coordinate of the `k` edges
/// numbered from `base` on (or counted back from the last); the edges left
/// stand in rising order.
pub open spec fn edge_unrank(x: nat, base: int, k: nat, mirror: bool) -> Seq<int> {
    seen(complete(arrangement_unrank(12, k, x), base, k), mirror)
}

/// The coordinate of the four middle-slice edges FR, FL, BL, BR. It is below
/// 24 exactly where the four sit in the middle slice.
pub open spec fn fr_to_br_rank(perm: Seq<int>) -> nat {
    edge_rank(perm, 0, 4, true)
}

/// The arrangement of the edges with the given coordinate of FR to BR.
pub open spec fn fr_to_br_unrank(x: nat) -> Seq<int> {
    edge_unrank(x, 0, 4, true)
}

/// The coordinate of the three edges UR, UF, UL.
pub open spec fn ur_to_ul_rank(perm: Seq<int>) -> nat {
    edge_rank(perm, 0, 3, false)
}

/// The arrangement of the edges with the given coordinate of UR to UL.
pub open spec fn ur_to_ul_unrank(x: nat) -> Seq<int> {
    edge_unrank(x, 0, 3, false)
}

/// The coordinate of the three edges UB, DR, DF.
pub open spec fn ub_to_df_rank(perm: Seq<int>) -> nat {
    edge_rank(perm, 3, 3, false)
}

/// The arrangement of the edges with the given coordinate of UB to DF.
pub open spec fn ub_to_df_unrank(x: nat) -> Seq<int> {
    edge_unrank(x, 3, 3, false)
}

/// The coordinate of the six edges UR, UF, UL, UB, DR, DF.
pub open spec fn ur_to_df_rank(perm: Seq<int>) -> nat {
    edge_rank(perm, 0, 6, false)
}

/// The arrangement of the edges with the given coordinate of UR to DF.
pub open spec fn ur_to_df_unrank(x: nat) -> Seq<int> {
    edge_unrank(x, 0, 6, false)
}

/// The twelve edges of a cube.
#[derive(Clone, Copy, Debug, PartialEq, Eq)]
pub struct Edges {
    /// The cubie at each position.
    pub permutations: [Edge; 12],
    /// Whether the cubie at each position is flipped (1) or not (0).
    pub orientations: [u8; 12],
}

impl Default for Edges {
    fn default() -> (e: Edges)
        ensures
            e@ == CubieState::solved(12),
            e.wf(),
    {
        let mut edges: [Edge; 12] = [Edge::UR; 12];
        edges[usize::from(Edge::UR)] = Edge::UR;
        edges[usize::from(Edge::UF)] = Edge::UF;
        edges[usize::from(Edge::UL)] = Edge::UL;
        edges[usize::from(Edge::UB)] = Edge::UB;
        edges[usize::from(Edge::DR)] = Edge::DR;
        edges[usize::from(Edge::DF)] = Edge::DF;
        edges[usize::from(Edge::DL)] = Edge::DL;
        edges[usize::from(Edge::DB)] = Edge::DB;
        edges[usize::from(Edge::FR)] = Edge::FR;
        edges[usize::from(Edge::FL)] = Edge::FL;
        edges[usize::from(Edge::BL)] = Edge::BL;
        edges[usize::from(Edge::BR)] = Edge::BR;
        let e = Edges { permutations: edges, orientations: [0; 12] };
        proof {
            assert(e@.perm =~= CubieState::solved(12).perm);
            assert(e@.ori =~= CubieState::solved(12).ori);
            lemma_pigeonhole(e@.perm, 12);
        }
        e
    }
}

impl View for Edges {
    type V = CubieState;

    open spec fn view(&self) -> CubieState {
        CubieState {
            perm: Seq::new(12, |i: int| self.permutations[i].number()),
            ori: Seq::new(12, |i: int| self.orientations[i] as int),
        }
    }
}

/// A quarter turn moves the edges among the twelve positions, one to one.
#[verifier::rlimit(50)]
pub proof fn lemma_edge_from(f: Face)
    ensures
        forall|i: int| 0 <= i < 12 ==> 0 <= #[trigger] edge_from(f, i) < 12,
        forall|i: int, j: int|
            0 <= i < 12 && 0 <= j < 12 && i != j ==> edge_from(f, i) != edge_from(f, j),
        forall|i: int|
            0 <= i < 12 ==> edge_from(f, edge_from(f, edge_from(f, #[trigger] edge_from(f, i))))
                == i,
{
}

/// A quarter turn of a valid edge state gives a valid edge state.
pub proof fn lemma_turn_edges_valid(c: CubieState, f: Face)
    requires
        c.valid(12, 2),
    ensures
        turn_edges(c, f).valid(12, 2),
{
    let t = turn_edges(c, f);
    lemma_edge_from(f);
    assert forall|i: int, j: int| 0 <= i < 12 && 0 <= j < 12 && i != j implies t.perm[i]
        != t.perm[j] by {
        assert(edge_from(f, i) != edge_from(f, j));
    }
    assert forall|i: int| 0 <= i < 12 implies 0 <= #[trigger] t.perm[i] < 12 by {
        assert(0 <= edge_from(f, i) < 12);
    }
    lemma_pigeonhole(t.perm, 12);
    assert forall|i: int| 0 <= i < 12 implies 0 <= #[trigger] t.ori[i] < 2 by {
        assert(0 <= edge_from(f, i) < 12);
    }
}

/// Any number of quarter turns of a valid edge state gives a valid edge
/// state.
pub proof fn lemma_turn_edges_times_valid(c: CubieState, f: Face, t: nat)
    requires
        c.valid(12, 2),
    ensures
        turn_edges_times(c, f, t).valid(12, 2),
    decreases t,
{
    if t > 0 {
        lemma_turn_edges_times_valid(c, f, (t - 1) as nat);
        lemma_turn_edges_valid(turn_edges_times(c, f, (t - 1) as nat), f);
    }
}

/// Adding to each of twelve numbers, and reducing each sum modulo 2, leaves
/// the sum of the twelve even or odd as it was, where the additions sum to an
/// even number.
pub proof fn lemma_sum_of_flips(
    a0: int,
    a1: int,
    a2: int,
    a3: int,
    a4: int,
    a5: int,
    a6: int,
    a7: int,
    a8: int,
    a9: int,
    a10: int,
    a11: int,
    t0: int,
    t1: int,
    t2: int,
    t3: int,
    t4: int,
    t5: int,
    t6: int,
    t7: int,
    t8: int,
    t9: int,
    t10: int,
    t11: int,
)
    requires
        (t0 + t1 + t2 + t3 + t4 + t5 + t6 + t7 + t8 + t9 + t10 + t11) % 2 == 0,
    ensures
        ((a0 + t0) % 2 + (a1 + t1) % 2 + (a2 + t2) % 2 + (a3 + t3) % 2 + (a4 + t4) % 2 + (a5
            + t5) % 2 + (a6 + t6) % 2 + (a7 + t7) % 2 + (a8 + t8) % 2 + (a9 + t9) % 2 + (a10
            + t10) % 2 + (a11 + t11) % 2) % 2 == (a0 + a1 + a2 + a3 + a4 + a5 + a6 + a7 + a8 + a9
            + a10 + a11) % 2,
{
    lemma_add_reduced((a1 + t1) + (a2 + t2) + (a3 + t3) + (a4 + t4) + (a5 + t5) + (a6 + t6) + (a7
        + t7) + (a8 + t8) + (a9 + t9) + (a10 + t10) + (a11 + t11), a0 + t0, 2);
    assert(((a0 + t0) % 2 + (a1 + t1) + (a2 + t2) + (a3 + t3) + (a4 + t4) + (a5 + t5) + (a6 + t6)
        + (a7 + t7) + (a8 + t8) + (a9 + t9) + (a10 + t10) + (a11 + t11)) % 2 == ((a0 + t0) + (a1
        + t1) + (a2 + t2) + (a3 + t3) + (a4 + t4) + (a5 + t5) + (a6 + t6) + (a7 + t7) + (a8 + t8)
        + (a9 + t9) + (a10 + t10) + (a11 + t11)) % 2);
    lemma_add_reduced((a0 + t0) % 2 + (a2 + t2) + (a3 + t3) + (a4 + t4) + (a5 + t5) + (a6 + t6)
        + (a7 + t7) + (a8 + t8) + (a9 + t9) + (a10 + t10) + (a11 + t11), a1 + t1, 2);
    assert(((a0 + t0) % 2 + (a1 + t1) % 2 + (a2 + t2) + (a3 + t3) + (a4 + t4) + (a5 + t5) + (a6
        + t6) + (a7 + t7) + (a8 + t8) + (a9 + t9) + (a10 + t10) + (a11 + t11)) % 2 == ((a0 + t0)
        % 2 + (a1 + t1) + (a2 + t2) + (a3 + t3) + (a4 + t4) + (a5 + t5) + (a6 + t6) + (a7 + t7)
        + (a8 + t8) + (a9 + t9) + (a10 + t10) + (a11 + t11)) % 2);
    lemma_add_reduced((a0 + t0) % 2 + (a1 + t1) % 2 + (a3 + t3) + (a4 + t4) + (a5 + t5) + (a6
        + t6) + (a7 + t7) + (a8 + t8) + (a9 + t9) + (a10 + t10) + (a11 + t11), a2 + t2, 2);
    assert(((a0 + t0) % 2 + (a1 + t1) % 2 + (a2 + t2) % 2 + (a3 + t3) + (a4 + t4) + (a5 + t5)
        + (a6 + t6) + (a7 + t7) + (a8 + t8) + (a9 + t9) + (a10 + t10) + (a11 + t11)) % 2 == ((a0
        + t0) % 2 + (a1 + t1) % 2 + (a2 + t2) + (a3 + t3) + (a4 + t4) + (a5 + t5) + (a6 + t6)
        + (a7 + t7) + (a8 + t8) + (a9 + t9) + (a10 + t10) + (a11 + t11)) % 2);
    lemma_add_reduced((a0 + t0) % 2 + (a1 + t1) % 2 + (a2 + t2) % 2 + (a4 + t4) + (a5 + t5) + (a6
        + t6) + (a7 + t7) + (a8 + t8) + (a9 + t9) + (a10 + t10) + (a11 + t11), a3 + t3, 2);
    assert(((a0 + t0) % 2 + (a1 + t1) % 2 + (a2 + t2) % 2 + (a3 + t3) % 2 + (a4 + t4) + (a5 + t5)
        + (a6 + t6) + (a7 + t7) + (a8 + t8) + (a9 + t9) + (a10 + t10) + (a11 + t11)) % 2 == ((a0
        + t0) % 2 + (a1 + t1) % 2 + (a2 + t2) % 2 + (a3 + t3) + (a4 + t4) + (a5 + t5) + (a6 + t6)
        + (a7 + t7) + (a8 + t8) + (a9 + t9) + (a10 + t10) + (a11 + t11)) % 2);
    lemma_add_reduced((a0 + t0) % 2 + (a1 + t1) % 2 + (a2 + t2) % 2 + (a3 + t3) % 2 + (a5 + t5)
        + (a6 + t6) + (a7 + t7) + (a8 + t8) + (a9 + t9) + (a10 + t10) + (a11 + t11), a4 + t4, 2);
    assert(((a0 + t0) % 2 + (a1 + t1) % 2 + (a2 + t2) % 2 + (a3 + t3) % 2 + (a4 + t4) % 2 + (a5
        + t5) + (a6 + t6) + (a7 + t7) + (a8 + t8) + (a9 + t9) + (a10 + t10) + (a11 + t11)) % 2
        == ((a0 + t0) % 2 + (a1 + t1) % 2 + (a2 + t2) % 2 + (a3 + t3) % 2 + (a4 + t4) + (a5 + t5)
        + (a6 + t6) + (a7 + t7) + (a8 + t8) + (a9 + t9) + (a10 + t10) + (a11 + t11)) % 2);
    lemma_add_reduced((a0 + t0) % 2 + (a1 + t1) % 2 + (a2 + t2) % 2 + (a3 + t3) % 2 + (a4 + t4)
        % 2 + (a6 + t6) + (a7 + t7) + (a8 + t8) + (a9 + t9) + (a10 + t10) + (a11 + t11), a5 + t5,
        2);
    assert(((a0 + t0) % 2 + (a1 + t1) % 2 + (a2 + t2) % 2 + (a3 + t3) % 2 + (a4 + t4) % 2 + (a5
        + t5) % 2 + (a6 + t6) + (a7 + t7) + (a8 + t8) + (a9 + t9) + (a10 + t10) + (a11 + t11))
        % 2 == ((a0 + t0) % 2 + (a1 + t1) % 2 + (a2 + t2) % 2 + (a3 + t3) % 2 + (a4 + t4) % 2
        + (a5 + t5) + (a6 + t6) + (a7 + t7) + (a8 + t8) + (a9 + t9) + (a10 + t10) + (a11 + t11))
        % 2);
    lemma_add_reduced((a0 + t0) % 2 + (a1 + t1) % 2 + (a2 + t2) % 2 + (a3 + t3) % 2 + (a4 + t4)
        % 2 + (a5 + t5) % 2 + (a7 + t7) + (a8 + t8) + (a9 + t9) + (a10 + t10) + (a11 + t11), a6
        + t6, 2);
    assert(((a0 + t0) % 2 + (a1 + t1) % 2 + (a2 + t2) % 2 + (a3 + t3) % 2 + (a4 + t4) % 2 + (a5
        + t5) % 2 + (a6 + t6) % 2 + (a7 + t7) + (a8 + t8) + (a9 + t9) + (a10 + t10) + (a11
        + t11)) % 2 == ((a0 + t0) % 2 + (a1 + t1) % 2 + (a2 + t2) % 2 + (a3 + t3) % 2 + (a4 + t4)
        % 2 + (a5 + t5) % 2 + (a6 + t6) + (a7 + t7) + (a8 + t8) + (a9 + t9) + (a10 + t10) + (a11
        + t11)) % 2);
    lemma_add_reduced((a0 + t0) % 2 + (a1 + t1) % 2 + (a2 + t2) % 2 + (a3 + t3) % 2 + (a4 + t4)
        % 2 + (a5 + t5) % 2 + (a6 + t6) % 2 + (a8 + t8) + (a9 + t9) + (a10 + t10) + (a11 + t11),
        a7 + t7, 2);
    assert(((a0 + t0) % 2 + (a1 + t1) % 2 + (a2 + t2) % 2 + (a3 + t3) % 2 + (a4 + t4) % 2 + (a5
        + t5) % 2 + (a6 + t6) % 2 + (a7 + t7) % 2 + (a8 + t8) + (a9 + t9) + (a10 + t10) + (a11
        + t11)) % 2 == ((a0 + t0) % 2 + (a1 + t1) % 2 + (a2 + t2) % 2 + (a3 + t3) % 2 + (a4 + t4)
        % 2 + (a5 + t5) % 2 + (a6 + t6) % 2 + (a7 + t7) + (a8 + t8) + (a9 + t9) + (a10 + t10)
        + (a11 + t11)) % 2);
    lemma_add_reduced((a0 + t0) % 2 + (a1 + t1) % 2 + (a2 + t2) % 2 + (a3 + t3) % 2 + (a4 + t4)
        % 2 + (a5 + t5) % 2 + (a6 + t6) % 2 + (a7 + t7) % 2 + (a9 + t9) + (a10 + t10) + (a11
        + t11), a8 + t8, 2);
    assert(((a0 + t0) % 2 + (a1 + t1) % 2 + (a2 + t2) % 2 + (a3 + t3) % 2 + (a4 + t4) % 2 + (a5
        + t5) % 2 + (a6 + t6) % 2 + (a7 + t7) % 2 + (a8 + t8) % 2 + (a9 + t9) + (a10 + t10)
        + (a11 + t11)) % 2 == ((a0 + t0) % 2 + (a1 + t1) % 2 + (a2 + t2) % 2 + (a3 + t3) % 2
        + (a4 + t4) % 2 + (a5 + t5) % 2 + (a6 + t6) % 2 + (a7 + t7) % 2 + (a8 + t8) + (a9 + t9)
        + (a10 + t10) + (a11 + t11)) % 2);
    lemma_add_reduced((a0 + t0) % 2 + (a1 + t1) % 2 + (a2 + t2) % 2 + (a3 + t3) % 2 + (a4 + t4)
        % 2 + (a5 + t5) % 2 + (a6 + t6) % 2 + (a7 + t7) % 2 + (a8 + t8) % 2 + (a10 + t10) + (a11
        + t11), a9 + t9, 2);
    assert(((a0 + t0) % 2 + (a1 + t1) % 2 + (a2 + t2) % 2 + (a3 + t3) % 2 + (a4 + t4) % 2 + (a5
        + t5) % 2 + (a6 + t6) % 2 + (a7 + t7) % 2 + (a8 + t8) % 2 + (a9 + t9) % 2 + (a10 + t10)
        + (a11 + t11)) % 2 == ((a0 + t0) % 2 + (a1 + t1) % 2 + (a2 + t2) % 2 + (a3 + t3) % 2
        + (a4 + t4) % 2 + (a5 + t5) % 2 + (a6 + t6) % 2 + (a7 + t7) % 2 + (a8 + t8) % 2 + (a9
        + t9) + (a10 + t10) + (a11 + t11)) % 2);
    lemma_add_reduced((a0 + t0) % 2 + (a1 + t1) % 2 + (a2 + t2) % 2 + (a3 + t3) % 2 + (a4 + t4)
        % 2 + (a5 + t5) % 2 + (a6 + t6) % 2 + (a7 + t7) % 2 + (a8 + t8) % 2 + (a9 + t9) % 2
        + (a11 + t11), a10 + t10, 2);
    assert(((a0 + t0) % 2 + (a1 + t1) % 2 + (a2 + t2) % 2 + (a3 + t3) % 2 + (a4 + t4) % 2 + (a5
        + t5) % 2 + (a6 + t6) % 2 + (a7 + t7) % 2 + (a8 + t8) % 2 + (a9 + t9) % 2 + (a10 + t10)
        % 2 + (a11 + t11)) % 2 == ((a0 + t0) % 2 + (a1 + t1) % 2 + (a2 + t2) % 2 + (a3 + t3) % 2
        + (a4 + t4) % 2 + (a5 + t5) % 2 + (a6 + t6) % 2 + (a7 + t7) % 2 + (a8 + t8) % 2 + (a9
        + t9) % 2 + (a10 + t10) + (a11 + t11)) % 2);
    lemma_add_reduced((a0 + t0) % 2 + (a1 + t1) % 2 + (a2 + t2) % 2 + (a3 + t3) % 2 + (a4 + t4)
        % 2 + (a5 + t5) % 2 + (a6 + t6) % 2 + (a7 + t7) % 2 + (a8 + t8) % 2 + (a9 + t9) % 2
        + (a10 + t10) % 2, a11 + t11, 2);
    assert(((a0 + t0) % 2 + (a1 + t1) % 2 + (a2 + t2) % 2 + (a3 + t3) % 2 + (a4 + t4) % 2 + (a5
        + t5) % 2 + (a6 + t6) % 2 + (a7 + t7) % 2 + (a8 + t8) % 2 + (a9 + t9) % 2 + (a10 + t10)
        % 2 + (a11 + t11) % 2) % 2 == ((a0 + t0) % 2 + (a1 + t1) % 2 + (a2 + t2) % 2 + (a3 + t3)
        % 2 + (a4 + t4) % 2 + (a5 + t5) % 2 + (a6 + t6) % 2 + (a7 + t7) % 2 + (a8 + t8) % 2 + (a9
        + t9) % 2 + (a10 + t10) % 2 + (a11 + t11)) % 2);
    lemma_add_multiple(a0 + a1 + a2 + a3 + a4 + a5 + a6 + a7 + a8 + a9 + a10 + a11, t0 + t1 + t2
        + t3 + t4 + t5 + t6 + t7 + t8 + t9 + t10 + t11, 2);
}

/// A quarter turn leaves the sum of the edge flips as it is, modulo 2.
#[verifier::rlimit(50)]
pub proof fn lemma_turn_edges_flip_total(c: CubieState, f: Face)
    requires
        c.valid(12, 2),
    ensures
        flip_total(turn_edges(c, f).ori) % 2 == flip_total(c.ori) % 2,
{
    let t = turn_edges(c, f);
    match f {
        Face::U => {
            assert(t.ori[0] == (c.ori[3] + 0) % 2);
            assert(t.ori[1] == (c.ori[0] + 0) % 2);
            assert(t.ori[2] == (c.ori[1] + 0) % 2);
            assert(t.ori[3] == (c.ori[2] + 0) % 2);
            assert(t.ori[4] == (c.ori[4] + 0) % 2);
            assert(t.ori[5] == (c.ori[5] + 0) % 2);
            assert(t.ori[6] == (c.ori[6] + 0) % 2);
            assert(t.ori[7] == (c.ori[7] + 0) % 2);
            assert(t.ori[8] == (c.ori[8] + 0) % 2);
            assert(t.ori[9] == (c.ori[9] + 0) % 2);
            assert(t.ori[10] == (c.ori[10] + 0) % 2);
            assert(t.ori[11] == (c.ori[11] + 0) % 2);
            lemma_sum_of_flips(c.ori[3], c.ori[0], c.ori[1], c.ori[2], c.ori[4], c.ori[5],
                c.ori[6], c.ori[7], c.ori[8], c.ori[9], c.ori[10], c.ori[11], 0, 0, 0, 0, 0, 0, 0,
                0, 0, 0, 0, 0);
        },
        Face::R => {
            assert(t.ori[0] == (c.ori[8] + 0) % 2);
            assert(t.ori[1] == (c.ori[1] + 0) % 2);
            assert(t.ori[2] == (c.ori[2] + 0) % 2);
            assert(t.ori[3] == (c.ori[3] + 0) % 2);
            assert(t.ori[4] == (c.ori[11] + 0) % 2);
            assert(t.ori[5] == (c.ori[5] + 0) % 2);
            assert(t.ori[6] == (c.ori[6] + 0) % 2);
            assert(t.ori[7] == (c.ori[7] + 0) % 2);
            assert(t.ori[8] == (c.ori[4] + 0) % 2);
            assert(t.ori[9] == (c.ori[9] + 0) % 2);
            assert(t.ori[10] == (c.ori[10] + 0) % 2);
            assert(t.ori[11] == (c.ori[0] + 0) % 2);
            lemma_sum_of_flips(c.ori[8], c.ori[1], c.ori[2], c.ori[3], c.ori[11], c.ori[5],
                c.ori[6], c.ori[7], c.ori[4], c.ori[9], c.ori[10], c.ori[0], 0, 0, 0, 0, 0, 0, 0,
                0, 0, 0, 0, 0);
        },
        Face::F => {
            assert(t.ori[0] == (c.ori[0] + 0) % 2);
            assert(t.ori[1] == (c.ori[9] + 1) % 2);
            assert(t.ori[2] == (c.ori[2] + 0) % 2);
            assert(t.ori[3] == (c.ori[3] + 0) % 2);
            assert(t.ori[4] == (c.ori[4] + 0) % 2);
            assert(t.ori[5] == (c.ori[8] + 1) % 2);
            assert(t.ori[6] == (c.ori[6] + 0) % 2);
            assert(t.ori[7] == (c.ori[7] + 0) % 2);
            assert(t.ori[8] == (c.ori[1] + 1) % 2);
            assert(t.ori[9] == (c.ori[5] + 1) % 2);
            assert(t.ori[10] == (c.ori[10] + 0) % 2);
            assert(t.ori[11] == (c.ori[11] + 0) % 2);
            lemma_sum_of_flips(c.ori[0], c.ori[9], c.ori[2], c.ori[3], c.ori[4], c.ori[8],
                c.ori[6], c.ori[7], c.ori[1], c.ori[5], c.ori[10], c.ori[11], 0, 1, 0, 0, 0, 1, 0,
                0, 1, 1, 0, 0);
        },
        Face::D => {
            assert(t.ori[0] == (c.ori[0] + 0) % 2);
            assert(t.ori[1] == (c.ori[1] + 0) % 2);
            assert(t.ori[2] == (c.ori[2] + 0) % 2);
            assert(t.ori[3] == (c.ori[3] + 0) % 2);
            assert(t.ori[4] == (c.ori[5] + 0) % 2);
            assert(t.ori[5] == (c.ori[6] + 0) % 2);
            assert(t.ori[6] == (c.ori[7] + 0) % 2);
            assert(t.ori[7] == (c.ori[4] + 0) % 2);
            assert(t.ori[8] == (c.ori[8] + 0) % 2);
            assert(t.ori[9] == (c.ori[9] + 0) % 2);
            assert(t.ori[10] == (c.ori[10] + 0) % 2);
            assert(t.ori[11] == (c.ori[11] + 0) % 2);
            lemma_sum_of_flips(c.ori[0], c.ori[1], c.ori[2], c.ori[3], c.ori[5], c.ori[6],
                c.ori[7], c.ori[4], c.ori[8], c.ori[9], c.ori[10], c.ori[11], 0, 0, 0, 0, 0, 0, 0,
                0, 0, 0, 0, 0);
        },
        Face::L => {
            assert(t.ori[0] == (c.ori[0] + 0) % 2);
            assert(t.ori[1] == (c.ori[1] + 0) % 2);
            assert(t.ori[2] == (c.ori[10] + 0) % 2);
            assert(t.ori[3] == (c.ori[3] + 0) % 2);
            assert(t.ori[4] == (c.ori[4] + 0) % 2);
            assert(t.ori[5] == (c.ori[5] + 0) % 2);
            assert(t.ori[6] == (c.ori[9] + 0) % 2);
            assert(t.ori[7] == (c.ori[7] + 0) % 2);
            assert(t.ori[8] == (c.ori[8] + 0) % 2);
            assert(t.ori[9] == (c.ori[2] + 0) % 2);
            assert(t.ori[10] == (c.ori[6] + 0) % 2);
            assert(t.ori[11] == (c.ori[11] + 0) % 2);
            lemma_sum_of_flips(c.ori[0], c.ori[1], c.ori[10], c.ori[3], c.ori[4], c.ori[5],
                c.ori[9], c.ori[7], c.ori[8], c.ori[2], c.ori[6], c.ori[11], 0, 0, 0, 0, 0, 0, 0,
                0, 0, 0, 0, 0);
        },
        Face::B => {
            assert(t.ori[0] == (c.ori[0] + 0) % 2);
            assert(t.ori[1] == (c.ori[1] + 0) % 2);
            assert(t.ori[2] == (c.ori[2] + 0) % 2);
            assert(t.ori[3] == (c.ori[11] + 1) % 2);
            assert(t.ori[4] == (c.ori[4] + 0) % 2);
            assert(t.ori[5] == (c.ori[5] + 0) % 2);
            assert(t.ori[6] == (c.ori[6] + 0) % 2);
            assert(t.ori[7] == (c.ori[10] + 1) % 2);
            assert(t.ori[8] == (c.ori[8] + 0) % 2);
            assert(t.ori[9] == (c.ori[9] + 0) % 2);
            assert(t.ori[10] == (c.ori[3] + 1) % 2);
            assert(t.ori[11] == (c.ori[7] + 1) % 2);
            lemma_sum_of_flips(c.ori[0], c.ori[1], c.ori[2], c.ori[11], c.ori[4], c.ori[5],
                c.ori[6], c.ori[10], c.ori[8], c.ori[9], c.ori[3], c.ori[7], 0, 0, 0, 1, 0, 0, 0,
                1, 0, 0, 1, 1);
        },
    }
}

/// Four quarter turns of one face bring a position back to itself, and what
/// they add to the turning of its cubie sums to a multiple of 2.
#[verifier::rlimit(50)]
pub proof fn lemma_edge_cycle(f: Face, i: int)
    requires
        0 <= i < 12,
    ensures
        0 <= edge_from(f, i) < 12,
        0 <= edge_from(f, edge_from(f, i)) < 12,
        0 <= edge_from(f, edge_from(f, edge_from(f, i))) < 12,
        edge_from(f, edge_from(f, edge_from(f, edge_from(f, i)))) == i,
        0 <= edge_flip(f, i) < 2,
        (edge_flip(f, i) + edge_flip(f, edge_from(f, i)) + edge_flip(f, edge_from(f, edge_from(f,
            i))) + edge_flip(
            f,
            edge_from(f, edge_from(f, edge_from(f, i))),
        )) % 2 == 0,
{
    match f {
        Face::U => {},
        Face::R => {},
        Face::F => {},
        Face::D => {},
        Face::L => {},
        Face::B => {},
    }
}

/// Additions that sum to a multiple of the modulus, each followed by a
/// reduction, bring a reduced number back to itself.
pub proof fn lemma_edge_four_additions(o: int, a: int, b: int, c: int, d: int)
    requires
        0 <= o < 2,
        (a + b + c + d) % 2 == 0,
    ensures
        ((((o + a) % 2 + b) % 2 + c) % 2 + d) % 2 == o,
{
    lemma_add_reduced(b, o + a, 2);
    lemma_add_reduced(c, o + a + b, 2);
    lemma_add_reduced(d, o + a + b + c, 2);
    lemma_add_multiple(o, a + b + c + d, 2);
}

/// Four quarter turns of one face bring every edge back.
pub proof fn lemma_four_edge_turns(c: CubieState, f: Face)
    requires
        c.valid(12, 2),
    ensures
        turn_edges_times(c, f, 4) == c,
{
    let c1 = turn_edges(c, f);
    let c2 = turn_edges(c1, f);
    let c3 = turn_edges(c2, f);
    let c4 = turn_edges(c3, f);
    assert(turn_edges_times(c, f, 0) == c);
    assert(turn_edges_times(c, f, 1) == c1);
    assert(turn_edges_times(c, f, 2) == c2);
    assert(turn_edges_times(c, f, 3) == c3);
    assert(turn_edges_times(c, f, 4) == c4);
    assert forall|i: int| 0 <= i < 12 implies c4.perm[i] == c.perm[i] && c4.ori[i] == c.ori[i] by {
        let i1 = edge_from(f, i);
        let i2 = edge_from(f, i1);
        let i3 = edge_from(f, i2);
        lemma_edge_cycle(f, i);
        assert(0 <= c.ori[i] < 2);
        assert(c1.ori[i3] == (c.ori[i] + edge_flip(f, i3)) % 2);
        assert(c2.ori[i2] == (c1.ori[i3] + edge_flip(f, i2)) % 2);
        assert(c3.ori[i1] == (c2.ori[i2] + edge_flip(f, i1)) % 2);
        assert(c4.ori[i] == (c3.ori[i1] + edge_flip(f, i)) % 2);
        lemma_edge_four_additions(
            c.ori[i],
            edge_flip(f, i3),
            edge_flip(f, i2),
            edge_flip(f, i1),
            edge_flip(f, i),
        );
    }
    assert(c4.perm =~= c.perm);
    assert(c4.ori =~= c.ori);
}

/// The flips that `flip_unrank` gives have the coordinate they were made
/// from, lie in range, and sum to an even number.
pub proof fn lemma_flip_unrank(x: int)
    requires
        0 <= x < NB_FLIP,
    ensures
        flip_unrank(x).len() == 12,
        forall|i: int| 0 <= i < 12 ==> 0 <= #[trigger] flip_unrank(x)[i] < 2,
        flip_rank(flip_unrank(x)) == x,
        flip_total(flip_unrank(x)) % 2 == 0,
{
}

/// Flips in range that sum to an even number are the ones that `flip_unrank`
/// gives for their coordinate, which is below `2^11`.
pub proof fn lemma_flip_rank(ori: Seq<int>)
    requires
        ori.len() == 12,
        forall|i: int| 0 <= i < 12 ==> 0 <= #[trigger] ori[i] < 2,
        flip_total(ori) % 2 == 0,
    ensures
        0 <= flip_rank(ori) < NB_FLIP,
        flip_unrank(flip_rank(ori)) == ori,
{
    assert(0 <= ori[0] < 2 && 0 <= ori[1] < 2 && 0 <= ori[2] < 2 && 0 <= ori[3] < 2
        && 0 <= ori[4] < 2 && 0 <= ori[5] < 2 && 0 <= ori[6] < 2 && 0 <= ori[7] < 2
        && 0 <= ori[8] < 2 && 0 <= ori[9] < 2 && 0 <= ori[10] < 2 && 0 <= ori[11] < 2);
    let x0 = ori[0];
    let x1 = x0 * 2 + ori[1];
    let x2 = x1 * 2 + ori[2];
    let x3 = x2 * 2 + ori[3];
    let x4 = x3 * 2 + ori[4];
    let x5 = x4 * 2 + ori[5];
    let x6 = x5 * 2 + ori[6];
    let x7 = x6 * 2 + ori[7];
    let x8 = x7 * 2 + ori[8];
    let x9 = x8 * 2 + ori[9];
    let x10 = x9 * 2 + ori[10];
    assert(x10 == flip_rank(ori));
    assert(x10 / 2 == x9 && x10 % 2 == ori[10]);
    assert(x9 / 2 == x8 && x9 % 2 == ori[9]);
    assert(x8 / 2 == x7 && x8 % 2 == ori[8]);
    assert(x7 / 2 == x6 && x7 % 2 == ori[7]);
    assert(x6 / 2 == x5 && x6 % 2 == ori[6]);
    assert(x5 / 2 == x4 && x5 % 2 == ori[5]);
    assert(x4 / 2 == x3 && x4 % 2 == ori[4]);
    assert(x3 / 2 == x2 && x3 % 2 == ori[3]);
    assert(x2 / 2 == x1 && x2 % 2 == ori[2]);
    assert(x1 / 2 == x0 && x1 % 2 == ori[1]);
    assert(x0 % 2 == ori[0]);
    let u = flip_unrank(x10);
    assert(u[0] == ori[0] && u[1] == ori[1] && u[2] == ori[2] && u[3] == ori[3] && u[4]
        == ori[4] && u[5] == ori[5] && u[6] == ori[6] && u[7] == ori[7] && u[8] == ori[8]
        && u[9] == ori[9] && u[10] == ori[10]);
    assert(u[11] == ori[11]);
    assert(u =~= ori);
}

impl Edges {
    /// Twelve different cubies, each flip 0 or 1.
    pub open spec fn wf(&self) -> bool {
        self@.valid(12, 2)
    }

    /// The solved edges.
    pub fn new() -> (e: Edges)
        ensures
            e@ == CubieState::solved(12),
            e.wf(),
    {
        Edges::default()
    }

    /// Whether the cubies are 12 different ones and each is turned by less
    /// than 2.
    pub fn is_well_formed(&self) -> (b: bool)
        ensures
            b == self.wf(),
    {
        let mut i: usize = 0;
        while i < 12
            invariant
                i <= 12,
                forall|j: int| 0 <= j < i ==> 0 <= #[trigger] self@.ori[j] < 2,
            decreases 12 - i,
        {
            if self.orientations[i] >= 2 {
                assert(!(0 <= self@.ori[i as int] < 2));
                return false;
            }
            i += 1;
        }
        let mut seen: [bool; 12] = [false; 12];
        let mut i: usize = 0;
        while i < 12
            invariant
                i <= 12,
                forall|j: int, k: int| 0 <= j < k < i ==> self@.perm[j] != self@.perm[k],
                forall|v: int|
                    0 <= v < 12 ==> (#[trigger] seen@[v] <==> exists|j: int|
                        0 <= j < i && self@.perm[j] == v),
            decreases 12 - i,
        {
            let v = self.permutations[i].index() as usize;
            assert(self@.perm[i as int] == v);
            if seen[v] {
                proof {
                    let j = choose|j: int| 0 <= j < i && self@.perm[j] == v;
                    assert(self@.perm[j] == self@.perm[i as int]);
                    assert(!self@.perm.no_duplicates());
                }
                return false;
            }
            let ghost before = seen@;
            seen[v] = true;
            assert forall|w: int| 0 <= w < 12 implies (#[trigger] seen@[w] <==> exists|j: int|
                0 <= j < i + 1 && self@.perm[j] == w) by {
                if w == v {
                    assert(self@.perm[i as int] == w);
                } else {
                    assert(seen@[w] == before[w]);
                    if before[w] {
                        let j = choose|j: int| 0 <= j < i && self@.perm[j] == w;
                        assert(0 <= j < i + 1 && self@.perm[j] == w);
                    }
                    if exists|j: int| 0 <= j < i + 1 && self@.perm[j] == w {
                        let j = choose|j: int| 0 <= j < i + 1 && self@.perm[j] == w;
                        assert(j != i);
                        assert(0 <= j < i && self@.perm[j] == w);
                    }
                }
            }
            i += 1;
        }
        proof {
            assert(self@.perm.no_duplicates());
            lemma_pigeonhole(self@.perm, 12);
        }
        true
    }

    /// Whether every edge sits at its own position, not flipped.
    pub fn is_solved(&self) -> (b: bool)
        ensures
            b == (self@ == CubieState::solved(12)),
    {
        let mut i: usize = 0;
        while i < 12
            invariant
                i <= 12,
                forall|j: int| 0 <= j < i ==> self@.perm[j] == j && self@.ori[j] == 0,
            decreases 12 - i,
        {
            if self.permutations[i].index() != i as u8 || self.orientations[i] != 0 {
                assert(self@.perm[i as int] != CubieState::solved(12).perm[i as int]
                    || self@.ori[i as int] != CubieState::solved(12).ori[i as int]);
                return false;
            }
            i += 1;
        }
        assert(self@.perm =~= CubieState::solved(12).perm);
        assert(self@.ori =~= CubieState::solved(12).ori);
        true
    }

    /// The numbers of the cubies, position by position.
    pub fn numbers(&self) -> (v: Vec<u8>)
        ensures
            as_ints(v@) == self@.perm,
            v@.len() == 12,
            forall|i: int| 0 <= i < 12 ==> v@[i] < 12,
    {
        let mut v: Vec<u8> = Vec::new();
        let mut i: usize = 0;
        while i < 12
            invariant
                i <= 12,
                v@.len() == i,
                forall|j: int| 0 <= j < i ==> v@[j] as int == self@.perm[j] && v@[j] < 12,
            decreases 12 - i,
        {
            v.push(self.permutations[i].index());
            i += 1;
        }
        assert(as_ints(v@) =~= self@.perm);
        v
    }

    /// Puts the cubies with the given numbers at the positions, and leaves
    /// the flips as they are.
    pub fn set_numbers(&mut self, numbers: &Vec<u8>)
        requires
            old(self).wf(),
            numbers@.len() == 12,
            is_arrangement(as_ints(numbers@), 12),
        ensures
            final(self)@.perm == as_ints(numbers@),
            final(self)@.ori == old(self)@.ori,
            final(self).wf(),
    {
        assert forall|i: int| 0 <= i < 12 implies numbers@[i] < 12 by {
            assert(0 <= as_ints(numbers@)[i] < 12);
        }
        let mut perm = self.permutations;
        let mut i: usize = 0;
        while i < 12
            invariant
                i <= 12,
                numbers@.len() == 12,
                forall|j: int| 0 <= j < 12 ==> numbers@[j] < 12,
                forall|j: int| 0 <= j < i ==> perm@[j].number() == numbers@[j],
            decreases 12 - i,
        {
            perm[i] = Edge::from_index(numbers[i]);
            i += 1;
        }
        self.permutations = perm;
        assert(self@.perm =~= as_ints(numbers@));
        assert(self@.ori =~= old(self)@.ori);
        assert forall|i: int| 0 <= i < 12 implies 0 <= #[trigger] self@.ori[i] < 2 by {
            assert(self@.ori[i] == old(self)@.ori[i]);
        }
    }

    /// One clockwise quarter turn of the face `f`.
    pub fn turn(&mut self, f: Face)
        requires
            old(self).wf(),
        ensures
            final(self)@ == turn_edges(old(self)@, f),
            final(self).wf(),
            flip_total(final(self)@.ori) % 2 == flip_total(old(self)@.ori) % 2,
    {
        let from_perm = self.permutations;
        let from_ori = self.orientations;
        let mut perm = self.permutations;
        let mut ori = self.orientations;
        let mut i: usize = 0;
        while i < 12
            invariant
                i <= 12,
                old(self).wf(),
                from_perm == old(self).permutations,
                from_ori == old(self).orientations,
                forall|j: int|
                    0 <= j < i ==> perm@[j] == from_perm@[edge_from(f, j)] && ori@[j] as int == (
                    from_ori@[edge_from(f, j)] + edge_flip(f, j)) % 2,
            decreases 12 - i,
        {
            let s = edge_source(f, i) as usize;
            assert(0 <= old(self)@.ori[s as int] < 2);
            perm[i] = from_perm[s];
            ori[i] = (from_ori[s] + edge_turn(f, i)) % 2;
            i += 1;
        }
        self.permutations = perm;
        self.orientations = ori;
        proof {
            assert(self@.perm =~= turn_edges(old(self)@, f).perm);
            assert(self@.ori =~= turn_edges(old(self)@, f).ori);
            lemma_turn_edges_valid(old(self)@, f);
            lemma_turn_edges_flip_total(old(self)@, f);
        }
    }

    /// `t` clockwise quarter turns of the face `f`.
    pub fn turn_times(&mut self, f: Face, t: usize)
        requires
            old(self).wf(),
        ensures
            final(self)@ == turn_edges_times(old(self)@, f, t as nat),
            final(self).wf(),
            flip_total(final(self)@.ori) % 2 == flip_total(old(self)@.ori) % 2,
    {
        let mut i: usize = 0;
        while i < t
            invariant
                i <= t,
                self.wf(),
                self@ == turn_edges_times(old(self)@, f, i as nat),
                flip_total(self@.ori) % 2 == flip_total(old(self)@.ori) % 2,
            decreases t - i,
        {
            self.turn(f);
            i += 1;
        }
    }

    /// A quarter turn of one face in either direction; the counterclockwise
    /// turn is done as three clockwise ones.
    pub fn apply_move(&mut self, m: CubeMove)
        requires
            old(self).wf(),
        ensures
            final(self)@ == turn_edges_times(old(self)@, m.face_spec(), m.turns_spec()),
            final(self).wf(),
            flip_total(final(self)@.ori) % 2 == flip_total(old(self)@.ori) % 2,
    {
        self.turn_times(m.face(), m.turns());
    }

    /// One of the 18 face turns, on the edges alone.
    pub fn multiply(&mut self, m: Move)
        requires
            old(self).wf(),
        ensures
            final(self)@ == move_edges(old(self)@, m),
            final(self).wf(),
            flip_total(final(self)@.ori) % 2 == flip_total(old(self)@.ori) % 2,
    {
        self.turn_times(m.face(), m.turns());
    }

    /// The flip coordinate.
    pub fn flip(&self) -> (x: u32)
        requires
            self.wf(),
        ensures
            x == flip_rank(self@.ori),
            x < NB_FLIP,
    {
        let ghost ori = self@.ori;
        assert(0 <= ori[0] < 2 && 0 <= ori[1] < 2 && 0 <= ori[2] < 2 && 0 <= ori[3] < 2
            && 0 <= ori[4] < 2 && 0 <= ori[5] < 2 && 0 <= ori[6] < 2 && 0 <= ori[7] < 2
            && 0 <= ori[8] < 2 && 0 <= ori[9] < 2 && 0 <= ori[10] < 2 && 0 <= ori[11] < 2);
        let o0 = self.orientations[0] as u32;
        let o1 = self.orientations[1] as u32;
        let o2 = self.orientations[2] as u32;
        let o3 = self.orientations[3] as u32;
        let o4 = self.orientations[4] as u32;
        let o5 = self.orientations[5] as u32;
        let o6 = self.orientations[6] as u32;
        let o7 = self.orientations[7] as u32;
        let o8 = self.orientations[8] as u32;
        let o9 = self.orientations[9] as u32;
        let o10 = self.orientations[10] as u32;
        (((((((((o0 * 2 + o1) * 2 + o2) * 2 + o3) * 2 + o4) * 2 + o5) * 2 + o6) * 2 + o7) * 2
            + o8) * 2 + o9) * 2 + o10
    }

    /// Flips the edges so that the flip coordinate is `x`, and leaves them
    /// where they are.
    pub fn set_flip(&mut self, x: u32)
        requires
            old(self).wf(),
            x < NB_FLIP,
        ensures
            final(self)@.perm == old(self)@.perm,
            final(self)@.ori == flip_unrank(x as int),
            final(self).wf(),
            flip_rank(final(self)@.ori) == x,
            flip_total(final(self)@.ori) % 2 == 0,
    {
        let d10 = (x % 2) as u8;
        let x9 = x / 2;
        let d9 = (x9 % 2) as u8;
        let x8 = x9 / 2;
        let d8 = (x8 % 2) as u8;
        let x7 = x8 / 2;
        let d7 = (x7 % 2) as u8;
        let x6 = x7 / 2;
        let d6 = (x6 % 2) as u8;
        let x5 = x6 / 2;
        let d5 = (x5 % 2) as u8;
        let x4 = x5 / 2;
        let d4 = (x4 % 2) as u8;
        let x3 = x4 / 2;
        let d3 = (x3 % 2) as u8;
        let x2 = x3 / 2;
        let d2 = (x2 % 2) as u8;
        let x1 = x2 / 2;
        let d1 = (x1 % 2) as u8;
        let x0 = x1 / 2;
        let d0 = (x0 % 2) as u8;
        let d11 = (2 - (d0 + d1 + d2 + d3 + d4 + d5 + d6 + d7 + d8 + d9 + d10) % 2) % 2;
        self.orientations = [d0, d1, d2, d3, d4, d5, d6, d7, d8, d9, d10, d11];
        proof {
            lemma_flip_unrank(x as int);
            assert(self@.perm =~= old(self)@.perm);
            assert(self@.ori =~= flip_unrank(x as int));
        }
    }

    /// The coordinate of `k` edges: see `edge_rank`.
    pub fn rank(&self, base: u8, k: u8, mirror: bool) -> (x: u32)
        requires
            self.wf(),
            k <= 6,
            base + k <= 12,
        ensures
            x == edge_rank(self@.perm, base as int, k as nat, mirror),
            x < crate::ranking::arrangement_count(12, k as nat),
    {
        let numbers = self.numbers();
        let seen = if mirror {
            mirror_of(&numbers)
        } else {
            numbers
        };
        proof {
            if mirror {
                lemma_mirrored(self@.perm, 12);
            }
            lemma_slots_of(as_ints(seen@), 12, base as int, k as nat);
        }
        let slots = slots_from(&seen, base, k);
        arrangement_rank_of(&slots, k as usize)
    }

    /// Puts the edges so that the coordinate of `k` of them is `x`: see
    /// `edge_unrank`. The flips stay as they are.
    pub fn place(&mut self, x: u32, base: u8, k: u8, mirror: bool)
        requires
            old(self).wf(),
            k <= 6,
            base + k <= 12,
            x < crate::ranking::arrangement_count(12, k as nat),
        ensures
            final(self)@.perm == edge_unrank(x as nat, base as int, k as nat, mirror),
            final(self)@.ori == old(self)@.ori,
            final(self).wf(),
            edge_rank(final(self)@.perm, base as int, k as nat, mirror) == x,
    {
        proof {
            lemma_unrank_then_rank(12, k as nat, x as nat);
            lemma_complete(arrangement_unrank(12, k as nat, x as nat), 12, base as int, k as nat);
            lemma_mirrored(complete(arrangement_unrank(12, k as nat, x as nat), base as int,
                k as nat), 12);
        }
        let slots = arrangement_unrank_of(12, k as usize, x);
        let filled = complete_from(&slots, base, k);
        assert forall|i: int| 0 <= i < 12 implies filled@[i] < 12 by {
            assert(0 <= as_ints(filled@)[i] < 12);
        }
        let numbers = if mirror {
            mirror_of(&filled)
        } else {
            filled
        };
        self.set_numbers(&numbers);
    }

    /// The coordinate of the four middle-slice edges FR to BR.
    pub fn fr_to_br(&self) -> (x: u32)
        requires
            self.wf(),
        ensures
            x == fr_to_br_rank(self@.perm),
            x < NB_FR_TO_BR,
    {
        proof {
            lemma_pascal_rows();
            lemma_factorials();
        }
        self.rank(0, 4, true)
    }

    /// Puts the edges so that the coordinate of FR to BR is `x`.
    pub fn set_fr_to_br(&mut self, x: u32)
        requires
            old(self).wf(),
            x < NB_FR_TO_BR,
        ensures
            final(self)@.perm == fr_to_br_unrank(x as nat),
            final(self)@.ori == old(self)@.ori,
            final(self).wf(),
            fr_to_br_rank(final(self)@.perm) == x,
    {
        proof {
            lemma_pascal_rows();
            lemma_factorials();
        }
        self.place(x, 0, 4, true);
    }

    /// The coordinate of the three edges UR to UL.
    pub fn ur_to_ul(&self) -> (x: u32)
        requires
            self.wf(),
        ensures
            x == ur_to_ul_rank(self@.perm),
            x < NB_UR_TO_UL,
    {
        proof {
            lemma_pascal_rows();
            lemma_factorials();
        }
        self.rank(0, 3, false)
    }

    /// Puts the edges so that the coordinate of UR to UL is `x`.
    pub fn set_ur_to_ul(&mut self, x: u32)
        requires
            old(self).wf(),
            x < NB_UR_TO_UL,
        ensures
            final(self)@.perm == ur_to_ul_unrank(x as nat),
            final(self)@.ori == old(self)@.ori,
            final(self).wf(),
            ur_to_ul_rank(final(self)@.perm) == x,
    {
        proof {
            lemma_pascal_rows();
            lemma_factorials();
        }
        self.place(x, 0, 3, false);
    }

    /// The coordinate of the three edges UB to DF.
    pub fn ub_to_df(&self) -> (x: u32)
        requires
            self.wf(),
        ensures
            x == ub_to_df_rank(self@.perm),
            x < NB_UB_TO_DF,
    {
        proof {
            lemma_pascal_rows();
            lemma_factorials();
        }
        self.rank(3, 3, false)
    }

    /// Puts the edges so that the coordinate of UB to DF is `x`.
    pub fn set_ub_to_df(&mut self, x: u32)
        requires
            old(self).wf(),
            x < NB_UB_TO_DF,
        ensures
            final(self)@.perm == ub_to_df_unrank(x as nat),
            final(self)@.ori == old(self)@.ori,
            final(self).wf(),
            ub_to_df_rank(final(self)@.perm) == x,
    {
        proof {
            lemma_pascal_rows();
            lemma_factorials();
        }
        self.place(x, 3, 3, false);
    }

    /// The coordinate of the six edges UR to DF. It is below 20160 exactly
    /// where the six sit outside the middle slice.
    pub fn ur_to_df(&self) -> (x: u32)
        requires
            self.wf(),
        ensures
            x == ur_to_df_rank(self@.perm),
            x < NB_UR_TO_DF_ANYWHERE,
    {
        proof {
            lemma_pascal_rows();
            lemma_factorials();
        }
        self.rank(0, 6, false)
    }

    /// Puts the edges so that the coordinate of UR to DF is `x`.
    pub fn set_ur_to_df(&mut self, x: u32)
        requires
            old(self).wf(),
            x < NB_UR_TO_DF_ANYWHERE,
        ensures
            final(self)@.perm == ur_to_df_unrank(x as nat),
            final(self)@.ori == old(self)@.ori,
            final(self).wf(),
            ur_to_df_rank(final(self)@.perm) == x,
    {
        proof {
            lemma_pascal_rows();
            lemma_factorials();
        }
        self.place(x, 0, 6, false);
    }
}

/// Turning `a` times and then `b` times is turning `a + b` times.
pub proof fn lemma_turn_edges_times_add(c: CubieState, f: Face, a: nat, b: nat)
    ensures
        turn_edges_times(turn_edges_times(c, f, a), f, b) == turn_edges_times(c, f, a + b),
    decreases b,
{
    if b > 0 {
        lemma_turn_edges_times_add(c, f, a, (b - 1) as nat);
    }
}

/// Any number of quarter turns leaves the sum of the edge flips as it is,
/// modulo 2.
pub proof fn lemma_turn_edges_times_flip_total(c: CubieState, f: Face, t: nat)
    requires
        c.valid(12, 2),
    ensures
        flip_total(turn_edges_times(c, f, t).ori) % 2 == flip_total(c.ori) % 2,
    decreases t,
{
    if t > 0 {
        lemma_turn_edges_times_flip_total(c, f, (t - 1) as nat);
        lemma_turn_edges_times_valid(c, f, (t - 1) as nat);
        lemma_turn_edges_flip_total(turn_edges_times(c, f, (t - 1) as nat), f);
    }
}

/// A move and then the move that undoes it leave the edges as they were.
pub proof fn lemma_move_edges_back(c: CubieState, m: Move)
    requires
        c.valid(12, 2),
    ensures
        move_edges(move_edges(c, m), m.inverse_spec()) == c,
{
    lemma_turn_edges_times_add(c, m.face_spec(), m.turns_spec(), m.inverse_spec().turns_spec());
    lemma_four_edge_turns(c, m.face_spec());
}

/// The position from which `t` clockwise quarter turns of `f` bring an edge
/// cubie to position `i`.
pub open spec fn edge_from_times(f: Face, i: int, t: nat) -> int
    decreases t,
{
    if t == 0 {
        i
    } else {
        edge_from_times(f, edge_from(f, i), (t - 1) as nat)
    }
}

/// After `t` quarter turns the cubie at a position is the one that was at the
/// position that the turns bring there.
pub proof fn lemma_turn_edges_times_perm(c: CubieState, f: Face, t: nat, i: int)
    requires
        0 <= i < 12,
    ensures
        0 <= edge_from_times(f, i, t) < 12,
        turn_edges_times(c, f, t).perm.len() == if t == 0 {
            c.perm.len()
        } else {
            12
        },
        turn_edges_times(c, f, t).perm[i] == c.perm[edge_from_times(f, i, t)],
    decreases t,
{
    lemma_edge_from(f);
    if t > 0 {
        lemma_turn_edges_times_perm(c, f, (t - 1) as nat, edge_from(f, i));
    }
}

/// A slice-keeping move brings to a position outside the middle slice a
/// cubie from outside the middle slice, and to a position in it one from it.
#[verifier::rlimit(50)]
pub proof fn lemma_keeps_slice_positions(m: Move, i: int)
    requires
        m.keeps_slice_spec(),
        0 <= i < 12,
    ensures
        0 <= edge_from_times(m.face_spec(), i, m.turns_spec()) < 12,
        edge_from_times(m.face_spec(), i, m.turns_spec()) < 8 <==> i < 8,
{
    let f = m.face_spec();
    let i1 = edge_from(f, i);
    let i2 = edge_from(f, i1);
    let i3 = edge_from(f, i2);
    assert(edge_from_times(f, i1, 0) == i1);
    assert(edge_from_times(f, i2, 0) == i2);
    assert(edge_from_times(f, i3, 0) == i3);
    assert(edge_from_times(f, i, 1) == i1);
    assert(edge_from_times(f, i1, 1) == i2);
    assert(edge_from_times(f, i2, 1) == i3);
    assert(edge_from_times(f, i, 2) == i2);
    assert(edge_from_times(f, i1, 2) == i3);
    assert(edge_from_times(f, i, 3) == i3);
}

/// How the cubies are flipped after a quarter turn depends only on how they
/// were flipped.
pub proof fn lemma_turn_edges_ori(c: CubieState, d: CubieState, f: Face, t: nat)
    requires
        c.ori == d.ori,
    ensures
        turn_edges_times(c, f, t).ori == turn_edges_times(d, f, t).ori,
    decreases t,
{
    if t > 0 {
        lemma_turn_edges_ori(c, d, f, (t - 1) as nat);
    }
}

} // verus!
